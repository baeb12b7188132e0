//! The codec's round-trip laws: decoding a frame of the wire shape yields
//! exactly the message it encodes, for every constructible message.

use vstd::prelude::*;

use crate::codec::{
    digit_val, hex_val, is_digit_char, is_hex_char, is_plain_char, is_ws_char, spec_decode,
    spec_digit_char, spec_digits_of, spec_digits_value, spec_encode_recv, spec_encode_send,
    spec_escape, spec_escape_char, spec_hex_char, spec_lookup, spec_parse_member, spec_parse_members,
    spec_parse_number, spec_parse_object, spec_parse_string_body, spec_quoted, spec_scan_digits,
    spec_skip_ws, FieldView,
};
use crate::messages::{RecvMessageView, SendMessageView};

verus! {

// ---------------------------------------------------------------------------
// Escaping
// ---------------------------------------------------------------------------

/// Every digit stands for the value it was drawn from.
proof fn lemma_digit_char_val(d: int)
    requires
        0 <= d < 10,
    ensures
        is_digit_char(spec_digit_char(d)),
        digit_val(spec_digit_char(d)) == d,
{
}

/// Every hex digit stands for the value it was drawn from.
proof fn lemma_hex_char_val(d: int)
    requires
        0 <= d < 16,
    ensures
        is_hex_char(spec_hex_char(d)),
        hex_val(spec_hex_char(d)) == d,
{
}

/// Text without characters that need escaping escapes to itself.
proof fn lemma_escape_plain(s: Seq<char>)
    requires
        forall|t: int| 0 <= t < s.len() ==> is_plain_char(s[t]),
    ensures
        spec_escape(s) == s,
    decreases s.len(),
{
    if s.len() == 0 {
        assert(spec_escape(s) =~= s);
    } else {
        assert(is_plain_char(s[0]));
        lemma_escape_plain(s.drop_first());
        assert(spec_escape(s) =~= s);
    }
}

// ---------------------------------------------------------------------------
// The string parser inverts the escaper
// ---------------------------------------------------------------------------

/// Reading a quoted string's inside off the escape of `text` followed by the
/// closing quote yields `text` back, whatever comes after.
proof fn lemma_parse_string_at(s: Seq<char>, i: int, text: Seq<char>, j: int)
    requires
        0 <= i,
        j == i + spec_escape(text).len(),
        j < s.len(),
        s.subrange(i, j) == spec_escape(text),
        s[j] == '"',
    ensures
        spec_parse_string_body(s, i) == Some::<(Seq<char>, int)>((text, j + 1)),
    decreases text.len(),
{
    if text.len() == 0 {
        assert(spec_escape(text).len() == 0);
        assert(j == i);
        assert(spec_parse_string_body(s, i) == Some::<(Seq<char>, int)>((Seq::empty(), i + 1)));
        assert(text =~= Seq::<char>::empty());
    } else {
        let c = text[0];
        let rest = text.drop_first();
        let ec = spec_escape_char(c);
        let el = ec.len() as int;
        let i2 = i + el;
        assert(spec_escape(text) == ec + spec_escape(rest));
        assert(spec_escape(text).len() == el + spec_escape(rest).len());
        assert forall|t: int| 0 <= t < el implies s[i + t] == ec[t] by {
            assert(s.subrange(i, j)[t] == s[i + t]);
            assert((ec + spec_escape(rest))[t] == ec[t]);
        }
        assert(s.subrange(i2, j) =~= spec_escape(rest)) by {
            assert forall|t: int| 0 <= t < j - i2 implies s.subrange(i2, j)[t] == spec_escape(
                rest,
            )[t] by {
                assert(s.subrange(i2, j)[t] == s.subrange(i, j)[el + t]);
                assert((ec + spec_escape(rest))[el + t] == spec_escape(rest)[t]);
            }
        }
        lemma_parse_string_at(s, i2, rest, j);
        assert(s[i + 0] == ec[0]);
        if c == '"' {
            assert(s[i] == '\\' && s[i + 1] == '"');
            assert(seq!['"'] + rest =~= text);
        } else if c == '\\' {
            assert(s[i] == '\\' && s[i + 1] == '\\');
            assert(seq!['\\'] + rest =~= text);
        } else if c == '\n' {
            assert(s[i] == '\\' && s[i + 1] == 'n');
            assert(seq!['\n'] + rest =~= text);
        } else if c == '\r' {
            assert(s[i] == '\\' && s[i + 1] == 'r');
            assert(seq!['\r'] + rest =~= text);
        } else if c == '\t' {
            assert(s[i] == '\\' && s[i + 1] == 't');
            assert(seq!['\t'] + rest =~= text);
        } else if (c as u32) < 0x20 {
            let hi = ((c as u32) / 16) as int;
            let lo = ((c as u32) % 16) as int;
            assert(s[i] == '\\' && s[i + 1] == 'u' && s[i + 2] == '0' && s[i + 3] == '0');
            assert(s[i + 4] == spec_hex_char(hi) && s[i + 5] == spec_hex_char(lo));
            lemma_hex_char_val(hi);
            lemma_hex_char_val(lo);
            assert(hex_val(s[i + 4]) * 16 + hex_val(s[i + 5]) == c as u32);
            assert(((c as u32) as u8) as u32 == c as u32);
            vstd::utf8::char_u32_cast(c, c as u32);
            assert(((c as u32) as char) == c);
            assert((((c as u32) as u8) as char) == ((c as u32) as char));
            assert((((c as u32) as u8) as char) == c);
            assert(seq![c] + rest =~= text);
        } else {
            assert(ec[0] == c);
            assert(s[i] == c);
            assert(is_plain_char(c));
            assert(seq![c] + rest =~= text);
        }
    }
}

// ---------------------------------------------------------------------------
// The number parser inverts the digit printer
// ---------------------------------------------------------------------------

/// Every character that the digit printer emits is a digit.
proof fn lemma_digits_of_digits(n: u64)
    ensures
        spec_digits_of(n).len() >= 1,
        forall|t: int| 0 <= t < spec_digits_of(n).len() ==> is_digit_char(spec_digits_of(n)[t]),
    decreases n,
{
    if n < 10 {
        lemma_digit_char_val(n as int);
    } else {
        lemma_digits_of_digits(n / 10);
        lemma_digit_char_val((n % 10) as int);
        assert(forall|t: int|
            0 <= t < spec_digits_of(n / 10).len() ==> spec_digits_of(n)[t] == spec_digits_of(
                n / 10,
            )[t]);
    }
}

/// The digits of `n` are worth `n`.
proof fn lemma_digits_value_of_digits(n: u64)
    ensures
        spec_digits_value(spec_digits_of(n)) == n,
    decreases n,
{
    if n < 10 {
        let ds = spec_digits_of(n);
        assert(ds.drop_last() =~= Seq::<char>::empty());
        assert(spec_digits_value(Seq::<char>::empty()) == 0);
        assert(ds.last() == spec_digit_char(n as int));
        lemma_digit_char_val(n as int);
    } else {
        lemma_digits_value_of_digits(n / 10);
        let ds = spec_digits_of(n);
        assert(ds.drop_last() =~= spec_digits_of(n / 10));
        lemma_digit_char_val((n % 10) as int);
        assert(spec_digits_value(ds) == (n / 10) * 10 + (n % 10));
        assert((n / 10) * 10 + (n % 10) == n) by (nonlinear_arith);
    }
}

/// The digit scan stops exactly at the end of a digit run.
proof fn lemma_scan_digits_stops(s: Seq<char>, i: int, j: int)
    requires
        0 <= i <= j <= s.len(),
        forall|t: int| i <= t < j ==> is_digit_char(s[t]),
        j == s.len() || !is_digit_char(s[j]),
    ensures
        spec_scan_digits(s, i) == j,
    decreases j - i,
{
    if i < j {
        lemma_scan_digits_stops(s, i + 1, j);
    }
}

/// Reading a number off the digits of `n` yields `n` back, whatever
/// non-digit comes after.
proof fn lemma_parse_number_at(s: Seq<char>, i: int, n: u64, j: int)
    requires
        0 <= i,
        j == i + spec_digits_of(n).len(),
        j <= s.len(),
        s.subrange(i, j) == spec_digits_of(n),
        j == s.len() || !is_digit_char(s[j]),
    ensures
        spec_parse_number(s, i) == Some::<(u64, int)>((n, j)),
{
    lemma_digits_of_digits(n);
    assert forall|t: int| i <= t < j implies is_digit_char(s[t]) by {
        assert(s.subrange(i, j)[t - i] == s[t]);
    }
    lemma_scan_digits_stops(s, i, j);
    lemma_digits_value_of_digits(n);
    assert(spec_digits_value(s.subrange(i, j)) == n);
}

// ---------------------------------------------------------------------------
// The frame parser inverts the frame printer
// ---------------------------------------------------------------------------

/// A position that holds a non-blank character is already past the blanks.
proof fn lemma_skip_ws_here(s: Seq<char>, i: int)
    requires
        !(0 <= i < s.len()) || !is_ws_char(s[i]),
    ensures
        spec_skip_ws(s, i) == i,
{
}

/// Decoding the frame the remote service sends for `m` yields exactly `m`:
/// the decoder inverts the encoder on every inbound message.
pub proof fn lemma_decode_encode_recv(m: RecvMessageView)
    ensures
        spec_decode(spec_encode_recv(m)) == Ok::<RecvMessageView, crate::messages::DecodeError>(m),
{
    match m {
        RecvMessageView::Message { sender, message } => {
            lemma_decode_chat(sender, message);
        },
        RecvMessageView::ImageMessage { sender, url } => {
            lemma_decode_image(sender, url);
        },
    }
}

#[verifier::rlimit(100)]
proof fn lemma_decode_chat(sender: u64, message: Seq<char>)
    ensures
        spec_decode(spec_encode_recv(RecvMessageView::Message { sender, message })) == Ok::<
            RecvMessageView,
            crate::messages::DecodeError,
        >(RecvMessageView::Message { sender, message }),
{
    reveal_strlit("{\"type\":\"Message\",\"sender\":");
    reveal_strlit(",\"message\":");
    reveal_strlit("}");
    reveal_strlit("type");
    reveal_strlit("sender");
    reveal_strlit("message");
    reveal_strlit("Message");
    let a = "{\"type\":\"Message\",\"sender\":"@;
    let dd = spec_digits_of(sender);
    let b = ",\"message\":"@;
    let q = spec_quoted(message);
    let cc = "}"@;
    let s = spec_encode_recv(RecvMessageView::Message { sender, message });
    assert(s == a + dd + b + q + cc);
    let d = dd.len() as int;
    let e = spec_escape(message).len() as int;
    lemma_digits_of_digits(sender);
    assert(a.len() == 27);
    assert(b.len() == 11);
    assert(q.len() == e + 2);
    assert(cc.len() == 1);
    let p = 27 + d;
    let r = p + 13 + e;
    assert(s.len() == r + 1);
    // Where each region of the frame stands.
    assert forall|t: int| 0 <= t < 27 implies s[t] == a[t] by {}
    assert forall|t: int| 0 <= t < d implies s[27 + t] == dd[t] by {}
    assert forall|t: int| 0 <= t < 11 implies s[p + t] == b[t] by {}
    assert forall|t: int| 0 <= t < e + 2 implies s[p + 11 + t] == q[t] by {}
    assert(s[r] == cc[0]);
    assert(q[0] == '"');
    assert(q[e + 1] == '"');
    assert forall|t: int| 0 <= t < e implies q[1 + t] == spec_escape(message)[t] by {
        assert((seq!['"'] + spec_escape(message) + seq!['"'])[1 + t] == spec_escape(message)[t]);
    }
    // The leading brace.
    lemma_skip_ws_here(s, 0);
    lemma_skip_ws_here(s, 1);
    // Member one: "type": "Message".
    assert(s.subrange(2, 6) =~= "type"@);
    lemma_escape_plain("type"@);
    lemma_parse_string_at(s, 2, "type"@, 6);
    lemma_skip_ws_here(s, 7);
    lemma_skip_ws_here(s, 8);
    assert(s.subrange(9, 16) =~= "Message"@);
    lemma_escape_plain("Message"@);
    lemma_parse_string_at(s, 9, "Message"@, 16);
    lemma_skip_ws_here(s, 17);
    lemma_skip_ws_here(s, 18);
    let m1 = ("type"@, FieldView::Text("Message"@));
    assert(spec_parse_member(s, 1) == Some::<((Seq<char>, FieldView), int)>((m1, 17)));
    // Member two: "sender": the digits.
    assert(s.subrange(19, 25) =~= "sender"@);
    lemma_escape_plain("sender"@);
    lemma_parse_string_at(s, 19, "sender"@, 25);
    lemma_skip_ws_here(s, 26);
    lemma_skip_ws_here(s, 27);
    assert(s.subrange(27, p) =~= dd);
    assert(s[p] == ',');
    assert(!is_digit_char(','));
    lemma_parse_number_at(s, 27, sender, p);
    assert(s[27] == dd[0]);
    assert(is_digit_char(s[27]));
    assert(s[27] != '"');
    lemma_skip_ws_here(s, p);
    lemma_skip_ws_here(s, p + 1);
    let m2 = ("sender"@, FieldView::Number(sender));
    assert(spec_parse_member(s, 18) == Some::<((Seq<char>, FieldView), int)>((m2, p)));
    // Member three: "message": the quoted text.
    assert(s[p + 1] == '"');
    assert(s.subrange(p + 2, p + 9) =~= "message"@);
    lemma_escape_plain("message"@);
    lemma_parse_string_at(s, p + 2, "message"@, p + 9);
    lemma_skip_ws_here(s, p + 10);
    lemma_skip_ws_here(s, p + 11);
    assert(s[p + 10] == ':');
    assert(s[p + 11] == '"');
    assert(s.subrange(p + 12, p + 12 + e) =~= spec_escape(message)) by {
        assert forall|t: int| 0 <= t < e implies s.subrange(p + 12, p + 12 + e)[t] == spec_escape(
            message,
        )[t] by {
            assert(s[p + 12 + t] == q[1 + t]);
        }
    }
    assert(s[p + 12 + e] == q[e + 1]);
    lemma_parse_string_at(s, p + 12, message, p + 12 + e);
    let m3 = ("message"@, FieldView::Text(message));
    assert(spec_parse_member(s, p + 1) == Some::<((Seq<char>, FieldView), int)>((m3, r)));
    // The member list and the closing brace.
    lemma_skip_ws_here(s, r);
    assert(s[r] == '}');
    assert(spec_parse_members(s, p + 1) == Some::<(Seq<(Seq<char>, FieldView)>, int)>(
        (seq![m3], r + 1),
    ));
    assert(spec_parse_members(s, 18) == Some::<(Seq<(Seq<char>, FieldView)>, int)>(
        (seq![m2] + seq![m3], r + 1),
    ));
    assert(spec_parse_members(s, 1) == Some::<(Seq<(Seq<char>, FieldView)>, int)>(
        (seq![m1] + (seq![m2] + seq![m3]), r + 1),
    ));
    let fields = seq![m1, m2, m3];
    assert(seq![m1] + (seq![m2] + seq![m3]) =~= fields);
    assert(spec_parse_object(s) == Some::<(Seq<(Seq<char>, FieldView)>, int)>(
        (fields, r + 1),
    ));
    lemma_skip_ws_here(s, r + 1);
    // Reading the fields back.
    lemma_lookup_three(fields, m1, m2, m3);
    assert(spec_decode(s) == Ok::<RecvMessageView, crate::messages::DecodeError>(
        RecvMessageView::Message { sender, message },
    ));
}

#[verifier::rlimit(100)]
proof fn lemma_decode_image(sender: u64, url: Seq<char>)
    ensures
        spec_decode(spec_encode_recv(RecvMessageView::ImageMessage { sender, url })) == Ok::<
            RecvMessageView,
            crate::messages::DecodeError,
        >(RecvMessageView::ImageMessage { sender, url }),
{
    reveal_strlit("{\"type\":\"ImageMessage\",\"sender\":");
    reveal_strlit(",\"url\":");
    reveal_strlit("}");
    reveal_strlit("type");
    reveal_strlit("sender");
    reveal_strlit("url");
    reveal_strlit("ImageMessage");
    reveal_strlit("Message");
    let a = "{\"type\":\"ImageMessage\",\"sender\":"@;
    let dd = spec_digits_of(sender);
    let b = ",\"url\":"@;
    let q = spec_quoted(url);
    let cc = "}"@;
    let s = spec_encode_recv(RecvMessageView::ImageMessage { sender, url });
    assert(s == a + dd + b + q + cc);
    let d = dd.len() as int;
    let e = spec_escape(url).len() as int;
    lemma_digits_of_digits(sender);
    assert(a.len() == 32);
    assert(b.len() == 7);
    assert(q.len() == e + 2);
    let p = 32 + d;
    let r = p + 9 + e;
    assert(s.len() == r + 1);
    assert forall|t: int| 0 <= t < 32 implies s[t] == a[t] by {}
    assert forall|t: int| 0 <= t < d implies s[32 + t] == dd[t] by {}
    assert forall|t: int| 0 <= t < 7 implies s[p + t] == b[t] by {}
    assert forall|t: int| 0 <= t < e + 2 implies s[p + 7 + t] == q[t] by {}
    assert(s[r] == cc[0]);
    assert(q[0] == '"');
    assert(q[e + 1] == '"');
    assert forall|t: int| 0 <= t < e implies q[1 + t] == spec_escape(url)[t] by {
        assert((seq!['"'] + spec_escape(url) + seq!['"'])[1 + t] == spec_escape(url)[t]);
    }
    lemma_skip_ws_here(s, 0);
    lemma_skip_ws_here(s, 1);
    // Member one: "type": "ImageMessage".
    assert(s.subrange(2, 6) =~= "type"@);
    lemma_escape_plain("type"@);
    lemma_parse_string_at(s, 2, "type"@, 6);
    lemma_skip_ws_here(s, 7);
    lemma_skip_ws_here(s, 8);
    assert(s.subrange(9, 21) =~= "ImageMessage"@);
    lemma_escape_plain("ImageMessage"@);
    lemma_parse_string_at(s, 9, "ImageMessage"@, 21);
    lemma_skip_ws_here(s, 22);
    lemma_skip_ws_here(s, 23);
    let m1 = ("type"@, FieldView::Text("ImageMessage"@));
    assert(spec_parse_member(s, 1) == Some::<((Seq<char>, FieldView), int)>((m1, 22)));
    // Member two: "sender": the digits.
    assert(s.subrange(24, 30) =~= "sender"@);
    lemma_escape_plain("sender"@);
    lemma_parse_string_at(s, 24, "sender"@, 30);
    lemma_skip_ws_here(s, 31);
    lemma_skip_ws_here(s, 32);
    assert(s.subrange(32, p) =~= dd);
    assert(s[p] == ',');
    assert(!is_digit_char(','));
    lemma_parse_number_at(s, 32, sender, p);
    assert(s[32] == dd[0]);
    assert(is_digit_char(s[32]));
    assert(s[32] != '"');
    lemma_skip_ws_here(s, p);
    lemma_skip_ws_here(s, p + 1);
    let m2 = ("sender"@, FieldView::Number(sender));
    assert(spec_parse_member(s, 23) == Some::<((Seq<char>, FieldView), int)>((m2, p)));
    // Member three: "url": the quoted text.
    assert(s[p + 1] == '"');
    assert(s.subrange(p + 2, p + 5) =~= "url"@);
    lemma_escape_plain("url"@);
    lemma_parse_string_at(s, p + 2, "url"@, p + 5);
    lemma_skip_ws_here(s, p + 6);
    lemma_skip_ws_here(s, p + 7);
    assert(s[p + 6] == ':');
    assert(s[p + 7] == '"');
    assert(s.subrange(p + 8, p + 8 + e) =~= spec_escape(url)) by {
        assert forall|t: int| 0 <= t < e implies s.subrange(p + 8, p + 8 + e)[t] == spec_escape(
            url,
        )[t] by {
            assert(s[p + 8 + t] == q[1 + t]);
        }
    }
    assert(s[p + 8 + e] == q[e + 1]);
    lemma_parse_string_at(s, p + 8, url, p + 8 + e);
    let m3 = ("url"@, FieldView::Text(url));
    assert(spec_parse_member(s, p + 1) == Some::<((Seq<char>, FieldView), int)>((m3, r)));
    lemma_skip_ws_here(s, r);
    assert(s[r] == '}');
    assert(spec_parse_members(s, p + 1) == Some::<(Seq<(Seq<char>, FieldView)>, int)>(
        (seq![m3], r + 1),
    ));
    assert(spec_parse_members(s, 23) == Some::<(Seq<(Seq<char>, FieldView)>, int)>(
        (seq![m2] + seq![m3], r + 1),
    ));
    assert(spec_parse_members(s, 1) == Some::<(Seq<(Seq<char>, FieldView)>, int)>(
        (seq![m1] + (seq![m2] + seq![m3]), r + 1),
    ));
    let fields = seq![m1, m2, m3];
    assert(seq![m1] + (seq![m2] + seq![m3]) =~= fields);
    assert(spec_parse_object(s) == Some::<(Seq<(Seq<char>, FieldView)>, int)>(
        (fields, r + 1),
    ));
    lemma_skip_ws_here(s, r + 1);
    lemma_lookup_three(fields, m1, m2, m3);
    assert("ImageMessage"@ != "Message"@) by {
        assert("ImageMessage"@.len() != "Message"@.len());
    }
    assert(spec_decode(s) == Ok::<RecvMessageView, crate::messages::DecodeError>(
        RecvMessageView::ImageMessage { sender, url },
    ));
}

/// Looking a key up in a three-member list reaches the member with that key,
/// as long as the three keys differ.
proof fn lemma_lookup_three(
    fields: Seq<(Seq<char>, FieldView)>,
    m1: (Seq<char>, FieldView),
    m2: (Seq<char>, FieldView),
    m3: (Seq<char>, FieldView),
)
    requires
        fields == seq![m1, m2, m3],
        m1.0 != m2.0,
        m1.0 != m3.0,
        m2.0 != m3.0,
    ensures
        spec_lookup(fields, m1.0) == Some(m1.1),
        spec_lookup(fields, m2.0) == Some(m2.1),
        spec_lookup(fields, m3.0) == Some(m3.1),
{
    assert(fields.drop_first() =~= seq![m2, m3]);
    assert(seq![m2, m3].drop_first() =~= seq![m3]);
    assert(seq![m3].drop_first() =~= Seq::<(Seq<char>, FieldView)>::empty());
    assert(spec_lookup(seq![m3], m3.0) == Some(m3.1));
    assert(spec_lookup(seq![m2, m3], m2.0) == Some(m2.1));
    assert(spec_lookup(seq![m2, m3], m3.0) == Some(m3.1));
    assert(spec_lookup(fields, m2.0) == spec_lookup(seq![m2, m3], m2.0));
    assert(spec_lookup(fields, m3.0) == spec_lookup(seq![m2, m3], m3.0));
}

/// What an outbound frame carries, read back out of the payload. Only the
/// laws below speak of it: it states that the encoder loses nothing.
pub open spec fn spec_decode_send(s: Seq<char>) -> Option<SendMessageView> {
    match spec_parse_object(s) {
        None => None,
        Some((fields, j)) => {
            if spec_skip_ws(s, j) != s.len() {
                None
            } else {
                match spec_lookup(fields, "type"@) {
                    Some(FieldView::Text(tag)) => {
                        if tag == "Message"@ {
                            match crate::codec::spec_field_text(fields, "message"@) {
                                Ok(message) => match crate::codec::spec_field_num(
                                    fields,
                                    "reciever"@,
                                ) {
                                    Ok(reciever) => Some(
                                        SendMessageView::Message { message, reciever },
                                    ),
                                    Err(_) => None,
                                },
                                Err(_) => None,
                            }
                        } else {
                            None
                        }
                    },
                    _ => None,
                }
            }
        },
    }
}

/// The encoder loses nothing: the fields of every outbound message can be
/// read back out of the one frame it produces.
#[verifier::rlimit(100)]
pub proof fn lemma_encode_send_faithful(m: SendMessageView)
    ensures
        spec_decode_send(spec_encode_send(m)) == Some(m),
{
    let SendMessageView::Message { message, reciever } = m;
    reveal_strlit("{\"type\":\"Message\",\"message\":");
    reveal_strlit(",\"reciever\":");
    reveal_strlit("}");
    reveal_strlit("type");
    reveal_strlit("message");
    reveal_strlit("reciever");
    reveal_strlit("Message");
    let a = "{\"type\":\"Message\",\"message\":"@;
    let q = spec_quoted(message);
    let b = ",\"reciever\":"@;
    let dd = spec_digits_of(reciever);
    let cc = "}"@;
    let s = spec_encode_send(m);
    assert(s == a + q + b + dd + cc);
    let e = spec_escape(message).len() as int;
    let d = dd.len() as int;
    lemma_digits_of_digits(reciever);
    assert(a.len() == 28);
    assert(b.len() == 12);
    assert(q.len() == e + 2);
    let p = 30 + e;
    let r = p + 12 + d;
    assert(s.len() == r + 1);
    assert forall|t: int| 0 <= t < 28 implies s[t] == a[t] by {}
    assert forall|t: int| 0 <= t < e + 2 implies s[28 + t] == q[t] by {}
    assert forall|t: int| 0 <= t < 12 implies s[p + t] == b[t] by {}
    assert forall|t: int| 0 <= t < d implies s[p + 12 + t] == dd[t] by {}
    assert(s[r] == cc[0]);
    assert(q[0] == '"');
    assert(q[e + 1] == '"');
    assert forall|t: int| 0 <= t < e implies q[1 + t] == spec_escape(message)[t] by {
        assert((seq!['"'] + spec_escape(message) + seq!['"'])[1 + t] == spec_escape(message)[t]);
    }
    lemma_skip_ws_here(s, 0);
    lemma_skip_ws_here(s, 1);
    // Member one: "type": "Message".
    assert(s.subrange(2, 6) =~= "type"@);
    lemma_escape_plain("type"@);
    lemma_parse_string_at(s, 2, "type"@, 6);
    lemma_skip_ws_here(s, 7);
    lemma_skip_ws_here(s, 8);
    assert(s.subrange(9, 16) =~= "Message"@);
    lemma_escape_plain("Message"@);
    lemma_parse_string_at(s, 9, "Message"@, 16);
    lemma_skip_ws_here(s, 17);
    lemma_skip_ws_here(s, 18);
    let m1 = ("type"@, FieldView::Text("Message"@));
    assert(spec_parse_member(s, 1) == Some::<((Seq<char>, FieldView), int)>((m1, 17)));
    // Member two: "message": the quoted text.
    assert(s[18] == '"');
    assert(s.subrange(19, 26) =~= "message"@);
    lemma_escape_plain("message"@);
    lemma_parse_string_at(s, 19, "message"@, 26);
    lemma_skip_ws_here(s, 27);
    lemma_skip_ws_here(s, 28);
    assert(s[27] == ':');
    assert(s[28] == '"');
    assert(s.subrange(29, 29 + e) =~= spec_escape(message)) by {
        assert forall|t: int| 0 <= t < e implies s.subrange(29, 29 + e)[t] == spec_escape(
            message,
        )[t] by {
            assert(s[29 + t] == q[1 + t]);
        }
    }
    assert(s[29 + e] == q[e + 1]);
    lemma_parse_string_at(s, 29, message, 29 + e);
    let m2 = ("message"@, FieldView::Text(message));
    assert(spec_parse_member(s, 18) == Some::<((Seq<char>, FieldView), int)>((m2, p)));
    lemma_skip_ws_here(s, p);
    lemma_skip_ws_here(s, p + 1);
    assert(s[p] == ',');
    // Member three: "reciever": the digits.
    assert(s[p + 1] == '"');
    assert(s.subrange(p + 2, p + 10) =~= "reciever"@);
    lemma_escape_plain("reciever"@);
    lemma_parse_string_at(s, p + 2, "reciever"@, p + 10);
    lemma_skip_ws_here(s, p + 11);
    lemma_skip_ws_here(s, p + 12);
    assert(s[p + 11] == ':');
    assert(s.subrange(p + 12, r) =~= dd);
    assert(s[r] == '}');
    assert(!is_digit_char('}'));
    lemma_parse_number_at(s, p + 12, reciever, r);
    assert(s[p + 12] == dd[0]);
    assert(is_digit_char(s[p + 12]));
    assert(s[p + 12] != '"');
    let m3 = ("reciever"@, FieldView::Number(reciever));
    assert(spec_parse_member(s, p + 1) == Some::<((Seq<char>, FieldView), int)>((m3, r)));
    lemma_skip_ws_here(s, r);
    assert(spec_parse_members(s, p + 1) == Some::<(Seq<(Seq<char>, FieldView)>, int)>(
        (seq![m3], r + 1),
    ));
    assert(spec_parse_members(s, 18) == Some::<(Seq<(Seq<char>, FieldView)>, int)>(
        (seq![m2] + seq![m3], r + 1),
    ));
    assert(spec_parse_members(s, 1) == Some::<(Seq<(Seq<char>, FieldView)>, int)>(
        (seq![m1] + (seq![m2] + seq![m3]), r + 1),
    ));
    let fields = seq![m1, m2, m3];
    assert(seq![m1] + (seq![m2] + seq![m3]) =~= fields);
    assert(spec_parse_object(s) == Some::<(Seq<(Seq<char>, FieldView)>, int)>((fields, r + 1)));
    lemma_skip_ws_here(s, r + 1);
    lemma_lookup_three(fields, m1, m2, m3);
    assert(spec_decode_send(s) == Some(m));
}

/// Injectivity: two different outbound messages never encode to the same
/// frame.
pub proof fn lemma_encode_send_injective(m1: SendMessageView, m2: SendMessageView)
    requires
        spec_encode_send(m1) == spec_encode_send(m2),
    ensures
        m1 == m2,
{
    lemma_encode_send_faithful(m1);
    lemma_encode_send_faithful(m2);
}

/// The inbound message whose fields are those of an outbound one: what the
/// protocol's sender/recipient field swap makes of it.
pub open spec fn spec_inbound_of(m: SendMessageView) -> RecvMessageView {
    match m {
        SendMessageView::Message { message, reciever } => RecvMessageView::Message {
            sender: reciever,
            message,
        },
    }
}

/// Round trip: for every constructible outbound message, decoding the
/// inbound frame of matching shape yields a message with identical fields,
/// the recipient now standing as the sender.
pub proof fn lemma_round_trip(m: SendMessageView)
    ensures
        spec_decode(spec_encode_recv(spec_inbound_of(m))) == Ok::<
            RecvMessageView,
            crate::messages::DecodeError,
        >(spec_inbound_of(m)),
{
    lemma_decode_encode_recv(spec_inbound_of(m));
}

} // verus!
