//! Wire codec: lossless translation between a typed application message and
//! the text payload of one transport frame.
//!
//! A frame is one object of a small, self-describing grammar (the JSON shape
//! the remote service speaks): `{` and `}` around comma-separated members,
//! each member a double-quoted key, `:`, and a value that is either a
//! double-quoted string or an unsigned decimal number. Strings carry the
//! usual short escapes plus `\u00XX` for other control characters; raw
//! control characters inside a string are malformed. The discriminator is
//! the `type` member; when a key occurs twice, the first occurrence counts.

use vstd::prelude::*;

use crate::messages::{DecodeError, RecvMessage, RecvMessageView, SendMessage, SendMessageView};

verus! {

// ---------------------------------------------------------------------------
// Character classes
// ---------------------------------------------------------------------------

pub open spec fn is_ws_char(c: char) -> bool {
    c == ' ' || c == '\t' || c == '\n' || c == '\r'
}

pub open spec fn is_digit_char(c: char) -> bool {
    48 <= (c as u32) && (c as u32) <= 57
}

pub open spec fn digit_val(c: char) -> int {
    (c as u32) - 48
}

pub open spec fn is_hex_char(c: char) -> bool {
    is_digit_char(c) || (97 <= (c as u32) && (c as u32) <= 102) || (65 <= (c as u32) && (c as u32)
        <= 70)
}

pub open spec fn hex_val(c: char) -> int {
    if is_digit_char(c) {
        (c as u32) - 48
    } else if 97 <= (c as u32) && (c as u32) <= 102 {
        (c as u32) - 87
    } else {
        (c as u32) - 55
    }
}

/// A character that stands for itself inside a quoted string.
pub open spec fn is_plain_char(c: char) -> bool {
    c != '"' && c != '\\' && (c as u32) >= 0x20
}

pub open spec fn spec_digit_char(d: int) -> char {
    if d == 0 {
        '0'
    } else if d == 1 {
        '1'
    } else if d == 2 {
        '2'
    } else if d == 3 {
        '3'
    } else if d == 4 {
        '4'
    } else if d == 5 {
        '5'
    } else if d == 6 {
        '6'
    } else if d == 7 {
        '7'
    } else if d == 8 {
        '8'
    } else {
        '9'
    }
}

pub open spec fn spec_hex_char(d: int) -> char {
    if d < 10 {
        spec_digit_char(d)
    } else if d == 10 {
        'a'
    } else if d == 11 {
        'b'
    } else if d == 12 {
        'c'
    } else if d == 13 {
        'd'
    } else if d == 14 {
        'e'
    } else {
        'f'
    }
}

// ---------------------------------------------------------------------------
// Spec encoding
// ---------------------------------------------------------------------------

/// How one character appears inside a quoted string of a frame.
pub open spec fn spec_escape_char(c: char) -> Seq<char> {
    if c == '"' {
        seq!['\\', '"']
    } else if c == '\\' {
        seq!['\\', '\\']
    } else if c == '\n' {
        seq!['\\', 'n']
    } else if c == '\r' {
        seq!['\\', 'r']
    } else if c == '\t' {
        seq!['\\', 't']
    } else if (c as u32) < 0x20 {
        seq!['\\', 'u', '0', '0', spec_hex_char(((c as u32) / 16) as int), spec_hex_char(
            ((c as u32) % 16) as int,
        )]
    } else {
        seq![c]
    }
}

pub open spec fn spec_escape(s: Seq<char>) -> Seq<char>
    decreases s.len(),
{
    if s.len() == 0 {
        Seq::empty()
    } else {
        spec_escape_char(s[0]) + spec_escape(s.drop_first())
    }
}

/// A string value as it appears in a frame: quoted and escaped.
pub open spec fn spec_quoted(s: Seq<char>) -> Seq<char> {
    seq!['"'] + spec_escape(s) + seq!['"']
}

/// The decimal digits of `n`, most significant first, no leading zeros.
pub open spec fn spec_digits_of(n: u64) -> Seq<char>
    decreases n,
{
    if n < 10 {
        seq![spec_digit_char(n as int)]
    } else {
        spec_digits_of(n / 10).push(spec_digit_char((n % 10) as int))
    }
}

/// The exact payload written to the connection for an outbound message.
pub open spec fn spec_encode_send(m: SendMessageView) -> Seq<char> {
    match m {
        SendMessageView::Message { message, reciever } => "{\"type\":\"Message\",\"message\":"@
            + spec_quoted(message) + ",\"reciever\":"@ + spec_digits_of(reciever) + "}"@,
    }
}

/// The payload the remote service sends for an inbound message: the inbound
/// frame of matching shape that the round-trip law speaks of.
pub open spec fn spec_encode_recv(m: RecvMessageView) -> Seq<char> {
    match m {
        RecvMessageView::Message { sender, message } => "{\"type\":\"Message\",\"sender\":"@
            + spec_digits_of(sender) + ",\"message\":"@ + spec_quoted(message) + "}"@,
        RecvMessageView::ImageMessage { sender, url } => "{\"type\":\"ImageMessage\",\"sender\":"@
            + spec_digits_of(sender) + ",\"url\":"@ + spec_quoted(url) + "}"@,
    }
}

// ---------------------------------------------------------------------------
// Spec parsing
// ---------------------------------------------------------------------------

/// A member value of a frame object.
#[verifier::ext_equal]
pub enum FieldView {
    Text(Seq<char>),
    Number(u64),
}

/// First index at or after `i` that does not hold whitespace.
pub open spec fn spec_skip_ws(s: Seq<char>, i: int) -> int
    decreases s.len() - i,
{
    if 0 <= i && i < s.len() && is_ws_char(s[i]) {
        spec_skip_ws(s, i + 1)
    } else {
        i
    }
}

/// What a short escape after a backslash stands for.
pub open spec fn spec_escape_code(e: char) -> Option<char> {
    if e == '"' {
        Some('"')
    } else if e == '\\' {
        Some('\\')
    } else if e == '/' {
        Some('/')
    } else if e == 'n' {
        Some('\n')
    } else if e == 'r' {
        Some('\r')
    } else if e == 't' {
        Some('\t')
    } else if e == 'b' {
        Some('\u{8}')
    } else if e == 'f' {
        Some('\u{c}')
    } else {
        None
    }
}

/// Parse the inside of a quoted string starting at `i` (just past the opening
/// quote) up to and including the closing quote. Yields the unescaped text
/// and the index just past the closing quote. `\u` escapes are accepted for
/// code points up to `00ff`, which covers every escape this codec emits.
pub open spec fn spec_parse_string_body(s: Seq<char>, i: int) -> Option<(Seq<char>, int)>
    decreases s.len() - i,
{
    if !(0 <= i && i < s.len()) {
        None
    } else {
        let c = s[i];
        if c == '"' {
            Some((Seq::empty(), i + 1))
        } else if c == '\\' {
            if i + 1 < s.len() {
                let e = s[i + 1];
                if e == 'u' {
                    if i + 5 < s.len() && s[i + 2] == '0' && s[i + 3] == '0' && is_hex_char(
                        s[i + 4],
                    ) && is_hex_char(s[i + 5]) {
                        let code = hex_val(s[i + 4]) * 16 + hex_val(s[i + 5]);
                        match spec_parse_string_body(s, i + 6) {
                            Some((t, j)) => Some((seq![(code as u8) as char] + t, j)),
                            None => None,
                        }
                    } else {
                        None
                    }
                } else {
                    match spec_escape_code(e) {
                        Some(c2) => match spec_parse_string_body(s, i + 2) {
                            Some((t, j)) => Some((seq![c2] + t, j)),
                            None => None,
                        },
                        None => None,
                    }
                }
            } else {
                None
            }
        } else if (c as u32) < 0x20 {
            None
        } else {
            match spec_parse_string_body(s, i + 1) {
                Some((t, j)) => Some((seq![c] + t, j)),
                None => None,
            }
        }
    }
}

/// Parse a quoted string whose opening quote stands at `i`.
pub open spec fn spec_parse_string(s: Seq<char>, i: int) -> Option<(Seq<char>, int)> {
    if 0 <= i && i < s.len() && s[i] == '"' {
        spec_parse_string_body(s, i + 1)
    } else {
        None
    }
}

/// First index at or after `i` that does not hold a decimal digit.
pub open spec fn spec_scan_digits(s: Seq<char>, i: int) -> int
    decreases s.len() - i,
{
    if 0 <= i && i < s.len() && is_digit_char(s[i]) {
        spec_scan_digits(s, i + 1)
    } else {
        i
    }
}

/// The value of a run of decimal digits, most significant first.
pub open spec fn spec_digits_value(ds: Seq<char>) -> int
    decreases ds.len(),
{
    if ds.len() == 0 {
        0
    } else {
        spec_digits_value(ds.drop_last()) * 10 + digit_val(ds.last())
    }
}

/// Parse an unsigned decimal number starting at `i`. A number that does not
/// fit in 64 bits is malformed.
pub open spec fn spec_parse_number(s: Seq<char>, i: int) -> Option<(u64, int)> {
    let j = spec_scan_digits(s, i);
    if j == i {
        None
    } else if spec_digits_value(s.subrange(i, j)) <= u64::MAX {
        Some((spec_digits_value(s.subrange(i, j)) as u64, j))
    } else {
        None
    }
}

/// Parse a member value: a quoted string or a number.
pub open spec fn spec_parse_value(s: Seq<char>, i: int) -> Option<(FieldView, int)> {
    if 0 <= i && i < s.len() && s[i] == '"' {
        match spec_parse_string(s, i) {
            Some((t, j)) => Some((FieldView::Text(t), j)),
            None => None,
        }
    } else {
        match spec_parse_number(s, i) {
            Some((n, j)) => Some((FieldView::Number(n), j)),
            None => None,
        }
    }
}

/// Parse one `"key": value` member starting at `i`.
pub open spec fn spec_parse_member(s: Seq<char>, i: int) -> Option<((Seq<char>, FieldView), int)> {
    match spec_parse_string(s, i) {
        Some((k, j1)) => {
            let j2 = spec_skip_ws(s, j1);
            if 0 <= j2 && j2 < s.len() && s[j2] == ':' {
                let j3 = spec_skip_ws(s, j2 + 1);
                match spec_parse_value(s, j3) {
                    Some((v, j4)) => Some(((k, v), j4)),
                    None => None,
                }
            } else {
                None
            }
        },
        None => None,
    }
}

/// Parse a non-empty member list starting at `i`, up to and including the
/// closing brace. The guard on the recursive call only restates that a
/// member is never empty, so that the recursion visibly advances.
pub open spec fn spec_parse_members(s: Seq<char>, i: int) -> Option<
    (Seq<(Seq<char>, FieldView)>, int),
>
    decreases s.len() - i,
{
    match spec_parse_member(s, i) {
        Some((m, j)) => {
            let j1 = spec_skip_ws(s, j);
            if 0 <= j1 && j1 < s.len() && s[j1] == ',' {
                let j2 = spec_skip_ws(s, j1 + 1);
                if i < j2 && j2 <= s.len() {
                    match spec_parse_members(s, j2) {
                        Some((ms, j3)) => Some((seq![m] + ms, j3)),
                        None => None,
                    }
                } else {
                    None
                }
            } else if 0 <= j1 && j1 < s.len() && s[j1] == '}' {
                Some((seq![m], j1 + 1))
            } else {
                None
            }
        },
        None => None,
    }
}

/// Parse one whole object from the start of the payload. Yields its members
/// in order and the index just past the closing brace.
pub open spec fn spec_parse_object(s: Seq<char>) -> Option<(Seq<(Seq<char>, FieldView)>, int)> {
    let i0 = spec_skip_ws(s, 0);
    if 0 <= i0 && i0 < s.len() && s[i0] == '{' {
        let i1 = spec_skip_ws(s, i0 + 1);
        if 0 <= i1 && i1 < s.len() && s[i1] == '}' {
            Some((Seq::empty(), i1 + 1))
        } else {
            spec_parse_members(s, i1)
        }
    } else {
        None
    }
}

/// The first member with the given key, if any.
pub open spec fn spec_lookup(fields: Seq<(Seq<char>, FieldView)>, name: Seq<char>) -> Option<
    FieldView,
>
    decreases fields.len(),
{
    if fields.len() == 0 {
        None
    } else if fields[0].0 == name {
        Some(fields[0].1)
    } else {
        spec_lookup(fields.drop_first(), name)
    }
}

pub open spec fn spec_field_num(fields: Seq<(Seq<char>, FieldView)>, name: Seq<char>) -> Result<
    u64,
    DecodeError,
> {
    match spec_lookup(fields, name) {
        None => Err(DecodeError::MissingField),
        Some(FieldView::Text(_)) => Err(DecodeError::WrongFieldType),
        Some(FieldView::Number(n)) => Ok(n),
    }
}

pub open spec fn spec_field_text(fields: Seq<(Seq<char>, FieldView)>, name: Seq<char>) -> Result<
    Seq<char>,
    DecodeError,
> {
    match spec_lookup(fields, name) {
        None => Err(DecodeError::MissingField),
        Some(FieldView::Number(_)) => Err(DecodeError::WrongFieldType),
        Some(FieldView::Text(t)) => Ok(t),
    }
}

/// Dispatch on the discriminator and read the variant's fields. The sender
/// field is examined before the text field.
pub open spec fn spec_decode_fields(fields: Seq<(Seq<char>, FieldView)>) -> Result<
    RecvMessageView,
    DecodeError,
> {
    match spec_lookup(fields, "type"@) {
        None => Err(DecodeError::MissingDiscriminator),
        Some(FieldView::Number(_)) => Err(DecodeError::WrongFieldType),
        Some(FieldView::Text(tag)) => {
            if tag == "Message"@ {
                match spec_field_num(fields, "sender"@) {
                    Err(e) => Err(e),
                    Ok(sender) => match spec_field_text(fields, "message"@) {
                        Err(e) => Err(e),
                        Ok(message) => Ok(RecvMessageView::Message { sender, message }),
                    },
                }
            } else if tag == "ImageMessage"@ {
                match spec_field_num(fields, "sender"@) {
                    Err(e) => Err(e),
                    Ok(sender) => match spec_field_text(fields, "url"@) {
                        Err(e) => Err(e),
                        Ok(url) => Ok(RecvMessageView::ImageMessage { sender, url }),
                    },
                }
            } else {
                Err(DecodeError::UnknownDiscriminator)
            }
        },
    }
}

/// What decoding a text payload yields: the typed message, or exactly which
/// way the payload is unusable.
pub open spec fn spec_decode(s: Seq<char>) -> Result<RecvMessageView, DecodeError> {
    match spec_parse_object(s) {
        None => Err(DecodeError::Malformed),
        Some((fields, j)) => {
            if spec_skip_ws(s, j) == s.len() {
                spec_decode_fields(fields)
            } else {
                Err(DecodeError::Malformed)
            }
        },
    }
}

// ---------------------------------------------------------------------------
// Executable encoding
// ---------------------------------------------------------------------------

/// Relies on `String: FromIterator<char>` from std: collecting characters
/// yields the string of exactly those characters in order.
#[verifier::external_body]
fn chars_to_string(v: &Vec<char>) -> (s: String)
    ensures
        s@ == v@,
{
    v.iter().collect()
}

/// The characters of `s`, in order.
fn str_to_chars(s: &str) -> (v: Vec<char>)
    ensures
        v@ == s@,
{
    let n = s.unicode_len();
    let mut v: Vec<char> = Vec::new();
    let mut i: usize = 0;
    while i < n
        invariant
            n == s@.len(),
            i <= n,
            v@ == s@.subrange(0, i as int),
        decreases n - i,
    {
        v.push(s.get_char(i));
        i = i + 1;
        proof {
            assert(v@ =~= s@.subrange(0, i as int));
        }
    }
    proof {
        assert(v@ =~= s@);
    }
    v
}

/// Append the characters of a literal piece of the frame skeleton.
fn push_lit(out: &mut Vec<char>, lit: &str)
    ensures
        final(out)@ == old(out)@ + lit@,
{
    let n = lit.unicode_len();
    let mut i: usize = 0;
    while i < n
        invariant
            n == lit@.len(),
            i <= n,
            out@ == old(out)@ + lit@.subrange(0, i as int),
        decreases n - i,
    {
        out.push(lit.get_char(i));
        i = i + 1;
        proof {
            assert(out@ =~= old(out)@ + lit@.subrange(0, i as int));
        }
    }
    proof {
        assert(out@ =~= old(out)@ + lit@);
    }
}

fn digit_char_of(d: u64) -> (c: char)
    requires
        d < 10,
    ensures
        c == spec_digit_char(d as int),
{
    if d == 0 {
        '0'
    } else if d == 1 {
        '1'
    } else if d == 2 {
        '2'
    } else if d == 3 {
        '3'
    } else if d == 4 {
        '4'
    } else if d == 5 {
        '5'
    } else if d == 6 {
        '6'
    } else if d == 7 {
        '7'
    } else if d == 8 {
        '8'
    } else {
        '9'
    }
}

fn hex_char_of(d: u32) -> (c: char)
    requires
        d < 16,
    ensures
        c == spec_hex_char(d as int),
{
    if d < 10 {
        digit_char_of(d as u64)
    } else if d == 10 {
        'a'
    } else if d == 11 {
        'b'
    } else if d == 12 {
        'c'
    } else if d == 13 {
        'd'
    } else if d == 14 {
        'e'
    } else {
        'f'
    }
}

/// Append the decimal digits of `n`.
fn push_u64(out: &mut Vec<char>, n: u64)
    ensures
        final(out)@ == old(out)@ + spec_digits_of(n),
    decreases n,
{
    if n < 10 {
        out.push(digit_char_of(n));
    } else {
        push_u64(out, n / 10);
        out.push(digit_char_of(n % 10));
    }
    proof {
        assert(out@ =~= old(out)@ + spec_digits_of(n));
    }
}

proof fn lemma_escape_push(t: Seq<char>, c: char)
    ensures
        spec_escape(t.push(c)) == spec_escape(t) + spec_escape_char(c),
    decreases t.len(),
{
    let tp = t.push(c);
    if t.len() == 0 {
        assert(tp.drop_first() =~= Seq::<char>::empty());
        assert(tp[0] == c);
        assert(spec_escape(tp) == spec_escape_char(c) + spec_escape(tp.drop_first()));
        assert(spec_escape(tp) =~= spec_escape(t) + spec_escape_char(c));
    } else {
        assert(tp[0] == t[0]);
        assert(tp.drop_first() =~= t.drop_first().push(c));
        lemma_escape_push(t.drop_first(), c);
        assert(spec_escape(tp) == spec_escape_char(t[0]) + spec_escape(tp.drop_first()));
        assert(spec_escape(t) == spec_escape_char(t[0]) + spec_escape(t.drop_first()));
        assert(spec_escape(tp) =~= spec_escape(t) + spec_escape_char(c));
    }
}

/// Append a string value: quoted, with every character escaped as the wire
/// grammar asks.
fn push_quoted(out: &mut Vec<char>, s: &str)
    ensures
        final(out)@ == old(out)@ + spec_quoted(s@),
{
    out.push('"');
    let n = s.unicode_len();
    let mut i: usize = 0;
    while i < n
        invariant
            n == s@.len(),
            i <= n,
            out@ == old(out)@ + seq!['"'] + spec_escape(s@.subrange(0, i as int)),
        decreases n - i,
    {
        let c = s.get_char(i);
        let u = c as u32;
        if c == '"' {
            out.push('\\');
            out.push('"');
        } else if c == '\\' {
            out.push('\\');
            out.push('\\');
        } else if c == '\n' {
            out.push('\\');
            out.push('n');
        } else if c == '\r' {
            out.push('\\');
            out.push('r');
        } else if c == '\t' {
            out.push('\\');
            out.push('t');
        } else if u < 0x20 {
            out.push('\\');
            out.push('u');
            out.push('0');
            out.push('0');
            out.push(hex_char_of(u / 16));
            out.push(hex_char_of(u % 16));
        } else {
            out.push(c);
        }
        proof {
            lemma_escape_push(s@.subrange(0, i as int), c);
            assert(s@.subrange(0, i as int).push(c) =~= s@.subrange(0, i + 1 as int));
            assert(out@ =~= old(out)@ + seq!['"'] + spec_escape(s@.subrange(0, i + 1 as int)));
        }
        i = i + 1;
    }
    out.push('"');
    proof {
        assert(s@.subrange(0, n as int) =~= s@);
        assert(out@ =~= old(out)@ + spec_quoted(s@));
    }
}

// ---------------------------------------------------------------------------
// Executable parsing
// ---------------------------------------------------------------------------

/// A parsed member value.
enum ParsedValue {
    Text(Vec<char>),
    Number(u64),
}

impl View for ParsedValue {
    type V = FieldView;

    closed spec fn view(&self) -> FieldView {
        match self {
            ParsedValue::Text(t) => FieldView::Text(t@),
            ParsedValue::Number(n) => FieldView::Number(*n),
        }
    }
}

/// A parsed `"key": value` member.
struct ParsedField {
    name: Vec<char>,
    value: ParsedValue,
}

impl View for ParsedField {
    type V = (Seq<char>, FieldView);

    closed spec fn view(&self) -> (Seq<char>, FieldView) {
        (self.name@, self.value@)
    }
}

spec fn fields_view(fs: Seq<ParsedField>) -> Seq<(Seq<char>, FieldView)> {
    fs.map_values(|f: ParsedField| f@)
}

fn is_ws(c: char) -> (r: bool)
    ensures
        r == is_ws_char(c),
{
    c == ' ' || c == '\t' || c == '\n' || c == '\r'
}

fn is_digit(c: char) -> (r: bool)
    ensures
        r == is_digit_char(c),
{
    let u = c as u32;
    48 <= u && u <= 57
}

fn is_hex(c: char) -> (r: bool)
    ensures
        r == is_hex_char(c),
{
    let u = c as u32;
    (48 <= u && u <= 57) || (97 <= u && u <= 102) || (65 <= u && u <= 70)
}

fn hex_value(c: char) -> (r: u32)
    requires
        is_hex_char(c),
    ensures
        r as int == hex_val(c),
{
    let u = c as u32;
    if 48 <= u && u <= 57 {
        u - 48
    } else if 97 <= u && u <= 102 {
        u - 87
    } else {
        u - 55
    }
}

fn escape_code(e: char) -> (r: Option<char>)
    ensures
        r == spec_escape_code(e),
{
    if e == '"' {
        Some('"')
    } else if e == '\\' {
        Some('\\')
    } else if e == '/' {
        Some('/')
    } else if e == 'n' {
        Some('\n')
    } else if e == 'r' {
        Some('\r')
    } else if e == 't' {
        Some('\t')
    } else if e == 'b' {
        Some('\u{8}')
    } else if e == 'f' {
        Some('\u{c}')
    } else {
        None
    }
}

fn skip_ws(s: &Vec<char>, i: usize) -> (j: usize)
    requires
        i <= s.len(),
    ensures
        j as int == spec_skip_ws(s@, i as int),
        i <= j <= s.len(),
{
    let mut k: usize = i;
    loop
        invariant_except_break
            i <= k <= s.len(),
            spec_skip_ws(s@, i as int) == spec_skip_ws(s@, k as int),
        ensures
            i <= k <= s.len(),
            spec_skip_ws(s@, i as int) == k as int,
        decreases s.len() - k,
    {
        if k == s.len() {
            break ;
        }
        if !is_ws(s[k]) {
            break ;
        }
        k = k + 1;
    }
    k
}

/// How far the text between the quotes has been decoded: what has been read
/// so far, glued to whatever the rest decodes to, is what the whole decodes
/// to.
spec fn body_rel(s: Seq<char>, i: int, pre: Seq<char>, k: int) -> bool {
    match spec_parse_string_body(s, k) {
        Some(tj) => spec_parse_string_body(s, i) == Some::<(Seq<char>, int)>(
            (pre + tj.0, tj.1),
        ),
        None => spec_parse_string_body(s, i) is None,
    }
}

proof fn lemma_body_rel_refl(s: Seq<char>, i: int)
    ensures
        body_rel(s, i, Seq::empty(), i),
{
    match spec_parse_string_body(s, i) {
        Some(tj) => {
            assert(Seq::<char>::empty() + tj.0 =~= tj.0);
        },
        None => {},
    }
}

proof fn lemma_body_rel_step(s: Seq<char>, i: int, pre: Seq<char>, k: int, k2: int, ch: char)
    requires
        body_rel(s, i, pre, k),
        spec_parse_string_body(s, k) == (match spec_parse_string_body(s, k2) {
            Some(tj) => Some::<(Seq<char>, int)>((seq![ch] + tj.0, tj.1)),
            None => None,
        }),
    ensures
        body_rel(s, i, pre.push(ch), k2),
{
    match spec_parse_string_body(s, k2) {
        Some(tj) => {
            assert(pre + (seq![ch] + tj.0) =~= pre.push(ch) + tj.0);
        },
        None => {},
    }
}

/// Parse a quoted string whose opening quote stands at `i`.
fn parse_string(s: &Vec<char>, i: usize) -> (r: Option<(Vec<char>, usize)>)
    requires
        i <= s.len(),
    ensures
        match r {
            Some(p) => spec_parse_string(s@, i as int) == Some::<(Seq<char>, int)>(
                (p.0@, p.1 as int),
            ) && i < p.1 <= s.len(),
            None => spec_parse_string(s@, i as int) is None,
        },
{
    if i == s.len() || s[i] != '"' {
        return None;
    }
    let mut acc: Vec<char> = Vec::new();
    let mut k: usize = i + 1;
    proof {
        lemma_body_rel_refl(s@, i + 1);
    }
    loop
        invariant
            i < s.len(),
            s@[i as int] == '"',
            i + 1 <= k <= s.len(),
            body_rel(s@, i + 1, acc@, k as int),
        decreases s.len() - k,
    {
        if k == s.len() {
            proof {
                assert(spec_parse_string_body(s@, k as int) is None);
            }
            return None;
        }
        let c = s[k];
        if c == '"' {
            proof {
                assert(spec_parse_string_body(s@, k as int) == Some::<(Seq<char>, int)>(
                    (Seq::empty(), k + 1),
                ));
                assert(acc@ + Seq::<char>::empty() =~= acc@);
            }
            return Some((acc, k + 1));
        } else if c == '\\' {
            if k + 1 == s.len() {
                proof {
                    assert(spec_parse_string_body(s@, k as int) is None);
                }
                return None;
            }
            let e = s[k + 1];
            if e == 'u' {
                if s.len() - k > 5 && s[k + 2] == '0' && s[k + 3] == '0' && is_hex(s[k + 4])
                    && is_hex(s[k + 5]) {
                    let code: u32 = hex_value(s[k + 4]) * 16 + hex_value(s[k + 5]);
                    let ch: char = (code as u8) as char;
                    proof {
                        lemma_body_rel_step(s@, i + 1, acc@, k as int, k + 6, ch);
                    }
                    acc.push(ch);
                    k = k + 6;
                } else {
                    proof {
                        assert(spec_parse_string_body(s@, k as int) is None);
                    }
                    return None;
                }
            } else {
                match escape_code(e) {
                    Some(c2) => {
                        proof {
                            lemma_body_rel_step(s@, i + 1, acc@, k as int, k + 2, c2);
                        }
                        acc.push(c2);
                        k = k + 2;
                    },
                    None => {
                        proof {
                            assert(spec_parse_string_body(s@, k as int) is None);
                        }
                        return None;
                    },
                }
            }
        } else if (c as u32) < 0x20 {
            proof {
                assert(spec_parse_string_body(s@, k as int) is None);
            }
            return None;
        } else {
            proof {
                lemma_body_rel_step(s@, i + 1, acc@, k as int, k + 1, c);
            }
            acc.push(c);
            k = k + 1;
        }
    }
}

proof fn lemma_digits_value_nonneg(ds: Seq<char>)
    requires
        forall|t: int| 0 <= t < ds.len() ==> is_digit_char(ds[t]),
    ensures
        spec_digits_value(ds) >= 0,
    decreases ds.len(),
{
    if ds.len() > 0 {
        lemma_digits_value_nonneg(ds.drop_last());
    }
}

proof fn lemma_digits_value_mono(s: Seq<char>, i: int, j1: int, j2: int)
    requires
        0 <= i <= j1 <= j2 <= s.len(),
        forall|t: int| i <= t < j2 ==> is_digit_char(s[t]),
    ensures
        spec_digits_value(s.subrange(i, j1)) <= spec_digits_value(s.subrange(i, j2)),
    decreases j2 - j1,
{
    if j1 < j2 {
        lemma_digits_value_mono(s, i, j1, j2 - 1);
        let full = s.subrange(i, j2);
        assert(full.drop_last() =~= s.subrange(i, j2 - 1));
        assert(forall|t: int| 0 <= t < full.len() ==> is_digit_char(full[t]));
        lemma_digits_value_nonneg(s.subrange(i, j2 - 1));
    }
}

proof fn lemma_scan_digits_props(s: Seq<char>, i: int)
    requires
        0 <= i <= s.len(),
    ensures
        i <= spec_scan_digits(s, i) <= s.len(),
        forall|t: int| i <= t < spec_scan_digits(s, i) ==> is_digit_char(s[t]),
    decreases s.len() - i,
{
    if i < s.len() && is_digit_char(s[i]) {
        lemma_scan_digits_props(s, i + 1);
    }
}

/// Parse an unsigned decimal number starting at `i`.
fn parse_number(s: &Vec<char>, i: usize) -> (r: Option<(u64, usize)>)
    requires
        i <= s.len(),
    ensures
        match r {
            Some(p) => spec_parse_number(s@, i as int) == Some::<(u64, int)>((p.0, p.1 as int))
                && i < p.1 <= s.len(),
            None => spec_parse_number(s@, i as int) is None,
        },
{
    let mut k: usize = i;
    let mut acc: u64 = 0;
    loop
        invariant_except_break
            i <= k <= s.len(),
            spec_scan_digits(s@, i as int) == spec_scan_digits(s@, k as int),
            forall|t: int| i <= t < k ==> is_digit_char(s@[t]),
            acc as int == spec_digits_value(s@.subrange(i as int, k as int)),
        ensures
            i <= k <= s.len(),
            spec_scan_digits(s@, i as int) == k as int,
            forall|t: int| i <= t < k ==> is_digit_char(s@[t]),
            acc as int == spec_digits_value(s@.subrange(i as int, k as int)),
        decreases s.len() - k,
    {
        if k == s.len() {
            break ;
        }
        let c = s[k];
        if !is_digit(c) {
            break ;
        }
        let d: u64 = ((c as u32) - 48) as u64;
        proof {
            assert(s@.subrange(i as int, k + 1 as int).drop_last() =~= s@.subrange(
                i as int,
                k as int,
            ));
            assert(spec_digits_value(s@.subrange(i as int, k + 1 as int)) == acc * 10 + d);
        }
        if acc > (u64::MAX - d) / 10 {
            // The digits already read overrun 64 bits, so the whole run does.
            proof {
                assert(acc * 10 + d > u64::MAX) by (nonlinear_arith)
                    requires
                        acc > (u64::MAX - d) / 10,
                        d <= 9,
                ;
                lemma_scan_digits_props(s@, i as int);
                lemma_scan_digits_props(s@, k + 1 as int);
                let jend = spec_scan_digits(s@, i as int);
                assert(jend == spec_scan_digits(s@, k as int));
                assert(spec_scan_digits(s@, k as int) == spec_scan_digits(s@, k + 1 as int));
                assert(jend >= k + 1);
                lemma_digits_value_mono(s@, i as int, k + 1 as int, jend);
                assert(spec_digits_value(s@.subrange(i as int, jend)) > u64::MAX);
                assert(spec_parse_number(s@, i as int) is None);
            }
            return None;
        }
        proof {
            assert(acc * 10 + d <= u64::MAX) by (nonlinear_arith)
                requires
                    acc <= (u64::MAX - d) / 10,
                    d <= 9,
            ;
        }
        acc = acc * 10 + d;
        k = k + 1;
    }
    if k == i {
        proof {
            assert(spec_parse_number(s@, i as int) is None);
        }
        return None;
    }
    proof {
        assert(spec_parse_number(s@, i as int) == Some::<(u64, int)>((acc, k as int)));
    }
    Some((acc, k))
}

/// Parse a member value: a quoted string or a number.
fn parse_value(s: &Vec<char>, i: usize) -> (r: Option<(ParsedValue, usize)>)
    requires
        i <= s.len(),
    ensures
        match r {
            Some(p) => spec_parse_value(s@, i as int) == Some::<(FieldView, int)>(
                (p.0@, p.1 as int),
            ) && i < p.1 <= s.len(),
            None => spec_parse_value(s@, i as int) is None,
        },
{
    if i < s.len() && s[i] == '"' {
        match parse_string(s, i) {
            Some((t, j)) => Some((ParsedValue::Text(t), j)),
            None => None,
        }
    } else {
        match parse_number(s, i) {
            Some((n, j)) => Some((ParsedValue::Number(n), j)),
            None => None,
        }
    }
}

/// Parse one `"key": value` member starting at `i`.
fn parse_member(s: &Vec<char>, i: usize) -> (r: Option<(ParsedField, usize)>)
    requires
        i <= s.len(),
    ensures
        match r {
            Some(p) => spec_parse_member(s@, i as int) == Some::<((Seq<char>, FieldView), int)>(
                (p.0@, p.1 as int),
            ) && i < p.1 <= s.len(),
            None => spec_parse_member(s@, i as int) is None,
        },
{
    let (name, j1) = match parse_string(s, i) {
        Some(p) => p,
        None => {
            return None;
        },
    };
    let j2 = skip_ws(s, j1);
    if j2 == s.len() || s[j2] != ':' {
        return None;
    }
    let j3 = skip_ws(s, j2 + 1);
    match parse_value(s, j3) {
        Some((v, j4)) => Some((ParsedField { name, value: v }, j4)),
        None => None,
    }
}

/// How far the member list has been parsed: the members read so far, glued
/// to whatever the rest parses to, are what the whole parses to.
spec fn members_rel(s: Seq<char>, i: int, pre: Seq<(Seq<char>, FieldView)>, k: int) -> bool {
    match spec_parse_members(s, k) {
        Some(mj) => spec_parse_members(s, i) == Some::<(Seq<(Seq<char>, FieldView)>, int)>(
            (pre + mj.0, mj.1),
        ),
        None => spec_parse_members(s, i) is None,
    }
}

proof fn lemma_members_rel_refl(s: Seq<char>, i: int)
    ensures
        members_rel(s, i, Seq::empty(), i),
{
    match spec_parse_members(s, i) {
        Some(mj) => {
            assert(Seq::<(Seq<char>, FieldView)>::empty() + mj.0 =~= mj.0);
        },
        None => {},
    }
}

proof fn lemma_members_rel_step(
    s: Seq<char>,
    i: int,
    pre: Seq<(Seq<char>, FieldView)>,
    k: int,
    k2: int,
    m: (Seq<char>, FieldView),
)
    requires
        members_rel(s, i, pre, k),
        spec_parse_members(s, k) == (match spec_parse_members(s, k2) {
            Some(mj) => Some::<(Seq<(Seq<char>, FieldView)>, int)>((seq![m] + mj.0, mj.1)),
            None => None,
        }),
    ensures
        members_rel(s, i, pre.push(m), k2),
{
    match spec_parse_members(s, k2) {
        Some(mj) => {
            assert(pre + (seq![m] + mj.0) =~= pre.push(m) + mj.0);
        },
        None => {},
    }
}

/// Parse a non-empty member list starting at `i`, through the closing brace.
fn parse_members(s: &Vec<char>, i: usize) -> (r: Option<(Vec<ParsedField>, usize)>)
    requires
        i <= s.len(),
    ensures
        match r {
            Some(p) => spec_parse_members(s@, i as int) == Some::<
                (Seq<(Seq<char>, FieldView)>, int),
            >((fields_view(p.0@), p.1 as int)) && p.1 <= s.len(),
            None => spec_parse_members(s@, i as int) is None,
        },
{
    let mut acc: Vec<ParsedField> = Vec::new();
    let mut k: usize = i;
    proof {
        lemma_members_rel_refl(s@, i as int);
        assert(fields_view(acc@) =~= Seq::<(Seq<char>, FieldView)>::empty());
    }
    loop
        invariant
            i <= k <= s.len(),
            members_rel(s@, i as int, fields_view(acc@), k as int),
        decreases s.len() - k,
    {
        let (f, j) = match parse_member(s, k) {
            Some(p) => p,
            None => {
                proof {
                    assert(spec_parse_members(s@, k as int) is None);
                }
                return None;
            },
        };
        let j1 = skip_ws(s, j);
        if j1 < s.len() && s[j1] == ',' {
            let j2 = skip_ws(s, j1 + 1);
            proof {
                let m = f@;
                assert(spec_parse_members(s@, k as int) == (match spec_parse_members(
                    s@,
                    j2 as int,
                ) {
                    Some(mj) => Some::<(Seq<(Seq<char>, FieldView)>, int)>(
                        (seq![m] + mj.0, mj.1),
                    ),
                    None => None,
                }));
                lemma_members_rel_step(s@, i as int, fields_view(acc@), k as int, j2 as int, m);
                assert(fields_view(acc@.push(f)) =~= fields_view(acc@).push(m));
            }
            acc.push(f);
            k = j2;
        } else if j1 < s.len() && s[j1] == '}' {
            proof {
                let m = f@;
                assert(spec_parse_members(s@, k as int) == Some::<
                    (Seq<(Seq<char>, FieldView)>, int),
                >((seq![m], j1 + 1)));
                assert(fields_view(acc@) + seq![m] =~= fields_view(acc@.push(f)));
            }
            acc.push(f);
            return Some((acc, j1 + 1));
        } else {
            proof {
                assert(spec_parse_members(s@, k as int) is None);
            }
            return None;
        }
    }
}

/// Parse one whole object from the start of the payload.
fn parse_object(s: &Vec<char>) -> (r: Option<(Vec<ParsedField>, usize)>)
    ensures
        match r {
            Some(p) => spec_parse_object(s@) == Some::<(Seq<(Seq<char>, FieldView)>, int)>(
                (fields_view(p.0@), p.1 as int),
            ) && p.1 <= s.len(),
            None => spec_parse_object(s@) is None,
        },
{
    let i0 = skip_ws(s, 0);
    if i0 == s.len() || s[i0] != '{' {
        return None;
    }
    let i1 = skip_ws(s, i0 + 1);
    if i1 < s.len() && s[i1] == '}' {
        let fs: Vec<ParsedField> = Vec::new();
        proof {
            assert(fields_view(fs@) =~= Seq::<(Seq<char>, FieldView)>::empty());
        }
        Some((fs, i1 + 1))
    } else {
        parse_members(s, i1)
    }
}

fn chars_eq_lit(v: &Vec<char>, lit: &str) -> (r: bool)
    ensures
        r == (v@ == lit@),
{
    let n = lit.unicode_len();
    if v.len() != n {
        proof {
            if v@ == lit@ {
                assert(v@.len() == lit@.len());
            }
        }
        return false;
    }
    let mut i: usize = 0;
    while i < n
        invariant
            i <= n,
            n == lit@.len(),
            v@.len() == n,
            forall|t: int| 0 <= t < i ==> v@[t] == lit@[t],
        decreases n - i,
    {
        if v[i] != lit.get_char(i) {
            proof {
                if v@ == lit@ {
                    assert(v@[i as int] == lit@[i as int]);
                }
            }
            return false;
        }
        i = i + 1;
    }
    proof {
        assert(v@ =~= lit@);
    }
    true
}

/// Index of the first member with the given key, if any.
fn lookup(fields: &Vec<ParsedField>, name: &str) -> (r: Option<usize>)
    ensures
        match r {
            Some(k) => k < fields.len() && spec_lookup(fields_view(fields@), name@) == Some(
                fields@[k as int]@.1,
            ),
            None => spec_lookup(fields_view(fields@), name@) is None,
        },
{
    let ghost whole = fields_view(fields@);
    let mut i: usize = 0;
    proof {
        assert(whole.subrange(0, whole.len() as int) =~= whole);
    }
    while i < fields.len()
        invariant
            i <= fields.len(),
            whole == fields_view(fields@),
            whole.len() == fields.len(),
            spec_lookup(whole, name@) == spec_lookup(
                whole.subrange(i as int, whole.len() as int),
                name@,
            ),
        decreases fields.len() - i,
    {
        let hit = chars_eq_lit(&fields[i].name, name);
        proof {
            let sub = whole.subrange(i as int, whole.len() as int);
            assert(sub[0] == whole[i as int]);
            assert(whole[i as int] == fields@[i as int]@);
            if !hit {
                assert(sub.drop_first() =~= whole.subrange(i + 1 as int, whole.len() as int));
            }
        }
        if hit {
            return Some(i);
        }
        i = i + 1;
    }
    proof {
        assert(whole.subrange(i as int, whole.len() as int) =~= Seq::<
            (Seq<char>, FieldView),
        >::empty());
    }
    None
}

fn field_num(fields: &Vec<ParsedField>, name: &str) -> (r: Result<u64, DecodeError>)
    ensures
        r == spec_field_num(fields_view(fields@), name@),
{
    match lookup(fields, name) {
        None => Err(DecodeError::MissingField),
        Some(k) => match &fields[k].value {
            ParsedValue::Number(n) => Ok(*n),
            ParsedValue::Text(_) => Err(DecodeError::WrongFieldType),
        },
    }
}

fn field_text(fields: &Vec<ParsedField>, name: &str) -> (r: Result<String, DecodeError>)
    ensures
        match r {
            Ok(t) => spec_field_text(fields_view(fields@), name@) == Ok::<Seq<char>, DecodeError>(
                t@,
            ),
            Err(e) => spec_field_text(fields_view(fields@), name@) == Err::<Seq<char>, DecodeError>(
                e,
            ),
        },
{
    match lookup(fields, name) {
        None => Err(DecodeError::MissingField),
        Some(k) => match &fields[k].value {
            ParsedValue::Text(t) => Ok(chars_to_string(t)),
            ParsedValue::Number(_) => Err(DecodeError::WrongFieldType),
        },
    }
}

/// Decode the text payload of one frame into a typed inbound message, or
/// say exactly which way the payload is unusable. Never panics: a malformed
/// frame is an ordinary error value.
pub fn decode(s: &str) -> (r: Result<RecvMessage, DecodeError>)
    ensures
        match r {
            Ok(m) => spec_decode(s@) == Ok::<RecvMessageView, DecodeError>(m@),
            Err(e) => spec_decode(s@) == Err::<RecvMessageView, DecodeError>(e),
        },
{
    let cs = str_to_chars(s);
    let (fields, j) = match parse_object(&cs) {
        Some(p) => p,
        None => {
            return Err(DecodeError::Malformed);
        },
    };
    let k = skip_ws(&cs, j);
    if k != cs.len() {
        return Err(DecodeError::Malformed);
    }
    let tk = match lookup(&fields, "type") {
        Some(t) => t,
        None => {
            return Err(DecodeError::MissingDiscriminator);
        },
    };
    let tag = match &fields[tk].value {
        ParsedValue::Text(t) => t,
        ParsedValue::Number(_) => {
            return Err(DecodeError::WrongFieldType);
        },
    };
    if chars_eq_lit(tag, "Message") {
        let sender = match field_num(&fields, "sender") {
            Ok(n) => n,
            Err(e) => {
                return Err(e);
            },
        };
        let message = match field_text(&fields, "message") {
            Ok(t) => t,
            Err(e) => {
                return Err(e);
            },
        };
        Ok(RecvMessage::Message { sender, message })
    } else if chars_eq_lit(tag, "ImageMessage") {
        let sender = match field_num(&fields, "sender") {
            Ok(n) => n,
            Err(e) => {
                return Err(e);
            },
        };
        let url = match field_text(&fields, "url") {
            Ok(t) => t,
            Err(e) => {
                return Err(e);
            },
        };
        Ok(RecvMessage::ImageMessage { sender, url })
    } else {
        Err(DecodeError::UnknownDiscriminator)
    }
}

/// Produce the exact text payload for an outbound message.
pub fn encode(m: &SendMessage) -> (r: String)
    ensures
        r@ == spec_encode_send(m@),
{
    let mut out: Vec<char> = Vec::new();
    match m {
        SendMessage::Message { message, reciever } => {
            push_lit(&mut out, "{\"type\":\"Message\",\"message\":");
            push_quoted(&mut out, message.as_str());
            push_lit(&mut out, ",\"reciever\":");
            push_u64(&mut out, *reciever);
            push_lit(&mut out, "}");
        },
    }
    proof {
        assert(out@ =~= spec_encode_send(m@));
    }
    chars_to_string(&out)
}

// ---------------------------------------------------------------------------
// Service payloads
// ---------------------------------------------------------------------------
// The identity service answers with objects of the same small grammar as the
// frames, so the one parser reads them too.

/// The identity and token a login answer carries: an absent or mistyped
/// `id` counts as zero, an absent or mistyped `token` as empty.
pub open spec fn spec_login_of(fields: Seq<(Seq<char>, FieldView)>) -> (u64, Seq<char>) {
    (
        match spec_lookup(fields, "id"@) {
            Some(FieldView::Number(n)) => n,
            _ => 0,
        },
        match spec_lookup(fields, "token"@) {
            Some(FieldView::Text(t)) => t,
            _ => Seq::empty(),
        },
    )
}

pub open spec fn spec_parse_login(s: Seq<char>) -> Result<(u64, Seq<char>), DecodeError> {
    match spec_parse_object(s) {
        None => Err(DecodeError::Malformed),
        Some((fields, j)) => {
            if spec_skip_ws(s, j) == s.len() {
                Ok(spec_login_of(fields))
            } else {
                Err(DecodeError::Malformed)
            }
        },
    }
}

/// Read the identity and token out of a login answer.
pub fn parse_login_response(s: &str) -> (r: Result<(u64, String), DecodeError>)
    ensures
        match r {
            Ok(p) => spec_parse_login(s@) == Ok::<(u64, Seq<char>), DecodeError>((p.0, p.1@)),
            Err(e) => spec_parse_login(s@) == Err::<(u64, Seq<char>), DecodeError>(e),
        },
{
    let cs = str_to_chars(s);
    let (fields, j) = match parse_object(&cs) {
        Some(p) => p,
        None => {
            return Err(DecodeError::Malformed);
        },
    };
    let k = skip_ws(&cs, j);
    if k != cs.len() {
        return Err(DecodeError::Malformed);
    }
    let id: u64 = match lookup(&fields, "id") {
        Some(t) => match &fields[t].value {
            ParsedValue::Number(n) => *n,
            ParsedValue::Text(_) => 0,
        },
        None => 0,
    };
    let token: String = match lookup(&fields, "token") {
        Some(t) => match &fields[t].value {
            ParsedValue::Text(v) => chars_to_string(v),
            ParsedValue::Number(_) => String::new(),
        },
        None => String::new(),
    };
    Ok((id, token))
}

pub open spec fn spec_parse_profile(s: Seq<char>) -> Result<(Seq<char>, u64), DecodeError> {
    match spec_parse_object(s) {
        None => Err(DecodeError::Malformed),
        Some((fields, j)) => {
            if spec_skip_ws(s, j) == s.len() {
                match spec_field_text(fields, "name"@) {
                    Err(e) => Err(e),
                    Ok(name) => match spec_field_num(fields, "id"@) {
                        Err(e) => Err(e),
                        Ok(id) => Ok((name, id)),
                    },
                }
            } else {
                Err(DecodeError::Malformed)
            }
        },
    }
}

/// Read the name and identity out of a profile answer. Both fields are
/// owed: their absence is an error, never a crash.
pub fn parse_profile_response(s: &str) -> (r: Result<(String, u64), DecodeError>)
    ensures
        match r {
            Ok(p) => spec_parse_profile(s@) == Ok::<(Seq<char>, u64), DecodeError>((p.0@, p.1)),
            Err(e) => spec_parse_profile(s@) == Err::<(Seq<char>, u64), DecodeError>(e),
        },
{
    let cs = str_to_chars(s);
    let (fields, j) = match parse_object(&cs) {
        Some(p) => p,
        None => {
            return Err(DecodeError::Malformed);
        },
    };
    let k = skip_ws(&cs, j);
    if k != cs.len() {
        return Err(DecodeError::Malformed);
    }
    let name = match field_text(&fields, "name") {
        Ok(t) => t,
        Err(e) => {
            return Err(e);
        },
    };
    let id = match field_num(&fields, "id") {
        Ok(n) => n,
        Err(e) => {
            return Err(e);
        },
    };
    Ok((name, id))
}

/// A whole payload that is nothing but the decimal digits of one number.
pub open spec fn spec_parse_u64(s: Seq<char>) -> Option<u64> {
    match spec_parse_number(s, 0) {
        Some((n, j)) => if j == s.len() {
            Some(n)
        } else {
            None
        },
        None => None,
    }
}

/// Read an identity sent as bare digits.
pub fn parse_u64(s: &str) -> (r: Option<u64>)
    ensures
        r == spec_parse_u64(s@),
{
    let cs = str_to_chars(s);
    match parse_number(&cs, 0) {
        Some((n, j)) => {
            if j == cs.len() {
                Some(n)
            } else {
                None
            }
        },
        None => None,
    }
}

/// The label a person is shown under: the name, a hash sign, the identity.
pub fn profile_label(name: &str, id: u64) -> (r: String)
    ensures
        r@ == name@ + seq!['#'] + spec_digits_of(id),
{
    let mut out: Vec<char> = Vec::new();
    push_lit(&mut out, name);
    push_lit(&mut out, "#");
    push_u64(&mut out, id);
    proof {
        reveal_strlit("#");
        assert("#"@ =~= seq!['#']);
        assert(out@ =~= name@ + seq!['#'] + spec_digits_of(id));
    }
    chars_to_string(&out)
}

} // verus!
