//! Exercises the wire codec on concrete payloads.

use bane_relay::codec::{
    decode, encode, parse_login_response, parse_profile_response, parse_u64, profile_label,
};
use bane_relay::{DecodeError, RecvMessage, SendMessage};

#[test]
fn encode_chat_exact_frame() {
    let m = SendMessage::Message { message: String::from("hi"), reciever: 42 };
    assert_eq!(encode(&m), "{\"type\":\"Message\",\"message\":\"hi\",\"reciever\":42}");
}

#[test]
fn encode_escapes_every_special_character() {
    let m = SendMessage::Message {
        message: String::from("a\"b\\c\nd\te\rf\u{1}"),
        reciever: 0,
    };
    assert_eq!(
        encode(&m),
        "{\"type\":\"Message\",\"message\":\"a\\\"b\\\\c\\nd\\te\\rf\\u0001\",\"reciever\":0}"
    );
}

#[test]
fn encode_largest_recipient() {
    let m = SendMessage::Message { message: String::new(), reciever: u64::MAX };
    assert_eq!(
        encode(&m),
        "{\"type\":\"Message\",\"message\":\"\",\"reciever\":18446744073709551615}"
    );
}

#[test]
fn decode_chat_frame() {
    let r = decode("{\"type\":\"Message\",\"sender\":42,\"message\":\"hello\"}");
    assert_eq!(
        r,
        Ok(RecvMessage::Message { sender: 42, message: String::from("hello") })
    );
}

#[test]
fn decode_image_frame() {
    let r = decode("{\"type\":\"ImageMessage\",\"sender\":7,\"url\":\"http://e/x.png\"}");
    assert_eq!(
        r,
        Ok(RecvMessage::ImageMessage { sender: 7, url: String::from("http://e/x.png") })
    );
}

#[test]
fn decode_allows_whitespace_and_field_order() {
    let r = decode("{ \"message\" : \"hey\" , \"sender\" : 3 , \"type\" : \"Message\" }");
    assert_eq!(
        r,
        Ok(RecvMessage::Message { sender: 3, message: String::from("hey") })
    );
}

#[test]
fn decode_unescapes_text() {
    let r = decode("{\"type\":\"Message\",\"sender\":1,\"message\":\"a\\\"b\\\\c\\nd\\u0001e\\u0041\"}");
    assert_eq!(
        r,
        Ok(RecvMessage::Message { sender: 1, message: String::from("a\"b\\c\nd\u{1}eA") })
    );
}

#[test]
fn round_trip_chat_through_inbound_shape() {
    // The frame encode() produces, reinterpreted as the inbound frame of
    // matching shape: the recipient now stands in the sender field.
    let text = "weird \"text\"\\ with\nedges\t\u{2}";
    let m = SendMessage::Message { message: String::from(text), reciever: 913 };
    let frame = encode(&m);
    let payload = frame
        .strip_prefix("{\"type\":\"Message\",\"message\":")
        .unwrap()
        .strip_suffix("}")
        .unwrap();
    let (quoted, recipient) = payload.rsplit_once(",\"reciever\":").unwrap();
    let inbound = format!(
        "{{\"type\":\"Message\",\"sender\":{},\"message\":{}}}",
        recipient, quoted
    );
    assert_eq!(
        decode(&inbound),
        Ok(RecvMessage::Message { sender: 913, message: String::from(text) })
    );
}

#[test]
fn decode_rejects_malformed_payloads() {
    assert_eq!(decode(""), Err(DecodeError::Malformed));
    assert_eq!(decode("not json"), Err(DecodeError::Malformed));
    assert_eq!(decode("{\"type\":\"Message\""), Err(DecodeError::Malformed));
    assert_eq!(decode("{\"type\":\"Message\"} trailing"), Err(DecodeError::Malformed));
    // A raw control character inside a string.
    assert_eq!(decode("{\"type\":\"Mes\nsage\"}"), Err(DecodeError::Malformed));
    // An escape beyond the latin range this grammar carries.
    assert_eq!(
        decode("{\"type\":\"Message\",\"sender\":1,\"message\":\"\\u0141\"}"),
        Err(DecodeError::Malformed)
    );
    // A number that does not fit in 64 bits.
    assert_eq!(
        decode("{\"type\":\"Message\",\"sender\":99999999999999999999,\"message\":\"x\"}"),
        Err(DecodeError::Malformed)
    );
}

#[test]
fn decode_rejects_missing_discriminator() {
    assert_eq!(
        decode("{\"sender\":1,\"message\":\"x\"}"),
        Err(DecodeError::MissingDiscriminator)
    );
}

#[test]
fn decode_rejects_unknown_discriminator() {
    assert_eq!(
        decode("{\"type\":\"VoiceMessage\",\"sender\":1}"),
        Err(DecodeError::UnknownDiscriminator)
    );
}

#[test]
fn decode_rejects_missing_field() {
    assert_eq!(
        decode("{\"type\":\"Message\",\"message\":\"x\"}"),
        Err(DecodeError::MissingField)
    );
    assert_eq!(
        decode("{\"type\":\"Message\",\"sender\":1}"),
        Err(DecodeError::MissingField)
    );
    assert_eq!(
        decode("{\"type\":\"ImageMessage\",\"sender\":1}"),
        Err(DecodeError::MissingField)
    );
}

#[test]
fn decode_rejects_mistyped_fields() {
    assert_eq!(
        decode("{\"type\":\"Message\",\"sender\":\"one\",\"message\":\"x\"}"),
        Err(DecodeError::WrongFieldType)
    );
    assert_eq!(
        decode("{\"type\":\"Message\",\"sender\":1,\"message\":5}"),
        Err(DecodeError::WrongFieldType)
    );
    assert_eq!(decode("{\"type\":7}"), Err(DecodeError::WrongFieldType));
}

#[test]
fn decode_first_duplicate_key_counts() {
    let r = decode("{\"type\":\"Message\",\"sender\":1,\"sender\":2,\"message\":\"x\"}");
    assert_eq!(
        r,
        Ok(RecvMessage::Message { sender: 1, message: String::from("x") })
    );
}

#[test]
fn login_response_reads_id_and_token() {
    assert_eq!(
        parse_login_response("{\"id\":7,\"token\":\"SECRET-REDACTED\"}"),
        Ok((7, String::from("SECRET-REDACTED")))
    );
}

#[test]
fn login_response_defaults_when_absent_or_mistyped() {
    assert_eq!(parse_login_response("{}"), Ok((0, String::new())));
    assert_eq!(
        parse_login_response("{\"id\":\"seven\",\"token\":3}"),
        Ok((0, String::new()))
    );
}

#[test]
fn login_response_rejects_junk() {
    assert_eq!(parse_login_response("oops"), Err(DecodeError::Malformed));
}

#[test]
fn profile_response_reads_name_and_id() {
    assert_eq!(
        parse_profile_response("{\"name\":\"bob\",\"id\":9}"),
        Ok((String::from("bob"), 9))
    );
}

#[test]
fn profile_response_requires_both_fields() {
    assert_eq!(
        parse_profile_response("{\"id\":9}"),
        Err(DecodeError::MissingField)
    );
    assert_eq!(
        parse_profile_response("{\"name\":3,\"id\":9}"),
        Err(DecodeError::WrongFieldType)
    );
}

#[test]
fn bare_number_payloads() {
    assert_eq!(parse_u64("123"), Some(123));
    assert_eq!(parse_u64("0"), Some(0));
    assert_eq!(parse_u64(""), None);
    assert_eq!(parse_u64("12x"), None);
    assert_eq!(parse_u64("18446744073709551615"), Some(u64::MAX));
    assert_eq!(parse_u64("18446744073709551616"), None);
}

#[test]
fn profile_labels() {
    assert_eq!(profile_label("bob", 9), "bob#9");
    assert_eq!(profile_label("", 0), "#0");
}
