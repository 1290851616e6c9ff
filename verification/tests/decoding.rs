use udp_mqtt_bridge::decoder::{decode_datagram, DecodedMessage, DropReason};
use udp_mqtt_bridge::framing::split_message;

fn decoded(bytes: &[u8]) -> DecodedMessage {
    match decode_datagram(bytes) {
        Ok(message) => message,
        Err(reason) => panic!("unexpected drop: {:?}", reason),
    }
}

#[test]
fn split_at_single_delimiter() {
    assert_eq!(split_message("sensors/temp:21.5"), (Some("sensors/temp"), Some("21.5")));
}

#[test]
fn split_only_at_first_delimiter() {
    assert_eq!(split_message("a:b:c"), (Some("a"), Some("b:c")));
}

#[test]
fn split_without_delimiter_has_no_payload() {
    assert_eq!(split_message("no delimiter here"), (Some("no delimiter here"), None));
}

#[test]
fn split_empty_text() {
    assert_eq!(split_message(""), (Some(""), None));
}

#[test]
fn split_lone_delimiter() {
    assert_eq!(split_message(":"), (Some(""), Some("")));
}

#[test]
fn split_leading_delimiter() {
    assert_eq!(split_message(":payload"), (Some(""), Some("payload")));
}

#[test]
fn split_trailing_delimiter() {
    assert_eq!(split_message("topic:"), (Some("topic"), Some("")));
}

#[test]
fn split_does_not_trim() {
    assert_eq!(split_message(" a b : c d "), (Some(" a b "), Some(" c d ")));
}

#[test]
fn split_keeps_multibyte_text() {
    assert_eq!(split_message("温度/室内:二十一度"), (Some("温度/室内"), Some("二十一度")));
    assert_eq!(split_message("é:ü:😀"), (Some("é"), Some("ü:😀")));
}

#[test]
fn split_agrees_with_std() {
    let samples = ["", ":", "::", "a", "a:", ":a", "a:b", "a:b:c", "x/y/z:1:2:3", "ö:ß", "日本:語"];
    for text in samples {
        let expected: Vec<&str> = text.splitn(2, ':').collect();
        let parts = split_message(text);
        assert_eq!(parts.0, Some(expected[0]));
        assert_eq!(parts.1, expected.get(1).copied());
    }
}

#[test]
fn decode_topic_and_payload() {
    let message = decoded(b"sensors/temp:21.5");
    assert_eq!(message.topic.as_deref(), Some("sensors/temp"));
    assert_eq!(message.payload.as_deref(), Some("21.5"));
    assert!(message.is_eligible());
}

#[test]
fn decode_splits_at_first_delimiter_only() {
    let message = decoded(b"a:b:c");
    assert_eq!(message.topic.as_deref(), Some("a"));
    assert_eq!(message.payload.as_deref(), Some("b:c"));
}

#[test]
fn decode_without_delimiter_is_not_eligible() {
    let message = decoded(b"just a topic");
    assert_eq!(message.topic.as_deref(), Some("just a topic"));
    assert_eq!(message.payload, None);
    assert!(!message.is_eligible());
}

#[test]
fn decode_empty_datagram() {
    let message = decoded(b"");
    assert_eq!(message.topic.as_deref(), Some(""));
    assert_eq!(message.payload, None);
    assert!(!message.is_eligible());
}

#[test]
fn decode_rejects_invalid_text() {
    let lone_continuation: &[u8] = &[0x80];
    let truncated: &[u8] = &[b'a', b':', 0xe3, 0x81];
    let overlong: &[u8] = &[0xc0, 0xaf];
    let surrogate: &[u8] = &[0xed, 0xa0, 0x80];
    let too_large: &[u8] = &[0xf4, 0x90, 0x80, 0x80];
    let invalid_byte: &[u8] = &[b't', b':', 0xff];
    for bytes in [lone_continuation, truncated, overlong, surrogate, too_large, invalid_byte] {
        match decode_datagram(bytes) {
            Err(reason) => assert_eq!(reason, DropReason::InvalidText),
            Ok(message) => panic!("accepted {:?} as {:?}", bytes, message),
        }
    }
}

#[test]
fn decode_accepts_every_encoding_width() {
    let message = decoded("a\u{e9}\u{20ac}\u{1f600}:\u{1f600}\u{20ac}\u{e9}a".as_bytes());
    assert_eq!(message.topic.as_deref(), Some("a\u{e9}\u{20ac}\u{1f600}"));
    assert_eq!(message.payload.as_deref(), Some("\u{1f600}\u{20ac}\u{e9}a"));
}

#[test]
fn decode_is_repeatable() {
    let bytes = b"repeat:me";
    let first = decoded(bytes);
    let second = decoded(bytes);
    assert_eq!(first.topic, second.topic);
    assert_eq!(first.payload, second.payload);
}
