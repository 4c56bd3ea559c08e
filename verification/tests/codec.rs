use chat_core::codec::decode_event;
use chat_core::codec::encode_message;
use chat_core::codec::encode_register;
use chat_core::codec::parse_frame;
use chat_core::codec::parse_payload;
use chat_core::codec::DomainEvent;

#[test]
fn register_frame_is_canonical() {
    let f = encode_register("alice");
    assert_eq!(f, "{\"messageType\":\"register\",\"dataArray\":null,\"data\":\"alice\"}");
}

#[test]
fn message_frame_is_canonical() {
    let f = encode_message("hello");
    assert_eq!(f, "{\"messageType\":\"message\",\"dataArray\":null,\"data\":\"hello\"}");
}

#[test]
fn encoding_escapes_quotes_and_backslashes() {
    let f = encode_message("say \"hi\" \\ done");
    assert_eq!(
        f,
        "{\"messageType\":\"message\",\"dataArray\":null,\"data\":\"say \\\"hi\\\" \\\\ done\"}"
    );
}

#[test]
fn outbound_message_frame_parses_back_with_only_the_body() {
    let f = encode_message("hello");
    let frame = parse_frame(&f).unwrap();
    assert_eq!(frame.kind, "message");
    assert!(frame.data_array.is_none());
    assert_eq!(frame.data.as_deref(), Some("hello"));
    assert!(parse_payload("hello").is_none());
}

#[test]
fn escaped_body_round_trips_through_the_parser() {
    let body = "a \"quoted\" \\ backslash";
    let f = encode_message(body);
    let frame = parse_frame(&f).unwrap();
    assert_eq!(frame.data.as_deref(), Some(body));
}

#[test]
fn users_frame_decodes_to_roster() {
    let ev =
        decode_event("{\"messageType\":\"users\",\"dataArray\":[\"alice\",\"bob\"],\"data\":null}")
            .unwrap();
    match ev {
        DomainEvent::RosterReplaced { names } => {
            assert_eq!(names, vec!["alice".to_string(), "bob".to_string()]);
        }
        _ => panic!("expected a roster event"),
    }
}

#[test]
fn users_frame_with_null_roster_is_empty() {
    let ev = decode_event("{\"messageType\":\"users\",\"dataArray\":null,\"data\":null}").unwrap();
    match ev {
        DomainEvent::RosterReplaced { names } => assert!(names.is_empty()),
        _ => panic!("expected a roster event"),
    }
}

#[test]
fn users_frame_with_empty_roster_is_empty() {
    let ev = decode_event("{\"messageType\":\"users\",\"dataArray\":[],\"data\":null}").unwrap();
    match ev {
        DomainEvent::RosterReplaced { names } => assert!(names.is_empty()),
        _ => panic!("expected a roster event"),
    }
}

#[test]
fn message_frame_decodes_to_chat_event() {
    let raw = "{\"messageType\":\"message\",\"dataArray\":null,\"data\":\"{\\\"from\\\":\\\"bob\\\",\\\"message\\\":\\\"hi\\\"}\"}";
    let ev = decode_event(raw).unwrap();
    match ev {
        DomainEvent::MessageReceived { from, body } => {
            assert_eq!(from, "bob");
            assert_eq!(body, "hi");
        }
        _ => panic!("expected a message event"),
    }
}

#[test]
fn unknown_kind_is_tolerated() {
    let ev = decode_event("{\"messageType\":\"presence\",\"dataArray\":null,\"data\":null}")
        .unwrap();
    assert!(matches!(ev, DomainEvent::Unrecognized));
}

#[test]
fn register_kind_inbound_is_tolerated() {
    let ev = decode_event("{\"messageType\":\"register\",\"dataArray\":null,\"data\":\"x\"}")
        .unwrap();
    assert!(matches!(ev, DomainEvent::Unrecognized));
}

#[test]
fn malformed_frame_is_a_decode_error() {
    let e = decode_event("not a frame").unwrap_err();
    assert_eq!(e.raw, "not a frame");
}

#[test]
fn message_frame_with_malformed_payload_is_a_decode_error() {
    let raw = "{\"messageType\":\"message\",\"dataArray\":null,\"data\":\"oops\"}";
    let e = decode_event(raw).unwrap_err();
    assert_eq!(e.raw, raw);
}

#[test]
fn message_frame_without_data_is_a_decode_error() {
    let raw = "{\"messageType\":\"message\",\"dataArray\":null,\"data\":null}";
    let e = decode_event(raw).unwrap_err();
    assert_eq!(e.raw, raw);
}

#[test]
fn trailing_text_after_the_frame_is_malformed() {
    let raw = "{\"messageType\":\"users\",\"dataArray\":null,\"data\":null}x";
    assert!(decode_event(raw).is_err());
}

#[test]
fn unterminated_string_is_malformed() {
    let raw = "{\"messageType\":\"users";
    assert!(decode_event(raw).is_err());
}

#[test]
fn payload_parses_sender_and_body() {
    let (from, body) = parse_payload("{\"from\":\"carol\",\"message\":\"see you\"}").unwrap();
    assert_eq!(from, "carol");
    assert_eq!(body, "see you");
}

#[test]
fn payload_with_escapes_unescapes() {
    let (from, body) = parse_payload("{\"from\":\"c\",\"message\":\"a \\\"b\\\" \\\\ c\"}").unwrap();
    assert_eq!(from, "c");
    assert_eq!(body, "a \"b\" \\ c");
}

#[test]
fn payload_missing_message_field_is_malformed() {
    assert!(parse_payload("{\"from\":\"carol\"}").is_none());
}
