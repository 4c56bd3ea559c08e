use chat_core::codec::parse_frame;
use chat_core::codec::parse_payload;
use chat_core::session::avatar;
use chat_core::session::InboundOutcome;
use chat_core::session::Synchronizer;

#[test]
fn construction_sends_the_register_frame() {
    let (s, reg) = Synchronizer::create("alice".to_string());
    assert_eq!(reg, "{\"messageType\":\"register\",\"dataArray\":null,\"data\":\"alice\"}");
    assert!(s.is_active());
    assert_eq!(s.current_state().users.len(), 0);
    assert_eq!(s.current_state().messages.len(), 0);
    assert_eq!(s.current_state().self_name, "alice");
}

#[test]
fn scenario_roster_then_message_then_malformed() {
    let (mut s, reg) = Synchronizer::create("alice".to_string());
    let frame = parse_frame(&reg).unwrap();
    assert_eq!(frame.kind, "register");
    assert_eq!(frame.data.as_deref(), Some("alice"));

    let o = s.handle_inbound(
        "{\"messageType\":\"users\",\"dataArray\":[\"alice\",\"bob\"],\"data\":null}",
    );
    assert!(matches!(o, InboundOutcome::Changed));
    {
        let st = s.current_state();
        assert_eq!(st.users.len(), 2);
        assert_eq!(st.users[0].name, "alice");
        assert_eq!(st.users[1].name, "bob");
    }

    let o = s.handle_inbound(
        "{\"messageType\":\"message\",\"dataArray\":null,\"data\":\"{\\\"from\\\":\\\"bob\\\",\\\"message\\\":\\\"hi\\\"}\"}",
    );
    assert!(matches!(o, InboundOutcome::Changed));
    {
        let st = s.current_state();
        assert_eq!(st.messages.len(), 1);
        assert_eq!(st.messages[0].from, "bob");
        assert_eq!(st.messages[0].body, "hi");
    }

    let bad = "{\"messageType\":\"message\",\"dataArray\":null,\"data\":\"not a payload\"}";
    match s.handle_inbound(bad) {
        InboundOutcome::DecodeFailed(e) => assert_eq!(e.raw, bad),
        _ => panic!("expected a decode failure"),
    }
    let st = s.current_state();
    assert_eq!(st.users.len(), 2);
    assert_eq!(st.messages.len(), 1);
}

#[test]
fn roster_snapshots_replace_wholesale() {
    let (mut s, _) = Synchronizer::create("alice".to_string());
    s.handle_inbound("{\"messageType\":\"users\",\"dataArray\":[\"alice\",\"bob\"],\"data\":null}");
    s.handle_inbound("{\"messageType\":\"users\",\"dataArray\":[\"carol\"],\"data\":null}");
    let st = s.current_state();
    assert_eq!(st.users.len(), 1);
    assert_eq!(st.users[0].name, "carol");
    assert_eq!(st.users[0].avatar, avatar("carol"));
}

#[test]
fn messages_accumulate_in_receipt_order() {
    let (mut s, _) = Synchronizer::create("alice".to_string());
    s.handle_inbound(
        "{\"messageType\":\"message\",\"dataArray\":null,\"data\":\"{\\\"from\\\":\\\"bob\\\",\\\"message\\\":\\\"one\\\"}\"}",
    );
    s.handle_inbound(
        "{\"messageType\":\"message\",\"dataArray\":null,\"data\":\"{\\\"from\\\":\\\"carol\\\",\\\"message\\\":\\\"two\\\"}\"}",
    );
    let st = s.current_state();
    assert_eq!(st.messages.len(), 2);
    assert_eq!(st.messages[0].from, "bob");
    assert_eq!(st.messages[0].body, "one");
    assert_eq!(st.messages[1].from, "carol");
    assert_eq!(st.messages[1].body, "two");
}

#[test]
fn senders_who_left_stay_attributable() {
    let (mut s, _) = Synchronizer::create("alice".to_string());
    let o = s.handle_inbound(
        "{\"messageType\":\"message\",\"dataArray\":null,\"data\":\"{\\\"from\\\":\\\"ghost\\\",\\\"message\\\":\\\"still here\\\"}\"}",
    );
    assert!(matches!(o, InboundOutcome::Changed));
    let st = s.current_state();
    assert_eq!(st.users.len(), 0);
    assert_eq!(st.messages.len(), 1);
    assert_eq!(st.messages[0].from, "ghost");
}

#[test]
fn blank_submissions_send_nothing() {
    let (s, _) = Synchronizer::create("alice".to_string());
    assert!(s.submit_message("").is_none());
    assert!(s.submit_message("   ").is_none());
    assert!(s.submit_message(" \t\r\n ").is_none());
    assert_eq!(s.current_state().messages.len(), 0);
}

#[test]
fn submit_encodes_a_message_frame_without_attribution() {
    let (s, _) = Synchronizer::create("alice".to_string());
    let f = s.submit_message("hello").unwrap();
    assert_eq!(f, "{\"messageType\":\"message\",\"dataArray\":null,\"data\":\"hello\"}");
    let frame = parse_frame(&f).unwrap();
    assert_eq!(frame.kind, "message");
    assert!(frame.data_array.is_none());
    assert_eq!(frame.data.as_deref(), Some("hello"));
    assert!(parse_payload("hello").is_none());
    assert_eq!(s.current_state().messages.len(), 0);
}

#[test]
fn avatar_is_deterministic_and_derived_from_the_name() {
    assert_eq!(avatar("bob"), avatar("bob"));
    assert_eq!(avatar("bob"), "https://avatars.dicebear.com/api/adventurer-neutral/bob.svg");
    assert_ne!(avatar("bob"), avatar("carol"));
}

#[test]
fn closed_synchronizer_no_ops() {
    let (mut s, _) = Synchronizer::create("alice".to_string());
    s.handle_inbound("{\"messageType\":\"users\",\"dataArray\":[\"bob\"],\"data\":null}");
    s.close();
    assert!(!s.is_active());
    let o = s.handle_inbound("{\"messageType\":\"users\",\"dataArray\":[\"carol\"],\"data\":null}");
    assert!(matches!(o, InboundOutcome::Ignored));
    assert!(s.submit_message("hello").is_none());
    let st = s.current_state();
    assert_eq!(st.users.len(), 1);
    assert_eq!(st.users[0].name, "bob");
}

#[test]
fn unrecognized_kind_changes_nothing() {
    let (mut s, _) = Synchronizer::create("alice".to_string());
    s.handle_inbound("{\"messageType\":\"users\",\"dataArray\":[\"bob\"],\"data\":null}");
    let o = s.handle_inbound("{\"messageType\":\"typing\",\"dataArray\":null,\"data\":\"bob\"}");
    assert!(matches!(o, InboundOutcome::Ignored));
    let st = s.current_state();
    assert_eq!(st.users.len(), 1);
    assert_eq!(st.messages.len(), 0);
}
