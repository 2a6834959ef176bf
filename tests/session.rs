use broadcast_hub::{
    decode, inbound_action, inbound_message, next_state, resolve_inbound, step, Broker, DecodeError, FrameKind,
    InboundAction, Number, RegistryError, SessionAction, SessionEvent, SessionState, WsMessage,
};

#[test]
fn state_machine_happy_path() {
    let mut s = SessionState::Connecting;
    s = next_state(s, SessionEvent::Accepted);
    assert_eq!(s, SessionState::Upgrading);
    s = next_state(s, SessionEvent::HandshakeSucceeded);
    assert_eq!(s, SessionState::Active);
    s = next_state(s, SessionEvent::LoopEnded);
    assert_eq!(s, SessionState::Closing);
    s = next_state(s, SessionEvent::CleanedUp);
    assert_eq!(s, SessionState::Closed);
}

#[test]
fn state_machine_failures_and_terminal_closed() {
    assert_eq!(next_state(SessionState::Upgrading, SessionEvent::HandshakeFailed), SessionState::Closed);
    for e in [
        SessionEvent::Accepted,
        SessionEvent::HandshakeSucceeded,
        SessionEvent::HandshakeFailed,
        SessionEvent::LoopEnded,
        SessionEvent::CleanedUp,
    ] {
        assert_eq!(next_state(SessionState::Closed, e), SessionState::Closed);
    }
    assert_eq!(next_state(SessionState::Active, SessionEvent::Accepted), SessionState::Active);
}

#[test]
fn welcome_is_the_first_frame() {
    let mut b = Broker::new();
    let (id, welcome) = b.open_session("10.0.0.1:4000".to_string(), "t0").unwrap();
    assert_eq!(
        welcome,
        WsMessage::System {
            message: "Welcome! You are connected as 10.0.0.1:4000".to_string(),
            timestamp: "t0".to_string()
        }
    );
    assert_eq!(b.next_outbound(id), None);
}

#[test]
fn second_session_for_live_id_is_refused() {
    let mut b = Broker::new();
    b.open_session("c".to_string(), "t").unwrap();
    assert_eq!(b.open_session("c".to_string(), "t").map(|_| ()), Err(RegistryError::AlreadyRegistered));
    assert_eq!(b.client_count(), 1);
}

#[test]
fn malformed_text_becomes_chat_for_everyone() {
    let mut b = Broker::new();
    let (c1, _) = b.open_session("C1".to_string(), "t").unwrap();
    let (c2, _) = b.open_session("C2".to_string(), "t").unwrap();
    let (c3, _) = b.open_session("C3".to_string(), "t").unwrap();
    let sent = b.receive_text("C1", "hello", "t1");
    let expected =
        WsMessage::Chat { user: "C1".to_string(), message: "hello".to_string(), timestamp: "t1".to_string() };
    assert_eq!(sent, expected);
    assert_eq!(b.next_outbound(c2), Some(expected.clone()));
    assert_eq!(b.next_outbound(c3), Some(expected.clone()));
    assert_eq!(b.next_outbound(c1), Some(expected));
}

#[test]
fn calculation_is_relayed_unchanged() {
    let mut b = Broker::new();
    b.open_session("A".to_string(), "t").unwrap();
    let (bid, _) = b.open_session("B".to_string(), "t").unwrap();
    let text = "{\"type\":\"calculation\",\"operation\":\"add\",\"result\":7,\"timestamp\":\"2024-05-01T10:00:00Z\"}";
    b.receive_text("A", text, "t1");
    let expected = WsMessage::Calculation {
        operation: "add".to_string(),
        result: Number::parse("7").unwrap(),
        timestamp: "2024-05-01T10:00:00Z".to_string(),
    };
    assert_eq!(b.next_outbound(bid), Some(expected));
}

#[test]
fn open_close_leaves_no_residue() {
    let mut b = Broker::new();
    let client = "x".to_string();
    b.close_session(&client);
    assert_eq!(b.client_count(), 0);
    let (id, _) = b.open_session(client.clone(), "t").unwrap();
    assert_eq!(b.handle_of(&client), Some(id));
    b.close_session(&client);
    b.close_session(&client);
    assert_eq!(b.handle_of(&client), None);
    assert_eq!(b.client_count(), 0);
    b.publish(WsMessage::Ping);
    assert_eq!(b.next_outbound(id), None);
}

#[test]
fn slow_client_session_survives_overflow() {
    let mut b = Broker::new();
    let (id, _) = b.open_session("slow".to_string(), "t").unwrap();
    for i in 1..=101 {
        b.publish(WsMessage::System { message: i.to_string(), timestamp: "t".to_string() });
    }
    assert!(b.handle_of(&"slow".to_string()).is_some());
    let first = b.next_outbound(id).unwrap();
    assert_eq!(first, WsMessage::System { message: "2".to_string(), timestamp: "t".to_string() });
    let mut last = first;
    while let Some(m) = b.next_outbound(id) {
        last = m;
    }
    assert_eq!(last, WsMessage::System { message: "101".to_string(), timestamp: "t".to_string() });
}

#[test]
fn inbound_decisions() {
    assert_eq!(inbound_message("u", "{\"type\":\"ping\"}", "t"), WsMessage::Ping);
    assert_eq!(
        inbound_message("u", "{\"type\":\"nope\"}", "t"),
        WsMessage::Chat { user: "u".to_string(), message: "{\"type\":\"nope\"}".to_string(), timestamp: "t".to_string() }
    );
    assert_eq!(resolve_inbound("u", "x", Ok(WsMessage::Pong), "t"), WsMessage::Pong);
    assert_eq!(
        resolve_inbound("u", "x", Err(DecodeError::InvalidFields), "t"),
        WsMessage::Chat { user: "u".to_string(), message: "x".to_string(), timestamp: "t".to_string() }
    );
    assert_eq!(decode("hello"), Err(DecodeError::Malformed));
}

#[test]
fn transitions_carry_their_actions() {
    assert_eq!(
        step(SessionState::Connecting, SessionEvent::Accepted),
        (SessionState::Upgrading, SessionAction::Handshake)
    );
    assert_eq!(
        step(SessionState::Upgrading, SessionEvent::HandshakeSucceeded),
        (SessionState::Active, SessionAction::Activate)
    );
    assert_eq!(step(SessionState::Upgrading, SessionEvent::HandshakeFailed), (SessionState::Closed, SessionAction::Drop));
    assert_eq!(step(SessionState::Active, SessionEvent::LoopEnded), (SessionState::Closing, SessionAction::CleanUp));
    assert_eq!(step(SessionState::Closing, SessionEvent::CleanedUp), (SessionState::Closed, SessionAction::Nothing));
    assert_eq!(step(SessionState::Closed, SessionEvent::LoopEnded), (SessionState::Closed, SessionAction::Nothing));
}

#[test]
fn inbound_frames_decide_the_loop() {
    assert_eq!(inbound_action(FrameKind::Text), InboundAction::Publish);
    assert_eq!(inbound_action(FrameKind::Other), InboundAction::Ignore);
    assert_eq!(inbound_action(FrameKind::Close), InboundAction::EndLoop);
    assert_eq!(inbound_action(FrameKind::Error), InboundAction::EndLoop);
}
