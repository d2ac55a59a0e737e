use chat_relay::relay::{
    inbound_action, is_open, next_state, ConnectionEvent, ConnectionState, Frame, InboundAction,
};

#[test]
fn text_frame_is_broadcast_verbatim() {
    match inbound_action(Some(Frame::Text("hi there".to_string()))) {
        InboundAction::Broadcast(p) => assert_eq!(p, "hi there"),
        _ => panic!("text must be broadcast"),
    }
}

#[test]
fn close_and_end_of_stream_stop_reading() {
    assert!(matches!(inbound_action(Some(Frame::Close)), InboundAction::Stop));
    assert!(matches!(inbound_action(None), InboundAction::Stop));
}

#[test]
fn other_frames_are_ignored() {
    assert!(matches!(inbound_action(Some(Frame::Other)), InboundAction::Ignore));
}

#[test]
fn lifecycle_runs_connecting_open_closing_closed() {
    let s = ConnectionState::Connecting;
    assert!(!is_open(s));
    let s = next_state(s, ConnectionEvent::Admitted);
    assert_eq!(s, ConnectionState::Open);
    assert!(is_open(s));
    let s = next_state(s, ConnectionEvent::SideStopped);
    assert_eq!(s, ConnectionState::Closing);
    assert!(!is_open(s));
    let s = next_state(s, ConnectionEvent::Released);
    assert_eq!(s, ConnectionState::Closed);
    assert_eq!(next_state(s, ConnectionEvent::Admitted), ConnectionState::Closed);
}

#[test]
fn rejected_admission_never_opens() {
    let s = next_state(ConnectionState::Connecting, ConnectionEvent::Rejected);
    assert_eq!(s, ConnectionState::Closed);
    assert_eq!(next_state(s, ConnectionEvent::Admitted), ConnectionState::Closed);
}

