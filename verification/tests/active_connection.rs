use crust::active_connection::{
    activate, deactivate, on_incoming, ConnectionId, Heartbeat, HeartbeatAction, Incoming, IncomingAction,
    HEARTBEAT_PERIOD_MS, INACTIVITY_TIMEOUT_MS,
};

#[test]
fn timer_constants() {
    assert_eq!(INACTIVITY_TIMEOUT_MS, 120_000);
    assert_eq!(HEARTBEAT_PERIOD_MS, 20_000);
}

#[test]
fn heartbeat_schedule() {
    let mut h = Heartbeat::new(1_000);
    assert_eq!(h, Heartbeat { recv_deadline_ms: 121_000, send_deadline_ms: 21_000 });
    assert_eq!(h.check(20_999), HeartbeatAction::Wait);
    assert_eq!(h.check(21_000), HeartbeatAction::SendHeartbeat);
    assert_eq!(h.send_deadline_ms, 41_000);
    assert_eq!(h.check(30_000), HeartbeatAction::Wait);
    h.message_sent(35_000);
    assert_eq!(h.check(41_000), HeartbeatAction::Wait);
    assert_eq!(h.check(55_000), HeartbeatAction::SendHeartbeat);
    h.message_received(100_000);
    assert_eq!(h.recv_deadline_ms, 220_000);
    assert_eq!(h.check(219_999), HeartbeatAction::SendHeartbeat);
    assert_eq!(h.check(220_000), HeartbeatAction::Close);
}

#[test]
fn connection_map_entries() {
    let e = activate(None, 'a');
    assert_eq!(e.active_connection, Some('a'));
    assert_eq!(e.currently_handshaking, 1);
    let kept = deactivate(e).expect("still handshaking");
    assert_eq!(kept.active_connection, None);
    assert_eq!(kept.currently_handshaking, 1);
    let idle = ConnectionId { active_connection: None::<char>, currently_handshaking: 0 };
    let e2 = activate(Some(idle), 'b');
    assert_eq!(e2.currently_handshaking, 0);
    assert!(deactivate(e2).is_none());
    let busy = ConnectionId { active_connection: Some('x'), currently_handshaking: 3 };
    assert_eq!(deactivate(busy).map(|c| c.currently_handshaking), Some(3));
}

#[test]
fn incoming_messages() {
    match on_incoming::<u8>(Incoming::Data(vec![1, 2])) {
        IncomingAction::Deliver(p) => assert_eq!(p, vec![1, 2]),
        other => panic!("unexpected {:?}", other),
    }
    assert!(matches!(on_incoming::<u8>(Incoming::Heartbeat), IncomingAction::Ignore));
    assert!(matches!(on_incoming(Incoming::Other(5u8)), IncomingAction::Report(5)));
}
