use mavlink::common::{MavMessage, MISSION_CLEAR_ALL_DATA};
use mavlink_extras::exchange::ConnError;
use mavlink_extras::mavconn::{
    from_peer, handle, received, received_with_header, Action, Event, MavConnInner,
    HEARTBEAT_PERIOD_MS,
};
use mavlink_extras::message::{MavFrame, MavHeader, MavlinkVersion, Message};
use mavlink_extras::MaybeRawMsg;

fn clear_all() -> MavMessage {
    MavMessage::MISSION_CLEAR_ALL(MISSION_CLEAR_ALL_DATA::default())
}

fn frame(sequence: u8) -> MavFrame<u8> {
    MavFrame {
        header: MavHeader { system_id: 1, component_id: 2, sequence },
        msg: sequence,
        protocol_version: MavlinkVersion::V1,
    }
}

fn sequence(conn: &MavConnInner) -> u8 {
    let frame = conn.frame(MaybeRawMsg::Standard(clear_all()));
    assert_eq!(frame.protocol_version, MavlinkVersion::V2);
    assert_eq!(frame.header.system_id, 16);
    assert_eq!(frame.header.component_id, 1);
    match frame.msg {
        MaybeRawMsg::Standard(message) => assert_eq!(message, clear_all()),
        MaybeRawMsg::Raw(_) => panic!("the message is not raw"),
    }
    frame.header.sequence
}

#[test]
fn sequence_counts_what_was_sent() {
    let mut conn = MavConnInner::new(16, 1);
    assert_eq!(sequence(&conn), 0);
    assert_eq!(conn.sent::<u8>(Ok(())), Ok(()));
    assert_eq!(sequence(&conn), 1);
    assert_eq!(conn.sent(Err(7)), Err(7));
    assert_eq!(sequence(&conn), 1);
    for _ in 1..256 {
        assert_eq!(conn.sent::<u8>(Ok(())), Ok(()));
    }
    assert_eq!(sequence(&conn), 0);
}

#[test]
fn heartbeat_is_that_of_an_onboard_controller() {
    let mut conn = MavConnInner::new(16, 1);
    assert_eq!(conn.sent::<u8>(Ok(())), Ok(()));
    let frame = conn.heartbeat_frame();
    assert_eq!(frame.header, MavHeader { system_id: 16, component_id: 1, sequence: 1 });
    assert_eq!(frame.protocol_version, MavlinkVersion::V2);
    assert_eq!(frame.msg.message_id(), 0);
    assert_eq!(frame.msg.ser(), vec![0, 0, 0, 0, 18, 8, 128, 4, 3]);
    assert_eq!(HEARTBEAT_PERIOD_MS, 1000);
}

#[test]
fn closed_mailbox_aborts_the_connection() {
    let taken: Result<MavFrame<u8>, ConnError<()>> = received_with_header(Some(frame(3)));
    assert!(matches!(taken, Ok(MavFrame { msg: 3, .. })));
    let taken: Result<MavFrame<u8>, ConnError<()>> = received_with_header(None);
    assert!(matches!(taken, Err(ConnError::ConnectionAborted)));
    let taken: Result<u8, ConnError<()>> = received(Some(frame(4)));
    assert!(matches!(taken, Ok(4)));
    let taken: Result<u8, ConnError<()>> = received(None);
    assert!(matches!(taken, Err(ConnError::ConnectionAborted)));
}

#[test]
fn frames_of_strangers_are_dropped() {
    assert!(matches!(from_peer::<u8, u8>(Ok(frame(1)), true), Some(Ok(MavFrame { msg: 1, .. }))));
    assert!(from_peer::<u8, u8>(Ok(frame(1)), false).is_none());
    assert!(matches!(from_peer::<u8, u8>(Err(2), true), Some(Err(2))));
    assert!(matches!(from_peer::<u8, u8>(Err(2), false), Some(Err(2))));
}

fn incoming(has_mailbox: bool, item: Option<Result<MavFrame<u8>, u8>>) -> Action<u8, u8> {
    handle(Event::Incoming { has_mailbox, item })
}

#[test]
fn events_are_handled() {
    let tick = handle::<u8, u8>(Event::Tick { is_connected: true });
    assert!(matches!(tick, Action::SendHeartbeat));
    let tick = handle::<u8, u8>(Event::Tick { is_connected: false });
    assert!(matches!(tick, Action::Stop));
    assert!(matches!(
        incoming(true, Some(Ok(frame(5)))),
        Action::Insert(MavFrame { msg: 5, .. })
    ));
    assert!(matches!(incoming(true, Some(Err(6))), Action::Report(6)));
    assert!(matches!(incoming(true, None), Action::CloseAndStop));
    assert!(matches!(incoming(false, Some(Ok(frame(5)))), Action::Stop));
    assert!(matches!(incoming(false, None), Action::Stop));
}
