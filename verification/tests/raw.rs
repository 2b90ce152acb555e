use mavlink::common::{MavMessage, MISSION_CLEAR_ALL_DATA};
use mavlink::error::ParserError;
use mavlink_extras::message::{MavlinkVersion, Message};
use mavlink_extras::{MavMsgRaw, MaybeRawMsg};

fn clear_all() -> MavMessage {
    MavMessage::MISSION_CLEAR_ALL(MISSION_CLEAR_ALL_DATA { target_system: 7, target_component: 8 })
}

#[test]
fn template_is_padded_with_zeros() {
    let raw = MavMsgRaw::from_template(clear_all());
    assert_eq!(raw.id, 45);
    assert_eq!(raw.len, 2);
    let mut expected = [0u8; 48];
    expected[0] = 7;
    expected[1] = 8;
    assert_eq!(raw.payload, expected);
}

#[test]
fn template_that_is_too_long_gives_no_raw_message() {
    // ENCAPSULATED_DATA has 255 bytes.
    let message = match MavMessage::parse(MavlinkVersion::V2, 131, &[]) {
        Ok(message) => message,
        Err(_) => panic!("there is such a message"),
    };
    assert_eq!(message.ser().len(), 255);
    assert!(MavMsgRaw::try_from_template(message).is_none());
    assert!(MavMsgRaw::try_from_template(clear_all()).is_some());
}

#[test]
fn payload_can_be_changed_in_place() {
    let mut raw = MavMsgRaw::from_bytes(300, &[1, 2, 3]);
    assert_eq!(raw.payload().len(), 3);
    raw.payload()[1] = 20;
    assert_eq!(raw.len, 3);
    assert_eq!(raw.payload[..4], [1, 20, 3, 0]);
    let message: MaybeRawMsg<MavMessage> = MaybeRawMsg::from(raw);
    assert_eq!(message.ser(), vec![1, 20, 3]);
    assert_eq!(message.message_id(), 300);
    assert_eq!(message.message_name(), "unknown");
}

#[test]
fn standard_message_stays_itself() {
    let message: MaybeRawMsg<MavMessage> = MaybeRawMsg::from(clear_all());
    assert_eq!(message.message_id(), 45);
    assert_eq!(message.message_name(), "MISSION_CLEAR_ALL");
    assert_eq!(message.ser(), vec![7, 8]);
    assert_eq!(clear_all().message_name(), "MISSION_CLEAR_ALL");
}

#[test]
fn known_payload_parses_to_a_standard_message() {
    match MaybeRawMsg::<MavMessage>::parse(MavlinkVersion::V2, 45, &[7, 8]) {
        Ok(MaybeRawMsg::Standard(message)) => assert_eq!(message, clear_all()),
        _ => panic!("the message is in the set"),
    }
}

#[test]
fn unknown_payload_parses_to_a_raw_message() {
    let mut payload = [5u8; 48];
    payload[47] = 6;
    match MaybeRawMsg::<MavMessage>::parse(MavlinkVersion::V2, 0xFFFFFF, &payload) {
        Ok(MaybeRawMsg::Raw(raw)) => {
            assert_eq!(raw.id, 0xFFFFFF);
            assert_eq!(raw.len, 48);
            assert_eq!(raw.payload, payload);
        }
        _ => panic!("the message is not in the set"),
    }
    assert!(MaybeRawMsg::<MavMessage>::try_parse(MavlinkVersion::V2, 0xFFFFFF, &payload).is_some());
    assert!(
        MaybeRawMsg::<MavMessage>::try_parse(MavlinkVersion::V2, 0xFFFFFF, &payload[..47]).is_none()
    );
    assert!(MaybeRawMsg::<MavMessage>::try_parse(MavlinkVersion::V2, 45, &[1]).is_some());
}

#[test]
fn result_of_parsing_decides() {
    match MaybeRawMsg::<MavMessage>::or_raw(Ok(clear_all()), 1, &[]) {
        MaybeRawMsg::Standard(message) => assert_eq!(message, clear_all()),
        MaybeRawMsg::Raw(_) => panic!("there is a message"),
    }
    let failed = Err(ParserError::UnknownMessage { id: 9 });
    match MaybeRawMsg::<MavMessage>::or_raw(failed, 9, &[3; 48]) {
        MaybeRawMsg::Raw(raw) => {
            assert_eq!(raw.id, 9);
            assert_eq!(raw.payload, [3; 48]);
        }
        MaybeRawMsg::Standard(_) => panic!("there is no message"),
    }
}

#[test]
fn names_are_looked_up() {
    assert_eq!(MavMessage::message_id_from_name("MISSION_ACK"), Ok(47));
    assert_eq!(MavMessage::message_id_from_name("COMMAND_ACK"), Ok(77));
    assert_eq!(MavMessage::message_id_from_name("HEARTBEAT"), Ok(0));
    assert_eq!(MavMessage::message_id_from_name("NOTHING"), Err("Invalid message name."));
    assert_eq!(MaybeRawMsg::<MavMessage>::message_id_from_name("COMMAND_ACK"), Ok(77));
}

#[test]
fn defaults_are_looked_up() {
    match MavMessage::default_message_from_id(45) {
        Ok(message) => assert_eq!(message.ser(), vec![0, 0]),
        Err(_) => panic!("the message is in the set"),
    }
    assert_eq!(MavMessage::default_message_from_id(0xFFFFFF).err(), Some("Invalid message id."));
    match MaybeRawMsg::<MavMessage>::default_message_from_id(45) {
        Ok(MaybeRawMsg::Standard(message)) => assert_eq!(message.message_id(), 45),
        _ => panic!("the message is in the set"),
    }
    match MaybeRawMsg::<MavMessage>::default_message_from_id(0xFFFFFF) {
        Ok(MaybeRawMsg::Raw(raw)) => {
            assert_eq!(raw.id, 0xFFFFFF);
            assert_eq!(raw.len, 0);
            assert_eq!(raw.payload, [0; 48]);
        }
        _ => panic!("the message is not in the set"),
    }
}

#[test]
fn identifiers_fit_in_three_bytes() {
    let mut known = 0;
    for id in 0..20000 {
        if let Ok(message) = MavMessage::default_message_from_id(id) {
            assert_eq!(message.message_id(), id);
            assert!(message.message_id() < 0x100_0000);
            known += 1;
        }
    }
    assert!(known > 100);
}

#[test]
fn checksum_seeds_are_looked_up() {
    assert_eq!(MavMessage::extra_crc(0), 50);
    assert_eq!(MaybeRawMsg::<MavMessage>::extra_crc(45), 232);
    assert_eq!(MavMessage::extra_crc(0xFFFFFF), 0);
}
