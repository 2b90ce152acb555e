use mavlink::common::{MavAutopilot, MavMessage, MavState, MavType, HEARTBEAT_DATA};
use mavlink_extras::dialect::heartbeat;
use mavlink_extras::message::{MavlinkVersion, Message};

#[test]
fn heartbeat_has_the_fields_of_an_onboard_controller() {
    let expected = MavMessage::HEARTBEAT(HEARTBEAT_DATA {
        mavtype: MavType::MAV_TYPE_ONBOARD_CONTROLLER,
        autopilot: MavAutopilot::MAV_AUTOPILOT_INVALID,
        mavlink_version: 0x3,
        system_status: MavState::MAV_STATE_ACTIVE,
        ..HEARTBEAT_DATA::default()
    });
    assert_eq!(heartbeat(), expected);
    assert_eq!(heartbeat().ser(), vec![0, 0, 0, 0, 18, 8, 128, 4, 3]);
}

#[test]
fn default_heartbeat_is_of_a_generic_system() {
    match MavMessage::default_message_from_id(0) {
        Ok(message) => assert_eq!(message.ser(), vec![0, 0, 0, 0, 0, 0, 128, 0, 0]),
        Err(_) => panic!("the message is in the set"),
    }
}

#[test]
fn heartbeats_of_known_enumerators_are_read() {
    for mavtype in 0..35 {
        for autopilot in 0..20 {
            for status in 0..9 {
                let payload = [1, 2, 3, 4, mavtype, autopilot, 7 * mavtype, status, autopilot];
                match MavMessage::parse(MavlinkVersion::V2, 0, &payload) {
                    Ok(message) => assert_eq!(message.ser(), payload.to_vec()),
                    Err(_) => panic!("the enumerators are known"),
                }
            }
        }
    }
}
