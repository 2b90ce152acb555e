use mavlink::common::{
    MavCmd, MavFrame, MavMessage, MavResult, COMMAND_ACK_DATA, COMMAND_INT_DATA, COMMAND_LONG_DATA,
    MISSION_ACK_DATA,
};
use mavlink_extras::command::{
    int_answer, int_request, judge_int, judge_long, long_answer, long_request,
};
use mavlink_extras::dialect::Reply;
use mavlink_extras::message::Message;

fn ack(command: MavCmd, result: MavResult) -> MavMessage {
    MavMessage::COMMAND_ACK(COMMAND_ACK_DATA { command, result })
}

fn command_int() -> COMMAND_INT_DATA {
    COMMAND_INT_DATA {
        param1: 1.0,
        param2: 0.0,
        param3: 0.0,
        param4: 0.0,
        x: 1,
        y: 2,
        z: 0.0,
        command: MavCmd::MAV_CMD_COMPONENT_ARM_DISARM,
        target_system: 5,
        target_component: 6,
        frame: MavFrame::MAV_FRAME_MISSION,
        current: 7,
        autocontinue: 8,
    }
}

fn command_long() -> COMMAND_LONG_DATA {
    COMMAND_LONG_DATA {
        param1: 1.0,
        param2: 0.0,
        param3: 0.0,
        param4: 0.0,
        param5: 0.0,
        param6: 0.0,
        param7: 2.0,
        command: MavCmd::MAV_CMD_COMPONENT_ARM_DISARM,
        target_system: 5,
        target_component: 6,
        confirmation: 99,
    }
}

#[test]
fn command_int_is_sent_as_it_is() {
    let request = int_request(&command_int());
    assert_eq!(request.message, MavMessage::COMMAND_INT(command_int()));
    assert_eq!(request.message.message_id(), 75);
    assert_eq!(request.message.ser()[28..], [144, 1, 5, 6, 2, 7, 8]);
    assert_eq!(request.timeout_ms, 500);
    assert_eq!(request.only_id, Some(77));
}

#[test]
fn command_long_is_sent_with_its_confirmation() {
    for confirmation in 0..6 {
        let request = long_request(&command_long(), confirmation);
        assert_eq!(request.message.message_id(), 76);
        let mut expected = vec![0, 0, 0x80, 0x3F];
        expected.extend_from_slice(&[0; 20]);
        expected.extend_from_slice(&[0, 0, 0, 0x40, 144, 1, 5, 6, confirmation]);
        assert_eq!(request.message.ser(), expected);
        assert_eq!(request.timeout_ms, 500);
        assert_eq!(request.only_id, Some(77));
    }
}

#[test]
fn command_int_is_acknowledged() {
    let command = command_int();
    let arm = MavCmd::MAV_CMD_COMPONENT_ARM_DISARM;
    assert_eq!(int_answer(&command, &ack(arm, MavResult::MAV_RESULT_ACCEPTED)), Some(true));
    assert_eq!(int_answer(&command, &ack(arm, MavResult::MAV_RESULT_DENIED)), Some(false));
    assert_eq!(int_answer(&command, &ack(arm, MavResult::MAV_RESULT_IN_PROGRESS)), Some(false));
    let other = MavCmd::MAV_CMD_NAV_LAND;
    assert_eq!(int_answer(&command, &ack(other, MavResult::MAV_RESULT_ACCEPTED)), None);
    let message = MavMessage::MISSION_ACK(MISSION_ACK_DATA::default());
    assert_eq!(int_answer(&command, &message), None);
}

#[test]
fn command_long_is_acknowledged() {
    let command = command_long();
    let arm = MavCmd::MAV_CMD_COMPONENT_ARM_DISARM;
    assert_eq!(long_answer(&command, &ack(arm, MavResult::MAV_RESULT_ACCEPTED)), Some(true));
    assert_eq!(long_answer(&command, &ack(arm, MavResult::MAV_RESULT_FAILED)), Some(false));
    assert_eq!(long_answer(&command, &ack(arm, MavResult::MAV_RESULT_IN_PROGRESS)), None);
    let other = MavCmd::MAV_CMD_NAV_LAND;
    assert_eq!(long_answer(&command, &ack(other, MavResult::MAV_RESULT_ACCEPTED)), None);
}

#[test]
fn acknowledgements_are_judged() {
    assert_eq!(judge_int(400, Reply::CommandAck { command: 400, result: 0 }), Some(true));
    assert_eq!(judge_int(400, Reply::CommandAck { command: 400, result: 5 }), Some(false));
    assert_eq!(judge_int(400, Reply::CommandAck { command: 401, result: 0 }), None);
    assert_eq!(judge_long(400, Reply::CommandAck { command: 400, result: 4 }), Some(false));
    assert_eq!(judge_long(400, Reply::CommandAck { command: 400, result: 5 }), None);
    assert_eq!(judge_long(400, Reply::Other), None);
}
