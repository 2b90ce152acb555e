//! The messages of the common message set that the library makes and reads.
use crate::message::{common_bytes, common_id, MavlinkVersion, Message};
use mavlink::common::{
    MavMessage, COMMAND_INT_DATA, COMMAND_LONG_DATA, MISSION_CLEAR_ALL_DATA, MISSION_COUNT_DATA,
    MISSION_ITEM_INT_DATA,
};
use vstd::prelude::*;

pub mod laws;

verus! {

/// What a `COMMAND_INT` message says.
#[verifier::external_type_specification]
#[verifier::external_body]
pub struct ExCommandInt(mavlink::common::COMMAND_INT_DATA);

/// What a `COMMAND_LONG` message says.
#[verifier::external_type_specification]
#[verifier::external_body]
pub struct ExCommandLong(mavlink::common::COMMAND_LONG_DATA);

/// The identifier of `HEARTBEAT` messages.
pub const HEARTBEAT_ID: u32 = 0;

/// The type of an onboard controller, `MAV_TYPE_ONBOARD_CONTROLLER`.
pub const TYPE_ONBOARD_CONTROLLER: u8 = 18;

/// The autopilot of a component that is not one, `MAV_AUTOPILOT_INVALID`.
pub const AUTOPILOT_INVALID: u8 = 8;

/// The status of a system that is active, `MAV_STATE_ACTIVE`.
pub const STATE_ACTIVE: u8 = 4;

/// The version of the protocol that heartbeats tell.
pub const MAVLINK_VERSION: u8 = 3;

/// The identifier of `MISSION_ACK` messages.
pub const MISSION_ACK_ID: u32 = 47;

/// The identifier of `COMMAND_ACK` messages.
pub const COMMAND_ACK_ID: u32 = 77;

/// The result of a mission operation that went well, `MAV_MISSION_ACCEPTED`.
pub const MISSION_ACCEPTED: u8 = 0;

/// The result of a command that was executed, `MAV_RESULT_ACCEPTED`.
pub const RESULT_ACCEPTED: u8 = 0;

/// The result of a command that is still being executed,
/// `MAV_RESULT_IN_PROGRESS`.
pub const RESULT_IN_PROGRESS: u8 = 5;

/// What the library reads in a message.
#[derive(Debug, Clone, Copy, PartialEq, Eq, Structural)]
pub enum Reply {
    /// The end of a mission operation, with its result.
    MissionAck(u8),
    /// The vehicle asks for the mission item with the given number.
    MissionRequest(u16),
    /// The vehicle asks for the mission item with the given number.
    MissionRequestInt(u16),
    /// What became of a command.
    CommandAck { command: u16, result: u8 },
    Other,
}

/// The two bytes of a number, the less significant one first.
pub open spec fn le16(value: int) -> Seq<u8> {
    seq![(value % 256) as u8, ((value / 256) % 256) as u8]
}

/// The number that two bytes stand for.
pub open spec fn from_le16(bytes: Seq<u8>, at: int) -> u16 {
    (bytes[at] + 256 * bytes[at + 1]) as u16
}

/// What the library reads in a message with the given identifier and payload.
pub open spec fn reply_in(id: u32, payload: Seq<u8>) -> Reply {
    if id == 47 {
        Reply::MissionAck(payload[2])
    } else if id == 40 {
        Reply::MissionRequest(from_le16(payload, 0))
    } else if id == 51 {
        Reply::MissionRequestInt(from_le16(payload, 0))
    } else if id == 77 {
        Reply::CommandAck { command: from_le16(payload, 0), result: payload[2] }
    } else {
        Reply::Other
    }
}

/// What the library reads in a message.
pub open spec fn reply_of(message: MavMessage) -> Reply {
    reply_in(common_id(message), common_bytes(message))
}

/// What `COMMAND_INT_DATA::ser` returns.
pub uninterp spec fn command_int_bytes(command: COMMAND_INT_DATA) -> Seq<u8>;

/// What `COMMAND_LONG_DATA::ser` returns.
pub uninterp spec fn command_long_bytes(command: COMMAND_LONG_DATA) -> Seq<u8>;

/// The name of a mission result, as `MavMissionResult` is formatted for
/// debugging.
pub uninterp spec fn mission_result_name(result: u8) -> Seq<char>;

/// The code of the command in a `COMMAND_INT` message.
pub open spec fn command_int_code(command: COMMAND_INT_DATA) -> u16 {
    from_le16(command_int_bytes(command), 28)
}

/// The code of the command in a `COMMAND_LONG` message.
pub open spec fn command_long_code(command: COMMAND_LONG_DATA) -> u16 {
    from_le16(command_long_bytes(command), 28)
}

/// The payload of the `MISSION_ITEM_INT` message that makes a command an item
/// of a mission: it takes over the parameters, the place, the command and the
/// frame of reference.
pub open spec fn mission_item_bytes(
    command: Seq<u8>,
    seq: u16,
    current: u8,
    autocontinue: u8,
    target_system: u8,
    target_component: u8,
) -> Seq<u8> {
    command.take(28) + le16(seq as int) + command.subrange(28, 30) + seq![
        target_system,
        target_component,
        command[32],
        current,
        autocontinue,
    ]
}

/// Reads a `MavMessage`. Which variant it is, its `message_id` tells; what the
/// variant's fields are, its `ser` tells, which writes two-byte fields before
/// one-byte fields and keeps the order of definition among fields of one size.
#[verifier::external_body]
pub(crate) fn read_reply(message: &MavMessage) -> (reply: Reply)
    ensures
        reply == reply_of(*message),
{
    match message {
        MavMessage::MISSION_ACK(ack) => Reply::MissionAck(ack.mavtype as u8),
        MavMessage::MISSION_REQUEST(req) => Reply::MissionRequest(req.seq),
        MavMessage::MISSION_REQUEST_INT(req) => Reply::MissionRequestInt(req.seq),
        MavMessage::COMMAND_ACK(ack) => Reply::CommandAck {
            command: ack.command as u16,
            result: ack.result as u8,
        },
        _ => Reply::Other,
    }
}

/// Formats the result in a `MISSION_ACK` message with the `Debug` of
/// `MavMissionResult`, which depends on the result alone.
#[verifier::external_body]
pub(crate) fn mission_result_text(message: &MavMessage) -> (text: String)
    requires
        common_id(*message) == 47,
    ensures
        text@ == mission_result_name(common_bytes(*message)[2]),
{
    match message {
        MavMessage::MISSION_ACK(ack) => format!("{:?}", ack.mavtype),
        _ => String::new(),
    }
}

/// Makes the `HEARTBEAT` message of an active onboard controller without an
/// autopilot. What it does not say of itself has its default.
pub fn heartbeat() -> (message: MavMessage)
    ensures
        common_id(message) == HEARTBEAT_ID,
        common_bytes(message) == seq![0u8, 0u8, 0u8, 0u8, 18u8, 8u8, 128u8, 4u8, 3u8],
{
    let mut payload = match MavMessage::default_message_from_id(HEARTBEAT_ID) {
        Ok(default) => default.ser(),
        Err(_) => vstd::pervasive::unreached(),
    };
    payload.set(4, TYPE_ONBOARD_CONTROLLER);
    payload.set(5, AUTOPILOT_INVALID);
    payload.set(7, STATE_ACTIVE);
    payload.set(8, MAVLINK_VERSION);
    assert(payload@ =~= seq![0u8, 0u8, 0u8, 0u8, 18u8, 8u8, 128u8, 4u8, 3u8]);
    match MavMessage::parse(MavlinkVersion::V2, HEARTBEAT_ID, payload.as_slice()) {
        Ok(message) => message,
        Err(_) => vstd::pervasive::unreached(),
    }
}

/// Makes a `MISSION_CLEAR_ALL` message. Its `ser` writes the fields in the order
/// of the parameters.
#[verifier::external_body]
pub(crate) fn mission_clear_all(target_system: u8, target_component: u8) -> (message: MavMessage)
    ensures
        common_id(message) == 45,
        common_bytes(message) == seq![target_system, target_component],
{
    MavMessage::MISSION_CLEAR_ALL(MISSION_CLEAR_ALL_DATA { target_system, target_component })
}

/// Makes a `MISSION_COUNT` message. Its `ser` writes the fields in the order of
/// the parameters.
#[verifier::external_body]
pub(crate) fn mission_count(count: u16, target_system: u8, target_component: u8) -> (message:
    MavMessage)
    ensures
        common_id(message) == 44,
        common_bytes(message) == le16(count as int) + seq![target_system, target_component],
{
    MavMessage::MISSION_COUNT(MISSION_COUNT_DATA { count, target_system, target_component })
}

/// Makes a `MISSION_ITEM_INT` message of a `COMMAND_INT` one. The `ser` of both
/// writes the seven four-byte fields, `param1` to `param4`, `x`, `y` and `z`,
/// then the two-byte ones, then the one-byte ones.
#[verifier::external_body]
pub(crate) fn mission_item_int(
    command: &COMMAND_INT_DATA,
    seq: u16,
    current: u8,
    autocontinue: u8,
    target_system: u8,
    target_component: u8,
) -> (message: MavMessage)
    ensures
        common_id(message) == 73,
        common_bytes(message) == mission_item_bytes(
            command_int_bytes(*command),
            seq,
            current,
            autocontinue,
            target_system,
            target_component,
        ),
        common_bytes(message).len() == 37,
{
    MavMessage::MISSION_ITEM_INT(MISSION_ITEM_INT_DATA {
        param1: command.param1, param2: command.param2,
        param3: command.param3, param4: command.param4,
        x: command.x, y: command.y, z: command.z,
        seq, command: command.command, target_system, target_component,
        frame: command.frame, current, autocontinue,
    })
}

/// Makes a `COMMAND_INT` message, which serializes as its data does.
#[verifier::external_body]
pub(crate) fn command_int(command: &COMMAND_INT_DATA) -> (message: MavMessage)
    ensures
        common_id(message) == 75,
        common_bytes(message) == command_int_bytes(*command),
        common_bytes(message).len() == 35,
{
    MavMessage::COMMAND_INT(command.clone())
}

/// Makes a `COMMAND_LONG` message with the given confirmation, which is the
/// last byte of what its data serializes to.
#[verifier::external_body]
pub(crate) fn command_long(command: &COMMAND_LONG_DATA, confirmation: u8) -> (message: MavMessage)
    ensures
        common_id(message) == 76,
        common_bytes(message) == command_long_bytes(*command).update(32, confirmation),
        common_bytes(message).len() == 33,
{
    MavMessage::COMMAND_LONG(COMMAND_LONG_DATA { confirmation, ..command.clone() })
}

/// Reads the command in `COMMAND_INT` data, the two-byte field of its `ser`.
#[verifier::external_body]
pub(crate) fn read_command_int(command: &COMMAND_INT_DATA) -> (code: u16)
    ensures
        code == command_int_code(*command),
{
    command.command as u16
}

/// Reads the command in `COMMAND_LONG` data, the two-byte field of its `ser`.
#[verifier::external_body]
pub(crate) fn read_command_long(command: &COMMAND_LONG_DATA) -> (code: u16)
    ensures
        code == command_long_code(*command),
{
    command.command as u16
}

} // verus!
