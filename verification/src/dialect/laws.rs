//! What holds of the messages that are made and read.
use crate::dialect::{
    command_int_bytes, command_int_code, command_long_bytes, command_long_code,
    mission_item_bytes, reply_in, reply_of, Reply,
};
use crate::message::{common_bytes, common_id};
use mavlink::common::{MavMessage, COMMAND_INT_DATA, COMMAND_LONG_DATA};
use vstd::prelude::*;

verus! {

/// What a message says to the library, by its identifier and its payload: the
/// result of a mission operation in the third byte of a `MISSION_ACK`, the
/// number of the wanted item in the first two of a `MISSION_REQUEST` or a
/// `MISSION_REQUEST_INT`, the command in the first two of a `COMMAND_ACK` and its
/// result in the third.
pub proof fn law_replies_are_read(message: MavMessage)
    ensures
        ({
            let id = common_id(message);
            let payload = common_bytes(message);
            let number = (payload[0] + 256 * payload[1]) as u16;
            match reply_of(message) {
                Reply::MissionAck(result) => id == 47 && result == payload[2],
                Reply::MissionRequest(seq) => id == 40 && seq == number,
                Reply::MissionRequestInt(seq) => id == 51 && seq == number,
                Reply::CommandAck { command, result } => {
                    id == 77 && command == number && result == payload[2]
                },
                Reply::Other => id != 47 && id != 40 && id != 51 && id != 77,
            }
        }),
        reply_of(message) == reply_in(common_id(message), common_bytes(message)),
{
}

/// The command of `COMMAND_INT` and `COMMAND_LONG` data stands in the two bytes
/// behind the first 28, the less significant one first.
pub proof fn law_commands_are_read(command: COMMAND_INT_DATA, long_command: COMMAND_LONG_DATA)
    ensures
        ({
            let bytes = command_int_bytes(command);
            let long_bytes = command_long_bytes(long_command);
            &&& command_int_code(command) == bytes[28] + 256 * bytes[29]
            &&& command_long_code(long_command) == long_bytes[28] + 256 * long_bytes[29]
        }),
{
}

/// The payload of a mission item, byte for byte, of the 35 bytes of a command.
pub proof fn law_mission_item(
    command: Seq<u8>,
    seq: u16,
    current: u8,
    autocontinue: u8,
    target_system: u8,
    target_component: u8,
)
    requires
        command.len() == 35,
    ensures
        ({
            let item = mission_item_bytes(
                command,
                seq,
                current,
                autocontinue,
                target_system,
                target_component,
            );
            &&& item.len() == 37
            &&& forall|i: int| 0 <= i < 28 ==> #[trigger] item[i] == command[i]
            &&& item[28] + 256 * item[29] == seq
            &&& item[30] == command[28]
            &&& item[31] == command[29]
            &&& item[32] == target_system
            &&& item[33] == target_component
            &&& item[34] == command[32]
            &&& item[35] == current
            &&& item[36] == autocontinue
        }),
{
}

} // verus!
