//! Commands and their acknowledgement.
use crate::dialect::{
    command_int, command_int_bytes, command_int_code, command_long, command_long_bytes,
    command_long_code, read_command_int, read_command_long, read_reply, reply_of, Reply,
    COMMAND_ACK_ID, RESULT_ACCEPTED, RESULT_IN_PROGRESS,
};
use crate::exchange::Request;
use crate::message::{common_bytes, common_id, Message};
use mavlink::common::{MavMessage, COMMAND_INT_DATA, COMMAND_LONG_DATA};
use vstd::prelude::*;

pub mod laws;

verus! {

/// How long to wait for the acknowledgement of a command.
pub const COMMAND_TIMEOUT_MS: u64 = 500;

/// Whether a `COMMAND_INT` command was accepted, if the message acknowledges it.
pub open spec fn int_accepted(command: u16, reply: Reply) -> Option<bool> {
    match reply {
        Reply::CommandAck { command: acked, result } => if acked == command {
            Some(result == RESULT_ACCEPTED)
        } else {
            None
        },
        _ => None,
    }
}

/// Whether a `COMMAND_LONG` command was accepted, if the message acknowledges
/// it. That the command is in progress is no acknowledgement.
pub open spec fn long_accepted(command: u16, reply: Reply) -> Option<bool> {
    if reply matches Reply::CommandAck { result, .. } && result == RESULT_IN_PROGRESS {
        None
    } else {
        int_accepted(command, reply)
    }
}

/// Whether a `COMMAND_INT` command was accepted, if the message acknowledges it.
pub fn judge_int(command: u16, reply: Reply) -> (accepted: Option<bool>)
    ensures
        accepted == int_accepted(command, reply),
{
    match reply {
        Reply::CommandAck { command: acked, result } => if acked == command {
            Some(result == RESULT_ACCEPTED)
        } else {
            None
        },
        _ => None,
    }
}

/// Whether a `COMMAND_LONG` command was accepted, if the message acknowledges it.
pub fn judge_long(command: u16, reply: Reply) -> (accepted: Option<bool>)
    ensures
        accepted == long_accepted(command, reply),
{
    match reply {
        Reply::CommandAck { command: acked, result } => if acked == command && result
            != RESULT_IN_PROGRESS {
            Some(result == RESULT_ACCEPTED)
        } else {
            None
        },
        _ => None,
    }
}

/// The identifier of `COMMAND_ACK` messages.
fn command_ack_id() -> (id: u32)
    ensures
        id == COMMAND_ACK_ID,
{
    match MavMessage::message_id_from_name("COMMAND_ACK") {
        Ok(id) => id,
        Err(_) => vstd::pervasive::unreached(),
    }
}

/// The request that sends a `COMMAND_INT` command.
pub fn int_request(command: &COMMAND_INT_DATA) -> (request: Request)
    ensures
        common_id(request.message) == 75,
        common_bytes(request.message) == command_int_bytes(*command),
        request.timeout_ms == COMMAND_TIMEOUT_MS,
        request.only_id == Some(COMMAND_ACK_ID),
{
    Request {
        message: command_int(command),
        timeout_ms: COMMAND_TIMEOUT_MS,
        only_id: Some(command_ack_id()),
    }
}

/// The request that sends a `COMMAND_LONG` command. The confirmation is how
/// often the command was sent before, whatever the command itself says.
pub fn long_request(command: &COMMAND_LONG_DATA, confirmation: u8) -> (request: Request)
    ensures
        common_id(request.message) == 76,
        common_bytes(request.message) == command_long_bytes(*command).update(32, confirmation),
        request.timeout_ms == COMMAND_TIMEOUT_MS,
        request.only_id == Some(COMMAND_ACK_ID),
{
    Request {
        message: command_long(command, confirmation),
        timeout_ms: COMMAND_TIMEOUT_MS,
        only_id: Some(command_ack_id()),
    }
}

/// Whether a `COMMAND_INT` command was accepted, if the message acknowledges it.
pub fn int_answer(command: &COMMAND_INT_DATA, message: &MavMessage) -> (accepted: Option<bool>)
    ensures
        accepted == int_accepted(command_int_code(*command), reply_of(*message)),
{
    judge_int(read_command_int(command), read_reply(message))
}

/// Whether a `COMMAND_LONG` command was accepted, if the message acknowledges it.
pub fn long_answer(command: &COMMAND_LONG_DATA, message: &MavMessage) -> (accepted: Option<bool>)
    ensures
        accepted == long_accepted(command_long_code(*command), reply_of(*message)),
{
    judge_long(read_command_long(command), read_reply(message))
}

} // verus!
