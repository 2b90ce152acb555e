//! What holds of commands.
use crate::command::{int_accepted, long_accepted, COMMAND_TIMEOUT_MS};
use crate::dialect::Reply;
use vstd::prelude::*;

verus! {

/// Whatever message comes in, a `COMMAND_INT` command has its answer if and only
/// if the message acknowledges this very command, and it was accepted if and
/// only if the result is 0.
pub proof fn law_int_is_accepted_by_result_0_only(command: u16, reply: Reply)
    ensures
        int_accepted(command, reply) is Some <==> (reply matches Reply::CommandAck {
            command: acked,
            ..
        } && acked == command),
        int_accepted(command, reply) == Some(true) <==> (reply matches Reply::CommandAck {
            command: acked,
            result,
        } && acked == command && result == 0),
{
}

/// Whatever message comes in, a `COMMAND_LONG` command has its answer if and
/// only if the message acknowledges this very command with a result other than
/// 5, that it is in progress, and it was accepted if and only if the result is 0.
pub proof fn law_long_is_accepted_by_result_0_only(command: u16, reply: Reply)
    ensures
        long_accepted(command, reply) is Some <==> (reply matches Reply::CommandAck {
            command: acked,
            result,
        } && acked == command && result != 5),
        long_accepted(command, reply) == Some(true) <==> (reply matches Reply::CommandAck {
            command: acked,
            result,
        } && acked == command && result == 0),
{
}

/// Every result code decides: 0 is a yes, every other one a no, but that the 5 of
/// a command in progress is no answer to a `COMMAND_LONG`.
pub proof fn law_every_result_decides(command: u16, other: u16, result: u8)
    requires
        other != command,
    ensures
        int_accepted(command, Reply::CommandAck { command, result }) == Some(result == 0),
        result != 5 ==> long_accepted(command, Reply::CommandAck { command, result }) == Some(
            result == 0,
        ),
        long_accepted(command, Reply::CommandAck { command, result: 5 }) is None,
        int_accepted(command, Reply::CommandAck { command: other, result }) is None,
        long_accepted(command, Reply::CommandAck { command: other, result }) is None,
{
}

/// Messages that acknowledge no command are no answer, and half a second passes
/// before a command is sent again.
pub proof fn law_other_replies_decide_nothing(command: u16, reply: Reply)
    requires
        !(reply is CommandAck),
    ensures
        int_accepted(command, reply) is None,
        long_accepted(command, reply) is None,
        COMMAND_TIMEOUT_MS == 500,
{
}

} // verus!
