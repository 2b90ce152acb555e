//! The mission protocol: uploading a mission, and clearing it.
use crate::dialect::{
    command_int_bytes, le16, mission_clear_all, mission_count, mission_item_bytes,
    mission_item_int, mission_result_name, mission_result_text, read_reply, reply_of, Reply,
    MISSION_ACCEPTED, MISSION_ACK_ID,
};
use crate::exchange::{ConnError, Request};
use crate::message::{common_bytes, common_id, Message};
use mavlink::common::{MavMessage, COMMAND_INT_DATA};
use vstd::prelude::*;

pub mod laws;

verus! {

/// The system that missions are sent to.
pub const TARGET_SYSTEM: u8 = 1;

/// The component that missions are sent to.
pub const TARGET_COMPONENT: u8 = 1;

/// What a message is to somebody who waits for an answer from the vehicle.
#[derive(Debug, Clone, Copy, PartialEq, Eq, Structural)]
pub enum Answer {
    /// It is not the answer.
    NotYet,
    /// The vehicle asks for the next item.
    GoOn,
    /// The vehicle is done, and this is its result.
    Ended(u8),
}

/// What a message is to somebody who clears a mission: the vehicle's result is
/// the answer.
pub open spec fn clear_answer(reply: Reply) -> Answer {
    match reply {
        Reply::MissionAck(result) => Answer::Ended(result),
        _ => Answer::NotYet,
    }
}

/// What a message is to somebody who uploads a mission with `total` items and
/// has sent the count, at step 0, or item `step - 1`. Until the last item was
/// sent, the answer is that the vehicle asks for the next one; then it is the
/// vehicle's result. An empty mission is uploaded whatever the result.
pub open spec fn upload_answer(total: int, step: int, reply: Reply) -> Answer {
    match reply {
        Reply::MissionAck(result) => if total == 0 {
            Answer::Ended(MISSION_ACCEPTED)
        } else if step == total {
            Answer::Ended(result)
        } else {
            Answer::NotYet
        },
        Reply::MissionRequest(seq) => if step < total && seq == step {
            Answer::GoOn
        } else {
            Answer::NotYet
        },
        Reply::MissionRequestInt(seq) => if step < total && seq == step {
            Answer::GoOn
        } else {
            Answer::NotYet
        },
        _ => Answer::NotYet,
    }
}

/// How an operation on the mission ended.
pub open spec fn ended(result: u8, text: Seq<char>) -> Result<(), Seq<char>> {
    if result == MISSION_ACCEPTED {
        Ok(())
    } else {
        Err("failed to clear mission, with reasult "@ + text)
    }
}

/// What a message is to somebody who clears a mission.
pub fn judge_clear(reply: Reply) -> (answer: Answer)
    ensures
        answer == clear_answer(reply),
{
    match reply {
        Reply::MissionAck(result) => Answer::Ended(result),
        _ => Answer::NotYet,
    }
}

/// What a message is to somebody who uploads a mission.
pub fn judge_upload(total: usize, step: usize, reply: Reply) -> (answer: Answer)
    ensures
        answer == upload_answer(total as int, step as int, reply),
{
    match reply {
        Reply::MissionAck(result) => if total == 0 {
            Answer::Ended(MISSION_ACCEPTED)
        } else if step == total {
            Answer::Ended(result)
        } else {
            Answer::NotYet
        },
        Reply::MissionRequest(seq) => if step < total && seq as usize == step {
            Answer::GoOn
        } else {
            Answer::NotYet
        },
        Reply::MissionRequestInt(seq) => if step < total && seq as usize == step {
            Answer::GoOn
        } else {
            Answer::NotYet
        },
        _ => Answer::NotYet,
    }
}

/// How an operation on the mission ended, with the name of its result.
pub fn conclude(result: u8, text: &str) -> (conclusion: Result<(), String>)
    ensures
        match conclusion {
            Ok(()) => ended(result, text@) == Ok::<(), Seq<char>>(()),
            Err(message) => ended(result, text@) == Err::<(), Seq<char>>(message@),
        },
{
    if result == MISSION_ACCEPTED {
        Ok(())
    } else {
        let mut message = "failed to clear mission, with reasult ".to_owned();
        message.append(text);
        Err(message)
    }
}

/// The request that clears the mission of the vehicle.
pub fn clear_request() -> (request: Request)
    ensures
        common_id(request.message) == 45,
        common_bytes(request.message) == seq![TARGET_SYSTEM, TARGET_COMPONENT],
        request.timeout_ms == 500,
        request.only_id is None,
{
    Request {
        message: mission_clear_all(TARGET_SYSTEM, TARGET_COMPONENT),
        timeout_ms: 500,
        only_id: None,
    }
}

/// How clearing the mission ended, if the message says so.
pub fn cleared(message: &MavMessage) -> (end: Option<Result<(), String>>)
    ensures
        match clear_answer(reply_of(*message)) {
            Answer::Ended(result) => end matches Some(end) && is_conclusion(result, end),
            _ => end is None,
        },
{
    match judge_clear(read_reply(message)) {
        Answer::Ended(result) => Some(conclude(result, mission_result_text(message).as_str())),
        _ => None,
    }
}

/// Whether `end` is what an operation on the mission with the given result
/// leads to.
pub open spec fn is_conclusion(result: u8, end: Result<(), String>) -> bool {
    match end {
        Ok(()) => result == MISSION_ACCEPTED,
        Err(message) => {
            &&& result != MISSION_ACCEPTED
            &&& message@ == "failed to clear mission, with reasult "@ + mission_result_name(result)
        },
    }
}

/// The result of an operation on the mission that has ended.
pub open spec fn outcome<E>(end: Result<(), String>) -> Result<(), ConnError<E>> {
    match end {
        Ok(()) => Ok(()),
        Err(text) => Err(ConnError::Rejected(text)),
    }
}

/// The result of an operation on the mission whose last request was exchanged.
pub fn finish<E>(exchanged: Result<Result<(), String>, ConnError<E>>) -> (result: Result<
    (),
    ConnError<E>,
>)
    ensures
        result == (match exchanged {
            Ok(end) => outcome(end),
            Err(error) => Err(error),
        }),
{
    match exchanged {
        Ok(Ok(())) => Ok(()),
        Ok(Err(text)) => Err(ConnError::Rejected(text)),
        Err(error) => Err(error),
    }
}

/// Whether a request is the one at a step of the upload of a mission: first the
/// number of items, then one item after the other. What the answer is, decides
/// for how long and for which messages to wait.
pub open spec fn is_upload_request(
    commands: Seq<COMMAND_INT_DATA>,
    step: int,
    request: Request,
) -> bool {
    if step == 0 {
        &&& common_id(request.message) == 44
        &&& common_bytes(request.message) == le16(commands.len() as int) + seq![
            TARGET_SYSTEM,
            TARGET_COMPONENT,
        ]
        &&& request.timeout_ms == 1000
        &&& request.only_id == (if commands.len() == 0 {
            Some(MISSION_ACK_ID)
        } else {
            None
        })
    } else {
        &&& common_id(request.message) == 73
        &&& common_bytes(request.message) == mission_item_bytes(
            command_int_bytes(commands[step - 1]),
            ((step - 1) % 65536) as u16,
            if step == 1 {
                1
            } else {
                0
            },
            1,
            TARGET_SYSTEM,
            TARGET_COMPONENT,
        )
        &&& request.timeout_ms == (if step < commands.len() {
            500
        } else {
            1000int
        })
        &&& request.only_id == (if step < commands.len() {
            None
        } else {
            Some(MISSION_ACK_ID)
        })
    }
}

/// What an answer of the vehicle means for the upload of a mission.
pub enum Uploaded {
    /// The next request is due.
    GoOn,
    /// The upload has ended.
    Ended(Result<(), String>),
}

/// What is to be done next in the upload of a mission.
pub enum UploadStep<'a, E> {
    /// Exchange the request that is due.
    Request(MissionUpload<'a>),
    /// Nothing is left to be done.
    Finished(Result<(), ConnError<E>>),
}

/// The upload of a mission. The first waypoint should be close enough to the
/// current position of the vehicle.
pub struct MissionUpload<'a> {
    commands: &'a [COMMAND_INT_DATA],
    step: usize,
}

/// The identifier of `MISSION_ACK` messages.
fn mission_ack_id() -> (id: u32)
    ensures
        id == MISSION_ACK_ID,
{
    match MavMessage::message_id_from_name("MISSION_ACK") {
        Ok(id) => id,
        Err(_) => vstd::pervasive::unreached(),
    }
}

impl<'a> MissionUpload<'a> {
    #[verifier::type_invariant]
    spec fn inv(self) -> bool {
        self.step <= self.commands@.len()
    }

    /// The mission.
    pub closed spec fn commands(self) -> Seq<COMMAND_INT_DATA> {
        self.commands@
    }

    /// How many requests were answered.
    pub closed spec fn step(self) -> int {
        self.step as int
    }

    pub fn new(commands: &'a [COMMAND_INT_DATA]) -> (upload: MissionUpload<'a>)
        ensures
            upload.commands() == commands@,
            upload.step() == 0,
    {
        MissionUpload { commands, step: 0 }
    }

    /// The request that is due.
    pub fn request(&self) -> (request: Request)
        ensures
            is_upload_request(self.commands(), self.step(), request),
    {
        proof {
            use_type_invariant(self);
        }
        let total: usize = self.commands.len();
        if self.step == 0 {
            let count: u16 = (total % 65536) as u16;
            let only_id = if total == 0 {
                Some(mission_ack_id())
            } else {
                None
            };
            Request {
                message: mission_count(count, TARGET_SYSTEM, TARGET_COMPONENT),
                timeout_ms: 1000,
                only_id,
            }
        } else {
            let index: usize = self.step - 1;
            let message = mission_item_int(
                &self.commands[index],
                (index % 65536) as u16,
                if index == 0 {
                    1
                } else {
                    0
                },
                1,
                TARGET_SYSTEM,
                TARGET_COMPONENT,
            );
            if self.step < total {
                Request { message, timeout_ms: 500, only_id: None }
            } else {
                Request { message, timeout_ms: 1000, only_id: Some(mission_ack_id()) }
            }
        }
    }

    /// What a message means for the upload, if it is the answer to the request
    /// that is due.
    pub fn answered(&self, message: &MavMessage) -> (uploaded: Option<Uploaded>)
        ensures
            match upload_answer(self.commands().len() as int, self.step(), reply_of(*message)) {
                Answer::NotYet => uploaded is None,
                Answer::GoOn => uploaded == Some(Uploaded::GoOn) && self.step()
                    < self.commands().len(),
                Answer::Ended(result) => {
                    &&& uploaded matches Some(Uploaded::Ended(end))
                    &&& is_conclusion(result, end)
                },
            },
    {
        match judge_upload(self.commands.len(), self.step, read_reply(message)) {
            Answer::NotYet => None,
            Answer::GoOn => Some(Uploaded::GoOn),
            Answer::Ended(result) => Some(
                Uploaded::Ended(conclude(result, mission_result_text(message).as_str())),
            ),
        }
    }

    /// What follows the exchange of the request that is due.
    pub fn exchanged<E>(self, result: Result<Uploaded, ConnError<E>>) -> (next: UploadStep<'a, E>)
        requires
            result matches Ok(Uploaded::GoOn) ==> self.step() < self.commands().len(),
        ensures
            match result {
                Ok(Uploaded::GoOn) => {
                    &&& next matches UploadStep::Request(upload)
                    &&& upload.commands() == self.commands()
                    &&& upload.step() == self.step() + 1
                },
                Ok(Uploaded::Ended(end)) => next == UploadStep::<'a, E>::Finished(outcome(end)),
                Err(error) => next == UploadStep::<'a, E>::Finished(Err(error)),
            },
    {
        match result {
            Ok(Uploaded::GoOn) => {
                assert(self.commands@.len() == self.commands.len());
                UploadStep::Request(
                    MissionUpload { commands: self.commands, step: self.step + 1 },
                )
            },
            Ok(Uploaded::Ended(end)) => UploadStep::Finished(finish(Ok(end))),
            Err(error) => UploadStep::Finished(Err(error)),
        }
    }
}

} // verus!
