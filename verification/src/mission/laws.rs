//! What holds of a mission upload as a whole.
use crate::dialect::{command_int_bytes, mission_result_name, Reply};
use crate::exchange::{ConnError, Request};
use crate::message::{common_bytes, common_id};
use crate::mission::{
    clear_answer, ended, is_conclusion, is_upload_request, outcome, upload_answer, Answer,
};
use mavlink::common::COMMAND_INT_DATA;
use vstd::prelude::*;

verus! {

/// Where an upload is.
pub enum Progress {
    /// That many requests were answered.
    At(int),
    /// The vehicle has reported its result.
    Ended(u8),
}

/// Where the upload of a mission with `total` items is after the given messages
/// have come in.
pub open spec fn progress(total: int, replies: Seq<Reply>) -> Progress
    decreases replies.len(),
{
    if replies.len() == 0 {
        Progress::At(0)
    } else {
        match progress(total, replies.drop_last()) {
            Progress::At(step) => match upload_answer(total, step, replies.last()) {
                Answer::NotYet => Progress::At(step),
                Answer::GoOn => Progress::At(step + 1),
                Answer::Ended(result) => Progress::Ended(result),
            },
            Progress::Ended(result) => Progress::Ended(result),
        }
    }
}

/// The numbers of the items that the vehicle got, in the order in which it
/// asked for them.
pub open spec fn items_sent(total: int, replies: Seq<Reply>) -> Seq<int>
    decreases replies.len(),
{
    if replies.len() == 0 {
        Seq::empty()
    } else {
        let before = items_sent(total, replies.drop_last());
        match progress(total, replies.drop_last()) {
            Progress::At(step) => if upload_answer(total, step, replies.last()) is GoOn {
                before.push(requested(replies.last()))
            } else {
                before
            },
            Progress::Ended(_) => before,
        }
    }
}

/// The number of the item that a message asks for.
pub open spec fn requested(reply: Reply) -> int {
    match reply {
        Reply::MissionRequest(seq) => seq as int,
        Reply::MissionRequestInt(seq) => seq as int,
        _ => -1,
    }
}

/// Every item is sent when the vehicle asks for it, one after the other from
/// the first on, and only when it got all of them the upload ends.
pub proof fn law_items_in_order(total: int, replies: Seq<Reply>)
    requires
        total >= 0,
    ensures
        match progress(total, replies) {
            Progress::At(step) => {
                &&& 0 <= step <= total
                &&& items_sent(total, replies) == Seq::new(step as nat, |i: int| i)
            },
            Progress::Ended(_) => items_sent(total, replies) == Seq::new(total as nat, |i: int| i),
        },
    decreases replies.len(),
{
    if replies.len() > 0 {
        law_items_in_order(total, replies.drop_last());
        match progress(total, replies) {
            Progress::At(step) => {
                assert(items_sent(total, replies) =~= Seq::new(step as nat, |i: int| i));
            },
            Progress::Ended(_) => {
                assert(items_sent(total, replies) =~= Seq::new(total as nat, |i: int| i));
            },
        }
    }
}

/// An upload that has ended takes no notice of what still comes in.
pub proof fn law_end_is_final(total: int, replies: Seq<Reply>, more: Reply)
    requires
        progress(total, replies) is Ended,
    ensures
        progress(total, replies.push(more)) == progress(total, replies),
        items_sent(total, replies.push(more)) == items_sent(total, replies),
{
    assert(replies.push(more).drop_last() =~= replies);
}

/// The vehicle cannot ask for an item past the number 65535, so that the upload
/// of a longer mission never ends.
pub proof fn law_long_mission_never_ends(total: int, replies: Seq<Reply>)
    requires
        total > 65536,
    ensures
        progress(total, replies) matches Progress::At(step) && step <= 65536,
    decreases replies.len(),
{
    if replies.len() > 0 {
        law_long_mission_never_ends(total, replies.drop_last());
    }
}

/// What ends the upload of a mission with items, and with which result: only a
/// `MISSION_ACK`, only once the last item was sent, and with the very result in
/// it. An empty mission is ended by any `MISSION_ACK`, as if accepted.
pub proof fn law_result_is_the_reported_one(total: int, step: int, reply: Reply, result: u8)
    requires
        0 <= step <= total,
    ensures
        total > 0 ==> (upload_answer(total, step, reply) == Answer::Ended(result) <==> step == total
            && reply == Reply::MissionAck(result)),
        total == 0 ==> (upload_answer(total, step, reply) is Ended <==> reply is MissionAck),
        total == 0 ==> (upload_answer(total, step, reply) == Answer::Ended(result) ==> result == 0),
        clear_answer(reply) == Answer::Ended(result) <==> reply == Reply::MissionAck(result),
        !(clear_answer(reply) is GoOn),
{
}

/// What makes an upload go on: that the vehicle asks, in either way, for the item
/// that is next, and for no other one.
pub proof fn law_next_item_is_asked_for(total: int, step: int, reply: Reply)
    requires
        0 <= step <= total,
    ensures
        upload_answer(total, step, reply) is GoOn <==> {
            &&& step < total
            &&& match reply {
                Reply::MissionRequest(seq) => seq == step,
                Reply::MissionRequestInt(seq) => seq == step,
                _ => false,
            }
        },
{
}

/// An upload of at least one item that has ended was ended by a `MISSION_ACK`
/// that came in after the last item was sent, with the result in it; `k` tells
/// which of the messages that was.
pub proof fn law_upload_is_ended_by_ack(total: int, replies: Seq<Reply>, result: u8) -> (k: int)
    requires
        total > 0,
        progress(total, replies) == Progress::Ended(result),
    ensures
        0 <= k < replies.len(),
        replies[k] == Reply::MissionAck(result),
        progress(total, replies.take(k)) == Progress::At(total),
    decreases replies.len(),
{
    let earlier = replies.drop_last();
    law_items_in_order(total, earlier);
    match progress(total, earlier) {
        Progress::Ended(_) => {
            let k = law_upload_is_ended_by_ack(total, earlier, result);
            assert(earlier.take(k) =~= replies.take(k));
            k
        },
        Progress::At(_) => {
            assert(replies.take(replies.len() - 1) =~= earlier);
            replies.len() - 1
        },
    }
}

/// Once the last item was sent, a `MISSION_ACK` ends the upload with its result,
/// and before that none does.
pub proof fn law_ack_ends_the_upload(total: int, replies: Seq<Reply>, result: u8)
    requires
        total > 0,
        progress(total, replies) is At,
    ensures
        progress(total, replies.push(Reply::MissionAck(result))) == (if progress(total, replies)
            == Progress::At(total) {
            Progress::Ended(result)
        } else {
            progress(total, replies)
        }),
{
    assert(replies.push(Reply::MissionAck(result)).drop_last() =~= replies);
}

/// An operation on the mission ends well if and only if the result is 0,
/// `MAV_MISSION_ACCEPTED`; else the result is named in the error, and the error
/// is what the caller gets.
pub proof fn law_only_accepted_is_ok<E>(
    result: u8,
    end: Result<(), String>,
    text: Seq<char>,
    outcome_of_end: Result<(), ConnError<E>>,
)
    ensures
        is_conclusion(result, end) ==> (end is Ok <==> result == 0),
        is_conclusion(result, end) ==> (end matches Err(message) ==> message@
            == "failed to clear mission, with reasult "@ + mission_result_name(result)),
        ended(result, text) is Ok <==> result == 0,
        ended(result, text) matches Err(message) ==> message
            == "failed to clear mission, with reasult "@ + text,
        outcome_of_end == outcome::<E>(end) ==> (outcome_of_end is Ok <==> end is Ok),
        outcome_of_end == outcome::<E>(end) ==> (end matches Err(message) ==> outcome_of_end == Err::<
            (),
            ConnError<E>,
        >(ConnError::Rejected(message))),
{
}

/// The request that begins an upload: a `MISSION_COUNT` with the number of items,
/// the less significant byte first, to the first component of the first system.
/// The answer may be any message, but for an empty mission, and may take a
/// second.
pub proof fn law_count_is_sent_first(commands: Seq<COMMAND_INT_DATA>, request: Request)
    requires
        is_upload_request(commands, 0, request),
    ensures
        ({
            let payload = common_bytes(request.message);
            &&& common_id(request.message) == 44
            &&& payload.len() == 4
            &&& payload[0] + 256 * payload[1] == commands.len() % 65536
            &&& payload[2] == 1
            &&& payload[3] == 1
            &&& request.timeout_ms == 1000
            &&& commands.len() == 0 ==> request.only_id == Some(47u32)
            &&& commands.len() > 0 ==> request.only_id is None
        }),
{
}

/// The request at a later step: a `MISSION_ITEM_INT` with the item before it,
/// byte for byte, numbered from 0, and only the first one current. Only the
/// answer to the last item must be a `MISSION_ACK` and may take a second. The
/// data of a command have 35 bytes.
pub proof fn law_items_are_sent(commands: Seq<COMMAND_INT_DATA>, step: int, request: Request)
    requires
        0 < step <= commands.len(),
        is_upload_request(commands, step, request),
        command_int_bytes(commands[step - 1]).len() == 35,
    ensures
        ({
            let payload = common_bytes(request.message);
            let command = command_int_bytes(commands[step - 1]);
            &&& common_id(request.message) == 73
            &&& payload.len() == 37
            &&& forall|i: int| 0 <= i < 28 ==> #[trigger] payload[i] == command[i]
            &&& payload[28] + 256 * payload[29] == (step - 1) % 65536
            &&& payload[30] == command[28]
            &&& payload[31] == command[29]
            &&& payload[32] == 1
            &&& payload[33] == 1
            &&& payload[34] == command[32]
            &&& payload[35] == 1 <==> step == 1
            &&& payload[35] == 0 <==> step != 1
            &&& payload[36] == 1
            &&& step < commands.len() ==> request.timeout_ms == 500 && request.only_id is None
            &&& step == commands.len() ==> request.timeout_ms == 1000 && request.only_id == Some(
                47u32,
            )
        }),
{
}

} // verus!
