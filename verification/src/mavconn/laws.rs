//! What holds of a connection whatever happens on it.
use crate::mavconn::{action_for, next_header, Action, Event};
use crate::message::{MavFrame, MavHeader};
use vstd::prelude::*;

verus! {

/// The header of the next frame after some attempts to send one, each of which
/// went well or did not.
pub open spec fn after_attempts(header: MavHeader, attempts: Seq<bool>) -> MavHeader
    decreases attempts.len(),
{
    if attempts.len() == 0 {
        header
    } else {
        let before = after_attempts(header, attempts.drop_last());
        if attempts.last() {
            next_header(before)
        } else {
            before
        }
    }
}

/// The number of attempts that went well.
pub open spec fn successes(attempts: Seq<bool>) -> nat {
    attempts.filter(|attempt: bool| attempt).len()
}

/// The sequence number counts the frames that were sent, modulo 256; whom the
/// frames are from never changes.
pub proof fn law_sequence(header: MavHeader, attempts: Seq<bool>)
    ensures
        after_attempts(header, attempts) == (MavHeader {
            sequence: ((header.sequence + successes(attempts)) % 256) as u8,
            ..header
        }),
    decreases attempts.len(),
{
    reveal(Seq::filter);
    if attempts.len() > 0 {
        law_sequence(header, attempts.drop_last());
    }
}

/// Whether serving a connection goes on after an event.
pub open spec fn goes_on<M, E>(event: Event<M, E>) -> bool {
    !(action_for(event) is Stop || action_for(event) is CloseAndStop)
}

/// Whether serving a connection has stopped, at the latest with the last of the
/// events.
pub open spec fn has_stopped<M, E>(events: Seq<Event<M, E>>) -> bool {
    exists|i: int| 0 <= i < events.len() && !#[trigger] goes_on(events[i])
}

/// The frames that are put into the mailbox, in this order.
pub open spec fn inserted<M, E>(events: Seq<Event<M, E>>) -> Seq<MavFrame<M>>
    decreases events.len(),
{
    if events.len() == 0 {
        Seq::empty()
    } else {
        match action_for(events[0]) {
            Action::Insert(frame) => seq![frame] + inserted(events.skip(1)),
            Action::Stop => Seq::empty(),
            Action::CloseAndStop => Seq::empty(),
            _ => inserted(events.skip(1)),
        }
    }
}

/// As long as somebody holds the connection and its mailbox and the stream of
/// frames has not ended, whatever frame comes in is put into the mailbox;
/// neither errors nor heartbeats get in the way.
pub proof fn law_every_frame_is_inserted<M, E>(
    events: Seq<Event<M, E>>,
    frame: MavFrame<M>,
)
    requires
        !has_stopped(events),
    ensures
        inserted(events.push(Event::Incoming { has_mailbox: true, item: Some(Ok(frame)) }))
            == inserted(events).push(frame),
    decreases events.len(),
{
    let event = Event::<M, E>::Incoming { has_mailbox: true, item: Some(Ok(frame)) };
    let more = events.push(event);
    if events.len() == 0 {
        reveal_with_fuel(inserted, 2);
        assert(more.skip(1) =~= Seq::<Event<M, E>>::empty());
        assert(inserted(more) =~= inserted(events).push(frame));
    } else {
        assert(goes_on(events[0]));
        assert forall|i: int| 0 <= i < events.skip(1).len() implies #[trigger] goes_on(
            events.skip(1)[i],
        ) by {
            assert(goes_on(events[i + 1]));
        }
        law_every_frame_is_inserted(events.skip(1), frame);
        assert(more.skip(1) =~= events.skip(1).push(event));
        assert(inserted(more) =~= inserted(events).push(frame));
    }
}

/// After serving the connection has stopped, nothing is put into the mailbox.
pub proof fn law_nothing_after_stop<M, E>(events: Seq<Event<M, E>>, event: Event<M, E>)
    requires
        has_stopped(events),
    ensures
        inserted(events.push(event)) == inserted(events),
    decreases events.len(),
{
    let more = events.push(event);
    if goes_on(events[0]) {
        let i = choose|i: int| 0 <= i < events.len() && !#[trigger] goes_on(events[i]);
        assert(!goes_on(events.skip(1)[i - 1]));
        law_nothing_after_stop(events.skip(1), event);
        assert(more.skip(1) =~= events.skip(1).push(event));
    }
}

/// The header after a frame was sent: the sequence number is one more, and 0
/// after 255; system and component stay.
pub proof fn law_next_header(header: MavHeader)
    ensures
        header.sequence < 255 ==> next_header(header).sequence == header.sequence + 1,
        header.sequence == 255 ==> next_header(header).sequence == 0,
        next_header(header).system_id == header.system_id,
        next_header(header).component_id == header.component_id,
{
}

/// Heartbeats are sent as long as there is a connection, and for no other reason.
pub proof fn law_heartbeats<M, E>(event: Event<M, E>)
    ensures
        action_for(event) is SendHeartbeat <==> (event matches Event::Tick { is_connected }
            && is_connected),
{
}

/// What is put into the mailbox is the frame that came in, and what is reported
/// is the error that came in, as long as there is a mailbox.
pub proof fn law_incoming<M, E>(event: Event<M, E>, frame: MavFrame<M>, error: E)
    ensures
        action_for(event) == Action::<M, E>::Insert(frame) <==> event == (Event::<M, E>::Incoming {
            has_mailbox: true,
            item: Some(Ok(frame)),
        }),
        action_for(event) == Action::<M, E>::Report(error) <==> event == (Event::<M, E>::Incoming {
            has_mailbox: true,
            item: Some(Err(error)),
        }),
{
}

/// The mailbox is closed if and only if the stream of frames has ended; where
/// the connection or the mailbox is gone, there is nothing left to do.
pub proof fn law_stops<M, E>(event: Event<M, E>)
    ensures
        action_for(event) is CloseAndStop <==> (event matches Event::Incoming { has_mailbox, item }
            && has_mailbox && item is None),
        action_for(event) is Stop <==> match event {
            Event::Tick { is_connected } => !is_connected,
            Event::Incoming { has_mailbox, .. } => !has_mailbox,
        },
{
}

} // verus!
