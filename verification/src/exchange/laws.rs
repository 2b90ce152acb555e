//! What holds of an exchange from its beginning on.
use crate::exchange::{
    after_send, after_wait, ConnError, Exchange, Sending, Step, Waited, Waiting, MAX_RETRIES,
};
use vstd::prelude::*;

verus! {

/// What the world does in an exchange.
pub enum Event<T, E> {
    Sent(Result<(), E>),
    Waited(Waited<T>),
}

/// What is to be done after an event, if the event is one that can come there.
pub open spec fn after_event<T, E>(step: Step<T, E>, event: Event<T, E>) -> Option<Step<T, E>> {
    match (step, event) {
        (Step::Send(timeouts), Event::Sent(sent)) => Some(after_send(timeouts, sent)),
        (Step::Wait(timeouts), Event::Waited(waited)) => Some(after_wait(timeouts, waited)),
        (Step::KeepWaiting(timeouts), Event::Waited(waited)) => Some(after_wait(timeouts, waited)),
        _ => None,
    }
}

/// What is to be done after the given events of an exchange.
pub open spec fn after_events<T, E>(events: Seq<Event<T, E>>) -> Option<Step<T, E>>
    decreases events.len(),
{
    if events.len() == 0 {
        Some(Step::Send(0))
    } else {
        match after_events(events.drop_last()) {
            Some(step) => after_event(step, events.last()),
            None => None,
        }
    }
}

/// How many messages were sent, or tried to be.
pub open spec fn sends<T, E>(events: Seq<Event<T, E>>) -> nat
    decreases events.len(),
{
    if events.len() == 0 {
        0
    } else {
        sends(events.drop_last()) + if events.last() is Sent {
            1nat
        } else {
            0nat
        }
    }
}

/// How many waits took too long.
pub open spec fn timeouts<T, E>(events: Seq<Event<T, E>>) -> nat
    decreases events.len(),
{
    if events.len() == 0 {
        0
    } else {
        timeouts(events.drop_last()) + if events.last() matches Event::Waited(Waited::TimedOut) {
            1nat
        } else {
            0nat
        }
    }
}

/// A message is sent once, and once more for each wait that took too long, up
/// to [`MAX_RETRIES`] times.
pub proof fn law_retries<T, E>(events: Seq<Event<T, E>>)
    requires
        after_events(events) is Some,
    ensures
        timeouts(events) <= MAX_RETRIES,
        sends(events) <= MAX_RETRIES + 1,
        match after_events(events)->0 {
            Step::Send(n) => n == timeouts(events) && sends(events) == n,
            Step::Wait(n) => n == timeouts(events) && sends(events) == n + 1,
            Step::KeepWaiting(n) => n == timeouts(events) && sends(events) == n + 1,
            Step::Done(_) => sends(events) == timeouts(events) + 1,
        },
        after_events(events)->0 == Step::<T, E>::Done(Err(ConnError::MaxRetries)) <==> timeouts(
            events,
        ) == MAX_RETRIES && events.last() matches Event::Sent(Ok(_)),
    decreases events.len(),
{
    if events.len() > 0 {
        law_retries(events.drop_last());
        lemma_waiting_is_early(events.drop_last());
    }
}

proof fn lemma_waiting_is_early<T, E>(events: Seq<Event<T, E>>)
    requires
        after_events(events) is Some,
    ensures
        match after_events(events)->0 {
            Step::Send(n) => n <= MAX_RETRIES,
            Step::Wait(n) => n < MAX_RETRIES,
            Step::KeepWaiting(n) => n < MAX_RETRIES,
            Step::Done(_) => true,
        },
    decreases events.len(),
{
    if events.len() > 0 {
        lemma_waiting_is_early(events.drop_last());
    }
}

/// The result of an exchange is the answer that came in last, and nothing comes
/// after it.
pub proof fn law_answer<T, E>(events: Seq<Event<T, E>>, answer: T, more: Event<T, E>)
    requires
        after_events(events) == Some(Step::<T, E>::Done(Ok(answer))),
    ensures
        events.len() > 0,
        events.last() == Event::<T, E>::Waited(Waited::Received(Some(answer))),
        after_events(events.push(more)) is None,
{
    assert(events.push(more).drop_last() =~= events);
}

/// Messages that are not the answer change nothing.
pub proof fn law_other_messages_are_ignored<T, E>(events: Seq<Event<T, E>>, next: Event<T, E>)
    requires
        after_events(events) matches Some(step) && (step is Wait || step is KeepWaiting),
    ensures
        after_events(events.push(Event::Waited(Waited::Received(None))).push(next)) == after_events(
            events.push(next),
        ),
{
    reveal_with_fuel(after_events, 3);
    let ignored = events.push(Event::Waited(Waited::Received(None)));
    assert(ignored.drop_last() =~= events);
    assert(ignored.push(next).drop_last() =~= ignored);
    assert(events.push(next).drop_last() =~= events);
}

/// In every state that waits, however many waits took too long before, a message
/// that is the answer ends the exchange at once with that answer.
pub proof fn law_answer_ends_the_exchange<T, E>(events: Seq<Event<T, E>>, answer: T)
    requires
        after_events(events) matches Some(step) && (step is Wait || step is KeepWaiting),
    ensures
        after_events(events.push(Event::Waited(Waited::Received(Some(answer))))) == Some(
            Step::<T, E>::Done(Ok(answer)),
        ),
{
    let more = events.push(Event::<T, E>::Waited(Waited::Received(Some(answer))));
    assert(more.drop_last() =~= events);
}

/// An exchange is done if and only if the answer has come in, no more messages
/// will, the message could not be sent, or it was sent for the sixth time; the
/// first and third of these are what the result tells.
pub proof fn law_what_ends_an_exchange<T, E>(events: Seq<Event<T, E>>, event: Event<T, E>)
    requires
        after_events(events) is Some,
        after_events(events.push(event)) is Some,
    ensures
        ({
            let next = after_events(events.push(event))->0;
            match event {
                Event::Waited(Waited::Received(Some(answer))) => next == Step::<T, E>::Done(
                    Ok(answer),
                ),
                Event::Waited(Waited::Closed) => next == Step::<T, E>::Done(
                    Err(ConnError::ConnectionAborted),
                ),
                Event::Sent(Err(error)) => next == Step::<T, E>::Done(Err(ConnError::Send(error))),
                Event::Sent(Ok(_)) => if timeouts(events) == 5 {
                    next == Step::<T, E>::Done(Err(ConnError::MaxRetries))
                } else {
                    next == Step::<T, E>::Wait(timeouts(events))
                },
                Event::Waited(Waited::Received(None)) => next == Step::<T, E>::KeepWaiting(
                    timeouts(events),
                ),
                Event::Waited(Waited::TimedOut) => next == Step::<T, E>::Send(
                    timeouts(events) + 1,
                ),
            }
        }),
{
    assert(events.push(event).drop_last() =~= events);
    law_retries(events);
}

/// An exchange that is not done can always go on: to a message that is to be
/// sent there is an end of sending it, to a wait there is an end of waiting.
pub proof fn law_exchange_goes_on<T, E>(
    events: Seq<Event<T, E>>,
    sent: Result<(), E>,
    waited: Waited<T>,
)
    requires
        after_events(events) is Some,
    ensures
        match after_events(events)->0 {
            Step::Send(_) => after_events(events.push(Event::Sent(sent))) is Some,
            Step::Wait(_) => after_events(events.push(Event::Waited(waited))) is Some,
            Step::KeepWaiting(_) => after_events(events.push(Event::Waited(waited))) is Some,
            Step::Done(_) => {
                &&& after_events(events.push(Event::Sent(sent))) is None
                &&& after_events(events.push(Event::Waited(waited))) is None
            },
        },
        after_events(Seq::<Event<T, E>>::empty()) == Some(Step::<T, E>::Send(0)),
{
    assert(events.push(Event::Sent(sent)).drop_last() =~= events);
    assert(events.push(Event::Waited(waited)).drop_last() =~= events);
}

/// What follows an attempt to send: its error, or a wait, until the message was
/// sent again five times.
pub proof fn law_sending<T, E>(timeouts: nat, error: E)
    ensures
        after_send::<T, E>(timeouts, Err(error)) == Step::<T, E>::Done(Err(ConnError::Send(error))),
        timeouts < 5 ==> after_send::<T, E>(timeouts, Ok(())) == Step::<T, E>::Wait(timeouts),
        timeouts >= 5 ==> after_send::<T, E>(timeouts, Ok(())) == Step::<T, E>::Done(
            Err(ConnError::MaxRetries),
        ),
{
}

/// What follows a wait does not depend on how many took too long before, but for
/// their number being kept: the answer is the result, another message leaves the
/// wait as it is, and if it took too long, the message is sent again.
pub proof fn law_waiting<T, E>(timeouts: nat, answer: T)
    ensures
        after_wait::<T, E>(timeouts, Waited::Received(Some(answer))) == Step::<T, E>::Done(
            Ok(answer),
        ),
        after_wait::<T, E>(timeouts, Waited::Received(None)) == Step::<T, E>::KeepWaiting(timeouts),
        after_wait::<T, E>(timeouts, Waited::Closed) == Step::<T, E>::Done(
            Err(ConnError::ConnectionAborted),
        ),
        after_wait::<T, E>(timeouts, Waited::TimedOut) == Step::<T, E>::Send(timeouts + 1),
{
}

/// What is to be done is what the state says, not something else.
pub proof fn law_states<T, E>(
    sending: Sending,
    waiting: Waiting,
    result: Result<T, ConnError<E>>,
)
    ensures
        Exchange::<T, E>::Send(sending).step() == Step::<T, E>::Send(sending.timeouts()),
        Exchange::<T, E>::Wait(waiting).step() == Step::<T, E>::Wait(waiting.timeouts()),
        Exchange::<T, E>::KeepWaiting(waiting).step() == Step::<T, E>::KeepWaiting(
            waiting.timeouts(),
        ),
        Exchange::Done(result).step() == Step::Done(result),
{
}

} // verus!
