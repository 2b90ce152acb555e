//! Sending a message until it is answered.
//!
//! A message is sent, and incoming messages are looked at until one of them is
//! the answer. If the wait takes too long, the message is sent again. The
//! states say what is to be done next, and take what came of it.
use mavlink::common::MavMessage;
use vstd::prelude::*;

pub mod laws;

verus! {

/// How often a message is sent again.
pub const MAX_RETRIES: u8 = 5;

/// A message with what it takes to send it until it is answered.
pub struct Request {
    pub message: MavMessage,
    /// How long to wait before the message is sent again.
    pub timeout_ms: u64,
    /// The identifier of the messages that can be the answer, if it is known.
    pub only_id: Option<u32>,
}

/// Why an exchange had no good end.
pub enum ConnError<E> {
    /// There will be no more messages.
    ConnectionAborted,
    /// There was no answer, however often the message was sent.
    MaxRetries,
    /// The vehicle has answered that it did not go well, with this text.
    Rejected(String),
    /// The message could not be sent.
    Send(E),
}

/// The text of [`ConnError::MaxRetries`].
pub fn max_retries_text() -> (text: &'static str)
    ensures
        text@ == "maximum retries attempted"@,
{
    "maximum retries attempted"
}

/// What came of a wait for an answer.
pub enum Waited<T> {
    /// A message came in, which may be the answer.
    Received(Option<T>),
    /// There will be no more messages.
    Closed,
    /// The wait took too long.
    TimedOut,
}

/// The message is to be sent.
pub struct Sending {
    timeouts: u8,
}

/// The answer is to be waited for.
pub struct Waiting {
    timeouts: u8,
}

/// What is to be done next.
pub enum Exchange<T, E> {
    Send(Sending),
    /// Wait, from now on for as long as a wait may take.
    Wait(Waiting),
    /// Go on with the wait, for what is left of it.
    KeepWaiting(Waiting),
    Done(Result<T, ConnError<E>>),
}

/// What is to be done next, with the number of times that a wait has taken too
/// long.
pub enum Step<T, E> {
    Send(nat),
    Wait(nat),
    KeepWaiting(nat),
    Done(Result<T, ConnError<E>>),
}

/// What follows an attempt to send the message.
pub open spec fn after_send<T, E>(timeouts: nat, sent: Result<(), E>) -> Step<T, E> {
    match sent {
        Err(error) => Step::Done(Err(ConnError::Send(error))),
        Ok(()) => if timeouts < MAX_RETRIES {
            Step::Wait(timeouts)
        } else {
            Step::Done(Err(ConnError::MaxRetries))
        },
    }
}

/// What follows a wait.
pub open spec fn after_wait<T, E>(timeouts: nat, waited: Waited<T>) -> Step<T, E> {
    match waited {
        Waited::Received(Some(answer)) => Step::Done(Ok(answer)),
        Waited::Received(None) => Step::KeepWaiting(timeouts),
        Waited::Closed => Step::Done(Err(ConnError::ConnectionAborted)),
        Waited::TimedOut => Step::Send(timeouts + 1),
    }
}

impl<T, E> Exchange<T, E> {
    pub open spec fn step(self) -> Step<T, E> {
        match self {
            Exchange::Send(sending) => Step::Send(sending.timeouts()),
            Exchange::Wait(waiting) => Step::Wait(waiting.timeouts()),
            Exchange::KeepWaiting(waiting) => Step::KeepWaiting(waiting.timeouts()),
            Exchange::Done(result) => Step::Done(result),
        }
    }
}

impl Sending {
    #[verifier::type_invariant]
    spec fn inv(self) -> bool {
        self.timeouts <= MAX_RETRIES
    }

    /// How often a wait has taken too long, which is how often the message was
    /// sent before.
    pub closed spec fn timeouts(self) -> nat {
        self.timeouts as nat
    }

    /// The beginning: the message was never sent.
    pub fn first() -> (sending: Sending)
        ensures
            sending.timeouts() == 0,
    {
        Sending { timeouts: 0 }
    }

    /// How often the message was sent before.
    pub fn confirmation(&self) -> (confirmation: u8)
        ensures
            confirmation == self.timeouts(),
            confirmation <= MAX_RETRIES,
    {
        proof {
            use_type_invariant(self);
        }
        self.timeouts
    }

    /// The message was sent, or could not be sent.
    pub fn sent<T, E>(self, sent: Result<(), E>) -> (next: Exchange<T, E>)
        ensures
            next.step() == after_send::<T, E>(self.timeouts(), sent),
    {
        match sent {
            Err(error) => Exchange::Done(Err(ConnError::Send(error))),
            Ok(()) => if self.timeouts < MAX_RETRIES {
                Exchange::Wait(Waiting { timeouts: self.timeouts })
            } else {
                Exchange::Done(Err(ConnError::MaxRetries))
            },
        }
    }
}

impl Waiting {
    #[verifier::type_invariant]
    spec fn inv(self) -> bool {
        self.timeouts < MAX_RETRIES
    }

    /// How often a wait has taken too long before.
    pub closed spec fn timeouts(self) -> nat {
        self.timeouts as nat
    }

    /// The wait has come to something.
    pub fn waited<T, E>(self, waited: Waited<T>) -> (next: Exchange<T, E>)
        ensures
            next.step() == after_wait::<T, E>(self.timeouts(), waited),
    {
        proof {
            use_type_invariant(&self);
        }
        match waited {
            Waited::Received(Some(answer)) => Exchange::Done(Ok(answer)),
            Waited::Received(None) => Exchange::KeepWaiting(self),
            Waited::Closed => Exchange::Done(Err(ConnError::ConnectionAborted)),
            Waited::TimedOut => Exchange::Send(Sending { timeouts: self.timeouts + 1 }),
        }
    }
}

} // verus!
