//! What both ends of a connection decide: the header that frames are sent
//! under, and what becomes of the frames that come in.
use crate::dialect::heartbeat;
use crate::exchange::ConnError;
use crate::message::{common_bytes, common_id, MavFrame, MavHeader, MavlinkVersion};
use crate::raw::MaybeRawMsg;
use mavlink::common::MavMessage;
use vstd::prelude::*;

pub mod laws;

verus! {

/// The time between two heartbeats.
pub const HEARTBEAT_PERIOD_MS: u64 = 1000;

/// The header of the frame after one that was sent under the given header.
pub open spec fn next_header(header: MavHeader) -> MavHeader {
    MavHeader { sequence: ((header.sequence + 1) % 256) as u8, ..header }
}

/// The sending end of a connection.
pub struct MavConnInner {
    header: MavHeader,
}

impl MavConnInner {
    /// The header of the next frame.
    pub closed spec fn header(self) -> MavHeader {
        self.header
    }

    pub fn new(system_id: u8, component_id: u8) -> (conn: MavConnInner)
        ensures
            conn.header() == (MavHeader { system_id, component_id, sequence: 0 }),
    {
        MavConnInner { header: MavHeader { system_id, component_id, sequence: 0 } }
    }

    /// The frame that a message is to be sent in.
    pub fn frame<M>(&self, msg: MaybeRawMsg<M>) -> (frame: MavFrame<MaybeRawMsg<M>>)
        ensures
            frame == (MavFrame {
                protocol_version: MavlinkVersion::V2,
                header: self.header(),
                msg,
            }),
    {
        MavFrame { protocol_version: MavlinkVersion::V2, header: self.header, msg }
    }

    /// The frame that the next heartbeat is to be sent in.
    pub fn heartbeat_frame(&self) -> (frame: MavFrame<MaybeRawMsg<MavMessage>>)
        ensures
            frame.protocol_version == MavlinkVersion::V2,
            frame.header == self.header(),
            frame.msg matches MaybeRawMsg::Standard(message) && common_id(message) == 0
                && common_bytes(message) == seq![0u8, 0u8, 0u8, 0u8, 18u8, 8u8, 128u8, 4u8, 3u8],
    {
        self.frame(MaybeRawMsg::Standard(heartbeat()))
    }

    fn advance_seq(&mut self)
        ensures
            final(self).header() == next_header(old(self).header()),
    {
        self.header.sequence = self.header.sequence.wrapping_add(1);
    }

    /// A frame was sent, or could not be sent. The sequence number of one that
    /// was not sent is used again.
    pub fn sent<E>(&mut self, result: Result<(), E>) -> (passed_on: Result<(), E>)
        ensures
            passed_on == result,
            final(self).header() == (if result is Ok {
                next_header(old(self).header())
            } else {
                old(self).header()
            }),
    {
        if result.is_ok() {
            self.advance_seq();
        }
        result
    }
}

/// The frame that came out of the mailbox; none comes after the connection was
/// closed.
pub fn received_with_header<M, E>(next: Option<MavFrame<M>>) -> (received: Result<
    MavFrame<M>,
    ConnError<E>,
>)
    ensures
        received == (match next {
            Some(frame) => Ok(frame),
            None => Err(ConnError::<E>::ConnectionAborted),
        }),
{
    match next {
        Some(frame) => Ok(frame),
        None => Err(ConnError::ConnectionAborted),
    }
}

/// The message in the frame that came out of the mailbox.
pub fn received<M, E>(next: Option<MavFrame<M>>) -> (received: Result<M, ConnError<E>>)
    ensures
        received == (match next {
            Some(frame) => Ok(frame.msg),
            None => Err(ConnError::<E>::ConnectionAborted),
        }),
{
    match received_with_header(next) {
        Ok(frame) => Ok(frame.msg),
        Err(error) => Err(error),
    }
}

/// What is kept of what came in on a socket that anybody can send to: frames of
/// the peer, and errors.
pub fn from_peer<M, E>(received: Result<MavFrame<M>, E>, is_peer: bool) -> (kept: Option<
    Result<MavFrame<M>, E>,
>)
    ensures
        kept == (if received is Ok && !is_peer {
            None
        } else {
            Some(received)
        }),
{
    match received {
        Ok(frame) => if is_peer {
            Some(Ok(frame))
        } else {
            None
        },
        Err(error) => Some(Err(error)),
    }
}

/// What serving a connection waits for.
pub enum Event<M, E> {
    /// The next heartbeat is due. The connection may have been dropped.
    Tick { is_connected: bool },
    /// The stream of frames has gone on, or has ended. The mailbox may have
    /// been dropped.
    Incoming { has_mailbox: bool, item: Option<Result<MavFrame<M>, E>> },
}

/// What is to be done about an event.
pub enum Action<M, E> {
    /// Send a heartbeat. That it could not be sent is reported, no more.
    SendHeartbeat,
    /// Put the frame into the mailbox.
    Insert(MavFrame<M>),
    /// Report the error and go on.
    Report(E),
    /// Close the mailbox and stop.
    CloseAndStop,
    /// There is nobody left to serve.
    Stop,
}

/// What is to be done about an event.
pub open spec fn action_for<M, E>(event: Event<M, E>) -> Action<M, E> {
    match event {
        Event::Tick { is_connected } => if is_connected {
            Action::SendHeartbeat
        } else {
            Action::Stop
        },
        Event::Incoming { has_mailbox, item } => if !has_mailbox {
            Action::Stop
        } else {
            match item {
                Some(Ok(frame)) => Action::Insert(frame),
                Some(Err(error)) => Action::Report(error),
                None => Action::CloseAndStop,
            }
        },
    }
}

/// What is to be done about an event.
pub fn handle<M, E>(event: Event<M, E>) -> (action: Action<M, E>)
    ensures
        action == action_for(event),
{
    match event {
        Event::Tick { is_connected } => if is_connected {
            Action::SendHeartbeat
        } else {
            Action::Stop
        },
        Event::Incoming { has_mailbox, item } => if !has_mailbox {
            Action::Stop
        } else {
            match item {
                Some(Ok(frame)) => Action::Insert(frame),
                Some(Err(error)) => Action::Report(error),
                None => Action::CloseAndStop,
            }
        },
    }
}

} // verus!
