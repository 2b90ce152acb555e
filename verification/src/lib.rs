//! # MAVLink Extras
//!
//! Utilities for using MAVLink asynchronously: the codec that reads frames from
//! buffers and writes them to buffers, a mailbox that keeps the most recent
//! messages of each type, and the mission and command protocols. What waits,
//! sends or reads a socket is left to the caller; the library says what to wait
//! for, what to send, and what to make of what came.
pub mod buffer;
pub mod codec;
pub mod command;
pub mod dialect;
pub mod echo;
pub mod exchange;
pub mod mailbox;
pub mod mavconn;
pub mod message;
pub mod mission;
pub mod raw;

pub use crate::raw::{MavMsgRaw, MaybeRawMsg};
