//! Messages, headers and frames.
//!
//! A frame is a message together with the header it travels under. What a
//! message is, is left to the [`Message`] trait; the message set that the
//! library speaks is the common one of the `mavlink` crate, whose `MavMessage`
//! stays opaque here: it is known by its identifier and by the bytes that it
//! serializes to.
use mavlink::common::MavMessage;
use mavlink::error::ParserError;
use vstd::prelude::*;

pub mod laws;

verus! {

/// The `MavMessage` of the common message set.
#[verifier::external_type_specification]
#[verifier::external_body]
pub struct ExMavMessage(mavlink::common::MavMessage);

/// The error of the `mavlink` crate for a payload that is not a message.
#[verifier::external_type_specification]
#[verifier::external_body]
pub struct ExParserError(mavlink::error::ParserError);

/// Versions of the MAVLink protocol.
#[derive(Debug, Clone, Copy, PartialEq, Eq, Structural)]
pub enum MavlinkVersion {
    V1,
    V2,
}

/// What a MAVLink packet header says about the sender of the packet.
#[derive(Debug, Clone, Copy, PartialEq, Eq, Structural)]
pub struct MavHeader {
    pub system_id: u8,
    pub component_id: u8,
    pub sequence: u8,
}

/// A message with the header that it was received with or will be sent under.
#[derive(Debug)]
pub struct MavFrame<M> {
    pub header: MavHeader,
    pub msg: M,
    pub protocol_version: MavlinkVersion,
}

/// A MAVLink message.
pub trait Message: Sized {
    /// Whether the message can be serialized.
    spec fn wf(&self) -> bool;

    /// The identifier of the message's type.
    spec fn id(&self) -> u32;

    /// The name of the message's type.
    spec fn name(&self) -> Seq<char>;

    /// The payload that the message serializes to.
    spec fn bytes(&self) -> Seq<u8>;

    /// Whether `parse` may be asked about the payload.
    spec fn parse_accepts(version: MavlinkVersion, id: u32, payload: Seq<u8>) -> bool;

    /// Whether the payload is that of a message.
    spec fn parses(version: MavlinkVersion, id: u32, payload: Seq<u8>) -> bool;

    /// Whether `parsed` is what the payload stands for.
    spec fn parse_yields(
        version: MavlinkVersion,
        id: u32,
        payload: Seq<u8>,
        parsed: Result<Self, ParserError>,
    ) -> bool;

    /// The identifier of the message type with the given name, or why there is none.
    spec fn id_named(name: Seq<char>) -> Result<u32, Seq<char>>;

    /// Whether there is a message type with the given identifier.
    spec fn has_default(id: u32) -> bool;

    /// Whether `message` is the default message with the given identifier.
    spec fn default_yields(id: u32, message: Result<Self, &'static str>) -> bool;

    /// The byte that closes the checksum of messages with the given identifier.
    spec fn crc_seed(id: u32) -> u8;

    /// A payload stands for one thing only.
    proof fn parse_is_determined(
        version: MavlinkVersion,
        id: u32,
        payload: Seq<u8>,
        parsed: Result<Self, ParserError>,
        other: Result<Self, ParserError>,
    )
        requires
            Self::parse_yields(version, id, payload, parsed),
            Self::parse_yields(version, id, payload, other),
        ensures
            parsed == other,
    ;

    fn message_id(&self) -> (id: u32)
        ensures
            id == self.id(),
    ;

    fn message_name(&self) -> (name: &'static str)
        ensures
            name@ == self.name(),
    ;

    fn ser(&self) -> (bytes: Vec<u8>)
        requires
            self.wf(),
        ensures
            bytes@ == self.bytes(),
    ;

    fn parse(version: MavlinkVersion, id: u32, payload: &[u8]) -> (parsed: Result<
        Self,
        ParserError,
    >)
        requires
            Self::parse_accepts(version, id, payload@),
        ensures
            Self::parse_yields(version, id, payload@, parsed),
            parsed is Ok <==> Self::parses(version, id, payload@),
            parsed matches Ok(message) ==> {
                &&& message.wf()
                &&& message.id() == id
                &&& message.bytes().len() <= 255
                &&& Self::parses(version, id, message.bytes())
                &&& Self::parse_yields(version, id, message.bytes(), Ok(message))
            },
    ;

    fn message_id_from_name(name: &str) -> (found: Result<u32, &'static str>)
        ensures
            match found {
                Ok(id) => Self::id_named(name@) == Ok::<u32, Seq<char>>(id),
                Err(text) => Self::id_named(name@) == Err::<u32, Seq<char>>(text@),
            },
    ;

    fn default_message_from_id(id: u32) -> (message: Result<Self, &'static str>)
        ensures
            Self::default_yields(id, message),
            message is Ok <==> Self::has_default(id),
            message matches Ok(m) ==> m.wf() && m.id() == id,
    ;

    fn extra_crc(id: u32) -> (seed: u8)
        ensures
            seed == Self::crc_seed(id),
    ;
}

/// Whether parsing gives the message back from what it serializes to, which
/// fits in a packet.
pub open spec fn reads_back<M: Message>(version: MavlinkVersion, message: M) -> bool {
    &&& message.bytes().len() <= 255
    &&& M::parses(version, message.id(), message.bytes())
    &&& M::parse_yields(version, message.id(), message.bytes(), Ok(message))
}

/// What `MavMessage::message_id` returns.
pub uninterp spec fn common_id(message: MavMessage) -> u32;

/// What `MavMessage::message_name` returns.
pub uninterp spec fn common_name(message: MavMessage) -> Seq<char>;

/// What `MavMessage::ser` returns.
pub uninterp spec fn common_bytes(message: MavMessage) -> Seq<u8>;

/// What `MavMessage::parse` returns.
pub uninterp spec fn common_parsed(
    version: MavlinkVersion,
    id: u32,
    payload: Seq<u8>,
) -> Result<MavMessage, ParserError>;

/// What `MavMessage::message_id_from_name` returns, where it succeeds.
pub uninterp spec fn common_id_named(name: Seq<char>) -> Option<u32>;

/// What `MavMessage::default_message_from_id` returns, where it succeeds.
pub uninterp spec fn common_default(id: u32) -> Option<MavMessage>;

/// What `MavMessage::extra_crc` returns.
pub uninterp spec fn common_crc_seed(id: u32) -> u8;

/// Whether a payload is one of a `HEARTBEAT`, in full length: a custom mode of
/// four bytes, then a byte each for a known type, a known autopilot, the mode
/// flags, a known status, and the version of the protocol.
pub open spec fn is_heartbeat(payload: Seq<u8>) -> bool {
    &&& payload.len() == 9
    &&& payload[4] <= 34
    &&& payload[5] <= 19
    &&& payload[7] <= 8
}

/// Calls `MavMessage::message_id`, a function of the message alone. The
/// identifiers of the common message set all fit in three bytes.
#[verifier::external_body]
fn mav_message_id(message: &MavMessage) -> (id: u32)
    ensures
        id == common_id(*message),
        id < 0x100_0000,
{
    mavlink::Message::message_id(message)
}

/// Calls `MavMessage::message_name`, a function of the message alone.
#[verifier::external_body]
fn mav_message_name(message: &MavMessage) -> (name: &'static str)
    ensures
        name@ == common_name(*message),
{
    mavlink::Message::message_name(message)
}

/// Calls `MavMessage::ser`, a function of the message alone.
#[verifier::external_body]
fn mav_message_ser(message: &MavMessage) -> (bytes: Vec<u8>)
    ensures
        bytes@ == common_bytes(*message),
{
    mavlink::Message::ser(message)
}

/// Calls `MavMessage::parse`, a function of its arguments alone. It looks the
/// message type up by the identifier, so a message that comes out of it has
/// the identifier that went in. Such a message has all the elements of its
/// arrays and no character beyond a byte; its `ser` writes, in as many bytes,
/// the fields that were read, so that they can be read from there again. Of a
/// `HEARTBEAT` with known enumerators it reads every byte.
#[verifier::external_body]
fn mav_message_parse(version: MavlinkVersion, id: u32, payload: &[u8]) -> (parsed: Result<
    MavMessage,
    ParserError,
>)
    ensures
        parsed == common_parsed(version, id, payload@),
        parsed matches Ok(message) ==> common_id(message) == id,
        parsed matches Ok(message) ==> common_bytes(message).len() <= 255,
        parsed matches Ok(message) ==> common_parsed(version, id, common_bytes(message)) == parsed,
        id == 0 && is_heartbeat(payload@) ==> (parsed is Ok && common_bytes(parsed->Ok_0)
            == payload@),
{
    let version = match version {
        MavlinkVersion::V1 => mavlink::MavlinkVersion::V1,
        MavlinkVersion::V2 => mavlink::MavlinkVersion::V2,
    };
    <MavMessage as mavlink::Message>::parse(version, id, payload)
}

/// Calls `MavMessage::message_id_from_name`, which looks the name up among the
/// names of the message set and has one fixed text for a name that is not
/// there. Two names that the mission and command protocols wait for are known.
#[verifier::external_body]
fn mav_message_id_from_name(name: &str) -> (found: Result<u32, &'static str>)
    ensures
        match found {
            Ok(id) => common_id_named(name@) == Some(id),
            Err(text) => common_id_named(name@) is None && text@ == "Invalid message name."@,
        },
        name@ == "MISSION_ACK"@ ==> (found is Ok && found->Ok_0 == 47),
        name@ == "COMMAND_ACK"@ ==> (found is Ok && found->Ok_0 == 77),
{
    <MavMessage as mavlink::Message>::message_id_from_name(name)
}

/// Calls `MavMessage::default_message_from_id`, which looks the message type
/// up by the identifier and has one fixed text for an identifier that is not
/// in the message set. The default `HEARTBEAT` has the first enumerator of each
/// enumeration, that of the mode flags included, and zeros else.
#[verifier::external_body]
fn mav_message_default(id: u32) -> (message: Result<MavMessage, &'static str>)
    ensures
        match message {
            Ok(m) => common_default(id) == Some(m) && common_id(m) == id,
            Err(text) => common_default(id) is None && text@ == "Invalid message id."@,
        },
        id == 0 ==> (message is Ok && common_bytes(message->Ok_0) == seq![
            0u8, 0u8, 0u8, 0u8, 0u8, 0u8, 128u8, 0u8, 0u8,
        ]),
{
    <MavMessage as mavlink::Message>::default_message_from_id(id)
}

/// Calls `MavMessage::extra_crc`, a function of the identifier alone.
#[verifier::external_body]
fn mav_message_extra_crc(id: u32) -> (seed: u8)
    ensures
        seed == common_crc_seed(id),
{
    <MavMessage as mavlink::Message>::extra_crc(id)
}

impl Message for MavMessage {
    open spec fn wf(&self) -> bool {
        true
    }

    open spec fn id(&self) -> u32 {
        common_id(*self)
    }

    open spec fn name(&self) -> Seq<char> {
        common_name(*self)
    }

    open spec fn bytes(&self) -> Seq<u8> {
        common_bytes(*self)
    }

    open spec fn parse_accepts(version: MavlinkVersion, id: u32, payload: Seq<u8>) -> bool {
        true
    }

    open spec fn parses(version: MavlinkVersion, id: u32, payload: Seq<u8>) -> bool {
        common_parsed(version, id, payload) is Ok
    }

    open spec fn parse_yields(
        version: MavlinkVersion,
        id: u32,
        payload: Seq<u8>,
        parsed: Result<Self, ParserError>,
    ) -> bool {
        parsed == common_parsed(version, id, payload)
    }

    open spec fn id_named(name: Seq<char>) -> Result<u32, Seq<char>> {
        match common_id_named(name) {
            Some(id) => Ok(id),
            None => Err("Invalid message name."@),
        }
    }

    open spec fn has_default(id: u32) -> bool {
        common_default(id) is Some
    }

    open spec fn default_yields(id: u32, message: Result<Self, &'static str>) -> bool {
        match message {
            Ok(m) => common_default(id) == Some(m),
            Err(text) => common_default(id) is None && text@ == "Invalid message id."@,
        }
    }

    open spec fn crc_seed(id: u32) -> u8 {
        common_crc_seed(id)
    }

    proof fn parse_is_determined(
        version: MavlinkVersion,
        id: u32,
        payload: Seq<u8>,
        parsed: Result<Self, ParserError>,
        other: Result<Self, ParserError>,
    ) {
    }

    fn message_id(&self) -> (id: u32)
        ensures
            id < 0x100_0000,
    {
        mav_message_id(self)
    }

    fn message_name(&self) -> (name: &'static str) {
        mav_message_name(self)
    }

    fn ser(&self) -> (bytes: Vec<u8>) {
        mav_message_ser(self)
    }

    fn parse(version: MavlinkVersion, id: u32, payload: &[u8]) -> (parsed: Result<
        Self,
        ParserError,
    >)
        ensures
            id == 0 && is_heartbeat(payload@) ==> (parsed is Ok && common_bytes(parsed->Ok_0)
                == payload@),
    {
        mav_message_parse(version, id, payload)
    }

    fn message_id_from_name(name: &str) -> (found: Result<u32, &'static str>)
        ensures
            name@ == "MISSION_ACK"@ ==> (found is Ok && found->Ok_0 == 47),
            name@ == "COMMAND_ACK"@ ==> (found is Ok && found->Ok_0 == 77),
    {
        mav_message_id_from_name(name)
    }

    fn default_message_from_id(id: u32) -> (message: Result<Self, &'static str>)
        ensures
            id == 0 ==> (message is Ok && common_bytes(message->Ok_0) == seq![
                0u8, 0u8, 0u8, 0u8, 0u8, 0u8, 128u8, 0u8, 0u8,
            ]),
    {
        mav_message_default(id)
    }

    fn extra_crc(id: u32) -> (seed: u8) {
        mav_message_extra_crc(id)
    }
}

} // verus!
