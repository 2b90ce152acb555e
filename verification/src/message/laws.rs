//! What holds of the messages of the common message set.
use crate::message::{
    common_bytes, common_crc_seed, common_default, common_id, common_id_named, common_name,
    common_parsed, reads_back, MavlinkVersion, Message,
};
use mavlink::common::MavMessage;
use mavlink::error::ParserError;
use vstd::prelude::*;

verus! {

/// A message of the common message set is what the `mavlink` crate makes of it:
/// nothing is left out, added or changed, and nothing is asked of it.
pub proof fn law_common_message(message: MavMessage, id: u32)
    ensures
        message.wf(),
        message.id() == common_id(message),
        message.name() == common_name(message),
        message.bytes() == common_bytes(message),
        MavMessage::crc_seed(id) == common_crc_seed(id),
{
}

/// What a payload stands for is what the `mavlink` crate reads in it, whichever
/// payload it is.
pub proof fn law_common_payload(
    version: MavlinkVersion,
    id: u32,
    payload: Seq<u8>,
    parsed: Result<MavMessage, ParserError>,
)
    ensures
        MavMessage::parse_accepts(version, id, payload),
        MavMessage::parse_yields(version, id, payload, parsed) <==> parsed == common_parsed(
            version,
            id,
            payload,
        ),
        MavMessage::parses(version, id, payload) <==> common_parsed(version, id, payload) is Ok,
{
}

/// Names and identifiers that are not in the message set are told from those
/// that are.
pub proof fn law_common_lookup(name: Seq<char>, id: u32, default: Result<MavMessage, &'static str>)
    ensures
        match MavMessage::id_named(name) {
            Ok(found) => common_id_named(name) == Some(found),
            Err(text) => common_id_named(name) is None && text == "Invalid message name."@,
        },
        MavMessage::has_default(id) <==> common_default(id) is Some,
        MavMessage::default_yields(id, default) ==> match default {
            Ok(message) => common_default(id) == Some(message),
            Err(text) => common_default(id) is None && text@ == "Invalid message id."@,
        },
{
}

/// A message is read back if its payload has at most 255 bytes and parsing gives
/// the message for it, and only then.
pub proof fn law_what_is_read_back<M: Message>(version: MavlinkVersion, message: M)
    ensures
        reads_back(version, message) <==> {
            &&& message.bytes().len() <= 255
            &&& M::parses(version, message.id(), message.bytes())
            &&& M::parse_yields(version, message.id(), message.bytes(), Ok(message))
        },
{
}

} // verus!
