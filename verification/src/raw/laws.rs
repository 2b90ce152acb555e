//! What holds of raw messages.
use crate::message::{MavlinkVersion, Message};
use crate::raw::{zero_padded, MavMsgRaw, MaybeRawMsg};
use mavlink::error::ParserError;
use vstd::prelude::*;

verus! {

/// A raw message says the first bytes of its payload, as many as its length
/// tells, if there are as many.
pub proof fn law_raw_bytes(raw: MavMsgRaw)
    ensures
        raw.wf() <==> raw.len <= 48,
        raw.wf() ==> raw.bytes().len() == raw.len,
        forall|i: int| 0 <= i < raw.len <= 48 ==> #[trigger] raw.bytes()[i] == raw.payload@[i],
{
}

/// Padding keeps the bytes where they are and has zeros behind them, up to 48
/// in all.
pub proof fn law_padding(bytes: Seq<u8>)
    requires
        bytes.len() <= 48,
    ensures
        zero_padded(bytes).len() == 48,
        forall|i: int| 0 <= i < bytes.len() ==> #[trigger] zero_padded(bytes)[i] == bytes[i],
        forall|i: int| bytes.len() <= i < 48 ==> #[trigger] zero_padded(bytes)[i] == 0,
{
}

/// A message that may be raw is the message that it holds, and has a name of
/// its own only where it is raw.
pub proof fn law_wrapped_message<M: Message>(standard: M, raw: MavMsgRaw, name: Seq<char>, id: u32)
    ensures
        ({
            let message = MaybeRawMsg::Standard(standard);
            &&& message.wf() == standard.wf()
            &&& message.id() == standard.id()
            &&& message.name() == standard.name()
            &&& message.bytes() == standard.bytes()
        }),
        ({
            let message = MaybeRawMsg::<M>::Raw(raw);
            &&& message.wf() <==> raw.len <= 48
            &&& message.id() == raw.id
            &&& message.name() == "unknown"@
            &&& raw.len <= 48 ==> message.bytes() == raw.payload@.take(raw.len as int)
        }),
        MaybeRawMsg::<M>::id_named(name) == M::id_named(name),
        MaybeRawMsg::<M>::crc_seed(id) == M::crc_seed(id),
{
}

/// A payload of the message set stands for the message that it is there, and
/// any other one for itself; there is never an error, and what may be asked is
/// what is of the message set or has 48 bytes.
pub proof fn law_raw_takes_what_is_unknown<M: Message>(
    version: MavlinkVersion,
    id: u32,
    payload: Seq<u8>,
    parsed: Result<MaybeRawMsg<M>, ParserError>,
)
    requires
        MaybeRawMsg::<M>::parse_yields(version, id, payload, parsed),
    ensures
        match parsed {
            Ok(MaybeRawMsg::Standard(message)) => {
                &&& M::parses(version, id, payload)
                &&& M::parse_yields(version, id, payload, Ok(message))
            },
            Ok(MaybeRawMsg::Raw(raw)) => {
                &&& !M::parses(version, id, payload)
                &&& raw.id == id
                &&& raw.len == payload.len()
                &&& raw.payload@ == payload
            },
            Err(_) => false,
        },
        MaybeRawMsg::<M>::parses(version, id, payload),
        MaybeRawMsg::<M>::parse_accepts(version, id, payload) <==> {
            &&& M::parse_accepts(version, id, payload)
            &&& M::parses(version, id, payload) || payload.len() == 48
        },
        MaybeRawMsg::<M>::fits(version, id, payload) <==> M::parses(version, id, payload)
            || payload.len() == 48,
{
}

/// The default of an identifier of the message set is the default there, and
/// that of any other one is a raw message that says nothing.
pub proof fn law_raw_default<M: Message>(id: u32, default: Result<MaybeRawMsg<M>, &'static str>)
    requires
        MaybeRawMsg::<M>::default_yields(id, default),
    ensures
        MaybeRawMsg::<M>::has_default(id),
        match default {
            Ok(MaybeRawMsg::Standard(message)) => {
                &&& M::has_default(id)
                &&& M::default_yields(id, Ok(message))
            },
            Ok(MaybeRawMsg::Raw(raw)) => {
                &&& !M::has_default(id)
                &&& raw.id == id
                &&& raw.len == 0
                &&& forall|i: int| 0 <= i < 48 ==> #[trigger] raw.payload@[i] == 0
            },
            Err(_) => false,
        },
{
}

} // verus!
