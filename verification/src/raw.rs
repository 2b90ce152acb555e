//! Messages that are known by their bytes only.
use crate::message::{MavlinkVersion, Message};
use mavlink::error::ParserError;
use vstd::array::ref_mut_array_unsizing_coercion;
use vstd::prelude::*;
use vstd::std_specs::convert::FromSpecImpl;

pub mod laws;

verus! {

/// A message as its identifier and the first `len` bytes of `payload`.
#[derive(Debug)]
pub struct MavMsgRaw {
    pub id: u32,
    pub len: u8,
    pub payload: [u8; 48],
}

/// The bytes with zeros behind them, up to the size of a raw payload.
pub open spec fn zero_padded(bytes: Seq<u8>) -> Seq<u8> {
    bytes + Seq::new((48 - bytes.len()) as nat, |i: int| 0u8)
}

impl MavMsgRaw {
    /// The payload has room for the length.
    pub open spec fn wf(&self) -> bool {
        self.len <= 48
    }

    /// The message's payload.
    pub open spec fn bytes(&self) -> Seq<u8> {
        self.payload@.take(self.len as int)
    }

    /// The raw message with the given identifier and payload.
    pub fn from_bytes(id: u32, bytes: &[u8]) -> (raw: MavMsgRaw)
        requires
            bytes@.len() <= 48,
        ensures
            raw.wf(),
            raw.id == id,
            raw.len == bytes@.len(),
            raw.payload@ == zero_padded(bytes@),
            raw.bytes() == bytes@,
    {
        let mut payload: [u8; 48] = [0u8; 48];
        let mut i: usize = 0;
        while i < bytes.len()
            invariant
                i <= bytes@.len() <= 48,
                payload@ == bytes@.take(i as int) + Seq::new((48 - i) as nat, |j: int| 0u8),
            decreases bytes@.len() - i,
        {
            payload[i] = bytes[i];
            i = i + 1;
            assert(payload@ =~= bytes@.take(i as int) + Seq::new((48 - i) as nat, |j: int| 0u8));
        }
        assert(bytes@.take(i as int) =~= bytes@);
        let raw = MavMsgRaw { id, len: bytes.len() as u8, payload };
        assert(raw.bytes() =~= bytes@);
        raw
    }

    /// The raw message that says what `template` says.
    pub fn from_template<M: Message>(template: M) -> (raw: MavMsgRaw)
        requires
            template.wf(),
            template.bytes().len() <= 48,
        ensures
            raw.wf(),
            raw.id == template.id(),
            raw.len == template.bytes().len(),
            raw.payload@ == zero_padded(template.bytes()),
            raw.bytes() == template.bytes(),
    {
        let bytes = template.ser();
        Self::from_bytes(template.message_id(), bytes.as_slice())
    }

    /// The raw message that says what `template` says, if it has room for it.
    pub fn try_from_template<M: Message>(template: M) -> (raw: Option<MavMsgRaw>)
        requires
            template.wf(),
        ensures
            match raw {
                Some(raw) => {
                    &&& template.bytes().len() <= 48
                    &&& raw.wf()
                    &&& raw.id == template.id()
                    &&& raw.len == template.bytes().len()
                    &&& raw.payload@ == zero_padded(template.bytes())
                    &&& raw.bytes() == template.bytes()
                },
                None => template.bytes().len() > 48,
            },
    {
        if template.ser().len() <= 48 {
            Some(Self::from_template(template))
        } else {
            None
        }
    }

    /// The message's payload, to be changed in place.
    pub fn payload(&mut self) -> (bytes: &mut [u8])
        requires
            old(self).wf(),
        ensures
            bytes@ == old(self).bytes(),
            final(self).id == old(self).id,
            final(self).len == old(self).len,
            final(self).payload@ == final(bytes)@ + old(self).payload@.skip(old(self).len as int),
    {
        let len: usize = self.len as usize;
        let all = ref_mut_array_unsizing_coercion(&mut self.payload);
        let (bytes, _) = all.split_at_mut(len);
        bytes
    }
}

/// A message of a message set, or one that is known by its bytes only.
#[derive(Debug)]
pub enum MaybeRawMsg<M> {
    Standard(M),
    Raw(MavMsgRaw),
}

impl<M: Message> MaybeRawMsg<M> {
    /// Whether the payload of a message that is not in the message set is as
    /// long as a raw payload.
    pub open spec fn fits(version: MavlinkVersion, id: u32, payload: Seq<u8>) -> bool {
        M::parses(version, id, payload) || payload.len() == 48
    }

    /// The message that parsing a payload gave, or the payload itself where it
    /// gave none.
    pub fn or_raw(parsed: Result<M, ParserError>, id: u32, payload: &[u8]) -> (message: Self)
        requires
            parsed is Err ==> payload@.len() == 48,
        ensures
            match (parsed, message) {
                (Ok(msg), MaybeRawMsg::Standard(standard)) => standard == msg,
                (Err(_), MaybeRawMsg::Raw(raw)) => {
                    &&& raw.id == id
                    &&& raw.len == payload@.len()
                    &&& raw.payload@ == payload@
                },
                _ => false,
            },
    {
        match parsed {
            Ok(msg) => MaybeRawMsg::Standard(msg),
            Err(_) => {
                let raw = MavMsgRaw::from_bytes(id, payload);
                assert(raw.payload@ =~= payload@);
                MaybeRawMsg::Raw(raw)
            },
        }
    }

    /// The default message of an identifier, or a raw message without a payload
    /// where there is none.
    pub fn default_or_raw(default: Result<M, &'static str>, id: u32) -> (message: Self)
        ensures
            match (default, message) {
                (Ok(msg), MaybeRawMsg::Standard(standard)) => standard == msg,
                (Err(_), MaybeRawMsg::Raw(raw)) => {
                    &&& raw.id == id
                    &&& raw.len == 0
                    &&& raw.payload@ == Seq::new(48, |i: int| 0u8)
                },
                _ => false,
            },
    {
        match default {
            Ok(msg) => MaybeRawMsg::Standard(msg),
            Err(_) => {
                let raw = MavMsgRaw { id, len: 0, payload: [0u8; 48] };
                assert(raw.payload@ =~= Seq::new(48, |i: int| 0u8));
                MaybeRawMsg::Raw(raw)
            },
        }
    }

    /// Parses a payload, where it is that of a message of the message set or
    /// as long as a raw payload.
    pub fn try_parse(version: MavlinkVersion, id: u32, payload: &[u8]) -> (parsed: Option<Self>)
        requires
            M::parse_accepts(version, id, payload@),
        ensures
            match parsed {
                Some(message) => {
                    &&& Self::fits(version, id, payload@)
                    &&& Self::parse_yields(version, id, payload@, Ok(message))
                },
                None => !Self::fits(version, id, payload@),
            },
    {
        let standard = M::parse(version, id, payload);
        if standard.is_err() && payload.len() != 48 {
            return None;
        }
        match Self::parse(version, id, payload) {
            Ok(message) => Some(message),
            Err(_) => None,
        }
    }
}

impl<M: Message> Message for MaybeRawMsg<M> {
    open spec fn wf(&self) -> bool {
        match self {
            MaybeRawMsg::Standard(msg) => msg.wf(),
            MaybeRawMsg::Raw(msg) => msg.wf(),
        }
    }

    open spec fn id(&self) -> u32 {
        match self {
            MaybeRawMsg::Standard(msg) => msg.id(),
            MaybeRawMsg::Raw(msg) => msg.id,
        }
    }

    open spec fn name(&self) -> Seq<char> {
        match self {
            MaybeRawMsg::Standard(msg) => msg.name(),
            MaybeRawMsg::Raw(_) => "unknown"@,
        }
    }

    open spec fn bytes(&self) -> Seq<u8> {
        match self {
            MaybeRawMsg::Standard(msg) => msg.bytes(),
            MaybeRawMsg::Raw(msg) => msg.bytes(),
        }
    }

    open spec fn parse_accepts(version: MavlinkVersion, id: u32, payload: Seq<u8>) -> bool {
        M::parse_accepts(version, id, payload) && Self::fits(version, id, payload)
    }

    open spec fn parses(version: MavlinkVersion, id: u32, payload: Seq<u8>) -> bool {
        true
    }

    open spec fn parse_yields(
        version: MavlinkVersion,
        id: u32,
        payload: Seq<u8>,
        parsed: Result<Self, ParserError>,
    ) -> bool {
        match parsed {
            Ok(MaybeRawMsg::Standard(msg)) => {
                &&& M::parses(version, id, payload)
                &&& M::parse_yields(version, id, payload, Ok(msg))
            },
            Ok(MaybeRawMsg::Raw(msg)) => {
                &&& !M::parses(version, id, payload)
                &&& msg.id == id
                &&& msg.len == payload.len()
                &&& msg.payload@ == payload
            },
            Err(_) => false,
        }
    }

    open spec fn id_named(name: Seq<char>) -> Result<u32, Seq<char>> {
        M::id_named(name)
    }

    open spec fn has_default(id: u32) -> bool {
        true
    }

    open spec fn default_yields(id: u32, message: Result<Self, &'static str>) -> bool {
        match message {
            Ok(MaybeRawMsg::Standard(msg)) => M::has_default(id) && M::default_yields(id, Ok(msg)),
            Ok(MaybeRawMsg::Raw(msg)) => {
                &&& !M::has_default(id)
                &&& msg.id == id
                &&& msg.len == 0
                &&& msg.payload@ == Seq::new(48, |i: int| 0u8)
            },
            Err(_) => false,
        }
    }

    open spec fn crc_seed(id: u32) -> u8 {
        M::crc_seed(id)
    }

    proof fn parse_is_determined(
        version: MavlinkVersion,
        id: u32,
        payload: Seq<u8>,
        parsed: Result<Self, ParserError>,
        other: Result<Self, ParserError>,
    ) {
        match (parsed, other) {
            (Ok(MaybeRawMsg::Standard(a)), Ok(MaybeRawMsg::Standard(b))) => {
                M::parse_is_determined(version, id, payload, Ok(a), Ok(b));
            },
            (Ok(MaybeRawMsg::Raw(a)), Ok(MaybeRawMsg::Raw(b))) => {
                assert(a.payload =~= b.payload);
            },
            _ => {},
        }
    }

    fn message_id(&self) -> (id: u32) {
        match self {
            MaybeRawMsg::Standard(msg) => msg.message_id(),
            MaybeRawMsg::Raw(msg) => msg.id,
        }
    }

    fn message_name(&self) -> (name: &'static str) {
        match self {
            MaybeRawMsg::Standard(msg) => msg.message_name(),
            MaybeRawMsg::Raw(_) => "unknown",
        }
    }

    fn ser(&self) -> (bytes: Vec<u8>) {
        match self {
            MaybeRawMsg::Standard(msg) => msg.ser(),
            MaybeRawMsg::Raw(raw) => {
                let mut bytes: Vec<u8> = Vec::new();
                let mut i: usize = 0;
                while i < raw.len as usize
                    invariant
                        i <= raw.len <= 48,
                        bytes@ == raw.payload@.take(i as int),
                    decreases raw.len - i,
                {
                    bytes.push(raw.payload[i]);
                    i = i + 1;
                    assert(bytes@ =~= raw.payload@.take(i as int));
                }
                bytes
            },
        }
    }

    fn parse(version: MavlinkVersion, id: u32, payload: &[u8]) -> (parsed: Result<
        Self,
        ParserError,
    >) {
        let message = Self::or_raw(M::parse(version, id, payload), id, payload);
        assert(message matches MaybeRawMsg::Raw(raw) ==> raw.bytes() =~= payload@);
        Ok(message)
    }

    fn message_id_from_name(name: &str) -> (found: Result<u32, &'static str>) {
        M::message_id_from_name(name)
    }

    fn default_message_from_id(id: u32) -> (message: Result<Self, &'static str>) {
        Ok(Self::default_or_raw(M::default_message_from_id(id), id))
    }

    fn extra_crc(id: u32) -> (seed: u8) {
        M::extra_crc(id)
    }
}

impl<M: Message> FromSpecImpl<MavMsgRaw> for MaybeRawMsg<M> {
    open spec fn obeys_from_spec() -> bool {
        true
    }

    open spec fn from_spec(msg: MavMsgRaw) -> Self {
        MaybeRawMsg::Raw(msg)
    }
}

impl<M: Message> From<MavMsgRaw> for MaybeRawMsg<M> {
    fn from(msg: MavMsgRaw) -> (wrapped: Self) {
        MaybeRawMsg::Raw(msg)
    }
}

impl<M: Message> FromSpecImpl<M> for MaybeRawMsg<M> {
    open spec fn obeys_from_spec() -> bool {
        true
    }

    open spec fn from_spec(msg: M) -> Self {
        MaybeRawMsg::Standard(msg)
    }
}

impl<M: Message> From<M> for MaybeRawMsg<M> {
    fn from(msg: M) -> (wrapped: Self) {
        MaybeRawMsg::Standard(msg)
    }
}

} // verus!
