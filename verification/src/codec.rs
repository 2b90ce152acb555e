//! Frames on the wire.
//!
//! MAVLink v1 protocol message layout:
//!
//! ```text
//! 0 ... 1 ... 2 ... 3 ... 4 .... 5 ... 6 ...... n+6 ...... n+8
//! +-----+-----+-----+-----+------+-----+---------+----------+
//! | STX | LEN | SEQ | SYS | COMP | MSG | PAYLOAD | CHECKSUM |
//! |     | (n) |     | ID  |  ID  | ID  |         |          |
//! +-----+-----+-----+-----+------+-----+---------+----------+
//! ```
//!
//! MAVLink v2 protocol message layout:
//!
//! ```text
//! 0 ... 1 ... 2 ..... 3 ..... 4 ... 5 ... 6 .... 7 .. 10 ...... n+10 ..... n+12 ....... n+25
//! +-----+-----+-------+-------+-----+-----+------+-----+---------+----------+------------+
//! | STX | LEN |  INC  |  CMP  | SEQ | SYS | COMP | MSG | PAYLOAD | CHECKSUM | SIGNATURE  |
//! |     | (n) | FLAGS | FLAGS |     | ID  |  ID  | ID  |         |          | (optional) |
//! +-----+-----+-------+-------+-----+-----+------+-----+---------+----------+------------+
//! ```
use crate::buffer::{
    advance, as_bytes, buffered, crc16, crc16mcrf4cc, get_u16_le, split_to, write_all,
};
use crate::codec::laws::law_written_message_is_read_back;
use crate::message::{
    common_crc_seed, reads_back, MavFrame, MavHeader, MavlinkVersion, Message,
};
use crate::raw::MaybeRawMsg;
use bytes::BytesMut;
use mavlink::common::MavMessage;
use mavlink::error::ParserError;
use std::marker::PhantomData;
use vstd::prelude::*;

pub mod laws;

verus! {

/// Message framing marker for MAVLink v1.
pub const MAV_STX: u8 = 0xFE;

/// Message framing marker for MAVLink v2.
pub const MAV_STX_V2: u8 = 0xFD;

/// Why a frame could not be read.
#[derive(Debug)]
pub enum MessageReadError {
    /// The payload is not that of a message.
    Parse(ParserError),
}

/// Why a frame could not be written.
#[derive(Debug)]
pub enum MessageWriteError {
    Io(std::io::Error),
}

/// A packet, taken apart.
pub struct Packet {
    pub version: MavlinkVersion,
    pub header: MavHeader,
    pub id: u32,
    pub payload: Seq<u8>,
    /// The bytes between the marker and the payload.
    pub head: Seq<u8>,
    pub checksum: u16,
    /// The number of bytes that the packet takes, a signature included.
    pub size: int,
}

pub open spec fn is_stx(byte: u8) -> bool {
    byte == MAV_STX || byte == MAV_STX_V2
}

/// The position of the first framing marker; the number of bytes, if there is
/// none.
pub open spec fn stx_index(bytes: Seq<u8>) -> int
    decreases bytes.len(),
{
    if bytes.len() == 0 || is_stx(bytes[0]) {
        0
    } else {
        1 + stx_index(bytes.skip(1))
    }
}

/// The bytes from the first framing marker on.
pub open spec fn synced(bytes: Seq<u8>) -> Seq<u8> {
    bytes.skip(stx_index(bytes))
}

/// The number of bytes before the payload.
pub open spec fn header_len(stx: u8) -> int {
    if stx == MAV_STX {
        6
    } else {
        10
    }
}

/// Whether a header says that a signature follows the checksum.
pub open spec fn is_signed(bytes: Seq<u8>) -> bool {
    bytes[0] == MAV_STX_V2 && bytes[2] & 1 == 1
}

/// The number of bytes of the packet whose header the bytes start with.
pub open spec fn packet_size(bytes: Seq<u8>) -> int {
    header_len(bytes[0]) + bytes[1] + 2 + if is_signed(bytes) {
        13int
    } else {
        0
    }
}

/// Whether the bytes, which start with a framing marker, hold a whole packet.
pub open spec fn is_complete(bytes: Seq<u8>) -> bool {
    &&& bytes.len() >= 2
    &&& bytes.len() >= header_len(bytes[0])
    &&& bytes.len() >= packet_size(bytes)
}

/// The packet that the bytes start with.
pub open spec fn packet_at(bytes: Seq<u8>) -> Packet {
    let start = header_len(bytes[0]);
    let end = start + bytes[1];
    let sender: int = if bytes[0] == MAV_STX {
        2
    } else {
        4
    };
    Packet {
        version: if bytes[0] == MAV_STX {
            MavlinkVersion::V1
        } else {
            MavlinkVersion::V2
        },
        header: MavHeader {
            sequence: bytes[sender],
            system_id: bytes[sender + 1],
            component_id: bytes[sender + 2],
        },
        id: if bytes[0] == MAV_STX {
            bytes[5] as u32
        } else {
            (bytes[7] + 256 * bytes[8] + 65536 * bytes[9]) as u32
        },
        payload: bytes.subrange(start, end),
        head: bytes.subrange(1, start),
        checksum: (bytes[end] + 256 * bytes[end + 1]) as u16,
        size: packet_size(bytes),
    }
}

impl Packet {
    /// Whether the checksum covers what the packet says.
    pub open spec fn is_intact(self) -> bool {
        self.checksum == crc16(self.head + self.payload + seq![common_crc_seed(self.id)])
    }
}

/// The bytes before the payload of a packet.
pub open spec fn header_bytes(
    version: MavlinkVersion,
    header: MavHeader,
    id: u32,
    payload_len: nat,
) -> Seq<u8> {
    match version {
        MavlinkVersion::V1 => seq![
            MAV_STX,
            (payload_len % 256) as u8,
            header.sequence,
            header.system_id,
            header.component_id,
            (id % 256) as u8,
        ],
        MavlinkVersion::V2 => seq![
            MAV_STX_V2,
            (payload_len % 256) as u8,
            0u8,
            0u8,
            header.sequence,
            header.system_id,
            header.component_id,
            (id % 256) as u8,
            ((id / 256) % 256) as u8,
            ((id / 65536) % 256) as u8,
        ],
    }
}

/// The bytes of a packet. `seed` is what closes its checksum.
pub open spec fn packet_bytes(
    version: MavlinkVersion,
    header: MavHeader,
    id: u32,
    payload: Seq<u8>,
    seed: u8,
) -> Seq<u8> {
    let head = header_bytes(version, header, id, payload.len());
    let crc = crc16(head.skip(1) + payload + seq![seed]);
    head + payload + seq![(crc % 256) as u8, (crc / 256) as u8]
}

/// Whether `M` may be asked about the packet that is read from the bytes next,
/// if there is one to ask about: one whose checksum is wrong is not parsed.
pub open spec fn may_decode<M: Message>(before: Seq<u8>) -> bool {
    let bytes = synced(before);
    let packet = packet_at(bytes);
    is_complete(bytes) && packet.is_intact() ==> M::parse_accepts(
        packet.version,
        packet.id,
        packet.payload,
    )
}

/// Whether reading the next frame from the bytes in `before` comes to `decoded`
/// and leaves the bytes in `after`.
pub open spec fn decodes<M: Message>(
    before: Seq<u8>,
    decoded: Result<Option<MavFrame<M>>, MessageReadError>,
    after: Seq<u8>,
) -> bool {
    let bytes = synced(before);
    let packet = packet_at(bytes);
    if !is_complete(bytes) {
        decoded matches Ok(None) && after == bytes
    } else if !packet.is_intact() {
        decoded matches Ok(None) && after == bytes.skip(packet.size)
    } else {
        &&& after == bytes.skip(packet.size)
        &&& decoded is Ok <==> M::parses(packet.version, packet.id, packet.payload)
        &&& match decoded {
            Ok(Some(frame)) => {
                &&& frame.protocol_version == packet.version
                &&& frame.header == packet.header
                &&& frame.msg.wf()
                &&& frame.msg.id() == packet.id
                &&& reads_back(packet.version, frame.msg)
                &&& M::parse_yields(packet.version, packet.id, packet.payload, Ok(frame.msg))
            },
            Ok(None) => false,
            Err(MessageReadError::Parse(error)) => M::parse_yields(
                packet.version,
                packet.id,
                packet.payload,
                Err(error),
            ),
        }
    }
}

/// The bytes that a frame is written as.
pub open spec fn frame_bytes<M: Message>(frame: MavFrame<M>) -> Seq<u8> {
    packet_bytes(
        frame.protocol_version,
        frame.header,
        frame.msg.id(),
        frame.msg.bytes(),
        M::crc_seed(frame.msg.id()),
    )
}

/// Whether writing a frame behind the bytes in `before` comes to `encoded` and
/// leaves the bytes in `after`. What has no room is cut off.
pub open spec fn encodes<M: Message>(
    before: Seq<u8>,
    frame: MavFrame<M>,
    encoded: Result<(), MessageWriteError>,
    after: Seq<u8>,
) -> bool {
    let room = isize::MAX - before.len();
    &&& encoded is Ok <==> frame_bytes(frame).len() <= room
    &&& encoded is Ok ==> after == before + frame_bytes(frame)
    &&& encoded is Err ==> after == before + frame_bytes(frame).take(room)
}

/// Where the parts of a packet are.
pub struct Located {
    pub version: MavlinkVersion,
    pub header: MavHeader,
    pub id: u32,
    pub header_len: usize,
    pub payload_len: usize,
    pub is_signed: bool,
}

impl Located {
    /// Whether the parts are those of the packet that the bytes start with.
    pub open spec fn locates(self, bytes: Seq<u8>) -> bool {
        &&& self.version == packet_at(bytes).version
        &&& self.header == packet_at(bytes).header
        &&& self.id == packet_at(bytes).id
        &&& self.header_len == header_len(bytes[0])
        &&& self.payload_len == bytes[1]
        &&& self.is_signed == is_signed(bytes)
    }
}

/// Finds the first framing marker, and the packet that starts there if it is
/// complete.
pub fn locate(bytes: &[u8]) -> (located: (usize, Option<Located>))
    ensures
        located.0 == stx_index(bytes@),
        located.0 <= bytes@.len(),
        match located.1 {
            Some(packet) => is_complete(synced(bytes@)) && packet.locates(synced(bytes@)),
            None => !is_complete(synced(bytes@)),
        },
{
    let len: usize = bytes.len();
    let mut start: usize = 0;
    assert(bytes@.skip(0) =~= bytes@);
    while start < len && bytes[start] != MAV_STX_V2 && bytes[start] != MAV_STX
        invariant
            start <= len == bytes@.len(),
            stx_index(bytes@) == start + stx_index(bytes@.skip(start as int)),
        decreases len - start,
    {
        assert(bytes@.skip(start as int).skip(1) =~= bytes@.skip(start + 1));
        start = start + 1;
    }
    let rest = vstd::slice::slice_subrange(bytes, start, len);
    assert(rest@ =~= synced(bytes@));
    if rest.len() < 2 {
        return (start, None);
    }
    let payload_len: usize = rest[1] as usize;
    let (header_len, version) = if rest[0] == MAV_STX {
        (6usize, MavlinkVersion::V1)
    } else {
        (10usize, MavlinkVersion::V2)
    };
    if rest.len() < header_len {
        return (start, None);
    }
    let (is_signed, header, id) = match version {
        MavlinkVersion::V1 => (
            false,
            MavHeader { sequence: rest[2], system_id: rest[3], component_id: rest[4] },
            rest[5] as u32,
        ),
        MavlinkVersion::V2 => (
            rest[2] & 1 == 1,
            MavHeader { sequence: rest[4], system_id: rest[5], component_id: rest[6] },
            rest[7] as u32 + 256 * (rest[8] as u32) + 65536 * (rest[9] as u32),
        ),
    };
    // Payload, checksum and maybe a signature
    let tail_len: usize = payload_len + 2 + if is_signed {
        13
    } else {
        0
    };
    if rest.len() < header_len + tail_len {
        return (start, None);
    }
    (start, Some(Located { version, header, id, header_len, payload_len, is_signed }))
}

/// The bytes of a packet that its checksum covers, but for the one that is not
/// sent: everything between the marker and the checksum.
pub fn covered_bytes(bytes: &[u8], located: &Located) -> (covered: Vec<u8>)
    requires
        is_complete(bytes@),
        located.locates(bytes@),
    ensures
        covered@ == packet_at(bytes@).head + packet_at(bytes@).payload,
{
    let mut covered: Vec<u8> = Vec::new();
    let end: usize = located.header_len + located.payload_len;
    covered.extend_from_slice(vstd::slice::slice_subrange(bytes, 1, end));
    assert(covered@ =~= packet_at(bytes@).head + packet_at(bytes@).payload);
    covered
}

/// The frame of a packet whose checksum is right, or the reason why its payload
/// is not that of a message.
pub fn deliver<M>(
    version: MavlinkVersion,
    header: MavHeader,
    parsed: Result<M, ParserError>,
) -> (decoded: Result<Option<MavFrame<M>>, MessageReadError>)
    ensures
        decoded == (match parsed {
            Ok(msg) => Ok(Some(MavFrame { protocol_version: version, header, msg })),
            Err(error) => Err(MessageReadError::Parse(error)),
        }),
{
    match parsed {
        Ok(msg) => Ok(Some(MavFrame { protocol_version: version, header, msg })),
        Err(error) => Err(MessageReadError::Parse(error)),
    }
}

/// The bytes before the payload of a packet.
pub fn write_header(
    version: MavlinkVersion,
    header: MavHeader,
    id: u32,
    payload_len: usize,
) -> (bytes: Vec<u8>)
    ensures
        bytes@ == header_bytes(version, header, id, payload_len as nat),
{
    let len: u8 = (payload_len % 256) as u8;
    match version {
        MavlinkVersion::V1 => vec![
            MAV_STX,
            len,
            header.sequence,
            header.system_id,
            header.component_id,
            (id % 256) as u8,
        ],
        MavlinkVersion::V2 => vec![
            MAV_STX_V2,
            len,
            0u8,
            0u8,
            header.sequence,
            header.system_id,
            header.component_id,
            (id % 256) as u8,
            ((id / 256) % 256) as u8,
            ((id / 65536) % 256) as u8,
        ],
    }
}

/// A packet with the given parts.
pub fn write_packet(head: Vec<u8>, payload: &[u8], crc: u16) -> (packet: Vec<u8>)
    ensures
        packet@ == head@ + payload@ + seq![(crc % 256) as u8, (crc / 256) as u8],
{
    let mut packet = head;
    packet.extend_from_slice(payload);
    packet.push((crc % 256) as u8);
    packet.push((crc / 256) as u8);
    assert(packet@ =~= head@ + payload@ + seq![(crc % 256) as u8, (crc / 256) as u8]);
    packet
}

/// Reads frames from buffers and writes them to buffers.
pub struct MavMessageSerde<M>(pub PhantomData<M>);

impl<M: Message> MavMessageSerde<M> {
    pub fn new() -> (serde: MavMessageSerde<M>)
        ensures
            serde == MavMessageSerde::<M>(PhantomData),
    {
        MavMessageSerde(PhantomData)
    }

    /// Takes the next frame from the buffer. Bytes that are not part of a packet
    /// are dropped, and so is a packet whose checksum is wrong; of a packet that
    /// is not complete yet nothing is taken.
    pub fn decode(&mut self, src: &mut BytesMut) -> (decoded: Result<
        Option<MavFrame<M>>,
        MessageReadError,
    >)
        requires
            may_decode::<M>(buffered(*old(src))),
        ensures
            *final(self) == *old(self),
            decodes(buffered(*old(src)), decoded, buffered(*final(src))),
    {
        let (start, found) = locate(as_bytes(src));
        // Discard everything up to but excluding the marker.
        advance(src, start);
        let ghost bytes = buffered(*src);
        let located = match found {
            Some(located) => located,
            // Need more data
            None => return Ok(None),
        };
        let mut covered = covered_bytes(as_bytes(src), &located);
        covered.push(MavMessage::extra_crc(located.id));
        advance(src, located.header_len);
        let payload = split_to(src, located.payload_len);
        let crc: u16 = get_u16_le(src);
        if located.is_signed {
            // The signature is not looked at.
            advance(src, 13);
        }
        let ghost packet = packet_at(bytes);
        proof {
            assert(buffered(payload) =~= packet.payload);
            assert(buffered(*src) =~= bytes.skip(packet.size));
            assert(covered@ =~= packet.head + packet.payload + seq![common_crc_seed(packet.id)]);
        }
        if crc16mcrf4cc(covered.as_slice()) != crc {
            // The checksum is wrong, skip this message.
            return Ok(None);
        }
        assert(M::parse_accepts(located.version, located.id, buffered(payload)));
        let parsed = M::parse(located.version, located.id, as_bytes(&payload));
        deliver(located.version, located.header, parsed)
    }

    /// Appends the packet of a frame to the buffer.
    pub fn encode(&mut self, item: MavFrame<MaybeRawMsg<M>>, dst: &mut BytesMut) -> (encoded:
        Result<(), MessageWriteError>)
        requires
            item.msg.wf(),
        ensures
            *final(self) == *old(self),
            encodes(buffered(*old(dst)), item, encoded, buffered(*final(dst))),
    {
        let id: u32 = item.msg.message_id();
        let payload = item.msg.ser();
        let head = write_header(item.protocol_version, item.header, id, payload.len());
        let mut covered: Vec<u8> = Vec::new();
        covered.extend_from_slice(vstd::slice::slice_subrange(head.as_slice(), 1, head.len()));
        covered.extend_from_slice(payload.as_slice());
        covered.push(M::extra_crc(id));
        assert(covered@ =~= head@.skip(1) + payload@ + seq![M::crc_seed(id)]);
        let crc: u16 = crc16mcrf4cc(covered.as_slice());
        let packet = write_packet(head, payload.as_slice(), crc);
        match write_all(dst, packet.as_slice()) {
            Ok(()) => Ok(()),
            Err(error) => Err(MessageWriteError::Io(error)),
        }
    }
}

impl MavMessageSerde<MavMessage> {
    /// Takes the next frame of the common message set from the buffer, which
    /// may hold any bytes.
    pub fn decode_common(&mut self, src: &mut BytesMut) -> (decoded: Result<
        Option<MavFrame<MavMessage>>,
        MessageReadError,
    >)
        ensures
            *final(self) == *old(self),
            decodes(buffered(*old(src)), decoded, buffered(*final(src))),
    {
        self.decode(src)
    }

    /// Appends the packet of a frame to the buffer. A message of the common
    /// message set that parsing gives back from its payload is read back from
    /// the packet, whatever follows it; in the first version of the protocol its
    /// identifier must fit in a byte.
    pub fn encode_common(
        &mut self,
        item: MavFrame<MaybeRawMsg<MavMessage>>,
        dst: &mut BytesMut,
    ) -> (encoded: Result<(), MessageWriteError>)
        requires
            item.msg.wf(),
        ensures
            *final(self) == *old(self),
            encodes(buffered(*old(dst)), item, encoded, buffered(*final(dst))),
            match item.msg {
                MaybeRawMsg::Standard(msg) => {
                    let frame = MavFrame {
                        header: item.header,
                        msg,
                        protocol_version: item.protocol_version,
                    };
                    encoded is Ok && reads_back(frame.protocol_version, msg) && (
                    frame.protocol_version is V1 ==> msg.id() <= 255) ==> {
                        let written = buffered(*final(dst)).skip(
                            buffered(*old(dst)).len() as int,
                        );
                        forall|rest: Seq<u8>| #[trigger]
                            decodes(written + rest, Ok(Some(frame)), rest)
                    }
                },
                MaybeRawMsg::Raw(_) => true,
            },
    {
        let ghost sent = item;
        let ghost before = buffered(*dst);
        if let MaybeRawMsg::Standard(msg) = &item.msg {
            // No identifier of the message set is too large for a header.
            let id: u32 = msg.message_id();
            assert(id < 0x100_0000);
        }
        let encoded = self.encode(item, dst);
        proof {
            if let MaybeRawMsg::Standard(msg) = sent.msg {
                let frame = MavFrame {
                    header: sent.header,
                    msg,
                    protocol_version: sent.protocol_version,
                };
                let written = buffered(*dst).skip(before.len() as int);
                if encoded is Ok && reads_back(frame.protocol_version, msg) && (
                frame.protocol_version is V1 ==> msg.id() <= 255) {
                    assert(written =~= frame_bytes(frame));
                    assert forall|rest: Seq<u8>| #[trigger]
                        decodes(written + rest, Ok(Some(frame)), rest) by {
                        law_written_message_is_read_back(frame, rest);
                    }
                }
            }
        }
        encoded
    }
}

} // verus!
