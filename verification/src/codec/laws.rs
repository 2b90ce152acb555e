//! What holds of reading and writing frames.
use crate::buffer::crc16;
use crate::codec::{
    decodes, encodes, frame_bytes, header_bytes, header_len, is_complete, is_signed, is_stx,
    may_decode, packet_at, packet_bytes, stx_index, synced, Located, MavMessageSerde, MessageReadError,
    MessageWriteError, Packet,
};
use crate::message::{
    common_crc_seed, reads_back, MavFrame, MavHeader, MavlinkVersion, Message,
};
use crate::raw::{MavMsgRaw, MaybeRawMsg};
use mavlink::common::MavMessage;
use std::marker::PhantomData;
use vstd::prelude::*;

verus! {

proof fn lemma_stx_index(bytes: Seq<u8>)
    ensures
        0 <= stx_index(bytes) <= bytes.len(),
        stx_index(bytes) < bytes.len() ==> is_stx(bytes[stx_index(bytes)]),
    decreases bytes.len(),
{
    if bytes.len() > 0 && !is_stx(bytes[0]) {
        lemma_stx_index(bytes.skip(1));
    }
}

proof fn lemma_stx_index_append(bytes: Seq<u8>, more: Seq<u8>)
    ensures
        stx_index(bytes + more) == (if stx_index(bytes) < bytes.len() {
            stx_index(bytes)
        } else {
            bytes.len() + stx_index(more)
        }),
    decreases bytes.len(),
{
    lemma_stx_index(bytes);
    if bytes.len() == 0 {
        assert(bytes + more =~= more);
    } else if !is_stx(bytes[0]) {
        lemma_stx_index_append(bytes.skip(1), more);
        assert((bytes + more).skip(1) =~= bytes.skip(1) + more);
    }
}

/// What is read from a packet that was written is what was written, and the
/// bytes behind it are left alone. A packet cannot say more of the payload's
/// length than one byte holds, nor more of the identifier than one byte holds
/// in the first version of the protocol and three in the second.
pub proof fn law_read_gives_back_written(
    version: MavlinkVersion,
    header: MavHeader,
    id: u32,
    payload: Seq<u8>,
    rest: Seq<u8>,
)
    requires
        payload.len() <= 255,
        match version {
            MavlinkVersion::V1 => id < 256,
            MavlinkVersion::V2 => id < 0x100_0000,
        },
    ensures
        ({
            let written = packet_bytes(version, header, id, payload, common_crc_seed(id));
            let packet = packet_at(written + rest);
            &&& synced(written + rest) == written + rest
            &&& is_complete(written + rest)
            &&& packet.version == version
            &&& packet.header == header
            &&& packet.id == id
            &&& packet.payload == payload
            &&& packet.is_intact()
            &&& (written + rest).skip(packet.size) == rest
        }),
{
    let head = header_bytes(version, header, id, payload.len());
    let crc = crc16(head.skip(1) + payload + seq![common_crc_seed(id)]);
    let written = packet_bytes(version, header, id, payload, common_crc_seed(id));
    let bytes = written + rest;
    let packet = packet_at(bytes);
    assert(0u8 & 1 == 0) by (bit_vector);
    assert(bytes.skip(0) =~= bytes);
    assert(forall|i: int| 0 <= i < head.len() ==> bytes[i] == head[i]);
    assert(header_len(bytes[0]) == head.len());
    assert(packet.head =~= head.skip(1));
    assert(packet.payload =~= payload);
    assert(packet.id == id);
    assert(packet.checksum == crc);
    assert(bytes.skip(packet.size) =~= rest);
}

/// What is written as one packet.
pub struct Written {
    pub version: MavlinkVersion,
    pub header: MavHeader,
    pub id: u32,
    pub payload: Seq<u8>,
}

impl Written {
    /// Whether a packet can say the length of the payload and the identifier.
    pub open spec fn fits(self) -> bool {
        &&& self.payload.len() <= 255
        &&& match self.version {
            MavlinkVersion::V1 => self.id < 256,
            MavlinkVersion::V2 => self.id < 0x100_0000,
        }
    }

    /// Whether a packet says what was written.
    pub open spec fn is_said_by(self, packet: Packet) -> bool {
        &&& packet.version == self.version
        &&& packet.header == self.header
        &&& packet.id == self.id
        &&& packet.payload == self.payload
    }
}

/// What a buffer holds after packets were written to it one after the other.
pub open spec fn all_written(items: Seq<Written>) -> Seq<u8>
    decreases items.len(),
{
    if items.len() == 0 {
        Seq::empty()
    } else {
        let first = items[0];
        packet_bytes(
            first.version,
            first.header,
            first.id,
            first.payload,
            common_crc_seed(first.id),
        ) + all_written(items.skip(1))
    }
}

/// The packets that a number of reads take from a buffer.
pub open spec fn all_read(bytes: Seq<u8>, reads: nat) -> Seq<Packet>
    decreases reads,
{
    let packet = packet_at(synced(bytes));
    if reads == 0 || !is_complete(synced(bytes)) {
        Seq::empty()
    } else {
        let rest = all_read(synced(bytes).skip(packet.size), (reads - 1) as nat);
        if packet.is_intact() {
            seq![packet] + rest
        } else {
            rest
        }
    }
}

/// However many packets were written to a buffer, as many reads give them back
/// in the order in which they were written.
pub proof fn law_packets_come_in_order(items: Seq<Written>)
    requires
        forall|i: int| 0 <= i < items.len() ==> (#[trigger] items[i]).fits(),
    ensures
        all_read(all_written(items), items.len()).len() == items.len(),
        forall|i: int|
            0 <= i < items.len() ==> (#[trigger] items[i]).is_said_by(
                all_read(all_written(items), items.len())[i],
            ),
    decreases items.len(),
{
    if items.len() > 0 {
        let first = items[0];
        let rest = items.skip(1);
        assert(first.fits());
        assert forall|i: int| 0 <= i < rest.len() implies (#[trigger] rest[i]).fits() by {
            assert(items[i + 1].fits());
        }
        law_packets_come_in_order(rest);
        law_read_gives_back_written(
            first.version,
            first.header,
            first.id,
            first.payload,
            all_written(rest),
        );
        assert forall|i: int| 0 <= i < items.len() implies (#[trigger] items[i]).is_said_by(
            all_read(all_written(items), items.len())[i],
        ) by {
            if i > 0 {
                assert(rest[i - 1].is_said_by(all_read(all_written(rest), rest.len())[i - 1]));
            }
        }
    }
}

/// Whether the bytes that a frame is written as, with others behind them, are
/// read as that frame and leave the others alone.
pub open spec fn is_read_back(frame: MavFrame<MavMessage>, rest: Seq<u8>) -> bool {
    decodes(frame_bytes(frame) + rest, Ok(Some(frame)), rest)
}

/// A message that parsing gives back from its payload is read back from the
/// frame that it was written in. What a frame cannot say is an identifier of
/// more than one byte in the first version of the protocol, and of more than
/// three, which no message of the set has, in the second.
pub proof fn law_written_message_is_read_back(frame: MavFrame<MavMessage>, rest: Seq<u8>)
    requires
        reads_back(frame.protocol_version, frame.msg),
        match frame.protocol_version {
            MavlinkVersion::V1 => frame.msg.id() < 256,
            MavlinkVersion::V2 => frame.msg.id() < 0x100_0000,
        },
    ensures
        is_read_back(frame, rest),
{
    law_read_gives_back_written(
        frame.protocol_version,
        frame.header,
        frame.msg.id(),
        frame.msg.bytes(),
        rest,
    );
}

/// A message that was read and is written again, be it under another header, is
/// the same message when it is read again.
pub proof fn law_relayed_message_is_kept(
    before: Seq<u8>,
    read: MavFrame<MavMessage>,
    after: Seq<u8>,
    header: MavHeader,
    rest: Seq<u8>,
)
    requires
        decodes(before, Ok(Some(read)), after),
    ensures
        is_read_back(MavFrame { header, ..read }, rest),
{
    law_written_message_is_read_back(MavFrame { header, ..read }, rest);
}

/// Reading depends on the bytes alone: what it comes to and what it leaves are
/// determined by them.
pub proof fn law_reading_is_determined<M: Message>(
    before: Seq<u8>,
    decoded: Result<Option<MavFrame<M>>, MessageReadError>,
    after: Seq<u8>,
    decoded_again: Result<Option<MavFrame<M>>, MessageReadError>,
    after_again: Seq<u8>,
)
    requires
        decodes(before, decoded, after),
        decodes(before, decoded_again, after_again),
    ensures
        decoded_again == decoded,
        after_again == after,
{
    let packet = packet_at(synced(before));
    match (decoded, decoded_again) {
        (Ok(Some(frame)), Ok(Some(frame_again))) => {
            M::parse_is_determined(
                packet.version,
                packet.id,
                packet.payload,
                Ok(frame.msg),
                Ok(frame_again.msg),
            );
        },
        (
            Err(MessageReadError::Parse(error)),
            Err(MessageReadError::Parse(error_again)),
        ) => {
            M::parse_is_determined(
                packet.version,
                packet.id,
                packet.payload,
                Err(error),
                Err(error_again),
            );
        },
        _ => {},
    }
}

/// Writing depends on the frame and the bytes that are there alone: whether it
/// succeeds and what it leaves are determined by them.
pub proof fn law_writing_is_determined<M: Message>(
    before: Seq<u8>,
    frame: MavFrame<M>,
    encoded: Result<(), MessageWriteError>,
    after: Seq<u8>,
    encoded_again: Result<(), MessageWriteError>,
    after_again: Seq<u8>,
)
    requires
        encodes(before, frame, encoded, after),
        encodes(before, frame, encoded_again, after_again),
    ensures
        encoded_again is Ok == encoded is Ok,
        after_again == after,
{
}

/// The codec keeps no state between calls: one that was used is the same as a
/// fresh one.
pub proof fn law_codec_keeps_no_state<M: Message>(used: MavMessageSerde<M>)
    ensures
        used == MavMessageSerde::<M>(PhantomData),
{
}

/// Whatever the bytes are, what is left of them is their end. What comes before
/// the first framing marker goes, and behind it nothing or one complete packet,
/// as a whole, be it read, refused or broken; only of a packet whose checksum is
/// right there is a frame or an error.
pub proof fn law_complete_packet_is_removed<M: Message>(
    before: Seq<u8>,
    decoded: Result<Option<MavFrame<M>>, MessageReadError>,
    after: Seq<u8>,
)
    requires
        decodes(before, decoded, after),
    ensures
        0 <= stx_index(before) <= before.len(),
        after.len() <= before.len() - stx_index(before),
        after == before.skip(before.len() - after.len()),
        after.len() < before.len() - stx_index(before) <==> is_complete(synced(before)),
        is_complete(synced(before)) ==> after == before.skip(
            stx_index(before) + packet_at(synced(before)).size,
        ),
        !(decoded matches Ok(None)) ==> is_complete(synced(before)) && packet_at(
            synced(before),
        ).is_intact(),
{
    let bytes = synced(before);
    lemma_stx_index(before);
    if is_complete(bytes) {
        law_progress(bytes);
        assert(after =~= before.skip(stx_index(before) + packet_at(bytes).size));
    }
    assert(after =~= before.skip(before.len() - after.len()));
}

/// A raw message that was made from a template is sent as the template is.
pub proof fn law_raw_is_sent_as_template<M: Message>(
    template: M,
    raw: MavMsgRaw,
    protocol_version: MavlinkVersion,
    header: MavHeader,
)
    requires
        raw.id == template.id(),
        raw.bytes() == template.bytes(),
    ensures
        ({
            let sent = MaybeRawMsg::<M>::Raw(raw);
            let wanted = MaybeRawMsg::Standard(template);
            frame_bytes(MavFrame { protocol_version, header, msg: sent }) == frame_bytes(
                MavFrame { protocol_version, header, msg: wanted },
            )
        }),
{
}

/// Bytes before a packet that are no framing markers make no difference.
pub proof fn law_noise_is_skipped(noise: Seq<u8>, bytes: Seq<u8>)
    requires
        forall|i: int| 0 <= i < noise.len() ==> !is_stx(#[trigger] noise[i]),
    ensures
        synced(noise + bytes) == synced(bytes),
{
    lemma_stx_index(noise);
    lemma_stx_index(bytes);
    lemma_stx_index_append(noise, bytes);
    assert(synced(noise + bytes) =~= synced(bytes));
}

/// Bytes that are no framing markers in front of others change neither what
/// reading comes to nor what it leaves.
pub proof fn law_noise_changes_nothing<M: Message>(
    noise: Seq<u8>,
    bytes: Seq<u8>,
    with_noise: Result<Option<MavFrame<M>>, MessageReadError>,
    after_noise: Seq<u8>,
    decoded: Result<Option<MavFrame<M>>, MessageReadError>,
    after: Seq<u8>,
)
    requires
        forall|i: int| 0 <= i < noise.len() ==> !is_stx(#[trigger] noise[i]),
        decodes(noise + bytes, with_noise, after_noise),
        decodes(bytes, decoded, after),
    ensures
        may_decode::<M>(noise + bytes) <==> may_decode::<M>(bytes),
        with_noise == decoded,
        after_noise == after,
{
    law_noise_is_skipped(noise, bytes);
    law_reading_is_determined(bytes, decoded, after, with_noise, after_noise);
}

/// A packet that comes in pieces is read as if it had come in one: what is kept
/// of the bytes that are there gives, with those that follow, what all of them
/// would have given.
pub proof fn law_pieces(bytes: Seq<u8>, more: Seq<u8>)
    ensures
        synced(synced(bytes) + more) == synced(bytes + more),
{
    let kept = synced(bytes);
    lemma_stx_index(bytes);
    lemma_stx_index(more);
    lemma_stx_index_append(bytes, more);
    lemma_stx_index_append(kept, more);
    assert(synced(kept + more) =~= synced(bytes + more));
}

/// As long as no packet is complete, it makes no difference whether reading was
/// tried before more bytes came.
pub proof fn law_waiting_changes_nothing<M: Message>(
    before: Seq<u8>,
    kept: Seq<u8>,
    more: Seq<u8>,
    waited: Result<Option<MavFrame<M>>, MessageReadError>,
    after_waited: Seq<u8>,
    decoded: Result<Option<MavFrame<M>>, MessageReadError>,
    after: Seq<u8>,
)
    requires
        !is_complete(synced(before)),
        decodes::<M>(before, Ok(None), kept),
        decodes(kept + more, waited, after_waited),
        decodes(before + more, decoded, after),
    ensures
        waited == decoded,
        after_waited == after,
{
    law_pieces(before, more);
    law_reading_is_determined(before + more, decoded, after, waited, after_waited);
}

/// A complete packet does not depend on what follows it.
pub proof fn law_packet_stands_alone(bytes: Seq<u8>, more: Seq<u8>)
    requires
        is_complete(bytes),
    ensures
        is_complete(bytes + more),
        packet_at(bytes + more) == packet_at(bytes),
{
    let all = bytes + more;
    assert(forall|i: int| 0 <= i < bytes.len() ==> all[i] == bytes[i]);
    assert(packet_at(all).payload =~= packet_at(bytes).payload);
    assert(packet_at(all).head =~= packet_at(bytes).head);
}

/// A packet that is read takes bytes from the buffer, and only its own.
pub proof fn law_progress(bytes: Seq<u8>)
    requires
        is_complete(bytes),
    ensures
        8 <= packet_at(bytes).size <= bytes.len(),
        packet_at(bytes).size == header_len(bytes[0]) + packet_at(bytes).payload.len() + 2 + (
        if is_signed(bytes) {
            13int
        } else {
            0int
        }),
{
}

proof fn lemma_stx_index_at(bytes: Seq<u8>, k: int)
    requires
        0 <= k <= bytes.len(),
        k < bytes.len() ==> bytes[k] == 0xFE || bytes[k] == 0xFD,
        forall|i: int| 0 <= i < k ==> #[trigger] bytes[i] != 0xFE && bytes[i] != 0xFD,
    ensures
        stx_index(bytes) == k,
    decreases k,
{
    if k > 0 {
        assert(bytes[0] != 0xFE && bytes[0] != 0xFD);
        assert forall|i: int| 0 <= i < k - 1 implies #[trigger] bytes.skip(1)[i] != 0xFE
            && bytes.skip(1)[i] != 0xFD by {
            assert(bytes[i + 1] != 0xFE && bytes[i + 1] != 0xFD);
        }
        lemma_stx_index_at(bytes.skip(1), k - 1);
    }
}

/// Where there is no framing marker, nothing is read and nothing is kept.
pub proof fn law_nothing_is_read_without_marker<M: Message>(
    before: Seq<u8>,
    decoded: Result<Option<MavFrame<M>>, MessageReadError>,
    after: Seq<u8>,
)
    requires
        decodes(before, decoded, after),
        forall|i: int|
            0 <= i < before.len() ==> #[trigger] before[i] != 0xFE && before[i] != 0xFD,
    ensures
        decoded matches Ok(None),
        after.len() == 0,
{
    lemma_stx_index_at(before, before.len() as int);
}

/// What is read where the first framing marker is that of the first version of
/// the protocol, byte for byte. The length of the payload follows the marker,
/// then the sequence number, the system, the component and the identifier; the
/// payload is followed by its checksum, the less significant byte first, which
/// covers everything from the length on and the seed of the identifier. While
/// bytes are missing, nothing is taken from the marker on; if the checksum is
/// wrong, the packet is dropped.
pub proof fn law_first_version_is_read<M: Message>(
    before: Seq<u8>,
    decoded: Result<Option<MavFrame<M>>, MessageReadError>,
    after: Seq<u8>,
    k: int,
)
    requires
        decodes(before, decoded, after),
        0 <= k < before.len(),
        before[k] == 0xFE,
        forall|i: int| 0 <= i < k ==> #[trigger] before[i] != 0xFE && before[i] != 0xFD,
    ensures
        ({
            let end = k + 6 + before[k + 1];
            if before.len() < k + 2 || before.len() < end + 2 {
                decoded matches Ok(None) && after == before.skip(k)
            } else {
                let id = before[k + 5] as u32;
                let payload = before.subrange(k + 6, end);
                let crc = crc16(before.subrange(k + 1, end).push(common_crc_seed(id)));
                &&& after == before.skip(end + 2)
                &&& if before[end] == crc % 256 && before[end + 1] == crc / 256 {
                    &&& decoded is Ok <==> M::parses(MavlinkVersion::V1, id, payload)
                    &&& match decoded {
                        Ok(Some(frame)) => {
                            &&& frame.protocol_version == MavlinkVersion::V1
                            &&& frame.header.sequence == before[k + 2]
                            &&& frame.header.system_id == before[k + 3]
                            &&& frame.header.component_id == before[k + 4]
                            &&& frame.msg.id() == id
                            &&& M::parse_yields(MavlinkVersion::V1, id, payload, Ok(frame.msg))
                        },
                        Ok(None) => false,
                        Err(MessageReadError::Parse(error)) => M::parse_yields(
                            MavlinkVersion::V1,
                            id,
                            payload,
                            Err(error),
                        ),
                    }
                } else {
                    decoded matches Ok(None)
                }
            }
        }),
{
    let bytes = before.skip(k);
    lemma_stx_index_at(before, k);
    assert(synced(before) =~= bytes);
    assert(forall|i: int| 0 <= i < bytes.len() ==> bytes[i] == before[k + i]);
    if before.len() > k + 2 {
        let flags = before[k + 2];
        assert(flags & 1 == 1 <==> flags % 2 == 1) by (bit_vector);
    }
    if is_complete(bytes) {
        let packet = packet_at(bytes);
        let end = k + 6 + before[k + 1];
        assert(packet.payload =~= before.subrange(k + 6, end));
        assert(packet.head + packet.payload + seq![common_crc_seed(packet.id)] =~= before.subrange(
            k + 1,
            end,
        ).push(common_crc_seed(packet.id)));
        assert(bytes.skip(packet.size) =~= before.skip(k + packet.size));
    }
}

/// What is read where the first framing marker is that of the second version of
/// the protocol, byte for byte. The length of the payload follows the marker,
/// then two bytes of flags, the sequence number, the system, the component and
/// the three bytes of the identifier; an odd first byte of flags tells that 13
/// bytes of signature follow the checksum.
pub proof fn law_second_version_is_read<M: Message>(
    before: Seq<u8>,
    decoded: Result<Option<MavFrame<M>>, MessageReadError>,
    after: Seq<u8>,
    k: int,
)
    requires
        decodes(before, decoded, after),
        0 <= k < before.len(),
        before[k] == 0xFD,
        forall|i: int| 0 <= i < k ==> #[trigger] before[i] != 0xFE && before[i] != 0xFD,
    ensures
        ({
            let end = k + 10 + before[k + 1];
            let behind = end + 2 + if before[k + 2] % 2 == 1 {
                13int
            } else {
                0
            };
            if before.len() < k + 10 || before.len() < behind {
                decoded matches Ok(None) && after == before.skip(k)
            } else {
                let id = (before[k + 7] + 256 * before[k + 8] + 65536 * before[k + 9]) as u32;
                let payload = before.subrange(k + 10, end);
                let crc = crc16(before.subrange(k + 1, end).push(common_crc_seed(id)));
                &&& after == before.skip(behind)
                &&& if before[end] == crc % 256 && before[end + 1] == crc / 256 {
                    &&& decoded is Ok <==> M::parses(MavlinkVersion::V2, id, payload)
                    &&& match decoded {
                        Ok(Some(frame)) => {
                            &&& frame.protocol_version == MavlinkVersion::V2
                            &&& frame.header.sequence == before[k + 4]
                            &&& frame.header.system_id == before[k + 5]
                            &&& frame.header.component_id == before[k + 6]
                            &&& frame.msg.id() == id
                            &&& M::parse_yields(MavlinkVersion::V2, id, payload, Ok(frame.msg))
                        },
                        Ok(None) => false,
                        Err(MessageReadError::Parse(error)) => M::parse_yields(
                            MavlinkVersion::V2,
                            id,
                            payload,
                            Err(error),
                        ),
                    }
                } else {
                    decoded matches Ok(None)
                }
            }
        }),
{
    let bytes = before.skip(k);
    lemma_stx_index_at(before, k);
    assert(synced(before) =~= bytes);
    assert(forall|i: int| 0 <= i < bytes.len() ==> bytes[i] == before[k + i]);
    if before.len() > k + 2 {
        let flags = before[k + 2];
        assert(flags & 1 == 1 <==> flags % 2 == 1) by (bit_vector);
    }
    if is_complete(bytes) {
        let packet = packet_at(bytes);
        let end = k + 10 + before[k + 1];
        assert(packet.payload =~= before.subrange(k + 10, end));
        assert(packet.head + packet.payload + seq![common_crc_seed(packet.id)] =~= before.subrange(
            k + 1,
            end,
        ).push(common_crc_seed(packet.id)));
        assert(bytes.skip(packet.size) =~= before.skip(k + packet.size));
    }
}

/// What a frame is written as in the first version of the protocol, byte for
/// byte, behind what is there already.
pub proof fn law_first_version_is_written<M: Message>(
    before: Seq<u8>,
    frame: MavFrame<M>,
    encoded: Result<(), MessageWriteError>,
    after: Seq<u8>,
)
    requires
        encodes(before, frame, encoded, after),
        frame.protocol_version == MavlinkVersion::V1,
    ensures
        ({
            let start = before.len() as int;
            let payload = frame.msg.bytes();
            let end = start + 6 + payload.len();
            let id = frame.msg.id() as int;
            &&& encoded is Ok <==> end + 2 <= isize::MAX
            &&& encoded is Ok ==> {
                let crc = crc16(after.subrange(start + 1, end).push(M::crc_seed(frame.msg.id())));
                &&& after.len() == end + 2
                &&& after.take(start) == before
                &&& after[start] == 0xFE
                &&& after[start + 1] == payload.len() % 256
                &&& after[start + 2] == frame.header.sequence
                &&& after[start + 3] == frame.header.system_id
                &&& after[start + 4] == frame.header.component_id
                &&& after[start + 5] == id % 256
                &&& after.subrange(start + 6, end) == payload
                &&& after[end] == crc % 256
                &&& after[end + 1] == crc / 256
            }
        }),
{
    let start = before.len() as int;
    let written = frame_bytes(frame);
    let payload = frame.msg.bytes();
    if encoded is Ok {
        assert(forall|i: int| 0 <= i < written.len() ==> after[start + i] == written[i]);
        assert(after.take(start) =~= before);
        let head = header_bytes(
            frame.protocol_version,
            frame.header,
            frame.msg.id(),
            payload.len(),
        );
        let end = start + 6 + payload.len();
        assert(after.subrange(start + 6, end) =~= payload);
        assert(after.subrange(start + 1, end).push(M::crc_seed(frame.msg.id())) =~= head.skip(1)
            + payload + seq![M::crc_seed(frame.msg.id())]);
    }
}

/// What a frame is written as in the second version of the protocol, byte for
/// byte, behind what is there already. No flags are set.
pub proof fn law_second_version_is_written<M: Message>(
    before: Seq<u8>,
    frame: MavFrame<M>,
    encoded: Result<(), MessageWriteError>,
    after: Seq<u8>,
)
    requires
        encodes(before, frame, encoded, after),
        frame.protocol_version == MavlinkVersion::V2,
    ensures
        ({
            let start = before.len() as int;
            let payload = frame.msg.bytes();
            let end = start + 10 + payload.len();
            let id = frame.msg.id() as int;
            &&& encoded is Ok <==> end + 2 <= isize::MAX
            &&& encoded is Ok ==> {
                let crc = crc16(after.subrange(start + 1, end).push(M::crc_seed(frame.msg.id())));
                &&& after.len() == end + 2
                &&& after.take(start) == before
                &&& after[start] == 0xFD
                &&& after[start + 1] == payload.len() % 256
                &&& after[start + 2] == 0
                &&& after[start + 3] == 0
                &&& after[start + 4] == frame.header.sequence
                &&& after[start + 5] == frame.header.system_id
                &&& after[start + 6] == frame.header.component_id
                &&& after[start + 7] == id % 256
                &&& after[start + 8] == (id / 256) % 256
                &&& after[start + 9] == (id / 65536) % 256
                &&& after.subrange(start + 10, end) == payload
                &&& after[end] == crc % 256
                &&& after[end + 1] == crc / 256
            }
        }),
{
    let start = before.len() as int;
    let written = frame_bytes(frame);
    let payload = frame.msg.bytes();
    if encoded is Ok {
        assert(forall|i: int| 0 <= i < written.len() ==> after[start + i] == written[i]);
        assert(after.take(start) =~= before);
        let head = header_bytes(
            frame.protocol_version,
            frame.header,
            frame.msg.id(),
            payload.len(),
        );
        let end = start + 10 + payload.len();
        assert(after.subrange(start + 10, end) =~= payload);
        assert(after.subrange(start + 1, end).push(M::crc_seed(frame.msg.id())) =~= head.skip(1)
            + payload + seq![M::crc_seed(frame.msg.id())]);
    }
}

/// Where there is no room for a frame, what there is room for is written of it.
pub proof fn law_full_buffer_cuts_off<M: Message>(
    before: Seq<u8>,
    frame: MavFrame<M>,
    encoded: Result<(), MessageWriteError>,
    after: Seq<u8>,
    roomy: Seq<u8>,
    written: Seq<u8>,
)
    requires
        before.len() <= isize::MAX,
        encodes(before, frame, encoded, after),
        encoded is Err,
        encodes(roomy, frame, Ok(()), written),
    ensures
        after.len() == isize::MAX,
        after.take(before.len() as int) == before,
        after.skip(before.len() as int) == written.subrange(
            roomy.len() as int,
            roomy.len() + isize::MAX - before.len(),
        ),
{
    assert(after.take(before.len() as int) =~= before);
    assert(after.skip(before.len() as int) =~= written.subrange(
        roomy.len() as int,
        roomy.len() + isize::MAX - before.len(),
    ));
}

/// Where the first framing marker is: the place that has one, with none before.
pub proof fn law_first_marker(bytes: Seq<u8>, k: int)
    requires
        0 <= k <= bytes.len(),
        k < bytes.len() ==> bytes[k] == 0xFE || bytes[k] == 0xFD,
        forall|i: int| 0 <= i < k ==> #[trigger] bytes[i] != 0xFE && bytes[i] != 0xFD,
    ensures
        stx_index(bytes) == k,
        synced(bytes) == bytes.skip(k),
{
    lemma_stx_index_at(bytes, k);
}

/// Where the parts of a packet of the first version of the protocol are.
pub proof fn law_parts_of_first_version(bytes: Seq<u8>, located: Located)
    requires
        bytes.len() >= 2,
        bytes[0] == 0xFE,
    ensures
        is_complete(bytes) <==> bytes.len() >= 8 + bytes[1],
        is_complete(bytes) ==> {
            let packet = packet_at(bytes);
            &&& packet.head + packet.payload == bytes.subrange(1, 6 + bytes[1])
            &&& packet.payload == bytes.subrange(6, 6 + bytes[1])
        },
        located.locates(bytes) <==> {
            &&& located.version == MavlinkVersion::V1
            &&& located.header.sequence == bytes[2]
            &&& located.header.system_id == bytes[3]
            &&& located.header.component_id == bytes[4]
            &&& located.id == bytes[5]
            &&& located.header_len == 6
            &&& located.payload_len == bytes[1]
            &&& !located.is_signed
        },
{
    if is_complete(bytes) {
        let packet = packet_at(bytes);
        assert(packet.head + packet.payload =~= bytes.subrange(1, 6 + bytes[1]));
    }
}

/// Where the parts of a packet of the second version of the protocol are.
pub proof fn law_parts_of_second_version(bytes: Seq<u8>, located: Located)
    requires
        bytes.len() >= 10,
        bytes[0] == 0xFD,
    ensures
        is_complete(bytes) <==> bytes.len() >= 12 + bytes[1] + if bytes[2] % 2 == 1 {
            13int
        } else {
            0
        },
        is_complete(bytes) ==> {
            let packet = packet_at(bytes);
            &&& packet.head + packet.payload == bytes.subrange(1, 10 + bytes[1])
            &&& packet.payload == bytes.subrange(10, 10 + bytes[1])
        },
        located.locates(bytes) <==> {
            &&& located.version == MavlinkVersion::V2
            &&& located.header.sequence == bytes[4]
            &&& located.header.system_id == bytes[5]
            &&& located.header.component_id == bytes[6]
            &&& located.id == bytes[7] + 256 * bytes[8] + 65536 * bytes[9]
            &&& located.header_len == 10
            &&& located.payload_len == bytes[1]
            &&& located.is_signed == (bytes[2] % 2 == 1)
        },
{
    let flags = bytes[2];
    assert(flags & 1 == 1 <==> flags % 2 == 1) by (bit_vector);
    if is_complete(bytes) {
        let packet = packet_at(bytes);
        assert(packet.head + packet.payload =~= bytes.subrange(1, 10 + bytes[1]));
    }
}

/// Fewer bytes than a header has are no packet.
pub proof fn law_packets_have_a_header(bytes: Seq<u8>)
    ensures
        bytes.len() < 2 ==> !is_complete(bytes),
        bytes.len() < 10 && bytes[0] == 0xFD ==> !is_complete(bytes),
{
}

/// The headers that are written, byte for byte.
pub proof fn law_headers(header: MavHeader, id: u32, payload_len: nat)
    ensures
        ({
            let first = header_bytes(MavlinkVersion::V1, header, id, payload_len);
            let second = header_bytes(MavlinkVersion::V2, header, id, payload_len);
            &&& first.len() == 6
            &&& first[0] == 0xFE
            &&& first[1] == payload_len % 256
            &&& first[2] == header.sequence
            &&& first[3] == header.system_id
            &&& first[4] == header.component_id
            &&& first[5] == id % 256
            &&& second.len() == 10
            &&& second[0] == 0xFD
            &&& second[1] == payload_len % 256
            &&& second[2] == 0
            &&& second[3] == 0
            &&& second[4] == header.sequence
            &&& second[5] == header.system_id
            &&& second[6] == header.component_id
            &&& second[7] + 256 * second[8] + 65536 * second[9] == id % 0x100_0000
        }),
{
}

/// Where every payload may be asked about, every bytes may be read from.
pub proof fn law_any_bytes_may_be_read<M: Message>(bytes: Seq<u8>)
    requires
        forall|version: MavlinkVersion, id: u32, payload: Seq<u8>| #[trigger]
            M::parse_accepts(version, id, payload),
    ensures
        may_decode::<M>(bytes),
{
}

} // verus!
