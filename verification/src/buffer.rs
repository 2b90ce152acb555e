//! The byte buffers of the `bytes` crate, and the checksum of the `crc-any` crate.
use bytes::{Buf, BufMut, BytesMut};
use crc_any::CRCu16;
use std::io::Write;
use vstd::prelude::*;

pub mod laws;

verus! {

/// The growable byte buffer of the `bytes` crate.
#[verifier::external_type_specification]
#[verifier::external_body]
pub struct ExBytesMut(bytes::BytesMut);

/// The error of std's readers and writers.
#[verifier::external_type_specification]
#[verifier::external_body]
pub struct ExIoError(std::io::Error);

/// The bytes that a buffer holds.
pub uninterp spec fn buffered(buffer: BytesMut) -> Seq<u8>;

/// A checksum after a number of bits were shifted out of it: each one that is
/// set brings the polynomial in, its bits in reverse.
pub open spec fn crc_shifted(crc: u16, bits: nat) -> u16
    decreases bits,
{
    if bits == 0 {
        crc
    } else {
        let before = crc_shifted(crc, (bits - 1) as nat);
        if before & 1 == 1 {
            (before >> 1) ^ 0x8408
        } else {
            before >> 1
        }
    }
}

/// The CRC-16/MCRF4XX checksum of the bytes.
pub open spec fn crc16(bytes: Seq<u8>) -> u16
    decreases bytes.len(),
{
    if bytes.len() == 0 {
        0xFFFF
    } else {
        crc_shifted(crc16(bytes.drop_last()) ^ (bytes.last() as u16), 8)
    }
}

/// Calls `BytesMut::deref`: the bytes that the buffer holds.
#[verifier::external_body]
pub(crate) fn as_bytes(buffer: &BytesMut) -> (bytes: &[u8])
    ensures
        bytes@ == buffered(*buffer),
{
    buffer
}

/// Calls `Buf::advance`, which drops bytes at the front of the buffer.
#[verifier::external_body]
pub(crate) fn advance(buffer: &mut BytesMut, count: usize)
    requires
        count <= buffered(*old(buffer)).len(),
    ensures
        buffered(*final(buffer)) == buffered(*old(buffer)).skip(count as int),
{
    buffer.advance(count)
}

/// Calls `BytesMut::split_to`, which moves bytes at the front of the buffer
/// into a buffer of their own.
#[verifier::external_body]
pub(crate) fn split_to(buffer: &mut BytesMut, count: usize) -> (front: BytesMut)
    requires
        count <= buffered(*old(buffer)).len(),
    ensures
        buffered(front) == buffered(*old(buffer)).take(count as int),
        buffered(*final(buffer)) == buffered(*old(buffer)).skip(count as int),
{
    buffer.split_to(count)
}

/// Calls `Buf::get_u16_le`, which takes two bytes from the front of the buffer,
/// the less significant one first.
#[verifier::external_body]
pub(crate) fn get_u16_le(buffer: &mut BytesMut) -> (value: u16)
    requires
        buffered(*old(buffer)).len() >= 2,
    ensures
        value == buffered(*old(buffer))[0] + 256 * buffered(*old(buffer))[1],
        buffered(*final(buffer)) == buffered(*old(buffer)).skip(2),
{
    buffer.get_u16_le()
}

/// Calls `write_all` on what `BufMut::writer` gives for the buffer. It appends
/// the bytes; the only error is that of a buffer at the size of the largest
/// allocation, `isize::MAX` bytes, which takes what still fits. As with every
/// collection that grows, there must be memory to be had.
#[verifier::external_body]
pub(crate) fn write_all(buffer: &mut BytesMut, bytes: &[u8]) -> (written: Result<
    (),
    std::io::Error,
>)
    ensures
        written is Ok <==> buffered(*old(buffer)).len() + bytes@.len() <= isize::MAX,
        written is Ok ==> buffered(*final(buffer)) == buffered(*old(buffer)) + bytes@,
        written is Err ==> buffered(*final(buffer)) == buffered(*old(buffer)) + bytes@.take(
            isize::MAX - buffered(*old(buffer)).len(),
        ),
{
    buffer.writer().write_all(bytes)
}

/// Calls `digest` on the `CRCu16` that `CRCu16::crc16mcrf4cc` makes, and then
/// `get_crc`. The sum starts with all bits set and takes the bytes one after the
/// other, the least significant bit first, with the reversed polynomial 0x8408;
/// nothing is added at the end.
#[verifier::external_body]
pub(crate) fn crc16mcrf4cc(bytes: &[u8]) -> (crc: u16)
    ensures
        crc == crc16(bytes@),
{
    let mut crc = CRCu16::crc16mcrf4cc();
    crc.digest(bytes);
    crc.get_crc()
}

} // verus!
