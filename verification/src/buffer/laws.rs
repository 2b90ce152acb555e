//! What holds of the checksum.
use crate::buffer::{crc16, crc_shifted};
use vstd::prelude::*;

verus! {

/// The checksum of no bytes has all bits set; a byte more is taken in by two
/// nibbles at a time, as the protocol's reference code does it.
pub proof fn law_checksum_takes_bytes_in(bytes: Seq<u8>, byte: u8)
    ensures
        crc16(Seq::empty()) == 0xFFFF,
        ({
            let crc = crc16(bytes);
            let mixed = (crc & 0xFF) ^ (byte as u16);
            let folded = (mixed ^ (mixed << 4)) & 0xFF;
            crc16(bytes.push(byte)) == (crc >> 8) ^ (folded << 8) ^ (folded << 3) ^ (folded >> 4)
        }),
{
    let crc = crc16(bytes);
    let wide = byte as u16;
    let x0 = crc ^ wide;
    assert(bytes.push(byte).drop_last() =~= bytes);
    reveal_with_fuel(crc_shifted, 9);
    let x1 = crc_shifted(x0, 1);
    let x2 = crc_shifted(x0, 2);
    let x3 = crc_shifted(x0, 3);
    let x4 = crc_shifted(x0, 4);
    let x5 = crc_shifted(x0, 5);
    let x6 = crc_shifted(x0, 6);
    let x7 = crc_shifted(x0, 7);
    let x8 = crc_shifted(x0, 8);
    let mixed = (crc & 0xFF) ^ wide;
    let folded = (mixed ^ (mixed << 4)) & 0xFF;
    assert(x8 == (crc >> 8) ^ (folded << 8) ^ (folded << 3) ^ (folded >> 4)) by (bit_vector)
        requires
            wide < 256,
            x0 == crc ^ wide,
            mixed == (crc & 0xFF) ^ wide,
            folded == (mixed ^ (mixed << 4)) & 0xFF,
            x1 == (if x0 & 1 == 1 { (x0 >> 1) ^ 0x8408 } else { x0 >> 1 }),
            x2 == (if x1 & 1 == 1 { (x1 >> 1) ^ 0x8408 } else { x1 >> 1 }),
            x3 == (if x2 & 1 == 1 { (x2 >> 1) ^ 0x8408 } else { x2 >> 1 }),
            x4 == (if x3 & 1 == 1 { (x3 >> 1) ^ 0x8408 } else { x3 >> 1 }),
            x5 == (if x4 & 1 == 1 { (x4 >> 1) ^ 0x8408 } else { x4 >> 1 }),
            x6 == (if x5 & 1 == 1 { (x5 >> 1) ^ 0x8408 } else { x5 >> 1 }),
            x7 == (if x6 & 1 == 1 { (x6 >> 1) ^ 0x8408 } else { x6 >> 1 }),
            x8 == (if x7 & 1 == 1 { (x7 >> 1) ^ 0x8408 } else { x7 >> 1 }),
    ;
}

} // verus!
