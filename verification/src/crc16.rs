//! The CRC-16/X25 checksum that frames the argument stream.

use vstd::prelude::*;

verus! {

/// The CRC-16/X25 checksum of a byte sequence. The polynomial arithmetic
/// behind it is not restated here; the checksum is a function of the bytes
/// alone, which is all the framing logic depends on.
pub uninterp spec fn crc16_x25_of(data: Seq<u8>) -> u16;

/// Relies on crc::Crc::<u16>::checksum with the CRC-16/IBM-SDLC parameters
/// (poly 0x1021 reflected, init 0xffff, xorout 0xffff), the algorithm also
/// known as CRC-16/X25. The checksum depends on the input bytes alone;
/// `crc16_x25_of` names it.
#[verifier::external_body]
pub(crate) fn crc16_x25(data: &Vec<u8>) -> (r: u16)
    ensures
        r == crc16_x25_of(data@),
{
    crc::Crc::<u16>::new(&crc::CRC_16_IBM_SDLC).checksum(data.as_slice())
}

} // verus!
