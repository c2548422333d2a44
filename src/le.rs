//! Little-endian integers read from raw bytes.
use vstd::prelude::*;
use byteorder::{ByteOrder, LittleEndian};

verus! {

/// The unsigned value of two bytes, least significant first.
pub open spec fn le_u16(b: Seq<u8>) -> nat {
    b[0] as nat + 256 * (b[1] as nat)
}

/// The unsigned value of four bytes, least significant first.
pub open spec fn le_u32(b: Seq<u8>) -> nat {
    b[0] as nat + 256 * (b[1] as nat) + 65536 * (b[2] as nat) + 16777216 * (b[3] as nat)
}

/// The two's-complement value of two bytes, least significant first.
pub open spec fn le_i16(b: Seq<u8>) -> int {
    let u = le_u16(b);
    if u >= 32768 {
        u - 65536
    } else {
        u as int
    }
}

/// Relies on byteorder's `LittleEndian::read_u16`, which is
/// `u16::from_le_bytes` of the first two bytes.
#[verifier::external_body]
pub(crate) fn read_u16_le(b: [u8; 2]) -> (r: u16)
    ensures
        r == le_u16(b@),
{
    LittleEndian::read_u16(&b)
}

/// Relies on byteorder's `LittleEndian::read_u32`, which is
/// `u32::from_le_bytes` of the first four bytes.
#[verifier::external_body]
pub(crate) fn read_u32_le(b: [u8; 4]) -> (r: u32)
    ensures
        r == le_u32(b@),
{
    LittleEndian::read_u32(&b)
}

/// Relies on byteorder's `LittleEndian::read_i16`, which reinterprets the
/// little-endian `u16` of the first two bytes as an `i16`.
#[verifier::external_body]
pub(crate) fn read_i16_le(b: [u8; 2]) -> (r: i16)
    ensures
        r == le_i16(b@),
{
    LittleEndian::read_i16(&b)
}

} // verus!
