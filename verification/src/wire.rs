//! The little-endian integers of binary data, read by the `byteorder`
//! crate.

use byteorder::{ByteOrder, LittleEndian};
use vstd::prelude::*;

verus! {

/// The unsigned integer that two bytes write, the low byte first.
pub open spec fn le_u16_of(bytes: Seq<u8>) -> u16 {
    (bytes[0] as int + bytes[1] as int * 0x100) as u16
}

/// The unsigned integer that four bytes write, the lowest byte first.
pub open spec fn le_u32_of(bytes: Seq<u8>) -> u32 {
    (bytes[0] as int + bytes[1] as int * 0x100 + bytes[2] as int * 0x1_0000 + bytes[3] as int
        * 0x100_0000) as u32
}

/// The signed integer that two bytes write in two's complement, the low
/// byte first.
pub open spec fn le_i16_of(bytes: Seq<u8>) -> i16 {
    let unsigned = le_u16_of(bytes);
    if unsigned >= 0x8000 {
        (unsigned - 0x1_0000) as i16
    } else {
        unsigned as i16
    }
}

/// The signed integer that four bytes write in two's complement, the lowest
/// byte first.
pub open spec fn le_i32_of(bytes: Seq<u8>) -> i32 {
    let unsigned = le_u32_of(bytes);
    if unsigned >= 0x8000_0000 {
        (unsigned - 0x1_0000_0000) as i32
    } else {
        unsigned as i32
    }
}

/// `byteorder::LittleEndian::read_u16`: the first two bytes of the buffer as
/// an unsigned integer, the low byte first. It panics on a shorter buffer.
#[verifier::external_body]
pub(crate) fn read_u16(buf: &[u8]) -> (value: u16)
    requires
        buf@.len() >= 2,
    ensures
        value == le_u16_of(buf@),
{
    LittleEndian::read_u16(buf)
}

/// `byteorder::LittleEndian::read_u32`: the first four bytes of the buffer
/// as an unsigned integer, the lowest byte first. It panics on a shorter
/// buffer.
#[verifier::external_body]
pub(crate) fn read_u32(buf: &[u8]) -> (value: u32)
    requires
        buf@.len() >= 4,
    ensures
        value == le_u32_of(buf@),
{
    LittleEndian::read_u32(buf)
}

/// `byteorder::LittleEndian::read_i16`: the first two bytes of the buffer as
/// a signed integer in two's complement, the low byte first. It panics on a
/// shorter buffer.
#[verifier::external_body]
pub(crate) fn read_i16(buf: &[u8]) -> (value: i16)
    requires
        buf@.len() >= 2,
    ensures
        value == le_i16_of(buf@),
{
    LittleEndian::read_i16(buf)
}

/// `byteorder::LittleEndian::read_i32`: the first four bytes of the buffer
/// as a signed integer in two's complement, the lowest byte first. It panics
/// on a shorter buffer.
#[verifier::external_body]
pub(crate) fn read_i32(buf: &[u8]) -> (value: i32)
    requires
        buf@.len() >= 4,
    ensures
        value == le_i32_of(buf@),
{
    LittleEndian::read_i32(buf)
}

} // verus!
