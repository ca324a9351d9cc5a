//! Little-endian integers of fixed width, read with the `byteorder` crate.

use vstd::prelude::*;
use byteorder::{ByteOrder, LittleEndian};

verus! {

/// The unsigned integer whose two bytes start at `pos`, lowest byte first.
pub open spec fn le_u16(bytes: Seq<u8>, pos: int) -> int {
    bytes[pos] + 0x100 * bytes[pos + 1]
}

/// The unsigned integer whose four bytes start at `pos`, lowest byte first.
pub open spec fn le_u32(bytes: Seq<u8>, pos: int) -> int {
    bytes[pos] + 0x100 * bytes[pos + 1] + 0x1_0000 * bytes[pos + 2] + 0x100_0000 * bytes[pos + 3]
}

/// The same two bytes read as a two's-complement integer.
pub open spec fn le_i16(bytes: Seq<u8>, pos: int) -> int {
    if le_u16(bytes, pos) >= 0x8000 {
        le_u16(bytes, pos) - 0x1_0000
    } else {
        le_u16(bytes, pos)
    }
}

/// The same four bytes read as a two's-complement integer.
pub open spec fn le_i32(bytes: Seq<u8>, pos: int) -> int {
    if le_u32(bytes, pos) >= 0x8000_0000 {
        le_u32(bytes, pos) - 0x1_0000_0000
    } else {
        le_u32(bytes, pos)
    }
}

/// The four bytes that hold `v` in two's complement, lowest byte first.
pub open spec fn le_bytes_i32(v: int) -> Seq<u8> {
    let u = if v < 0 { v + 0x1_0000_0000 } else { v };
    seq![
        (u % 0x100) as u8,
        (u / 0x100 % 0x100) as u8,
        (u / 0x1_0000 % 0x100) as u8,
        (u / 0x100_0000 % 0x100) as u8,
    ]
}

/// `byteorder::LittleEndian::read_u32`: the first four bytes of `buf` as an
/// unsigned integer, lowest byte first. The crate panics on a shorter slice.
#[verifier::external_body]
pub(crate) fn read_u32_le(buf: &[u8]) -> (v: u32)
    requires
        buf@.len() >= 4,
    ensures
        v == le_u32(buf@, 0),
{
    LittleEndian::read_u32(buf)
}

/// `byteorder::LittleEndian::read_i32`: the first four bytes of `buf` as a
/// two's-complement integer, lowest byte first. The crate panics on a shorter slice.
#[verifier::external_body]
pub(crate) fn read_i32_le(buf: &[u8]) -> (v: i32)
    requires
        buf@.len() >= 4,
    ensures
        v == le_i32(buf@, 0),
{
    LittleEndian::read_i32(buf)
}

/// `byteorder::LittleEndian::read_i16`: the first two bytes of `buf` as a
/// two's-complement integer, lowest byte first. The crate panics on a shorter slice.
#[verifier::external_body]
pub(crate) fn read_i16_le(buf: &[u8]) -> (v: i16)
    requires
        buf@.len() >= 2,
    ensures
        v == le_i16(buf@, 0),
{
    LittleEndian::read_i16(buf)
}

proof fn lemma_bytes_sum(u: u32)
    by (bit_vector)
    ensures
        (u % 0x100) + 0x100 * (u / 0x100 % 0x100) + 0x1_0000 * (u / 0x1_0000 % 0x100) + 0x100_0000
            * (u / 0x100_0000 % 0x100) == u,
{
}

/// An integer of 32 bits reads back from wherever its four bytes lie in a buffer.
#[verifier::rlimit(50)]
pub proof fn lemma_le_i32_at(bytes: Seq<u8>, pos: int, v: i32)
    requires
        0 <= pos,
        pos + 4 <= bytes.len(),
        bytes.subrange(pos, pos + 4) == le_bytes_i32(v as int),
    ensures
        le_i32(bytes, pos) == v,
{
    let u: int = if v < 0 {
        v + 0x1_0000_0000
    } else {
        v as int
    };
    let part = bytes.subrange(pos, pos + 4);
    assert(part[0] == bytes[pos] && part[1] == bytes[pos + 1] && part[2] == bytes[pos + 2]
        && part[3] == bytes[pos + 3]);
    lemma_bytes_sum(u as u32);
}

} // verus!
