//! Variable-length unsigned integers: seven bits per byte, least significant group
//! first, the top bit of a byte set when another byte follows.

use vstd::prelude::*;
use crate::error::DecodeError;

verus! {

/// Number of bytes of the integer that starts at `pos`, or `None` when the
/// continuation bits run past the end of `bytes`.
pub open spec fn varint_len(bytes: Seq<u8>, pos: int) -> Option<int>
    decreases bytes.len() - pos,
{
    if pos < 0 || pos >= bytes.len() {
        None
    } else if bytes[pos] < 128 {
        Some(1)
    } else {
        match varint_len(bytes, pos + 1) {
            Some(n) => Some(n + 1),
            None => None,
        }
    }
}

/// The integer that starts at `pos`, with all its groups, before it is cut to 32 bits.
pub open spec fn varint_value(bytes: Seq<u8>, pos: int) -> nat
    decreases bytes.len() - pos,
{
    if pos < 0 || pos >= bytes.len() {
        0
    } else if bytes[pos] < 128 {
        bytes[pos] as nat
    } else {
        ((bytes[pos] - 128) + 128 * varint_value(bytes, pos + 1)) as nat
    }
}

/// The 32-bit integer that starts at `pos`: the low 32 bits of `varint_value`.
pub open spec fn varint_u32(bytes: Seq<u8>, pos: int) -> u32 {
    (varint_value(bytes, pos) % 0x1_0000_0000) as u32
}

/// The encoding of `v`: its groups of seven bits, lowest first.
pub open spec fn encode_varint(v: nat) -> Seq<u8>
    decreases v,
{
    if v < 128 {
        seq![v as u8]
    } else {
        seq![(v % 128 + 128) as u8] + encode_varint(v / 128)
    }
}

/// Where the integer at `pos` ends, when it ends inside `bytes`.
pub proof fn lemma_varint_len_bounds(bytes: Seq<u8>, pos: int)
    requires
        varint_len(bytes, pos) is Some,
    ensures
        0 <= pos,
        1 <= varint_len(bytes, pos)->0,
        pos + varint_len(bytes, pos)->0 <= bytes.len(),
    decreases bytes.len() - pos,
{
    if bytes[pos] >= 128 {
        lemma_varint_len_bounds(bytes, pos + 1);
    }
}

proof fn lemma_low_groups(count: u32, group: u32, shift: u32)
    by (bit_vector)
    requires
        group < 128,
        shift == 0 || shift == 7 || shift == 14 || shift == 21,
        count < (1u32 << shift),
    ensures
        (count | (group << shift)) == count + group * (1u32 << shift),
        (count | (group << shift)) < (1u32 << ((shift + 7) as u32)),
{
}

proof fn lemma_top_group(count: u32, group: u32)
    by (bit_vector)
    requires
        group < 128,
        count < 0x1000_0000u32,
    ensures
        (count | (group << 28u32)) as int == (count as int + group as int * 0x1000_0000) % 0x1_0000_0000,
{
}

proof fn lemma_shift_values()
    ensures
        (1u32 << 0u32) == 1,
        (1u32 << 7u32) == 0x80,
        (1u32 << 14u32) == 0x4000,
        (1u32 << 21u32) == 0x20_0000,
        (1u32 << 28u32) == 0x1000_0000,
{
    assert((1u32 << 0u32) == 1) by (bit_vector);
    assert((1u32 << 7u32) == 0x80) by (bit_vector);
    assert((1u32 << 14u32) == 0x4000) by (bit_vector);
    assert((1u32 << 21u32) == 0x20_0000) by (bit_vector);
    assert((1u32 << 28u32) == 0x1000_0000) by (bit_vector);
}

/// Reads the integer that starts at `*index` and moves `*index` past its last byte.
/// When the continuation bits run past the end of `bytes`, nothing is consumed.
pub fn decode_slice(bytes: &[u8], index: &mut usize) -> (result: Result<u32, DecodeError>)
    ensures
        match varint_len(bytes@, *old(index) as int) {
            Some(n) => result == Ok::<u32, DecodeError>(varint_u32(bytes@, *old(index) as int))
                && *final(index) == *old(index) + n,
            None => result == Err::<u32, DecodeError>(DecodeError::OutOfBounds)
                && *final(index) == *old(index),
        },
{
    let start: usize = *index;
    if start >= bytes.len() {
        return Err(DecodeError::OutOfBounds);
    }
    let mut i: usize = start;
    let mut count: u32 = 0;
    let mut shift: u32 = 0;
    let ghost mut acc: nat = 0;
    let ghost mut scale: nat = 1;
    proof {
        lemma_shift_values();
    }
    while i < bytes.len()
        invariant
            start <= i <= bytes.len(),
            *index == start,
            *old(index) == start,
            varint_len(bytes@, start as int) == match varint_len(bytes@, i as int) {
                Some(n) => Some(n + (i - start)),
                None => None::<int>,
            },
            varint_value(bytes@, start as int) == acc + scale * varint_value(bytes@, i as int),
            count as nat == acc % 0x1_0000_0000,
            shift == 0 || shift == 7 || shift == 14 || shift == 21 || shift == 28 || shift == 35,
            shift <= 28 ==> acc < scale && scale == (1u32 << shift),
            shift == 35 ==> scale % 0x1_0000_0000 == 0,
        decreases bytes.len() - i,
    {
        let b: u8 = bytes[i];
        let group: u32 = (b & 0x7f) as u32;
        let more: bool = b & 0x80 != 0;
        let ghost tail: nat = if more { varint_value(bytes@, i + 1) } else { 0 };
        proof {
            assert(b & 0x7f == if b >= 128 { (b - 128) as u8 } else { b }) by (bit_vector);
            assert((b & 0x80 != 0) == (b >= 128)) by (bit_vector);
            lemma_shift_values();
            assert(scale * (group + 128 * tail) == scale * group + (scale * 128) * tail)
                by (nonlinear_arith);
        }
        if shift < 28 {
            proof {
                lemma_low_groups(count, group, shift);
                assert(scale * group == group * (1u32 << shift)) by (nonlinear_arith)
                    requires
                        scale == (1u32 << shift),
                ;
            }
            count = count | (group << shift);
            shift = shift + 7;
        } else if shift == 28 {
            proof {
                lemma_top_group(count, group);
                assert(scale * group == group * 0x1000_0000) by (nonlinear_arith)
                    requires
                        scale == 0x1000_0000,
                ;
            }
            count = count | (group << 28u32);
            shift = 35;
        } else {
            proof {
                lemma_mod_absorbs(acc, scale, group as nat);
                lemma_mod_scales(scale);
            }
        }
        proof {
            acc = (acc + scale * group) as nat;
            scale = scale * 128;
            assert(shift == 35 ==> scale % 0x1_0000_0000 == 0) by {
                if shift == 35 {
                    lemma_mod_scales((scale / 128) as nat);
                }
            }
        }
        i = i + 1;
        if !more {
            *index = i;
            return Ok(count);
        }
    }
    Err(DecodeError::OutOfBounds)
}

proof fn lemma_mod_absorbs(acc: nat, scale: nat, group: nat)
    requires
        scale % 0x1_0000_0000 == 0,
    ensures
        (acc + scale * group) % 0x1_0000_0000 == acc % 0x1_0000_0000,
{
    let k = scale / 0x1_0000_0000;
    assert(scale * group == 0x1_0000_0000 * (k * group)) by (nonlinear_arith)
        requires
            scale == 0x1_0000_0000 * k,
    ;
    vstd::arithmetic::div_mod::lemma_mod_multiples_vanish((k * group) as int, acc as int, 0x1_0000_0000);
}

proof fn lemma_mod_scales(scale: nat)
    requires
        scale % 0x1_0000_0000 == 0 || scale == 0x1000_0000,
    ensures
        (scale * 128) % 0x1_0000_0000 == 0,
{
    if scale == 0x1000_0000 {
    } else {
        lemma_mod_absorbs(0, scale, 128);
    }
}

proof fn lemma_encoded_value(v: nat, before: Seq<u8>, after: Seq<u8>)
    ensures
        varint_len(before + encode_varint(v) + after, before.len() as int) == Some(
            encode_varint(v).len() as int,
        ),
        varint_value(before + encode_varint(v) + after, before.len() as int) == v,
    decreases v,
{
    let bytes = before + encode_varint(v) + after;
    if v >= 128 {
        let head = seq![(v % 128 + 128) as u8];
        let rest = encode_varint(v / 128);
        lemma_encoded_value(v / 128, before + head, after);
        assert(bytes =~= (before + head) + rest + after);
    }
}

/// An integer of 32 bits, written with `encode_varint` and placed anywhere in a
/// buffer, decodes to itself, and the decoder consumes exactly the bytes written.
pub proof fn lemma_varint_round_trip(v: u32, before: Seq<u8>, after: Seq<u8>)
    ensures
        varint_len(before + encode_varint(v as nat) + after, before.len() as int) == Some(
            encode_varint(v as nat).len() as int,
        ),
        varint_u32(before + encode_varint(v as nat) + after, before.len() as int) == v,
{
    lemma_encoded_value(v as nat, before, after);
}

} // verus!
