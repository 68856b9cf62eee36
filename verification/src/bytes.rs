//! Byte-level helpers shared by the cache tiers: slice comparison, FNV-1a
//! hashing and little-endian field access.

use vstd::prelude::*;

verus! {

/// FNV-1a 64-bit offset basis.
pub const FNV_OFFSET_BASIS: u64 = 0xcbf2_9ce4_8422_2325;

/// FNV-1a 64-bit prime.
pub const FNV_PRIME: u64 = 0x100_0000_01b3;

/// Compares two byte slices.
pub fn bytes_equal(left: &[u8], right: &[u8]) -> (equal: bool)
    ensures
        equal == (left@ == right@),
{
    if left.len() != right.len() {
        return false;
    }
    let mut index: usize = 0;
    while index < left.len()
        invariant
            left.len() == right.len(),
            index <= left.len(),
            forall|i: int| 0 <= i < index ==> left@[i] == right@[i],
        decreases left.len() - index,
    {
        if left[index] != right[index] {
            return false;
        }
        index = index + 1;
    }
    assert(left@ =~= right@);
    true
}

/// One FNV-1a step.
pub open spec fn fnv1a_step(hash: u64, byte: u8) -> u64 {
    (hash ^ (byte as u64)).wrapping_mul(FNV_PRIME)
}

/// FNV-1a over `bytes`, continuing from `hash`.
pub open spec fn fnv1a(hash: u64, bytes: Seq<u8>) -> u64
    decreases bytes.len(),
{
    if bytes.len() == 0 {
        hash
    } else {
        fnv1a_step(fnv1a(hash, bytes.drop_last()), bytes.last())
    }
}

/// Feeds `bytes` to an FNV-1a hash that stands at `hash`.
pub fn fnv1a_update(hash: u64, bytes: &[u8]) -> (updated: u64)
    ensures
        updated == fnv1a(hash, bytes@),
{
    let mut current: u64 = hash;
    let mut index: usize = 0;
    while index < bytes.len()
        invariant
            index <= bytes.len(),
            current == fnv1a(hash, bytes@.take(index as int)),
        decreases bytes.len() - index,
    {
        proof {
            assert(bytes@.take(index + 1).drop_last() =~= bytes@.take(index as int));
        }
        current = (current ^ (bytes[index] as u64)).wrapping_mul(FNV_PRIME);
        index = index + 1;
    }
    assert(bytes@.take(bytes.len() as int) =~= bytes@);
    current
}

/// Hashing a concatenation is hashing its parts one after the other.
pub proof fn lemma_fnv1a_concat(hash: u64, first: Seq<u8>, second: Seq<u8>)
    ensures
        fnv1a(hash, first + second) == fnv1a(fnv1a(hash, first), second),
    decreases second.len(),
{
    if second.len() == 0 {
        assert(first + second =~= first);
    } else {
        assert((first + second).drop_last() =~= first + second.drop_last());
        lemma_fnv1a_concat(hash, first, second.drop_last());
    }
}

/// The little-endian bytes of a 32-bit value.
pub open spec fn le_bytes_u32(value: u32) -> Seq<u8> {
    seq![
        (value & 0xff) as u8,
        ((value >> 8) & 0xff) as u8,
        ((value >> 16) & 0xff) as u8,
        ((value >> 24) & 0xff) as u8,
    ]
}

/// Writes out a 32-bit value in little-endian order.
pub fn u32_le_bytes(value: u32) -> (bytes: [u8; 4])
    ensures
        bytes@ == le_bytes_u32(value),
{
    let bytes = [
        (value & 0xff) as u8,
        ((value >> 8) & 0xff) as u8,
        ((value >> 16) & 0xff) as u8,
        ((value >> 24) & 0xff) as u8,
    ];
    assert(bytes@ =~= le_bytes_u32(value));
    bytes
}

/// Every byte is zero.
pub open spec fn all_zero(bytes: Seq<u8>) -> bool {
    forall|k: int| 0 <= k < bytes.len() ==> #[trigger] bytes[k] == 0
}

/// Whether every byte is zero.
pub fn is_all_zero(bytes: &[u8]) -> (zero: bool)
    ensures
        zero == all_zero(bytes@),
{
    let mut index: usize = 0;
    while index < bytes.len()
        invariant
            index <= bytes.len(),
            forall|k: int| 0 <= k < index ==> #[trigger] bytes@[k] == 0,
        decreases bytes.len() - index,
    {
        if bytes[index] != 0 {
            return false;
        }
        index = index + 1;
    }
    true
}

/// The 16-bit little-endian number at an offset.
pub open spec fn u16_at(bytes: Seq<u8>, offset: int) -> u16 {
    (bytes[offset] + 0x100 * bytes[offset + 1]) as u16
}

/// The 32-bit little-endian number at an offset.
pub open spec fn u32_at(bytes: Seq<u8>, offset: int) -> u32 {
    (bytes[offset] + 0x100 * bytes[offset + 1] + 0x1_0000 * bytes[offset + 2] + 0x100_0000 * bytes[offset + 3]) as u32
}

/// The 64-bit little-endian number at an offset.
pub open spec fn u64_at(bytes: Seq<u8>, offset: int) -> u64 {
    (u32_at(bytes, offset) + 0x1_0000_0000 * u32_at(bytes, offset + 4)) as u64
}

/// Reads a 16-bit little-endian number, if it is there.
pub fn read_u16(input: &[u8], offset: usize) -> (value: Option<u16>)
    ensures
        value == (if offset + 2 <= input@.len() {
            Some(u16_at(input@, offset as int))
        } else {
            None
        }),
{
    if input.len() < 2 || offset > input.len() - 2 {
        return None;
    }
    Some((input[offset] as u16) + 0x100 * (input[offset + 1] as u16))
}

/// Reads a 32-bit little-endian number, if it is there.
pub fn read_u32(input: &[u8], offset: usize) -> (value: Option<u32>)
    ensures
        value == (if offset + 4 <= input@.len() {
            Some(u32_at(input@, offset as int))
        } else {
            None
        }),
{
    if input.len() < 4 || offset > input.len() - 4 {
        return None;
    }
    Some(
        (input[offset] as u32) + 0x100 * (input[offset + 1] as u32) + 0x1_0000 * (input[offset + 2] as u32) + 0x100_0000 * (
        input[offset + 3] as u32),
    )
}

/// Reads a 64-bit little-endian number, if it is there.
pub fn read_u64(input: &[u8], offset: usize) -> (value: Option<u64>)
    ensures
        value == (if offset + 8 <= input@.len() {
            Some(u64_at(input@, offset as int))
        } else {
            None
        }),
{
    if input.len() < 8 || offset > input.len() - 8 {
        return None;
    }
    let low = (input[offset] as u32) + 0x100 * (input[offset + 1] as u32) + 0x1_0000 * (input[offset + 2] as u32) + 0x100_0000 * (
    input[offset + 3] as u32);
    let high = (input[offset + 4] as u32) + 0x100 * (input[offset + 5] as u32) + 0x1_0000 * (input[offset + 6] as u32)
        + 0x100_0000 * (input[offset + 7] as u32);
    Some((low as u64) + 0x1_0000_0000 * (high as u64))
}

/// All bytes but those in `[offset, offset + length)` are the same.
pub open spec fn same_outside(before: Seq<u8>, after: Seq<u8>, offset: int, length: int) -> bool {
    &&& after.len() == before.len()
    &&& forall|k: int| 0 <= k < before.len() && !(offset <= k < offset + length) ==> #[trigger] after[k] == before[k]
}

/// Writes a 16-bit number in little-endian order.
pub fn write_u16(output: &mut Vec<u8>, offset: usize, value: u16)
    requires
        offset + 2 <= old(output).len(),
    ensures
        same_outside(old(output)@, final(output)@, offset as int, 2),
        u16_at(final(output)@, offset as int) == value,
{
    output.set(offset, (value % 0x100) as u8);
    output.set(offset + 1, (value / 0x100) as u8);
}

/// Writes a 32-bit number in little-endian order.
pub fn write_u32(output: &mut Vec<u8>, offset: usize, value: u32)
    requires
        offset + 4 <= old(output).len(),
    ensures
        same_outside(old(output)@, final(output)@, offset as int, 4),
        u32_at(final(output)@, offset as int) == value,
{
    output.set(offset, (value % 0x100) as u8);
    output.set(offset + 1, (value / 0x100 % 0x100) as u8);
    output.set(offset + 2, (value / 0x1_0000 % 0x100) as u8);
    output.set(offset + 3, (value / 0x100_0000) as u8);
}

/// Writes a 64-bit number in little-endian order.
pub fn write_u64(output: &mut Vec<u8>, offset: usize, value: u64)
    requires
        offset + 8 <= old(output).len(),
    ensures
        same_outside(old(output)@, final(output)@, offset as int, 8),
        u64_at(final(output)@, offset as int) == value,
{
    write_u32(output, offset, (value % 0x1_0000_0000) as u32);
    write_u32(output, offset + 4, (value / 0x1_0000_0000) as u32);
}

/// The bytes with the four from `offset` on replaced by zeroes.
pub open spec fn zeroed_at(bytes: Seq<u8>, offset: int) -> Seq<u8> {
    bytes.take(offset) + seq![0u8, 0u8, 0u8, 0u8] + bytes.skip(offset + 4)
}

/// A hash takes in its bytes one at a time: each is mixed into the low bits, and
/// the whole is multiplied by the prime modulo 2^64. Nothing hashed is the seed.
pub proof fn law_fnv1a_takes_in_bytes(hash: u64, bytes: Seq<u8>, byte: u8)
    ensures
        fnv1a(hash, Seq::empty()) == hash,
        fnv1a(hash, bytes.push(byte)) == ((fnv1a(hash, bytes) ^ (byte as u64)) as int * 0x100_0000_01b3) % 0x1_0000_0000_0000_0000,
{
    assert(bytes.push(byte).drop_last() =~= bytes);
}

/// Integers are read with their low byte first.
pub proof fn law_integers_are_little_endian(bytes: Seq<u8>, offset: int)
    ensures
        u16_at(bytes, offset) as int % 256 == bytes[offset],
        u16_at(bytes, offset) as int / 256 == bytes[offset + 1],
        u32_at(bytes, offset) as int % 65536 == u16_at(bytes, offset),
        u32_at(bytes, offset) as int / 65536 == u16_at(bytes, offset + 2),
        u64_at(bytes, offset) as int % 0x1_0000_0000 == u32_at(bytes, offset),
        u64_at(bytes, offset) as int / 0x1_0000_0000 == u32_at(bytes, offset + 4),
{
}

/// Clearing a checksum field leaves every other byte as it is.
pub proof fn law_cleared_field(bytes: Seq<u8>, offset: int, k: int)
    requires
        0 <= offset,
        offset + 4 <= bytes.len(),
        0 <= k < bytes.len(),
    ensures
        zeroed_at(bytes, offset).len() == bytes.len(),
        offset <= k < offset + 4 ==> zeroed_at(bytes, offset)[k] == 0,
        !(offset <= k < offset + 4) ==> zeroed_at(bytes, offset)[k] == bytes[k],
{
}

/// The bytes are all zero exactly if none of them is anything else.
pub proof fn law_all_zero(bytes: Seq<u8>)
    ensures
        all_zero(bytes) <==> !(exists|k: int| 0 <= k < bytes.len() && #[trigger] bytes[k] != 0),
{
}

/// An integer's bytes read back as it.
pub proof fn law_written_integers_read_back(value: u32)
    ensures
        le_bytes_u32(value).len() == 4,
        u32_at(le_bytes_u32(value), 0) == value,
{
    assert((value & 0xff) < 256 && ((value >> 8) & 0xff) < 256 && ((value >> 16) & 0xff) < 256 && ((value >> 24) & 0xff) < 256) by (bit_vector);
    assert((value & 0xff) + 0x100 * ((value >> 8) & 0xff) + 0x1_0000 * ((value >> 16) & 0xff) + 0x100_0000 * ((value >> 24) & 0xff)
        == value) by (bit_vector);
}

} // verus!
