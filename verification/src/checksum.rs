//! CRC-32C (Castagnoli), as used by every on-disk structure.

use vstd::prelude::*;
use vstd::slice::slice_subrange;

use crate::bytes::{read_u32, same_outside, u32_at, write_u32, zeroed_at};

verus! {

/// The reflected Castagnoli polynomial.
pub const CRC32C_POLYNOMIAL: u32 = 0x82f6_3b78;

/// One bit of polynomial division.
pub open spec fn crc_shift(remainder: u32) -> u32 {
    if remainder & 1 == 1 {
        (remainder >> 1) ^ CRC32C_POLYNOMIAL
    } else {
        remainder >> 1
    }
}

/// `count` bits of polynomial division.
pub open spec fn crc_shifted(remainder: u32, count: nat) -> u32
    decreases count,
{
    if count == 0 {
        remainder
    } else {
        crc_shift(crc_shifted(remainder, (count - 1) as nat))
    }
}

/// The remainder after `bytes`, starting from `remainder`.
pub open spec fn crc_fed(remainder: u32, bytes: Seq<u8>) -> u32
    decreases bytes.len(),
{
    if bytes.len() == 0 {
        remainder
    } else {
        crc_shifted(crc_fed(remainder, bytes.drop_last()) ^ (bytes.last() as u32), 8)
    }
}

/// The CRC-32C of a byte string.
pub open spec fn crc32c_of(bytes: Seq<u8>) -> u32 {
    !crc_fed(0xffff_ffff, bytes)
}

/// Feeding a concatenation is feeding its parts one after the other.
pub proof fn lemma_crc_concat(remainder: u32, first: Seq<u8>, second: Seq<u8>)
    ensures
        crc_fed(remainder, first + second) == crc_fed(crc_fed(remainder, first), second),
    decreases second.len(),
{
    if second.len() == 0 {
        assert(first + second =~= first);
    } else {
        assert((first + second).drop_last() =~= first + second.drop_last());
        lemma_crc_concat(remainder, first, second.drop_last());
    }
}

/// A CRC-32C in progress.
#[derive(Clone, Copy)]
pub struct Crc32c {
    remainder: u32,
    fed: Ghost<Seq<u8>>,
}

impl Crc32c {
    /// The bytes fed so far.
    pub closed spec fn bytes(self) -> Seq<u8> {
        self.fed@
    }

    /// The remainder is that of the bytes.
    #[verifier::type_invariant]
    closed spec fn consistent(self) -> bool {
        self.remainder == crc_fed(0xffff_ffff, self.fed@)
    }

    /// A CRC that has seen nothing.
    pub fn new() -> (checksum: Crc32c)
        ensures
            checksum.bytes() == Seq::<u8>::empty(),
    {
        Crc32c { remainder: 0xffff_ffff, fed: Ghost(Seq::empty()) }
    }

    /// Feeds more bytes.
    pub fn update(&mut self, bytes: &[u8])
        ensures
            final(self).bytes() == old(self).bytes() + bytes@,
    {
        proof {
            use_type_invariant(&*self);
        }
        let start = self.remainder;
        let ghost before = self.fed@;
        let mut remainder: u32 = start;
        let mut index: usize = 0;
        while index < bytes.len()
            invariant
                index <= bytes.len(),
                remainder == crc_fed(start, bytes@.take(index as int)),
            decreases bytes.len() - index,
        {
            proof {
                assert(bytes@.take(index + 1).drop_last() =~= bytes@.take(index as int));
            }
            let ghost entry = remainder ^ (bytes[index as int] as u32);
            remainder = remainder ^ (bytes[index] as u32);
            let mut bit: usize = 0;
            while bit < 8
                invariant
                    bit <= 8,
                    remainder == crc_shifted(entry, bit as nat),
                decreases 8 - bit,
            {
                remainder = if remainder & 1 == 1 {
                    (remainder >> 1) ^ CRC32C_POLYNOMIAL
                } else {
                    remainder >> 1
                };
                bit = bit + 1;
            }
            index = index + 1;
        }
        proof {
            assert(bytes@.take(bytes.len() as int) =~= bytes@);
            lemma_crc_concat(0xffff_ffff, before, bytes@);
        }
        *self = Crc32c { remainder, fed: Ghost(before + bytes@) };
    }

    /// The CRC of the bytes fed so far.
    pub fn finish(self) -> (checksum: u32)
        ensures
            checksum == crc32c_of(self.bytes()),
    {
        proof {
            use_type_invariant(self);
        }
        !self.remainder
    }
}

/// The CRC-32C of a byte string.
pub fn crc32c(bytes: &[u8]) -> (checksum: u32)
    ensures
        checksum == crc32c_of(bytes@),
{
    let mut checksum = Crc32c::new();
    checksum.update(bytes);
    assert(Seq::<u8>::empty() + bytes@ =~= bytes@);
    checksum.finish()
}

/// The number stored at `offset` is the CRC of the bytes with that number
/// taken as zero.
pub open spec fn sealed(bytes: Seq<u8>, offset: int) -> bool {
    u32_at(bytes, offset) == crc32c_of(zeroed_at(bytes, offset))
}

/// The CRC of the bytes with the four from `offset` on taken as zero.
fn crc32c_zeroed(bytes: &[u8], offset: usize) -> (checksum: u32)
    requires
        offset + 4 <= bytes.len(),
    ensures
        checksum == crc32c_of(zeroed_at(bytes@, offset as int)),
{
    let zeroes: [u8; 4] = [0u8, 0u8, 0u8, 0u8];
    let mut checksum = Crc32c::new();
    checksum.update(slice_subrange(bytes, 0, offset));
    checksum.update(zeroes.as_slice());
    checksum.update(slice_subrange(bytes, offset + 4, bytes.len()));
    proof {
        assert(zeroes@ =~= seq![0u8, 0u8, 0u8, 0u8]);
        assert(bytes@.subrange(0, offset as int) =~= bytes@.take(offset as int));
        assert(bytes@.subrange(offset + 4, bytes@.len() as int) =~= bytes@.skip(offset + 4));
        assert(checksum.bytes() =~= zeroed_at(bytes@, offset as int));
    }
    checksum.finish()
}

/// Whether the bytes carry their own CRC at `checksum_offset`.
pub fn checksum_matches(input: &[u8], checksum_offset: usize) -> (matches: bool)
    ensures
        matches == (checksum_offset + 4 <= input@.len() && sealed(input@, checksum_offset as int)),
{
    match read_u32(input, checksum_offset) {
        Some(stored) => crc32c_zeroed(input, checksum_offset) == stored,
        None => false,
    }
}

/// Whether the bytes of a range carry their own CRC at `checksum_offset`.
pub fn checksum_matches_range(input: &[u8], start: usize, end: usize, checksum_offset: usize) -> (matches: bool)
    ensures
        matches == ({
            &&& start <= checksum_offset
            &&& checksum_offset + 4 <= end
            &&& end <= input@.len()
            &&& sealed(input@.subrange(start as int, end as int), checksum_offset - start)
        }),
{
    if start > checksum_offset || end > input.len() || end < 4 || checksum_offset > end - 4 {
        return false;
    }
    checksum_matches(slice_subrange(input, start, end), checksum_offset - start)
}

/// Stores the bytes' own CRC at `offset`.
pub fn seal(bytes: &mut Vec<u8>, offset: usize)
    requires
        offset + 4 <= old(bytes).len(),
    ensures
        same_outside(old(bytes)@, final(bytes)@, offset as int, 4),
        sealed(final(bytes)@, offset as int),
{
    let ghost before = bytes@;
    let checksum = crc32c_zeroed(bytes.as_slice(), offset);
    write_u32(bytes, offset, checksum);
    assert(zeroed_at(bytes@, offset as int) =~= zeroed_at(before, offset as int));
}

/// A checksum takes in one more byte by eight divisions by the reflected
/// Castagnoli polynomial; that of no bytes is zero.
pub proof fn law_checksum_takes_in_bytes(bytes: Seq<u8>, byte: u8) -> (steps: Seq<u32>)
    ensures
        crc32c_of(Seq::empty()) == 0,
        steps.len() == 9,
        steps[0] == !crc32c_of(bytes) ^ (byte as u32),
        forall|k: int|
            0 <= k < 8 ==> #[trigger] steps[k + 1] == (steps[k] >> 1) ^ (if steps[k] % 2 == 1 {
                0x82f6_3b78u32
            } else {
                0u32
            }),
        crc32c_of(bytes.push(byte)) == !steps[8],
{
    assert(bytes.push(byte).drop_last() =~= bytes);
    assert(!0xffff_ffffu32 == 0u32) by (bit_vector);
    let fed = crc_fed(0xffff_ffff, bytes);
    assert(!(!fed) == fed) by (bit_vector);
    let steps = Seq::new(9, |k: int| crc_shifted(fed ^ (byte as u32), k as nat));
    reveal_with_fuel(crc_shifted, 2);
    assert forall|k: int| 0 <= k < 8 implies #[trigger] steps[k + 1] == (steps[k] >> 1) ^ (if steps[k] % 2 == 1 {
        0x82f6_3b78u32
    } else {
        0u32
    }) by {
        let before = steps[k];
        assert(steps[k + 1] == crc_shift(before));
        assert((before & 1 == 1) == (before % 2 == 1)) by (bit_vector);
        assert((before >> 1) ^ 0u32 == before >> 1) by (bit_vector);
    }
    steps
}

/// A page is sealed exactly if its checksum field holds the checksum of the page
/// with that field cleared.
pub proof fn law_seal(bytes: Seq<u8>, cleared: Seq<u8>, offset: int)
    requires
        0 <= offset,
        offset + 4 <= bytes.len(),
        cleared.len() == bytes.len(),
        forall|k: int| 0 <= k < bytes.len() ==> #[trigger] cleared[k] == (if offset <= k < offset + 4 { 0u8 } else { bytes[k] }),
    ensures
        sealed(bytes, offset) <==> crc32c_of(cleared) == bytes[offset] + 256 * bytes[offset + 1] + 65536 * bytes[offset + 2]
            + 16777216 * bytes[offset + 3],
{
    assert(zeroed_at(bytes, offset) =~= cleared);
}

} // verus!
