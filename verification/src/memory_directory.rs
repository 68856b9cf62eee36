//! Fixed-capacity L1 hash directory with compact heads and bounded cuckoo work.
//!
//! A bucket holds one control byte and one 32-bit head. Buckets come in groups
//! of eight, and an entry lives in one of the two groups of its hash. Under
//! which hash an entry was put is not stored: callers supply it again when
//! entries have to move.

use crate::containers::vec_try_reserve_exact;
use vstd::prelude::*;

verus! {

/// Buckets per group.
pub const GROUP_SIZE: usize = 8;

/// Displacements tried along a single chain before the wider search.
pub const MAX_FAST_KICKS: usize = 8;

/// Groups that the wider search may visit.
pub const MAX_CUCKOO_GROUPS: usize = 32;

/// Control byte of a vacant bucket.
pub const EMPTY: u8 = 0xff;

/// Entries per eight buckets at full load.
pub const LOAD_NUMERATOR: usize = 7;

/// Buckets per seven entries at full load.
pub const LOAD_DENOMINATOR: usize = 8;

const BYTE_ONES: u64 = 0x0101_0101_0101_0101;

const BYTE_HIGHS: u64 = 0x8080_8080_8080_8080;

// ---------------------------------------------------------------------------
// Hash geometry
// ---------------------------------------------------------------------------

/// The control byte of an occupied bucket: the hash's top seven bits.
pub open spec fn tag_of(hash: u64) -> u8 {
    (hash >> 57) as u8
}

/// The tag of a hash.
pub fn hash_tag(hash: u64) -> (tag: u8)
    ensures
        tag == tag_of(hash),
        tag < EMPTY,
{
    assert((hash >> 57) < 128) by (bit_vector);
    (hash >> 57) as u8
}

proof fn lemma_tag(hash: u64)
    ensures
        tag_of(hash) < EMPTY,
{
    assert((hash >> 57) < 128) by (bit_vector);
}

/// The hash with its bits spread for the second group.
pub open spec fn folded_hash(hash: u64) -> u64 {
    (hash ^ ((hash << 23) | (hash >> 41)) ^ (hash >> 29)).wrapping_mul(0x9e37_79b9_7f4a_7c15)
}

/// The two groups that an entry of this hash may live in, out of `mask + 1`.
pub open spec fn groups_of(hash: u64, mask: u64) -> (u64, u64) {
    let primary = hash & mask;
    let spread = folded_hash(hash) & mask;
    if mask == 0 {
        (primary, primary)
    } else if spread == primary {
        (primary, ((spread + 1) as u64) & mask)
    } else {
        (primary, spread)
    }
}

/// `group` is one of the two groups of the hash.
pub open spec fn lives_in(hash: u64, mask: u64, group: int) -> bool {
    group == groups_of(hash, mask).0 || group == groups_of(hash, mask).1
}

/// The group that an entry of this hash moves to from `group`.
pub open spec fn other_group(hash: u64, mask: u64, group: int) -> int {
    if group == groups_of(hash, mask).0 {
        groups_of(hash, mask).1 as int
    } else {
        groups_of(hash, mask).0 as int
    }
}

/// `mask` is one less than a power of two.
pub open spec fn is_mask(mask: u64) -> bool {
    mask < u64::MAX && mask & ((mask + 1) as u64) == 0
}

/// The groups of a hash are in range, and differ if there is more than one.
pub proof fn lemma_groups(hash: u64, mask: u64)
    requires
        is_mask(mask),
    ensures
        groups_of(hash, mask).0 <= mask,
        groups_of(hash, mask).1 <= mask,
        mask > 0 ==> groups_of(hash, mask).0 != groups_of(hash, mask).1,
{
    let primary = hash & mask;
    let spread = folded_hash(hash) & mask;
    let folded = folded_hash(hash);
    assert(hash & mask <= mask) by (bit_vector);
    assert(folded & mask <= mask) by (bit_vector);
    let next = (spread + 1) as u64;
    assert(next & mask <= mask) by (bit_vector);
    assert(mask > 0 && mask < 0xffff_ffff_ffff_ffff && spread <= mask && mask & ((mask + 1) as u64) == 0 ==> ((spread + 1) as u64) & mask
        != spread) by (bit_vector);
}

/// The two groups of a hash.
pub fn hash_groups(hash: u64, group_mask: u64) -> (groups: (u64, u64))
    requires
        is_mask(group_mask),
    ensures
        groups == groups_of(hash, group_mask),
{
    let primary: u64 = hash & group_mask;
    if group_mask == 0 {
        return (primary, primary);
    }
    let folded: u64 = hash ^ ((hash << 23) | (hash >> 41)) ^ (hash >> 29);
    let mut secondary: u64 = folded.wrapping_mul(0x9e37_79b9_7f4a_7c15) & group_mask;
    proof {
        let spread = secondary;
        assert(folded_hash(hash) == folded.wrapping_mul(0x9e37_79b9_7f4a_7c15));
        let wide = folded_hash(hash);
        assert(wide & group_mask <= group_mask) by (bit_vector);
    }
    if secondary == primary {
        secondary = (secondary + 1) & group_mask;
    }
    (primary, secondary)
}

/// The bucket of a group that a displacement starts with.
pub open spec fn offset_of(hash: u64, kick: u64) -> usize {
    (((hash >> 7).wrapping_add(kick.wrapping_mul(5))) & 7) as usize
}

/// The bucket of a group that a displacement starts with.
pub fn victim_offset(hash: u64, kick: u64) -> (offset: usize)
    ensures
        offset == offset_of(hash, kick),
        offset < GROUP_SIZE,
{
    let mixed: u64 = (hash >> 7).wrapping_add(kick.wrapping_mul(5));
    assert(mixed & 7 < 8) by (bit_vector);
    (mixed & 7) as usize
}

// ---------------------------------------------------------------------------
// Control words
// ---------------------------------------------------------------------------

/// Byte `position` of a word, counted from the low end.
pub open spec fn byte_at(word: u64, position: int) -> u8 {
    ((word >> ((8 * position) as u64)) & 0xff) as u8
}

/// The high bit of byte `position`.
pub open spec fn marked(word: u64, position: int) -> bool {
    (word >> ((8 * position + 7) as u64)) & 1 == 1
}

/// Packs the control bytes of a group into a word, the first one lowest.
fn control_word(controls: &Vec<u8>, start: usize) -> (word: u64)
    requires
        start + GROUP_SIZE <= controls.len(),
    ensures
        forall|i: int| 0 <= i < GROUP_SIZE ==> #[trigger] byte_at(word, i) == controls@[start + i],
{
    let c0: u64 = controls[start] as u64;
    let c1: u64 = controls[start + 1] as u64;
    let c2: u64 = controls[start + 2] as u64;
    let c3: u64 = controls[start + 3] as u64;
    let c4: u64 = controls[start + 4] as u64;
    let c5: u64 = controls[start + 5] as u64;
    let c6: u64 = controls[start + 6] as u64;
    let c7: u64 = controls[start + 7] as u64;
    let word: u64 = c0 | (c1 << 8) | (c2 << 16) | (c3 << 24) | (c4 << 32) | (c5 << 40) | (c6 << 48) | (c7 << 56);
    proof {
        assert((word >> 0) & 0xff == c0 && (word >> 8) & 0xff == c1 && (word >> 16) & 0xff == c2 && (word >> 24) & 0xff == c3
            && (word >> 32) & 0xff == c4 && (word >> 40) & 0xff == c5 && (word >> 48) & 0xff == c6 && (word >> 56) & 0xff == c7)
            by (bit_vector)
            requires
                c0 < 256,
                c1 < 256,
                c2 < 256,
                c3 < 256,
                c4 < 256,
                c5 < 256,
                c6 < 256,
                c7 < 256,
                word == c0 | (c1 << 8) | (c2 << 16) | (c3 << 24) | (c4 << 32) | (c5 << 40) | (c6 << 48) | (c7 << 56),
        ;
        assert forall|i: int| 0 <= i < GROUP_SIZE implies #[trigger] byte_at(word, i) == controls@[start + i] by {
            assert(i == 0 || i == 1 || i == 2 || i == 3 || i == 4 || i == 5 || i == 6 || i == 7);
        }
    }
    word
}

/// Marks the high bit of every byte that equals `byte`. Bytes above a match may
/// be marked too, so a mark has to be checked.
fn matching_bytes(controls: u64, byte: u8) -> (matches: u64)
    ensures
        forall|i: int| 0 <= i < GROUP_SIZE && byte_at(controls, i) == byte ==> #[trigger] marked(matches, i),
        matches & !BYTE_HIGHS == 0,
{
    let wide: u64 = byte as u64;
    assert(wide * 0x0101_0101_0101_0101 <= u64::MAX);
    let difference: u64 = controls ^ (wide * BYTE_ONES);
    let borrowed: u64 = difference.wrapping_sub(BYTE_ONES);
    let matches: u64 = borrowed & !difference & BYTE_HIGHS;
    proof {
        assert((difference >= 0x0101_0101_0101_0101 ==> ((difference + 0xfefe_fefe_fefe_feff) as u64) == difference - 0x0101_0101_0101_0101)
            && (difference < 0x0101_0101_0101_0101 ==> ((difference + 0xfefe_fefe_fefe_feff) as u64) == difference
            + 0xfefe_fefe_fefe_feff)) by (bit_vector);
        assert(borrowed == (difference + 0xfefe_fefe_fefe_feff) as u64);
        assert(matches & !0x8080_8080_8080_8080u64 == 0 && ((controls >> 0) & 0xff == wide ==> (matches >> 7) & 1 == 1) && ((controls >> 8)
            & 0xff == wide ==> (matches >> 15) & 1 == 1) && ((controls >> 16) & 0xff == wide ==> (matches >> 23) & 1 == 1) && ((controls
            >> 24) & 0xff == wide ==> (matches >> 31) & 1 == 1) && ((controls >> 32) & 0xff == wide ==> (matches >> 39) & 1 == 1) && ((
        controls >> 40) & 0xff == wide ==> (matches >> 47) & 1 == 1) && ((controls >> 48) & 0xff == wide ==> (matches >> 55) & 1 == 1) && ((
        controls >> 56) & 0xff == wide ==> (matches >> 63) & 1 == 1)) by (bit_vector)
            requires
                wide < 256,
                difference == controls ^ ((wide * 0x0101_0101_0101_0101) as u64),
                borrowed == (difference + 0xfefe_fefe_fefe_feff) as u64,
                matches == borrowed & !difference & 0x8080_8080_8080_8080,
        ;
        assert forall|i: int| 0 <= i < GROUP_SIZE && byte_at(controls, i) == byte implies #[trigger] marked(matches, i) by {
            assert(i == 0 || i == 1 || i == 2 || i == 3 || i == 4 || i == 5 || i == 6 || i == 7);
            assert((controls >> ((8 * i) as u64)) & 0xff < 256) by {
                let shift = (8 * i) as u64;
                let shifted = controls >> shift;
                assert(shifted & 0xff < 256) by (bit_vector);
            }
        }
    }
    matches
}

/// Clearing the lowest set bit keeps every other mark.
proof fn lemma_clear_lowest(matches: u64, position: int)
    requires
        matches != 0,
        matches & !BYTE_HIGHS == 0,
    ensures
        ({
            let zeros = vstd::std_specs::bits::u64_trailing_zeros(matches);
            let lowest = zeros as int / 8;
            let cleared = matches & ((matches - 1) as u64);
            &&& 0 <= lowest < GROUP_SIZE
            &&& cleared < matches
            &&& cleared & !BYTE_HIGHS == 0
            &&& 0 <= position < GROUP_SIZE && position != lowest && marked(matches, position) ==> marked(cleared, position)
        }),
{
    vstd::std_specs::bits::axiom_u64_trailing_zeros(matches);
    let zeros = vstd::std_specs::bits::u64_trailing_zeros(matches) as u64;
    let cleared = matches & ((matches - 1) as u64);
    assert(matches != 0 ==> (matches & ((matches - 1) as u64)) < matches) by (bit_vector);
    assert(matches & !0x8080_8080_8080_8080u64 == 0 && matches != 0 ==> (matches & ((matches - 1) as u64)) & !0x8080_8080_8080_8080u64 == 0)
        by (bit_vector);
    assert(zeros % 8 == 7) by (bit_vector)
        requires
            zeros < 64,
            (matches >> zeros) & 1 == 1,
            matches & !0x8080_8080_8080_8080u64 == 0,
    ;
    if 0 <= position < GROUP_SIZE && position != zeros as int / 8 && marked(matches, position) {
        let bit = (8 * position + 7) as u64;
        assert(bit != zeros);
        if bit < zeros {
            assert((matches >> bit) & 1 == 0);
        }
        assert((cleared >> bit) & 1 == 1) by (bit_vector)
            requires
                zeros < 64,
                bit < 64,
                zeros < bit,
                (matches >> zeros) & 1 == 1,
                (matches >> bit) & 1 == 1,
                cleared == matches & ((matches - 1) as u64),
        ;
    }
}

// ---------------------------------------------------------------------------
// Model
// ---------------------------------------------------------------------------

/// What a bucket holds: the hash an entry was put under, and its head.
pub type Bucket = Option<(u64, u32)>;

/// How many buckets hold this head under this hash.
pub open spec fn occurrences(buckets: Seq<Bucket>, hash: u64, head: u32) -> nat
    decreases buckets.len(),
{
    if buckets.len() == 0 {
        0
    } else {
        occurrences(buckets.drop_last(), hash, head) + if buckets.last() == Some((hash, head)) { 1nat } else { 0nat }
    }
}

/// How many buckets are occupied.
pub open spec fn occupied(buckets: Seq<Bucket>) -> nat
    decreases buckets.len(),
{
    if buckets.len() == 0 {
        0
    } else {
        occupied(buckets.drop_last()) + if buckets.last() is Some { 1nat } else { 0nat }
    }
}

proof fn lemma_occurrences_update(buckets: Seq<Bucket>, index: int, bucket: Bucket, hash: u64, head: u32)
    requires
        0 <= index < buckets.len(),
    ensures
        occurrences(buckets.update(index, bucket), hash, head) == occurrences(buckets, hash, head) - (if buckets[index] == Some(
            (hash, head),
        ) { 1int } else { 0int }) + (if bucket == Some((hash, head)) { 1int } else { 0int }),
    decreases buckets.len(),
{
    let updated = buckets.update(index, bucket);
    if index == buckets.len() - 1 {
        assert(updated.drop_last() =~= buckets.drop_last());
    } else {
        assert(updated.drop_last() =~= buckets.drop_last().update(index, bucket));
        lemma_occurrences_update(buckets.drop_last(), index, bucket, hash, head);
    }
}

proof fn lemma_occupied_update(buckets: Seq<Bucket>, index: int, bucket: Bucket)
    requires
        0 <= index < buckets.len(),
    ensures
        occupied(buckets.update(index, bucket)) == occupied(buckets) - (if buckets[index] is Some { 1int } else { 0int }) + (if bucket is Some {
            1int
        } else {
            0int
        }),
    decreases buckets.len(),
{
    let updated = buckets.update(index, bucket);
    if index == buckets.len() - 1 {
        assert(updated.drop_last() =~= buckets.drop_last());
    } else {
        assert(updated.drop_last() =~= buckets.drop_last().update(index, bucket));
        lemma_occupied_update(buckets.drop_last(), index, bucket);
    }
}

proof fn lemma_occurrences_positive(buckets: Seq<Bucket>, index: int)
    requires
        0 <= index < buckets.len(),
        buckets[index] is Some,
    ensures
        occurrences(buckets, (buckets[index]->0).0, (buckets[index]->0).1) > 0,
        occupied(buckets) > 0,
    decreases buckets.len(),
{
    if index < buckets.len() - 1 {
        lemma_occurrences_positive(buckets.drop_last(), index);
    }
}

proof fn lemma_occurrences_witness(buckets: Seq<Bucket>, hash: u64, head: u32) -> (index: int)
    requires
        occurrences(buckets, hash, head) > 0,
    ensures
        0 <= index < buckets.len(),
        buckets[index] == Some((hash, head)),
    decreases buckets.len(),
{
    if buckets.last() == Some((hash, head)) {
        buckets.len() - 1
    } else {
        lemma_occurrences_witness(buckets.drop_last(), hash, head)
    }
}

/// What the directory holds.
#[verifier::ext_equal]
pub struct DirectoryModel {
    pub buckets: Seq<Bucket>,
    pub maximum_entries: usize,
}

impl DirectoryModel {
    /// How many times the head is in the directory under the hash.
    pub open spec fn count(self, hash: u64, head: u32) -> nat {
        occurrences(self.buckets, hash, head)
    }

    /// How many entries there are.
    pub open spec fn len(self) -> nat {
        occupied(self.buckets)
    }

    /// One less than the number of groups.
    pub open spec fn mask(self) -> u64 {
        (self.buckets.len() / GROUP_SIZE as nat - 1) as u64
    }

    /// No bucket of the group is vacant.
    pub open spec fn group_full(self, group: int) -> bool {
        forall|b: int|
            group * GROUP_SIZE <= b < group * GROUP_SIZE + GROUP_SIZE ==> (#[trigger] self.buckets[b]) is Some
    }

    /// Every entry lives in one of the groups of its hash, and the directory
    /// is within its limit.
    pub open spec fn valid(self) -> bool {
        &&& self.buckets.len() > 0 ==> {
            &&& self.buckets.len() % GROUP_SIZE as nat == 0
            &&& self.buckets.len() <= usize::MAX
            &&& is_mask(self.mask())
        }
        &&& forall|b: int|
            0 <= b < self.buckets.len() && (#[trigger] self.buckets[b]) is Some ==> lives_in(
                (self.buckets[b]->0).0,
                self.mask(),
                b / GROUP_SIZE as int,
            )
        &&& self.len() <= self.maximum_entries
    }

    /// No displacement makes room for the hash: some set of full groups holds
    /// both groups of the hash and either cannot be left by displacing one of
    /// its entries or is as large as the search may grow.
    pub open spec fn saturated(self, hash: u64) -> bool {
        exists|groups: Seq<u64>| #[trigger] self.saturated_by(hash, groups)
    }

    /// `groups` is a set of full groups around the hash that the search cannot
    /// leave. Those behind the groups of the hash are the other groups of
    /// entries in groups before them.
    pub open spec fn saturated_by(self, hash: u64, groups: Seq<u64>) -> bool {
        &&& groups.no_duplicates()
        &&& groups.len() <= MAX_CUCKOO_GROUPS
        &&& forall|n: int| 2 <= n < groups.len() ==> #[trigger] self.reachable(groups, n)
        &&& groups.contains(groups_of(hash, self.mask()).0)
        &&& groups.contains(groups_of(hash, self.mask()).1)
        &&& forall|k: int| 0 <= k < groups.len() ==> (#[trigger] groups[k]) <= self.mask() && self.group_full(groups[k] as int)
        &&& groups.len() == MAX_CUCKOO_GROUPS || forall|k: int|
            0 <= k < groups.len() ==> #[trigger] self.displacements_stay(groups[k], groups)
    }

    /// The group at position `node` is the other group of an entry in an earlier
    /// one.
    pub open spec fn reachable(self, groups: Seq<u64>, node: int) -> bool {
        exists|bucket: int| #[trigger] self.leads_to(groups, node, bucket)
    }

    /// The entry of a bucket in an earlier group has the group at position
    /// `node` for its other group.
    pub open spec fn leads_to(self, groups: Seq<u64>, node: int, bucket: int) -> bool {
        &&& 0 <= bucket < self.buckets.len()
        &&& self.buckets[bucket] is Some
        &&& exists|parent: int| 0 <= parent < node && (#[trigger] groups[parent]) == bucket / GROUP_SIZE as int
        &&& groups[node] == other_group((self.buckets[bucket]->0).0, self.mask(), bucket / GROUP_SIZE as int)
    }

    /// Every entry of `group` has both its groups among `groups`.
    pub open spec fn displacements_stay(self, group: u64, groups: Seq<u64>) -> bool {
        forall|b: int|
            group * GROUP_SIZE <= b < group * GROUP_SIZE + GROUP_SIZE ==> self.entry_stays(b, groups)
    }

    /// The entry of a bucket has both its groups among `groups`.
    pub open spec fn entry_stays(self, bucket: int, groups: Seq<u64>) -> bool {
        let hash = (self.buckets[bucket]->0).0;
        groups.contains(groups_of(hash, self.mask()).0) && groups.contains(groups_of(hash, self.mask()).1)
    }
}

/// Why a directory could not be made.
#[derive(Clone, Copy, Debug, PartialEq, Eq, Structural)]
pub enum DirectoryError {
    TooLarge,
    ControlsAllocation,
    HeadsAllocation,
}

impl DirectoryError {
    /// What went wrong, in words.
    pub fn message(&self) -> (message: &'static str)
        ensures
            message@ == (match *self {
                DirectoryError::TooLarge => "L1 directory is too large"@,
                DirectoryError::ControlsAllocation => "cannot allocate L1 directory controls"@,
                DirectoryError::HeadsAllocation => "cannot allocate L1 directory heads"@,
            }),
    {
        match self {
            DirectoryError::TooLarge => "L1 directory is too large",
            DirectoryError::ControlsAllocation => "cannot allocate L1 directory controls",
            DirectoryError::HeadsAllocation => "cannot allocate L1 directory heads",
        }
    }
}

/// What became of an upsert.
#[derive(Clone, Copy, Debug, PartialEq, Eq, Structural)]
pub enum DirectoryUpsert {
    Inserted,
    Replaced(u32),
    Full,
}

/// A displacement chain: the entry of each bucket moves to the next one, the
/// last to the vacant bucket.
struct CuckooPath {
    buckets: Vec<usize>,
    vacant: usize,
}

/// The directory.
pub struct MemoryDirectory {
    controls: Vec<u8>,
    heads: Vec<u32>,
    hashes: Ghost<Seq<u64>>,
    len: usize,
    maximum_entries: usize,
}

spec fn bucket_at(controls: Seq<u8>, heads: Seq<u32>, hashes: Seq<u64>, index: int) -> Bucket {
    if controls[index] == EMPTY {
        None
    } else {
        Some((hashes[index], heads[index]))
    }
}

impl View for MemoryDirectory {
    type V = DirectoryModel;

    closed spec fn view(&self) -> DirectoryModel {
        DirectoryModel {
            buckets: Seq::new(
                self.controls@.len(),
                |index: int| bucket_at(self.controls@, self.heads@, self.hashes@, index),
            ),
            maximum_entries: self.maximum_entries,
        }
    }
}

/// `bucket_count` buckets, a power of two of at least one group, are the
/// fewest that hold `entries` entries at seven eighths load.
pub open spec fn fits_load(bucket_count: int, entries: int) -> bool {
    &&& crate::memory_engine::power_of_two(bucket_count)
    &&& bucket_count >= GROUP_SIZE
    &&& bucket_count * 7 >= entries * 8
    &&& bucket_count == GROUP_SIZE || (bucket_count / 2) * 7 < entries * 8
}

/// No number of buckets that can be counted holds so many entries.
pub open spec fn too_many_entries(entries: int) -> bool {
    ||| entries * LOAD_DENOMINATOR + LOAD_NUMERATOR - 1 > usize::MAX
    ||| entries > 0 && forall|count: int| #[trigger] fits_load(count, entries) ==> count > usize::MAX
}

/// The number of buckets that holds so many entries; `None` if it cannot be
/// counted.
fn bucket_count_for(maximum_entries: usize) -> (buckets: Option<usize>)
    ensures
        match buckets {
            Some(count) => {
                &&& !too_many_entries(maximum_entries as int)
                &&& if maximum_entries == 0 {
                    count == 0
                } else {
                    fits_load(count as int, maximum_entries as int)
                }
                &&& count > 0 ==> count % GROUP_SIZE == 0 && is_mask((count / GROUP_SIZE - 1) as u64)
            },
            None => too_many_entries(maximum_entries as int),
        },
{
    if maximum_entries == 0 {
        return Some(0);
    }
    let scaled: usize = match maximum_entries.checked_mul(LOAD_DENOMINATOR) {
        Some(product) => match product.checked_add(LOAD_NUMERATOR - 1) {
            Some(sum) => sum,
            None => {
                return None;
            },
        },
        None => {
            return None;
        },
    };
    let minimum_buckets = scaled / LOAD_NUMERATOR;
    let mut bucket_count: usize = GROUP_SIZE;
    let ghost mut mask: u64 = 0;
    proof {
        reveal_with_fuel(crate::memory_engine::power_of_two, 4);
        assert(0u64 & 1u64 == 0) by (bit_vector);
    }
    while bucket_count < minimum_buckets
        invariant
            maximum_entries > 0,
            maximum_entries * LOAD_DENOMINATOR + LOAD_NUMERATOR - 1 <= usize::MAX,
            minimum_buckets == (maximum_entries * 8 + 6) / 7,
            crate::memory_engine::power_of_two(bucket_count as int),
            bucket_count >= GROUP_SIZE,
            bucket_count == GROUP_SIZE || (bucket_count / 2) * 7 < maximum_entries * 8,
            bucket_count == (mask + 1) * GROUP_SIZE,
            is_mask(mask),
            mask < 0x1fff_ffff_ffff_ffff,
        decreases usize::MAX - bucket_count,
    {
        if bucket_count > usize::MAX / 2 {
            proof {
                assert forall|count: int| #[trigger] fits_load(count, maximum_entries as int) implies count > usize::MAX by {
                    assert(count > bucket_count);
                    lemma_powers_apart(bucket_count as int, count);
                }
            }
            return None;
        }
        proof {
            let doubled = 2 * mask + 1;
            assert(mask < 0x1fff_ffff_ffff_ffff && mask & ((mask + 1) as u64) == 0 ==> ((2 * mask + 1) as u64) & ((2 * mask + 2) as u64) == 0)
                by (bit_vector);
            mask = doubled as u64;
            assert((2 * bucket_count) / 2 == bucket_count);
        }
        bucket_count = bucket_count * 2;
    }
    proof {
        assert(fits_load(bucket_count as int, maximum_entries as int));
        assert((bucket_count / GROUP_SIZE - 1) as u64 == mask);
    }
    Some(bucket_count)
}

impl MemoryDirectory {
    /// The directory's invariant.
    pub closed spec fn wf(&self) -> bool {
        &&& self.controls@.len() == self.heads@.len() == self.hashes@.len()
        &&& self@.valid()
        &&& self.len == self@.len()
        &&& forall|b: int|
            0 <= b < self.controls@.len() && (#[trigger] self.controls@[b]) != EMPTY ==> self.controls@[b] == tag_of(self.hashes@[b])
    }

    /// The directory's invariant implies what it promises of its contents.
    pub proof fn lemma_valid(&self)
        requires
            self.wf(),
        ensures
            self@.valid(),
    {
    }

    /// An empty directory for up to `maximum_entries` entries.
    pub open spec fn is_fresh(&self, maximum_entries: usize) -> bool {
        &&& self.wf()
        &&& self@.maximum_entries == maximum_entries
        &&& if maximum_entries == 0 {
            self@.buckets.len() == 0
        } else {
            fits_load(self@.buckets.len() as int, maximum_entries as int)
        }
        &&& forall|b: int| 0 <= b < self@.buckets.len() ==> (#[trigger] self@.buckets[b]) is None
        &&& self@.len() == 0
    }

    /// A directory for up to `maximum_entries` entries.
    pub fn new(maximum_entries: usize) -> (result: Result<MemoryDirectory, DirectoryError>)
        ensures
            match result {
                Ok(directory) => directory.is_fresh(maximum_entries),
                Err(DirectoryError::TooLarge) => true,
                Err(_) => maximum_entries > 0,
            },
            result == Err::<MemoryDirectory, DirectoryError>(DirectoryError::TooLarge) <==> too_many_entries(maximum_entries as int),
    {
        let bucket_count: usize = match bucket_count_for(maximum_entries) {
            Some(count) => count,
            None => {
                return Err(DirectoryError::TooLarge);
            },
        };
        let mut controls: Vec<u8> = Vec::new();
        if !vec_try_reserve_exact(&mut controls, bucket_count) {
            return Err(DirectoryError::ControlsAllocation);
        }
        let mut heads: Vec<u32> = Vec::new();
        if !vec_try_reserve_exact(&mut heads, bucket_count) {
            return Err(DirectoryError::HeadsAllocation);
        }
        MemoryDirectory::in_rooms(controls, heads, maximum_entries)
    }

    /// A directory for up to `maximum_entries` entries in two empty containers.
    pub fn in_rooms(controls: Vec<u8>, heads: Vec<u32>, maximum_entries: usize) -> (result: Result<MemoryDirectory, DirectoryError>)
        requires
            controls@.len() == 0,
            heads@.len() == 0,
        ensures
            match result {
                Ok(directory) => !too_many_entries(maximum_entries as int) && directory.is_fresh(maximum_entries),
                Err(error) => too_many_entries(maximum_entries as int) && error == DirectoryError::TooLarge,
            },
    {
        let bucket_count: usize = match bucket_count_for(maximum_entries) {
            Some(count) => count,
            None => {
                return Err(DirectoryError::TooLarge);
            },
        };
        let mut controls = controls;
        let mut heads = heads;
        controls.resize(bucket_count, EMPTY);
        heads.resize(bucket_count, 0);
        let directory = MemoryDirectory {
            controls,
            heads,
            hashes: Ghost(Seq::new(bucket_count as nat, |b: int| 0u64)),
            len: 0,
            maximum_entries,
        };
        proof {
            assert(directory@.buckets.len() == bucket_count);
            assert forall|b: int| 0 <= b < directory@.buckets.len() implies (#[trigger] directory@.buckets[b]) is None by {
                assert(directory.controls@[b] == EMPTY);
            }
            lemma_all_vacant(directory@.buckets);
        }
        Ok(directory)
    }
}

/// Of two powers of two the larger is at least twice the smaller.
proof fn lemma_powers_apart(small: int, large: int)
    requires
        crate::memory_engine::power_of_two(small),
        crate::memory_engine::power_of_two(large),
        small < large,
    ensures
        2 * small <= large,
    decreases small,
{
    if small > 1 {
        lemma_powers_apart(small / 2, large / 2);
    }
}

proof fn lemma_all_vacant(buckets: Seq<Bucket>)
    requires
        forall|b: int| 0 <= b < buckets.len() ==> (#[trigger] buckets[b]) is None,
    ensures
        occupied(buckets) == 0,
    decreases buckets.len(),
{
    if buckets.len() > 0 {
        assert(buckets[buckets.len() - 1] is None);
        assert forall|b: int| 0 <= b < buckets.drop_last().len() implies (#[trigger] buckets.drop_last()[b]) is None by {
            assert(buckets.drop_last()[b] == buckets[b]);
        }
        lemma_all_vacant(buckets.drop_last());
    }
}

// ---------------------------------------------------------------------------
// Lookup
// ---------------------------------------------------------------------------

impl DirectoryModel {
    /// A lookup by hash and key test may answer with this head: it is in the
    /// directory under a hash of the same tag and the test accepted it.
    pub open spec fn may_answer<F: Fn(u32) -> bool>(self, hash: u64, equal: F, stored_hash: u64, head: u32) -> bool {
        &&& self.count(stored_hash, head) > 0
        &&& tag_of(stored_hash) == tag_of(hash)
        &&& equal.ensures((head,), true)
    }

    /// A lookup may answer with this head.
    pub open spec fn answers<F: Fn(u32) -> bool>(self, hash: u64, equal: F, head: u32) -> bool {
        exists|stored_hash: u64| #[trigger] self.may_answer(hash, equal, stored_hash, head)
    }

    /// A lookup may answer with this head, and that entry is gone afterwards.
    pub open spec fn answers_and_loses<F: Fn(u32) -> bool>(self, hash: u64, equal: F, head: u32, after: DirectoryModel) -> bool {
        exists|stored_hash: u64| #[trigger]
            self.may_answer(hash, equal, stored_hash, head) && self.lost(stored_hash, head, after)
    }

    /// A lookup may answer with `previous`, and that entry has the new head
    /// afterwards.
    pub open spec fn answers_and_exchanges<F: Fn(u32) -> bool>(
        self,
        hash: u64,
        equal: F,
        previous: u32,
        head: u32,
        after: DirectoryModel,
    ) -> bool {
        exists|stored_hash: u64| #[trigger]
            self.may_answer(hash, equal, stored_hash, previous) && self.exchanged(stored_hash, previous, head, after)
    }

    /// One occurrence of the entry is gone and nothing else has changed.
    pub open spec fn lost(self, hash: u64, head: u32, after: DirectoryModel) -> bool {
        &&& after.len() == self.len() - 1
        &&& forall|h: u64, other: u32| #[trigger]
            after.count(h, other) == self.count(h, other) - (if h == hash && other == head { 1int } else { 0int })
    }

    /// One occurrence of the entry has come in and nothing else has changed.
    pub open spec fn gained(self, hash: u64, head: u32, after: DirectoryModel) -> bool {
        &&& after.len() == self.len() + 1
        &&& forall|h: u64, other: u32| #[trigger]
            after.count(h, other) == self.count(h, other) + (if h == hash && other == head { 1int } else { 0int })
    }

    /// One occurrence of `previous` under the hash has become `head`.
    pub open spec fn exchanged(self, hash: u64, previous: u32, head: u32, after: DirectoryModel) -> bool {
        &&& after.len() == self.len()
        &&& forall|h: u64, other: u32| #[trigger]
            after.count(h, other) == self.count(h, other) - (if h == hash && other == previous { 1int } else { 0int }) + (if h == hash
                && other == head { 1int } else { 0int })
    }

    /// The test has rejected every head that is in the directory under the
    /// hash.
    pub open spec fn all_rejected<F: Fn(u32) -> bool>(self, hash: u64, equal: F) -> bool {
        forall|head: u32| #[trigger] self.count(hash, head) > 0 ==> equal.ensures((head,), false)
    }
}

impl MemoryDirectory {
    /// One less than the number of groups.
    fn group_mask(&self) -> (mask: u64)
        requires
            self.wf(),
            self@.buckets.len() > 0,
        ensures
            mask == self@.mask(),
            (mask + 1) * GROUP_SIZE == self@.buckets.len(),
    {
        assert(self@.buckets.len() == self.controls@.len());
        (self.controls.len() / GROUP_SIZE - 1) as u64
    }

    /// Finds a bucket of the group whose tag matches and whose head passes.
    fn find_in_group<F: Fn(u32) -> bool>(&self, group: u64, hash: u64, equal: &F) -> (found: Option<usize>)
        requires
            self.wf(),
            self@.buckets.len() > 0,
            group <= self@.mask(),
            forall|head: u32| equal.requires((head,)),
        ensures
            match found {
                Some(bucket) => {
                    &&& group * GROUP_SIZE <= bucket < group * GROUP_SIZE + GROUP_SIZE
                    &&& self.controls@[bucket as int] == tag_of(hash)
                    &&& equal.ensures((self.heads@[bucket as int],), true)
                },
                None => forall|b: int|
                    group * GROUP_SIZE <= b < group * GROUP_SIZE + GROUP_SIZE && (#[trigger] self.controls@[b]) == tag_of(hash)
                        ==> equal.ensures((self.heads@[b],), false),
            },
    {
        assert(self@.buckets.len() == self.controls@.len());
        assert((group + 1) * GROUP_SIZE <= self.controls@.len());
        let start = group as usize * GROUP_SIZE;
        let controls = control_word(&self.controls, start);
        let tag = hash_tag(hash);
        let mut matches = matching_bytes(controls, tag);
        assert forall|i: int| 0 <= i < GROUP_SIZE && self.controls@[start + i] == tag implies #[trigger] marked(matches, i) by {
            assert(byte_at(controls, i) == self.controls@[start + i]);
        }
        while matches != 0
            invariant
                self.wf(),
                start == group * GROUP_SIZE,
                start + GROUP_SIZE <= self.controls.len(),
                self.controls@.len() == self.heads@.len(),
                tag == tag_of(hash),
                matches & !BYTE_HIGHS == 0,
                forall|head: u32| equal.requires((head,)),
                forall|i: int|
                    0 <= i < GROUP_SIZE && self.controls@[start + i] == tag ==> #[trigger] marked(matches, i) || equal.ensures(
                        (self.heads@[start + i],),
                        false,
                    ),
            decreases matches,
        {
            let ghost before = matches;
            proof {
                lemma_clear_lowest(matches, 0);
            }
            let byte = matches.trailing_zeros() as usize / 8;
            let bucket = start + byte;
            if self.controls[bucket] == tag && equal(self.heads[bucket]) {
                return Some(bucket);
            }
            matches = matches & (matches - 1);
            proof {
                assert forall|i: int| 0 <= i < GROUP_SIZE && self.controls@[start + i] == tag implies #[trigger] marked(matches, i)
                    || equal.ensures((self.heads@[start + i],), false) by {
                    lemma_clear_lowest(before, i);
                    assert(marked(before, i) || equal.ensures((self.heads@[start + i],), false));
                }
            }
        }
        proof {
            assert forall|b: int|
                group * GROUP_SIZE <= b < group * GROUP_SIZE + GROUP_SIZE && (#[trigger] self.controls@[b]) == tag_of(
                    hash,
                ) implies equal.ensures((self.heads@[b],), false) by {
                let i = b - start;
                let shift = (8 * i + 7) as u64;
                assert((0u64 >> shift) & 1 == 0) by (bit_vector);
                assert(!marked(matches, i));
            }
        }
        None
    }

    /// Finds the bucket of an entry by hash and key test.
    fn find_bucket<F: Fn(u32) -> bool>(&self, hash: u64, equal: &F) -> (found: Option<usize>)
        requires
            self.wf(),
            forall|head: u32| equal.requires((head,)),
        ensures
            match found {
                Some(bucket) => {
                    &&& bucket < self@.buckets.len()
                    &&& self@.buckets[bucket as int] is Some
                    &&& self@.buckets[bucket as int] == Some((self.hashes@[bucket as int], self.heads@[bucket as int]))
                    &&& self@.may_answer(hash, *equal, self.hashes@[bucket as int], self.heads@[bucket as int])
                },
                None => self@.all_rejected(hash, *equal),
            },
    {
        proof {
            lemma_tag(hash);
        }
        if self.controls.len() == 0 {
            assert(self@.buckets.len() == 0);
            return None;
        }
        assert(self@.buckets.len() == self.controls@.len());
        let mask = self.group_mask();
        let (primary, secondary) = hash_groups(hash, mask);
        proof {
            lemma_groups(hash, mask);
        }
        let mut found = self.find_in_group(primary, hash, equal);
        if found.is_none() && secondary != primary {
            found = self.find_in_group(secondary, hash, equal);
        }
        proof {
            match found {
                Some(bucket) => {
                    lemma_occurrences_positive(self@.buckets, bucket as int);
                },
                None => {
                    assert forall|head: u32| #[trigger] self@.count(hash, head) > 0 implies equal.ensures((head,), false) by {
                        let b = lemma_occurrences_witness(self@.buckets, hash, head);
                        assert(self@.buckets[b] == Some((hash, head)));
                        assert(lives_in(hash, mask, b / GROUP_SIZE as int));
                        assert(self.controls@[b] == tag_of(hash));
                    }
                },
            }
        }
        found
    }

    /// The head of an entry, by hash and key test.
    pub fn get<F: Fn(u32) -> bool>(&self, hash: u64, equal: F) -> (head: Option<u32>)
        requires
            self.wf(),
            forall|candidate: u32| equal.requires((candidate,)),
        ensures
            match head {
                Some(found) => self@.answers(hash, equal, found),
                None => self@.all_rejected(hash, equal),
            },
    {
        match self.find_bucket(hash, &equal) {
            Some(bucket) => {
                let head = self.heads[bucket];
                assert(self@.may_answer(hash, equal, self.hashes@[bucket as int], head));
                assert(self@.answers(hash, equal, head));
                Some(head)
            },
            None => None,
        }
    }

    /// Takes an entry out, by hash and key test.
    pub fn remove<F: Fn(u32) -> bool>(&mut self, hash: u64, equal: F) -> (head: Option<u32>)
        requires
            old(self).wf(),
            forall|candidate: u32| equal.requires((candidate,)),
        ensures
            final(self).wf(),
            final(self)@.maximum_entries == old(self)@.maximum_entries,
            final(self)@.buckets.len() == old(self)@.buckets.len(),
            match head {
                Some(removed) => old(self)@.answers_and_loses(hash, equal, removed, final(self)@),
                None => old(self)@.all_rejected(hash, equal) && final(self)@ == old(self)@,
            },
    {
        let bucket: usize = match self.find_bucket(hash, &equal) {
            Some(bucket) => bucket,
            None => {
                return None;
            },
        };
        let ghost before = self@;
        let ghost index = bucket as int;
        let ghost stored_hash = self.hashes@[index];
        let head = self.heads[bucket];
        proof {
            lemma_occupied_update(before.buckets, index, None);
            lemma_occurrences_positive(before.buckets, index);
        }
        self.controls[bucket] = EMPTY;
        self.len = self.len - 1;
        proof {
            assert(self@.buckets =~= before.buckets.update(index, None));
            assert forall|h: u64, other: u32| #[trigger]
                self@.count(h, other) == before.count(h, other) - (if h == stored_hash && other == head {
                    1int
                } else {
                    0int
                }) by {
                lemma_occurrences_update(before.buckets, index, None, h, other);
            }
            assert(before.lost(stored_hash, head, self@));
            assert(before.may_answer(hash, equal, stored_hash, head));
            assert(before.answers_and_loses(hash, equal, head, self@));
        }
        Some(head)
    }

    /// Bytes held by the buckets.
    pub fn allocation_bytes(&self) -> (bytes: usize)
        requires
            self.wf(),
        ensures
            bytes == if self@.buckets.len() * 5 > usize::MAX { usize::MAX as nat } else { self@.buckets.len() * 5 },
    {
        assert(self@.buckets.len() == self.controls@.len());
        let count = self.controls.len();
        if count > usize::MAX / 5 {
            usize::MAX
        } else {
            count * 5
        }
    }

    /// How many entries there are.
    pub fn len(&self) -> (len: usize)
        requires
            self.wf(),
        ensures
            len == self@.len(),
    {
        self.len
    }
}

// ---------------------------------------------------------------------------
// Displacement
// ---------------------------------------------------------------------------

/// Where the entry before position `index` of a chain goes.
pub open spec fn chain_slot(path: Seq<usize>, vacant: usize, index: int) -> usize {
    if index < path.len() {
        path[index]
    } else {
        vacant
    }
}

/// The entry at position `index` of a chain is there, and the next position is
/// in the other of its two groups.
pub open spec fn can_move(buckets: Seq<Bucket>, mask: u64, path: Seq<usize>, vacant: usize, index: int) -> bool {
    &&& path[index] < buckets.len()
    &&& buckets[path[index] as int] is Some
    &&& chain_slot(path, vacant, index + 1) as int / GROUP_SIZE as int == other_group(
        (buckets[path[index] as int]->0).0,
        mask,
        path[index] as int / GROUP_SIZE as int,
    )
}

/// A displacement chain that frees a bucket of the group `start`.
pub open spec fn is_chain(buckets: Seq<Bucket>, mask: u64, start: int, path: Seq<usize>, vacant: usize) -> bool {
    &&& vacant < buckets.len()
    &&& buckets[vacant as int] is None
    &&& path.no_duplicates()
    &&& forall|i: int| 0 <= i < path.len() ==> #[trigger] can_move(buckets, mask, path, vacant, i)
    &&& chain_slot(path, vacant, 0) as int / GROUP_SIZE as int == start
}

/// A displacement chain that frees a bucket for the hash.
pub open spec fn frees_bucket(buckets: Seq<Bucket>, mask: u64, hash: u64, path: Seq<usize>, vacant: usize) -> bool {
    exists|start: int| lives_in(hash, mask, start) && #[trigger] is_chain(buckets, mask, start, path, vacant)
}

/// The caller's hash function tells the hash that each entry was put under.
pub open spec fn hashes_truly<H: Fn(u32) -> u64>(buckets: Seq<Bucket>, hash_of: H) -> bool {
    forall|b: int, answer: u64|
        0 <= b < buckets.len() && buckets[b] is Some && #[trigger] hash_of.ensures(((buckets[b]->0).1,), answer) ==> answer
            == (buckets[b]->0).0
}

/// A group that the wider search has come to, and the displacements that lead
/// there.
pub struct SearchNode {
    pub group: u64,
    pub path: Seq<usize>,
}

/// The search has come to the group.
pub open spec fn has_come_to(nodes: Seq<SearchNode>, group: u64) -> bool {
    exists|n: int| 0 <= n < nodes.len() && (#[trigger] nodes[n]).group == group
}

impl DirectoryModel {
    /// The bucket is vacant and every earlier one of the group is not.
    pub open spec fn is_first_vacant(self, group: int, bucket: int) -> bool {
        &&& group * GROUP_SIZE <= bucket < group * GROUP_SIZE + GROUP_SIZE
        &&& self.buckets[bucket] is None
        &&& forall|b: int| group * GROUP_SIZE <= b < bucket ==> (#[trigger] self.buckets[b]) is Some
    }

    /// The first vacant bucket of a group that has one.
    pub open spec fn first_vacant(self, group: int) -> int {
        choose|bucket: int| self.is_first_vacant(group, bucket)
    }

    proof fn lemma_first_vacant(self, group: int, bucket: int)
        requires
            self.is_first_vacant(group, bucket),
        ensures
            self.first_vacant(group) == bucket,
    {
        let found = self.first_vacant(group);
        assert(self.is_first_vacant(group, found));
        if found < bucket {
            assert(self.buckets[found] is Some);
        } else if bucket < found {
            assert(self.buckets[bucket] is Some);
        }
    }

    /// Where a walk of displacements that has come through `groups` ends, if it
    /// does within so many kicks: the entry that `displaced` picks from the last
    /// group moves to its other group, into the first vacant bucket there or in
    /// place of the next entry. A walk that would return to a group fails.
    pub open spec fn fast_walk(self, displaced: u64, groups: Seq<u64>, path: Seq<usize>, kicks: nat) -> Option<(Seq<usize>, usize)>
        decreases kicks,
    {
        if kicks == 0 {
            None
        } else {
            let group = groups.last();
            let bucket = (group * GROUP_SIZE + offset_of(displaced, path.len() as u64)) as usize;
            let occupant = (self.buckets[bucket as int]->0).0;
            let next = other_group(occupant, self.mask(), group as int) as u64;
            if groups.contains(next) {
                None
            } else if !self.group_full(next as int) {
                Some((path.push(bucket), self.first_vacant(next as int) as usize))
            } else {
                self.fast_walk(occupant, groups.push(next), path.push(bucket), (kicks - 1) as nat)
            }
        }
    }

    /// The displacements that free a bucket for the hash, where no wider search
    /// is needed: none if one of its groups has a vacant bucket, else those of
    /// the walk from one of them.
    pub open spec fn prompt_path(self, hash: u64) -> Option<(Seq<usize>, usize)> {
        let both = groups_of(hash, self.mask());
        if !self.group_full(both.0 as int) {
            Some((Seq::empty(), self.first_vacant(both.0 as int) as usize))
        } else if !self.group_full(both.1 as int) {
            Some((Seq::empty(), self.first_vacant(both.1 as int) as usize))
        } else if both.0 == both.1 {
            None
        } else {
            let start = if hash & 1 == 1 {
                both.1
            } else {
                both.0
            };
            self.fast_walk(hash, seq![start], Seq::empty(), MAX_FAST_KICKS as nat)
        }
    }

    /// The groups that the search has come to once it has looked at the entries
    /// of the first `count` buckets of a group: the other group of each is added,
    /// unless it is there or the search may not grow.
    pub open spec fn with_neighbours(self, nodes: Seq<SearchNode>, node: SearchNode, count: nat) -> Seq<SearchNode>
        decreases count,
    {
        if count == 0 {
            nodes
        } else {
            let before = self.with_neighbours(nodes, node, (count - 1) as nat);
            let bucket = (node.group * GROUP_SIZE + count - 1) as usize;
            let occupant = (self.buckets[bucket as int]->0).0;
            let next = other_group(occupant, self.mask(), node.group as int) as u64;
            if has_come_to(before, next) || before.len() >= MAX_CUCKOO_GROUPS {
                before
            } else {
                before.push(SearchNode { group: next, path: node.path.push(bucket) })
            }
        }
    }

    /// What a search breadth first finds from the group at `cursor` on: the
    /// first group with a vacant bucket ends it.
    pub open spec fn wide_search(self, nodes: Seq<SearchNode>, cursor: nat) -> Option<(Seq<usize>, usize)>
        decreases MAX_CUCKOO_GROUPS - cursor,
    {
        if cursor >= nodes.len() || cursor >= MAX_CUCKOO_GROUPS {
            None
        } else if !self.group_full(nodes[cursor as int].group as int) {
            Some((nodes[cursor as int].path, self.first_vacant(nodes[cursor as int].group as int) as usize))
        } else {
            self.wide_search(self.with_neighbours(nodes, nodes[cursor as int], GROUP_SIZE as nat), cursor + 1)
        }
    }

    /// What a search breadth first from both groups of the hash finds.
    pub open spec fn wide_path(self, hash: u64) -> Option<(Seq<usize>, usize)> {
        let both = groups_of(hash, self.mask());
        self.wide_search(
            seq![
                SearchNode { group: both.0, path: Seq::empty() },
                SearchNode { group: both.1, path: Seq::empty() },
            ],
            0,
        )
    }

    /// The displacements that free a bucket for the hash, and the vacant bucket
    /// that they end in, as far as the bounded search finds them.
    pub open spec fn displacement(self, hash: u64) -> Option<(Seq<usize>, usize)> {
        let both = groups_of(hash, self.mask());
        if self.buckets.len() == 0 {
            None
        } else if self.prompt_path(hash) is Some || both.0 == both.1 {
            self.prompt_path(hash)
        } else {
            self.wide_path(hash)
        }
    }

    /// Some displacement chain frees a bucket for the hash.
    pub open spec fn has_room(self, hash: u64) -> bool {
        exists|path: Seq<usize>, vacant: usize| #[trigger] frees_bucket(self.buckets, self.mask(), hash, path, vacant)
    }
}

impl MemoryDirectory {
    /// The first vacant bucket of a group.
    fn empty_in_group(&self, group: u64) -> (vacant: Option<usize>)
        requires
            self.wf(),
            self@.buckets.len() > 0,
            group <= self@.mask(),
        ensures
            match vacant {
                Some(bucket) => {
                    &&& group * GROUP_SIZE <= bucket < group * GROUP_SIZE + GROUP_SIZE
                    &&& self@.buckets[bucket as int] is None
                    &&& bucket < self@.buckets.len()
                    &&& bucket as int / GROUP_SIZE as int == group
                    &&& self@.first_vacant(group as int) == bucket
                },
                None => self@.group_full(group as int),
            },
    {
        assert(self@.buckets.len() == self.controls@.len());
        assert((group + 1) * GROUP_SIZE <= self.controls@.len());
        let start = group as usize * GROUP_SIZE;
        let mut offset: usize = 0;
        while offset < GROUP_SIZE
            invariant
                self@.buckets.len() == self.controls@.len(),
                start == group * GROUP_SIZE,
                start + GROUP_SIZE <= self.controls.len(),
                offset <= GROUP_SIZE,
                forall|b: int| start <= b < start + offset ==> (#[trigger] self@.buckets[b]) is Some,
            decreases GROUP_SIZE - offset,
        {
            if self.controls[start + offset] == EMPTY {
                proof {
                    self@.lemma_first_vacant(group as int, start + offset);
                }
                return Some(start + offset);
            }
            assert(self@.buckets[start + offset] is Some);
            offset = offset + 1;
        }
        None
    }

    /// The other group of the entry in a bucket.
    fn next_group<H: Fn(u32) -> u64>(&self, bucket: usize, group: u64, hash_of: &H) -> (next: (u64, u64))
        requires
            self.wf(),
            self@.buckets.len() > 0,
            bucket < self@.buckets.len(),
            self@.buckets[bucket as int] is Some,
            bucket as int / GROUP_SIZE as int == group,
            forall|head: u32| hash_of.requires((head,)),
            hashes_truly(self@.buckets, *hash_of),
        ensures
            ({
                let hash = (self@.buckets[bucket as int]->0).0;
                let groups = groups_of(hash, self@.mask());
                &&& next.0 == hash
                &&& next.1 == if group == groups.0 { groups.1 } else { groups.0 }
                &&& next.1 == other_group(hash, self@.mask(), group as int)
                &&& next.1 <= self@.mask()
                &&& group == groups.0 || group == groups.1
            }),
    {
        assert(self@.buckets[bucket as int] == Some((self.hashes@[bucket as int], self.heads@[bucket as int])));
        let mask = self.group_mask();
        let head = self.heads[bucket];
        let occupant_hash = hash_of(head);
        assert((self@.buckets[bucket as int]->0).1 == head);
        assert(hash_of.ensures(((self@.buckets[bucket as int]->0).1,), occupant_hash));
        let (primary, secondary) = hash_groups(occupant_hash, mask);
        proof {
            lemma_groups(occupant_hash, mask);
            assert(lives_in(occupant_hash, mask, bucket as int / GROUP_SIZE as int));
        }
        (occupant_hash, if group == primary { secondary } else { primary })
    }

    /// Follows a single chain of displacements from `start`.
    fn find_fast_path<H: Fn(u32) -> u64>(&self, hash: u64, start: u64, hash_of: &H) -> (path: Option<CuckooPath>)
        requires
            self.wf(),
            self@.buckets.len() > 0,
            start <= self@.mask(),
            self@.group_full(start as int),
            forall|head: u32| hash_of.requires((head,)),
            hashes_truly(self@.buckets, *hash_of),
        ensures
            match self@.fast_walk(hash, seq![start], Seq::empty(), MAX_FAST_KICKS as nat) {
                Some(walk) => path matches Some(chain) && chain.buckets@ == walk.0 && chain.vacant == walk.1,
                None => path is None,
            },
            path matches Some(chain) ==> {
                &&& is_chain(self@.buckets, self@.mask(), start as int, chain.buckets@, chain.vacant)
                &&& chain.buckets@.len() <= MAX_FAST_KICKS
            },
    {
        let ghost whole = self@.fast_walk(hash, seq![start], Seq::empty(), MAX_FAST_KICKS as nat);
        let ghost buckets_model = self@.buckets;
        let ghost mask = self@.mask();
        let mut buckets: Vec<usize> = Vec::new();
        let mut visited: Vec<u64> = Vec::new();
        visited.push(start);
        let mut displaced_hash: u64 = hash;
        let mut current_group: u64 = start;
        let mut kick: usize = 0;
        proof {
            assert(visited@ =~= seq![start]);
            assert(buckets@ =~= Seq::<usize>::empty());
        }
        while kick < MAX_FAST_KICKS
            invariant
                whole == self@.fast_walk(hash, seq![start], Seq::empty(), MAX_FAST_KICKS as nat),
                whole == self@.fast_walk(displaced_hash, visited@, buckets@, (MAX_FAST_KICKS - kick) as nat),
                self.wf(),
                self@.buckets.len() > 0,
                buckets_model == self@.buckets,
                mask == self@.mask(),
                forall|head: u32| hash_of.requires((head,)),
                hashes_truly(self@.buckets, *hash_of),
                kick <= MAX_FAST_KICKS,
                buckets@.len() == kick,
                visited@.len() == kick + 1,
                visited@[0] == start,
                visited@[kick as int] == current_group,
                current_group <= mask,
                self@.group_full(current_group as int),
                visited@.no_duplicates(),
                forall|i: int| 0 <= i < kick ==> (#[trigger] buckets@[i]) < buckets_model.len() && buckets_model[buckets@[i] as int] is Some
                    && buckets@[i] as int / GROUP_SIZE as int == visited@[i] && visited@[i + 1] == other_group(
                    (buckets_model[buckets@[i] as int]->0).0,
                    mask,
                    visited@[i] as int,
                ),
            decreases MAX_FAST_KICKS - kick,
        {
            let offset = victim_offset(displaced_hash, kick as u64);
            proof {
                assert((current_group + 1) * GROUP_SIZE <= buckets_model.len()) by {
                    assert(buckets_model.len() == (mask + 1) * GROUP_SIZE);
                }
            }
            assert(self@.buckets.len() == self.controls.len());
            let occupied = current_group as usize * GROUP_SIZE + offset;
            assert(self@.buckets[occupied as int] is Some);
            let (occupant_hash, next_group) = self.next_group(occupied, current_group, hash_of);
            if contains_group(&visited, next_group) {
                return None;
            }
            buckets.push(occupied);
            if let Some(vacant) = self.empty_in_group(next_group) {
                proof {
                    assert(!self@.group_full(next_group as int)) by {
                        assert(self@.buckets[vacant as int] is None);
                    }
                    assert forall|i: int| 0 <= i < buckets@.len() implies #[trigger] can_move(buckets_model, mask, buckets@, vacant, i) by {
                        if i + 1 < buckets@.len() {
                            assert(buckets@[i + 1] as int / GROUP_SIZE as int == visited@[i + 1]);
                        }
                    }
                    assert(buckets@.no_duplicates()) by {
                        assert forall|i: int, j: int| 0 <= i < j < buckets@.len() implies buckets@[i] != buckets@[j] by {
                            assert(buckets@[i] as int / GROUP_SIZE as int == visited@[i]);
                            assert(buckets@[j] as int / GROUP_SIZE as int == visited@[j]);
                            assert(visited@[i] != visited@[j]);
                        }
                    }
                }
                return Some(CuckooPath { buckets, vacant });
            }
            visited.push(next_group);
            displaced_hash = occupant_hash;
            current_group = next_group;
            kick = kick + 1;
        }
        None
    }
}

fn contains_group(groups: &Vec<u64>, group: u64) -> (found: bool)
    ensures
        found == groups@.contains(group),
{
    let mut index: usize = 0;
    while index < groups.len()
        invariant
            index <= groups@.len(),
            forall|i: int| 0 <= i < index ==> groups@[i] != group,
        decreases groups@.len() - index,
    {
        if groups[index] == group {
            assert(groups@[index as int] == group);
            return true;
        }
        index = index + 1;
    }
    false
}

/// How the wider search reached each queued group: a bucket of an earlier
/// group whose entry has this one for its other group.
spec fn reached_from(
    buckets: Seq<Bucket>,
    mask: u64,
    groups: Seq<u64>,
    parent_nodes: Seq<usize>,
    parent_buckets: Seq<usize>,
    node: int,
) -> bool {
    let parent = parent_nodes[node] as int;
    let bucket = parent_buckets[node] as int;
    &&& 0 <= parent < node
    &&& bucket < buckets.len()
    &&& buckets[bucket] is Some
    &&& bucket / GROUP_SIZE as int == groups[parent]
    &&& groups[node] == other_group((buckets[bucket]->0).0, mask, groups[parent] as int)
}

/// What leads to a queued group is what leads to its predecessor, and the bucket
/// that was displaced there.
spec fn extends_path(nodes: Seq<SearchNode>, parent_nodes: Seq<usize>, parent_buckets: Seq<usize>, node: int) -> bool {
    nodes[node].path == nodes[parent_nodes[node] as int].path.push(parent_buckets[node])
}

/// The queue of the wider search: groups, and for each but the first two the
/// place of the group that it was reached from and the bucket to displace there.
struct WideSearch {
    groups: Vec<u64>,
    parent_nodes: Vec<usize>,
    parent_buckets: Vec<usize>,
    nodes: Ghost<Seq<SearchNode>>,
}

impl WideSearch {
    /// The search's invariant in a directory.
    spec fn wf(&self, model: DirectoryModel) -> bool {
        &&& 2 <= self.groups@.len() <= MAX_CUCKOO_GROUPS
        &&& self.groups@.no_duplicates()
        &&& self.groups@.len() == self.parent_nodes@.len() == self.parent_buckets@.len() == self.nodes@.len()
        &&& forall|n: int| 0 <= n < self.groups@.len() ==> (#[trigger] self.groups@[n]) <= model.mask()
        &&& forall|n: int| 2 <= n < self.groups@.len() ==> #[trigger] reached_from(
            model.buckets,
            model.mask(),
            self.groups@,
            self.parent_nodes@,
            self.parent_buckets@,
            n,
        )
        &&& forall|n: int| 0 <= n < self.nodes@.len() ==> (#[trigger] self.nodes@[n]).group == self.groups@[n]
        &&& forall|n: int| 0 <= n < 2 ==> (#[trigger] self.nodes@[n]).path == Seq::<usize>::empty()
        &&& forall|n: int| 2 <= n < self.nodes@.len() ==> #[trigger] extends_path(
            self.nodes@,
            self.parent_nodes@,
            self.parent_buckets@,
            n,
        )
    }

    /// The other groups of the entries in the first groups are queued, as far as
    /// the queue may grow.
    spec fn explored(&self, model: DirectoryModel, count: int) -> bool {
        self.groups@.len() == MAX_CUCKOO_GROUPS || forall|n: int|
            0 <= n < count ==> #[trigger] model.displacements_stay(self.groups@[n], self.groups@)
    }

    /// A search that has come to the two groups of a hash.
    fn new(primary: u64, secondary: u64, Ghost(model): Ghost<DirectoryModel>) -> (search: WideSearch)
        requires
            primary != secondary,
            primary <= model.mask(),
            secondary <= model.mask(),
        ensures
            search.wf(model),
            search.explored(model, 0),
            search.groups@ == seq![primary, secondary],
            search.nodes@ == seq![
                SearchNode { group: primary, path: Seq::empty() },
                SearchNode { group: secondary, path: Seq::empty() },
            ],
    {
        let mut groups: Vec<u64> = Vec::new();
        groups.push(primary);
        groups.push(secondary);
        let mut parent_nodes: Vec<usize> = Vec::new();
        parent_nodes.push(0);
        parent_nodes.push(0);
        let mut parent_buckets: Vec<usize> = Vec::new();
        parent_buckets.push(0);
        parent_buckets.push(0);
        let ghost nodes = seq![
            SearchNode { group: primary, path: Seq::<usize>::empty() },
            SearchNode { group: secondary, path: Seq::<usize>::empty() },
        ];
        assert(groups@ =~= seq![primary, secondary]);
        WideSearch { groups, parent_nodes, parent_buckets, nodes: Ghost(nodes) }
    }

    /// Queues the other group of the entry in a bucket of the group at `parent`.
    fn queue(&mut self, parent: usize, bucket: usize, group: u64, Ghost(model): Ghost<DirectoryModel>)
        requires
            old(self).wf(model),
            parent < old(self).groups@.len() < MAX_CUCKOO_GROUPS,
            !old(self).groups@.contains(group),
            group <= model.mask(),
            bucket < model.buckets.len(),
            model.buckets[bucket as int] is Some,
            bucket as int / GROUP_SIZE as int == old(self).groups@[parent as int],
            group == other_group(
                (model.buckets[bucket as int]->0).0,
                model.mask(),
                old(self).groups@[parent as int] as int,
            ),
        ensures
            final(self).wf(model),
            final(self).groups@ == old(self).groups@.push(group),
            final(self).nodes@ == old(self).nodes@.push(
                SearchNode { group, path: old(self).nodes@[parent as int].path.push(bucket) },
            ),
    {
        let ghost groups = self.groups@;
        let ghost nodes = self.nodes@;
        let ghost parent_nodes = self.parent_nodes@;
        let ghost parent_buckets = self.parent_buckets@;
        self.groups.push(group);
        self.parent_nodes.push(parent);
        self.parent_buckets.push(bucket);
        self.nodes = Ghost(nodes.push(SearchNode { group, path: nodes[parent as int].path.push(bucket) }));
        proof {
            assert forall|n: int| 2 <= n < self.groups@.len() implies #[trigger] reached_from(
                model.buckets,
                model.mask(),
                self.groups@,
                self.parent_nodes@,
                self.parent_buckets@,
                n,
            ) by {
                if n < groups.len() {
                    assert(reached_from(model.buckets, model.mask(), groups, parent_nodes, parent_buckets, n));
                }
            }
            assert forall|n: int| 2 <= n < self.nodes@.len() implies #[trigger] extends_path(
                self.nodes@,
                self.parent_nodes@,
                self.parent_buckets@,
                n,
            ) by {
                if n < nodes.len() {
                    assert(extends_path(nodes, parent_nodes, parent_buckets, n));
                    assert(reached_from(model.buckets, model.mask(), groups, parent_nodes, parent_buckets, n));
                }
            }
        }
    }
}

proof fn lemma_entry_stays_with_more(model: DirectoryModel, groups: Seq<u64>, group: u64, bucket: int)
    requires
        model.entry_stays(bucket, groups),
    ensures
        model.entry_stays(bucket, groups.push(group)),
{
    let both = groups_of((model.buckets[bucket]->0).0, model.mask());
    let more = groups.push(group);
    assert(more[groups.index_of(both.0)] == both.0);
    assert(more[groups.index_of(both.1)] == both.1);
}

/// More groups among which entries may be leave each where it was.
proof fn lemma_stays_with_more(model: DirectoryModel, groups: Seq<u64>, group: u64, count: int)
    requires
        count <= groups.len(),
        forall|n: int| 0 <= n < count ==> #[trigger] model.displacements_stay(groups[n], groups),
    ensures
        forall|n: int| 0 <= n < count ==> #[trigger] model.displacements_stay(groups.push(group)[n], groups.push(group)),
{
    let more = groups.push(group);
    assert forall|n: int| 0 <= n < count implies #[trigger] model.displacements_stay(more[n], more) by {
        assert(model.displacements_stay(groups[n], groups));
        assert forall|b: int| more[n] * GROUP_SIZE <= b < more[n] * GROUP_SIZE + GROUP_SIZE implies model.entry_stays(b, more) by {
            assert(model.entry_stays(b, groups));
            lemma_entry_stays_with_more(model, groups, group, b);
        }
    }
}

impl MemoryDirectory {
    /// Walks from a queued group back to where the search began and lists the
    /// displacements on the way.
    fn trace_path(
        &self,
        groups: &Vec<u64>,
        parent_nodes: &Vec<usize>,
        parent_buckets: &Vec<usize>,
        node: usize,
        vacant: usize,
        roots: usize,
        Ghost(nodes): Ghost<Seq<SearchNode>>,
    ) -> (traced: (CuckooPath, usize))
        requires
            nodes.len() == groups@.len(),
            forall|n: int| 0 <= n < roots && n < nodes.len() ==> (#[trigger] nodes[n]).path == Seq::<usize>::empty(),
            forall|n: int| roots <= n < nodes.len() ==> #[trigger] extends_path(nodes, parent_nodes@, parent_buckets@, n),
            vacant < self@.buckets.len(),
            self@.buckets[vacant as int] is None,
            node < groups@.len(),
            vacant as int / GROUP_SIZE as int == groups@[node as int],
            groups@.no_duplicates(),
            groups@.len() == parent_nodes@.len() == parent_buckets@.len(),
            forall|n: int| roots <= n < groups@.len() ==> #[trigger] reached_from(
                self@.buckets,
                self@.mask(),
                groups@,
                parent_nodes@,
                parent_buckets@,
                n,
            ),
        ensures
            traced.1 < roots,
            traced.1 < groups@.len(),
            is_chain(self@.buckets, self@.mask(), groups@[traced.1 as int] as int, traced.0.buckets@, traced.0.vacant),
            traced.0.buckets@.len() <= node,
            traced.0.buckets@ == nodes[node as int].path,
            traced.0.vacant == vacant,
    {
        let ghost model = self@.buckets;
        let ghost mask = self@.mask();
        let mut path: Vec<usize> = Vec::new();
        let ghost mut stops: Seq<int> = Seq::empty();
        let mut current: usize = node;
        assert(nodes[node as int].path + path@ =~= nodes[node as int].path);
        while current >= roots
            invariant
                nodes.len() == groups@.len(),
                forall|n: int| roots <= n < nodes.len() ==> #[trigger] extends_path(nodes, parent_nodes@, parent_buckets@, n),
                nodes[current as int].path + path@ == nodes[node as int].path,
                model == self@.buckets,
                mask == self@.mask(),
                current <= node < groups@.len(),
                path@.len() + current <= node,
                groups@.no_duplicates(),
                groups@.len() == parent_nodes@.len() == parent_buckets@.len(),
                forall|n: int| roots <= n < groups@.len() ==> #[trigger] reached_from(
                    self@.buckets,
                    self@.mask(),
                    groups@,
                    parent_nodes@,
                    parent_buckets@,
                    n,
                ),
                is_chain(model, mask, groups@[current as int] as int, path@, vacant),
                stops.len() == path@.len(),
                forall|i: int| 0 <= i < path@.len() ==> current <= (#[trigger] stops[i]) < groups@.len() && path@[i] as int / GROUP_SIZE as int
                    == groups@[stops[i]],
                forall|i: int, j: int| 0 <= i < j < stops.len() ==> stops[i] < stops[j],
            decreases current,
        {
            assert(reached_from(model, mask, groups@, parent_nodes@, parent_buckets@, current as int));
            let bucket = parent_buckets[current];
            let parent = parent_nodes[current];
            let ghost before = path@;
            path.insert(0, bucket);
            proof {
                assert(path@ =~= seq![bucket] + before);
                assert(extends_path(nodes, parent_nodes@, parent_buckets@, current as int));
                assert(nodes[parent as int].path.push(bucket) + before =~= nodes[parent as int].path + path@);
                let longer = seq![parent as int] + stops;
                assert forall|i: int| 0 <= i < path@.len() implies #[trigger] can_move(model, mask, path@, vacant, i) by {
                    if i > 0 {
                        assert(can_move(model, mask, before, vacant, i - 1));
                        assert(path@[i] == before[i - 1]);
                        assert(chain_slot(path@, vacant, i + 1) == chain_slot(before, vacant, i));
                    } else {
                        assert(chain_slot(path@, vacant, 1) == chain_slot(before, vacant, 0));
                    }
                }
                assert forall|i: int| 0 <= i < path@.len() implies parent <= (#[trigger] longer[i]) < groups@.len() && path@[i] as int
                    / GROUP_SIZE as int == groups@[longer[i]] by {
                    if i > 0 {
                        assert(longer[i] == stops[i - 1]);
                    }
                }
                assert(path@.no_duplicates()) by {
                    assert forall|j: int| 0 < j < path@.len() implies path@[0] != #[trigger] path@[j] by {
                        assert(longer[j] == stops[j - 1]);
                        assert(groups@[longer[0]] != groups@[longer[j]]);
                    }
                    assert forall|i: int, j: int| 0 <= i < j < path@.len() implies path@[i] != path@[j] by {
                        if i > 0 {
                            assert(path@[i] == before[i - 1]);
                            assert(path@[j] == before[j - 1]);
                        }
                    }
                }
                assert forall|i: int, j: int| 0 <= i < j < longer.len() implies longer[i] < longer[j] by {
                    assert(longer[j] == stops[j - 1]);
                    if i > 0 {
                        assert(longer[i] == stops[i - 1]);
                    }
                }
                stops = longer;
            }
            current = parent;
        }
        assert(nodes[current as int].path + path@ =~= path@);
        (CuckooPath { buckets: path, vacant }, current)
    }

    /// Queues the other groups of the entries of the group at `cursor`.
    #[verifier::rlimit(60)]
    fn queue_neighbours<H: Fn(u32) -> u64>(&self, search: &mut WideSearch, cursor: usize, hash_of: &H)
        requires
            self.wf(),
            self@.buckets.len() > 0,
            old(search).wf(self@),
            cursor < old(search).groups@.len(),
            self@.group_full(old(search).groups@[cursor as int] as int),
            old(search).explored(self@, cursor as int),
            forall|head: u32| hash_of.requires((head,)),
            hashes_truly(self@.buckets, *hash_of),
        ensures
            final(search).wf(self@),
            final(search).nodes@ == self@.with_neighbours(
                old(search).nodes@,
                old(search).nodes@[cursor as int],
                GROUP_SIZE as nat,
            ),
            old(search).groups@.is_prefix_of(final(search).groups@),
            final(search).explored(self@, cursor + 1),
    {
        let ghost model = self@;
        let ghost mask = self@.mask();
        let ghost queued = search.nodes@;
        let ghost first = search.groups@;
        let ghost node = queued[cursor as int];
        let group = search.groups[cursor];
        assert(node.group == group);
        assert(self@.buckets.len() == self.controls.len());
        assert((group + 1) * GROUP_SIZE <= self.controls@.len()) by {
            assert(self@.buckets.len() == (mask + 1) * GROUP_SIZE);
        }
        let start = group as usize * GROUP_SIZE;
        let mut offset: usize = 0;
        while offset < GROUP_SIZE
            invariant
                self.wf(),
                self@.buckets.len() > 0,
                model == self@,
                mask == model.mask(),
                forall|head: u32| hash_of.requires((head,)),
                hashes_truly(self@.buckets, *hash_of),
                start == group * GROUP_SIZE,
                start + GROUP_SIZE <= self.controls.len(),
                self@.buckets.len() == self.controls@.len(),
                model.group_full(group as int),
                offset <= GROUP_SIZE,
                search.wf(model),
                first.is_prefix_of(search.groups@),
                cursor < first.len(),
                search.groups@[cursor as int] == group,
                search.nodes@[cursor as int] == node,
                node.group == group,
                search.nodes@ == model.with_neighbours(queued, node, offset as nat),
                search.explored(model, cursor as int),
                search.groups@.len() == MAX_CUCKOO_GROUPS || forall|b: int|
                    start <= b < start + offset ==> #[trigger] model.entry_stays(b, search.groups@),
            decreases GROUP_SIZE - offset,
        {
            let occupied = start + offset;
            assert(model.buckets[occupied as int] is Some);
            let (_occupant_hash, next_group) = self.next_group(occupied, group, hash_of);
            let known = contains_group(&search.groups, next_group);
            let ghost before = search.groups@;
            let ghost fewer = search.nodes@;
            assert(known == has_come_to(fewer, next_group)) by {
                if known {
                    let at = before.index_of(next_group);
                    assert(fewer[at].group == next_group);
                }
                if has_come_to(fewer, next_group) {
                    let at = choose|n: int| 0 <= n < fewer.len() && (#[trigger] fewer[n]).group == next_group;
                    assert(before[at] == next_group);
                }
            }
            if !known && search.groups.len() < MAX_CUCKOO_GROUPS {
                search.queue(cursor, occupied, next_group, Ghost(model));
                proof {
                    assert(search.groups@ == before.push(next_group));
                    assert(first.is_prefix_of(before));
                    assert(first =~= search.groups@.subrange(0, first.len() as int)) by {
                        assert(first =~= before.subrange(0, first.len() as int));
                    }
                    lemma_stays_with_more(model, before, next_group, cursor as int);
                    assert(search.groups@[before.len() as int] == next_group);
                    assert forall|b: int| start <= b < start + offset implies #[trigger] model.entry_stays(b, search.groups@) by {
                        assert(model.entry_stays(b, before));
                        lemma_entry_stays_with_more(model, before, next_group, b);
                    }
                }
            }
            proof {
                assert(search.groups@[cursor as int] == group);
                assert(search.groups@.contains(group));
                if search.groups@.len() < MAX_CUCKOO_GROUPS {
                    assert(search.groups@.contains(next_group));
                    assert(model.entry_stays(occupied as int, search.groups@));
                }
            }
            offset = offset + 1;
        }
        proof {
            if search.groups@.len() < MAX_CUCKOO_GROUPS {
                assert(model.displacements_stay(group, search.groups@)) by {
                    assert forall|b: int|
                        group * GROUP_SIZE <= b < group * GROUP_SIZE + GROUP_SIZE implies model.entry_stays(b, search.groups@) by {
                        assert(start <= b < start + offset);
                    }
                }
            }
        }
    }

    /// Searches breadth first from both groups of a hash.
    fn find_wide_path<H: Fn(u32) -> u64>(&self, hash: u64, primary: u64, secondary: u64, hash_of: &H) -> (path: Result<
        CuckooPath,
        Ghost<Seq<u64>>,
    >)
        requires
            self.wf(),
            self@.buckets.len() > 0,
            groups_of(hash, self@.mask()) == (primary, secondary),
            primary <= self@.mask(),
            secondary <= self@.mask(),
            primary != secondary,
            forall|head: u32| hash_of.requires((head,)),
            hashes_truly(self@.buckets, *hash_of),
        ensures
            match self@.wide_path(hash) {
                Some(found) => path matches Ok(chain) && chain.buckets@ == found.0 && chain.vacant == found.1,
                None => path is Err,
            },
            match path {
                Ok(chain) => {
                    &&& chain.buckets@.len() <= MAX_CUCKOO_GROUPS
                    &&& is_chain(self@.buckets, self@.mask(), primary as int, chain.buckets@, chain.vacant) || is_chain(
                        self@.buckets,
                        self@.mask(),
                        secondary as int,
                        chain.buckets@,
                        chain.vacant,
                    )
                },
                Err(seen) => self@.saturated_by(hash, seen@),
            },
    {
        let ghost model = self@;
        let mut search = WideSearch::new(primary, secondary, Ghost(model));
        let mut cursor: usize = 0;
        let ghost whole = self@.wide_path(hash);
        while cursor < search.groups.len()
            invariant
                self.wf(),
                self@.buckets.len() > 0,
                model == self@,
                forall|head: u32| hash_of.requires((head,)),
                hashes_truly(self@.buckets, *hash_of),
                search.wf(model),
                search.groups@[0] == primary,
                search.groups@[1] == secondary,
                search.explored(model, cursor as int),
                cursor <= search.groups@.len(),
                whole == self@.wide_path(hash),
                whole == model.wide_search(search.nodes@, cursor as nat),
                forall|n: int| 0 <= n < cursor ==> model.group_full((#[trigger] search.groups@[n]) as int),
            decreases MAX_CUCKOO_GROUPS - cursor,
        {
            let group = search.groups[cursor];
            assert(search.nodes@[cursor as int].group == group);
            if let Some(vacant) = self.empty_in_group(group) {
                assert(!model.group_full(group as int)) by {
                    assert(model.buckets[vacant as int] is None);
                }
                let (path, _root) = self.trace_path(
                    &search.groups,
                    &search.parent_nodes,
                    &search.parent_buckets,
                    cursor,
                    vacant,
                    2,
                    Ghost(search.nodes@),
                );
                return Ok(path);
            }
            let ghost before = search.groups@;
            self.queue_neighbours(&mut search, cursor, hash_of);
            proof {
                assert forall|n: int| 0 <= n < before.len() implies (#[trigger] search.groups@[n]) == before[n] by {
                    assert(before[n] == search.groups@.subrange(0, before.len() as int)[n]);
                }
            }
            cursor = cursor + 1;
        }
        proof {
            let groups = search.groups@;
            assert(groups.contains(groups[0]));
            assert(groups.contains(groups[1]));
            assert forall|n: int| 2 <= n < groups.len() implies #[trigger] model.reachable(groups, n) by {
                assert(reached_from(model.buckets, model.mask(), groups, search.parent_nodes@, search.parent_buckets@, n));
                assert(groups[search.parent_nodes@[n] as int] == search.parent_buckets@[n] as int / GROUP_SIZE as int);
                assert(model.leads_to(groups, n, search.parent_buckets@[n] as int));
            }
        }
        Err(Ghost(search.groups@))
    }

    /// Finds how to free a bucket for the hash.
    fn find_path<H: Fn(u32) -> u64>(&self, hash: u64, hash_of: &H) -> (path: Option<CuckooPath>)
        requires
            self.wf(),
            forall|head: u32| hash_of.requires((head,)),
            hashes_truly(self@.buckets, *hash_of),
        ensures
            match path {
                Some(chain) => {
                    &&& self@.buckets.len() > 0
                    &&& frees_bucket(self@.buckets, self@.mask(), hash, chain.buckets@, chain.vacant)
                    &&& chain.buckets@.len() <= MAX_CUCKOO_GROUPS
                },
                None => self@.buckets.len() == 0 || self@.saturated(hash),
            },
            match self@.displacement(hash) {
                Some(found) => path matches Some(chain) && chain.buckets@ == found.0 && chain.vacant == found.1,
                None => path is None,
            },
    {
        if self.controls.len() == 0 {
            assert(self@.buckets.len() == 0);
            return None;
        }
        assert(self@.buckets.len() == self.controls@.len());
        let mask = self.group_mask();
        let (primary, secondary) = hash_groups(hash, mask);
        proof {
            lemma_groups(hash, mask);
        }
        if let Some(vacant) = self.empty_in_group(primary) {
            let chain = CuckooPath { buckets: Vec::new(), vacant };
            assert(!self@.group_full(primary as int)) by {
                assert(self@.buckets[vacant as int] is None);
            }
            assert(is_chain(self@.buckets, mask, primary as int, chain.buckets@, chain.vacant));
            assert(frees_bucket(self@.buckets, mask, hash, chain.buckets@, chain.vacant));
            return Some(chain);
        }
        if secondary != primary {
            if let Some(vacant) = self.empty_in_group(secondary) {
                let chain = CuckooPath { buckets: Vec::new(), vacant };
                assert(!self@.group_full(secondary as int)) by {
                    assert(self@.buckets[vacant as int] is None);
                }
                assert(is_chain(self@.buckets, mask, secondary as int, chain.buckets@, chain.vacant));
                assert(frees_bucket(self@.buckets, mask, hash, chain.buckets@, chain.vacant));
                return Some(chain);
            }
        } else {
            proof {
                assert(mask == 0);
                let groups = seq![primary];
                assert(groups[0] == primary);
                assert forall|k: int| 0 <= k < groups.len() implies #[trigger] self@.displacements_stay(groups[k], groups) by {
                    assert forall|b: int|
                        groups[k] * GROUP_SIZE <= b < groups[k] * GROUP_SIZE + GROUP_SIZE implies self@.entry_stays(b, groups) by {
                        lemma_groups((self@.buckets[b]->0).0, mask);
                        assert(hash & mask <= mask) by (bit_vector);
                    }
                }
                assert(self@.saturated_by(hash, groups));
            }
            return None;
        }
        let odd = hash & 1 == 1;
        let start = if odd { secondary } else { primary };
        if let Some(chain) = self.find_fast_path(hash, start, hash_of) {
            assert(is_chain(self@.buckets, mask, start as int, chain.buckets@, chain.vacant));
            return Some(chain);
        }
        match self.find_wide_path(hash, primary, secondary, hash_of) {
            Ok(chain) => {
                proof {
                    if is_chain(self@.buckets, mask, primary as int, chain.buckets@, chain.vacant) {
                    } else {
                        assert(is_chain(self@.buckets, mask, secondary as int, chain.buckets@, chain.vacant));
                    }
                }
                Some(chain)
            },
            Err(seen) => {
                assert(self@.saturated_by(hash, seen@));
                None
            },
        }
    }
}

/// The buckets once the entries from position `index` of a chain on have
/// moved: the bucket there is free.
pub open spec fn shifted(buckets: Seq<Bucket>, path: Seq<usize>, vacant: usize, index: int) -> Seq<Bucket>
    decreases path.len() - index,
{
    if index >= path.len() {
        buckets
    } else {
        let later = shifted(buckets, path, vacant, index + 1);
        later.update(chain_slot(path, vacant, index + 1) as int, later[path[index] as int]).update(path[index] as int, None)
    }
}

/// The buckets once a chain of displacements has been carried out and the freed
/// bucket holds a new entry.
pub open spec fn placed(buckets: Seq<Bucket>, chain: (Seq<usize>, usize), entry: (u64, u32)) -> Seq<Bucket> {
    shifted(buckets, chain.0, chain.1, 0).update(chain_slot(chain.0, chain.1, 0) as int, Some(entry))
}

/// Moving entries along a chain loses none and keeps each in a group of its
/// hash.
proof fn lemma_shifted(buckets: Seq<Bucket>, mask: u64, start: int, path: Seq<usize>, vacant: usize, index: int)
    requires
        is_chain(buckets, mask, start, path, vacant),
        0 <= index <= path.len(),
        forall|b: int| 0 <= b < buckets.len() && (#[trigger] buckets[b]) is Some ==> lives_in(
            (buckets[b]->0).0,
            mask,
            b / GROUP_SIZE as int,
        ),
    ensures
        ({
            let after = shifted(buckets, path, vacant, index);
            let free = chain_slot(path, vacant, index);
            &&& after.len() == buckets.len()
            &&& free < buckets.len()
            &&& after[free as int] is None
            &&& occupied(after) == occupied(buckets)
            &&& forall|h: u64, head: u32| #[trigger] occurrences(after, h, head) == occurrences(buckets, h, head)
            &&& forall|b: int|
                0 <= b < after.len() && (#[trigger] after[b]) is Some ==> lives_in((after[b]->0).0, mask, b / GROUP_SIZE as int)
            &&& forall|i: int| 0 <= i < index ==> after[#[trigger] path[i] as int] == buckets[path[i] as int]
        }),
    decreases path.len() - index,
{
    if index < path.len() {
        lemma_shifted(buckets, mask, start, path, vacant, index + 1);
        let later = shifted(buckets, path, vacant, index + 1);
        let from = path[index] as int;
        let to = chain_slot(path, vacant, index + 1) as int;
        assert(can_move(buckets, mask, path, vacant, index));
        assert(later[from] == buckets[from]);
        let middle = later.update(to, later[from]);
        let after = middle.update(from, None);
        lemma_occupied_update(later, to, later[from]);
        lemma_occupied_update(middle, from, None);
        assert forall|h: u64, head: u32| #[trigger] occurrences(after, h, head) == occurrences(buckets, h, head) by {
            lemma_occurrences_update(later, to, later[from], h, head);
            lemma_occurrences_update(middle, from, None, h, head);
            assert(occurrences(later, h, head) == occurrences(buckets, h, head));
        }
        assert forall|i: int| 0 <= i < index implies after[#[trigger] path[i] as int] == buckets[path[i] as int] by {
            assert(path[i] != path[index]);
            assert(can_move(buckets, mask, path, vacant, i));
            assert(later[path[i] as int] == buckets[path[i] as int]);
            if index + 1 < path.len() {
                assert(path[i] != path[index + 1]);
            }
        }
    }
}

impl MemoryDirectory {
    /// Whether an upsert of this hash would find or make a place.
    pub fn can_upsert<F: Fn(u32) -> bool, H: Fn(u32) -> u64>(&self, hash: u64, equal: F, hash_of: H) -> (possible: bool)
        requires
            self.wf(),
            forall|head: u32| equal.requires((head,)),
            forall|head: u32| hash_of.requires((head,)),
            hashes_truly(self@.buckets, hash_of),
        ensures
            !possible ==> {
                &&& self@.all_rejected(hash, equal)
                &&& self@.displacement(hash) is None
                &&& self@.buckets.len() == 0 || self@.saturated(hash)
            },
            possible ==> {
                ||| exists|head: u32| #[trigger] self@.answers(hash, equal, head)
                ||| self@.displacement(hash) is Some && self@.has_room(hash)
            },
    {
        match self.find_bucket(hash, &equal) {
            Some(bucket) => {
                let ghost head = self.heads@[bucket as int];
                assert(self@.may_answer(hash, equal, self.hashes@[bucket as int], head));
                assert(self@.answers(hash, equal, head));
                true
            },
            None => match self.find_path(hash, &hash_of) {
                Some(path) => {
                    assert(frees_bucket(self@.buckets, self@.mask(), hash, path.buckets@, path.vacant));
                    true
                },
                None => false,
            },
        }
    }

    /// Replaces the head of the entry that passes the key test, or puts a new
    /// entry in, displacing others within the bounded search.
    pub fn upsert<F: Fn(u32) -> bool, H: Fn(u32) -> u64>(&mut self, hash: u64, head: u32, equal: F, hash_of: H) -> (outcome: DirectoryUpsert)
        requires
            old(self).wf(),
            forall|candidate: u32| equal.requires((candidate,)),
            forall|candidate: u32| hash_of.requires((candidate,)),
            hashes_truly(old(self)@.buckets, hash_of),
        ensures
            final(self).wf(),
            final(self)@.maximum_entries == old(self)@.maximum_entries,
            final(self)@.buckets.len() == old(self)@.buckets.len(),
            match outcome {
                DirectoryUpsert::Replaced(previous) => old(self)@.answers_and_exchanges(hash, equal, previous, head, final(self)@),
                DirectoryUpsert::Inserted => {
                    &&& old(self)@.all_rejected(hash, equal)
                    &&& old(self)@.len() < old(self)@.maximum_entries
                    &&& old(self)@.has_room(hash)
                    &&& old(self)@.displacement(hash) is Some
                    &&& final(self)@.buckets == placed(old(self)@.buckets, old(self)@.displacement(hash)->0, (hash, head))
                    &&& old(self)@.gained(hash, head, final(self)@)
                },
                DirectoryUpsert::Full => {
                    &&& old(self)@.all_rejected(hash, equal)
                    &&& final(self)@ == old(self)@
                    &&& old(self)@.len() >= old(self)@.maximum_entries || old(self)@.displacement(hash) is None
                    &&& old(self)@.len() >= old(self)@.maximum_entries || old(self)@.buckets.len() == 0 || old(self)@.saturated(hash)
                },
            },
    {
        let ghost before = self@;
        if let Some(bucket) = self.find_bucket(hash, &equal) {
            let previous = self.heads[bucket];
            let ghost stored_hash = self.hashes@[bucket as int];
            let ghost entry: Bucket = Some((stored_hash, head));
            self.heads.set(bucket, head);
            proof {
                assert(self@.buckets =~= before.buckets.update(bucket as int, entry));
                lemma_occupied_update(before.buckets, bucket as int, entry);
                assert forall|h: u64, other: u32| #[trigger]
                    self@.count(h, other) == before.count(h, other) - (if h == stored_hash && other == previous {
                        1int
                    } else {
                        0int
                    }) + (if h == stored_hash && other == head { 1int } else { 0int }) by {
                    lemma_occurrences_update(before.buckets, bucket as int, entry, h, other);
                }
                assert(before.exchanged(stored_hash, previous, head, self@));
                assert(before.may_answer(hash, equal, stored_hash, previous));
                assert(before.answers_and_exchanges(hash, equal, previous, head, self@));
            }
            return DirectoryUpsert::Replaced(previous);
        }
        if self.len >= self.maximum_entries {
            return DirectoryUpsert::Full;
        }
        let path = match self.find_path(hash, &hash_of) {
            Some(path) => path,
            None => {
                return DirectoryUpsert::Full;
            },
        };
        let ghost mask = before.mask();
        let ghost chain = path.buckets@;
        let ghost start: int = choose|start: int|
            lives_in(hash, mask, start) && #[trigger] is_chain(before.buckets, mask, start, chain, path.vacant);
        let mut free: usize = path.vacant;
        let mut ordinal: usize = path.buckets.len();
        let ghost mut logical: Seq<Bucket> = before.buckets;
        proof {
            assert(self@.buckets.len() == self.controls@.len());
        }
        while ordinal > 0
            invariant
                ordinal <= path.buckets@.len(),
                chain == path.buckets@,
                before == old(self)@,
                before.valid(),
                mask == before.mask(),
                is_chain(before.buckets, mask, start, chain, path.vacant),
                free == chain_slot(chain, path.vacant, ordinal as int),
                logical == shifted(before.buckets, chain, path.vacant, ordinal as int),
                self.controls@.len() == self.heads@.len() == self.hashes@.len() == before.buckets.len(),
                self.maximum_entries == before.maximum_entries,
                self.len == before.len(),
                forall|b: int| 0 <= b < before.buckets.len() && b != free ==> #[trigger] bucket_at(
                    self.controls@,
                    self.heads@,
                    self.hashes@,
                    b,
                ) == logical[b],
                forall|b: int|
                    0 <= b < before.buckets.len() && b != free && (#[trigger] self.controls@[b]) != EMPTY ==> self.controls@[b]
                        == tag_of(self.hashes@[b]),
            decreases ordinal,
        {
            proof {
                lemma_shifted(before.buckets, mask, start, chain, path.vacant, ordinal as int);
                lemma_shifted(before.buckets, mask, start, chain, path.vacant, ordinal - 1);
                assert(can_move(before.buckets, mask, chain, path.vacant, ordinal - 1));
            }
            ordinal = ordinal - 1;
            let occupied_bucket = path.buckets[ordinal];
            assert(occupied_bucket != free) by {
                if ordinal + 1 < chain.len() {
                    assert(chain[ordinal as int] != chain[ordinal + 1]);
                }
            }
            let ghost controls = self.controls@;
            let ghost heads = self.heads@;
            let ghost hashes = self.hashes@;
            assert(bucket_at(controls, heads, hashes, occupied_bucket as int) == logical[occupied_bucket as int]);
            let control = self.controls[occupied_bucket];
            let moved = self.heads[occupied_bucket];
            self.controls.set(free, control);
            self.heads.set(free, moved);
            self.hashes = Ghost(hashes.update(free as int, hashes[occupied_bucket as int]));
            proof {
                let next = shifted(before.buckets, chain, path.vacant, ordinal as int);
                assert forall|b: int| 0 <= b < before.buckets.len() && b != occupied_bucket implies #[trigger] bucket_at(
                    self.controls@,
                    self.heads@,
                    self.hashes@,
                    b,
                ) == next[b] by {
                    if b != free {
                        assert(bucket_at(controls, heads, hashes, b) == logical[b]);
                    }
                }
                logical = next;
            }
            free = occupied_bucket;
        }
        proof {
            lemma_shifted(before.buckets, mask, start, chain, path.vacant, 0);
            lemma_tag(hash);
        }
        let ghost controls = self.controls@;
        let ghost heads = self.heads@;
        let ghost hashes = self.hashes@;
        self.controls.set(free, hash_tag(hash));
        self.heads.set(free, head);
        self.hashes = Ghost(hashes.update(free as int, hash));
        self.len = self.len + 1;
        proof {
            let entry: Bucket = Some((hash, head));
            let after = logical.update(free as int, entry);
            assert forall|b: int| 0 <= b < after.len() implies self@.buckets[b] == after[b] by {
                if b != free {
                    assert(bucket_at(controls, heads, hashes, b) == logical[b]);
                }
            }
            assert(self@.buckets =~= after);
            lemma_occupied_update(logical, free as int, entry);
            assert forall|h: u64, other: u32| #[trigger]
                self@.count(h, other) == before.count(h, other) + (if h == hash && other == head { 1int } else { 0int }) by {
                lemma_occurrences_update(logical, free as int, entry, h, other);
                assert(occurrences(logical, h, other) == occurrences(before.buckets, h, other));
            }
            assert(self@.mask() == mask);
        }
        DirectoryUpsert::Inserted
    }
}

// ---------------------------------------------------------------------------
// Laws
// ---------------------------------------------------------------------------

/// An entry that is in the directory is found: a lookup under its hash with a
/// test that accepts its head does not come back empty.
pub proof fn law_present_entry_is_found<F: Fn(u32) -> bool>(directory: DirectoryModel, hash: u64, head: u32, equal: F)
    requires
        directory.count(hash, head) > 0,
        !equal.ensures((head,), false),
    ensures
        !directory.all_rejected(hash, equal),
{
}

/// Putting a new entry in keeps every entry that was there, wherever it was
/// moved to.
pub proof fn law_insertion_keeps_entries(before: DirectoryModel, hash: u64, head: u32, after: DirectoryModel, other_hash: u64, other: u32)
    requires
        before.gained(hash, head, after),
        before.count(other_hash, other) > 0,
    ensures
        after.count(other_hash, other) > 0,
        after.count(hash, head) > 0,
{
}

/// Taking the entry out that was just put in restores the directory.
pub proof fn law_removal_undoes_insertion(before: DirectoryModel, hash: u64, head: u32, middle: DirectoryModel, after: DirectoryModel)
    requires
        before.gained(hash, head, middle),
        middle.lost(hash, head, after),
    ensures
        after.len() == before.len(),
        forall|h: u64, other: u32| #[trigger] after.count(h, other) == before.count(h, other),
{
    assert forall|h: u64, other: u32| #[trigger] after.count(h, other) == before.count(h, other) by {
        assert(middle.count(h, other) == before.count(h, other) + (if h == hash && other == head { 1int } else { 0int }));
    }
}

/// The tag of a hash is its seven highest bits.
pub proof fn law_tags(hash: u64)
    ensures
        tag_of(hash) as int == hash as int / 0x200_0000_0000_0000,
        tag_of(hash) < 128,
{
    assert(hash >> 57 == hash / 0x200_0000_0000_0000 && hash >> 57 < 128) by (bit_vector);
}

/// The second group of a hash comes from the hash mixed with itself turned by 23
/// bits and shifted by 29, times the golden ratio's odd multiplier modulo 2^64.
pub proof fn law_second_group_is_spread(hash: u64) -> (turned: u64)
    ensures
        turned as int % 0x80_0000 == hash as int / 0x200_0000_0000,
        turned as int / 0x80_0000 == hash as int % 0x200_0000_0000,
        folded_hash(hash) as int == ((hash ^ turned ^ (hash / 0x2000_0000)) as int * 0x9e37_79b9_7f4a_7c15)
            % 0x1_0000_0000_0000_0000,
{
    let turned = (hash << 23) | (hash >> 41);
    assert(((hash << 23) | (hash >> 41)) % 0x80_0000 == hash / 0x200_0000_0000 && ((hash << 23) | (hash >> 41)) / 0x80_0000 == hash
        % 0x200_0000_0000 && hash >> 29 == hash / 0x2000_0000) by (bit_vector);
    turned
}

/// The groups of a hash: its low bits, and its spread ones unless they are the
/// same, in which case the group behind, round the table.
pub proof fn law_groups(hash: u64, mask: u64)
    requires
        is_mask(mask),
    ensures
        groups_of(hash, mask).0 == hash & mask,
        folded_hash(hash) & mask != hash & mask ==> groups_of(hash, mask).1 == folded_hash(hash) & mask,
        folded_hash(hash) & mask == hash & mask && hash & mask < mask ==> groups_of(hash, mask).1 == (hash & mask) + 1,
        folded_hash(hash) & mask == hash & mask && hash & mask == mask && mask > 0 ==> groups_of(hash, mask).1 == 0,
        mask > 0 ==> groups_of(hash, mask).0 != groups_of(hash, mask).1,
        mask == 0 ==> groups_of(hash, mask) == (0u64, 0u64),
{
    lemma_groups(hash, mask);
    let folded = folded_hash(hash);
    let primary = hash & mask;
    assert(hash & mask <= mask && folded & mask <= mask) by (bit_vector);
    assert(mask < 0xffff_ffff_ffff_ffff && mask & ((mask + 1) as u64) == 0 && primary < mask ==> ((primary + 1) as u64) & mask == primary
        + 1) by (bit_vector);
    assert(mask < 0xffff_ffff_ffff_ffff && mask & ((mask + 1) as u64) == 0 ==> ((mask + 1) as u64) & mask == 0) by (bit_vector);
}

/// An entry moves between its two groups and back.
pub proof fn law_entries_have_two_homes(hash: u64, mask: u64, group: int)
    requires
        lives_in(hash, mask, group),
    ensures
        lives_in(hash, mask, other_group(hash, mask, group)),
        other_group(hash, mask, other_group(hash, mask, group)) == group,
        is_mask(mask) && mask > 0 ==> other_group(hash, mask, group) != group,
{
    if is_mask(mask) {
        lemma_groups(hash, mask);
    }
}

/// A displacement starts at the bucket that the hash's bits from the eighth on
/// pick, five further for each kick before it, round the group of eight.
pub proof fn law_victim_offsets(hash: u64, kick: u64)
    requires
        kick < 1000,
    ensures
        offset_of(hash, kick) as int == (hash as int / 128 + 5 * kick) % 8,
{
    assert(hash >> 7 == hash / 128 && hash / 128 <= 0x1ff_ffff_ffff_ffff) by (bit_vector);
    let mixed = (hash >> 7).wrapping_add(kick.wrapping_mul(5));
    assert(mixed == hash as int / 128 + 5 * kick);
    assert(mixed & 7 == mixed % 8) by (bit_vector);
}

/// Entries and occupied buckets are counted one by one.
pub proof fn law_entries_are_counted(buckets: Seq<Bucket>, bucket: Bucket, hash: u64, head: u32)
    ensures
        occurrences(Seq::empty(), hash, head) == 0,
        occupied(Seq::empty()) == 0,
        occurrences(buckets.push(bucket), hash, head) == occurrences(buckets, hash, head) + if bucket == Some((hash, head)) {
            1nat
        } else {
            0nat
        },
        occupied(buckets.push(bucket)) == occupied(buckets) + if bucket is Some {
            1nat
        } else {
            0nat
        },
{
    assert(buckets.push(bucket).drop_last() =~= buckets);
}

/// The table has the fewest buckets, at least eight and a power of two, of which
/// the entries take at most seven eighths.
pub proof fn law_tables_are_sized_for_their_load(bucket_count: int, entries: int)
    ensures
        fits_load(bucket_count, entries) ==> bucket_count >= 8 && 8 * entries <= 7 * bucket_count,
        fits_load(bucket_count, entries) && bucket_count > 8 ==> 8 * entries > 7 * (bucket_count / 2),
        fits_load(bucket_count, entries) <==> crate::memory_engine::power_of_two(bucket_count) && bucket_count >= 8 && 8 * entries
            <= 7 * bucket_count && (bucket_count > 8 ==> 8 * entries > 7 * (bucket_count / 2)),
{
}

/// A new entry goes into the first vacant bucket of its first group, or else of
/// its second; only if both are full are entries displaced, and a table of one
/// group has no room then.
pub proof fn law_vacant_buckets_are_taken_first(directory: DirectoryModel, hash: u64, group: int, bucket: int)
    requires
        directory.buckets.len() > 0,
        8 * group <= bucket < 8 * group + 8,
        directory.buckets[bucket] is None,
        forall|b: int| 8 * group <= b < bucket ==> (#[trigger] directory.buckets[b]) is Some,
    ensures
        ({
            let (first, second) = groups_of(hash, directory.mask());
            &&& group == first ==> directory.displacement(hash) == Some((Seq::<usize>::empty(), bucket as usize))
            &&& group == second && (forall|b: int| 8 * first <= b < 8 * first + 8 ==> (#[trigger] directory.buckets[b]) is Some)
                ==> directory.displacement(hash) == Some((Seq::<usize>::empty(), bucket as usize))
        }),
{
    assert(directory.is_first_vacant(group, bucket));
    directory.lemma_first_vacant(group, bucket);
    let (first, second) = groups_of(hash, directory.mask());
    assert(!directory.group_full(group)) by {
        if directory.group_full(group) {
            assert(directory.buckets[bucket] is Some);
        }
    }
}

/// Where nothing can be displaced there is no room: a table without buckets, or
/// of one full group.
pub proof fn law_no_room_without_another_group(directory: DirectoryModel, hash: u64)
    ensures
        directory.buckets.len() == 0 ==> directory.displacement(hash) is None,
        ({
            let (first, second) = groups_of(hash, directory.mask());
            first == second && (forall|b: int| 8 * first <= b < 8 * first + 8 ==> (#[trigger] directory.buckets[b]) is Some)
                ==> directory.displacement(hash) is None
        }),
{
}

/// Displacing entries along a chain moves each of them one bucket on, puts the
/// new entry where the first was, and leaves all others.
pub proof fn law_chain_moves_each_entry_on(
    buckets: Seq<Bucket>,
    mask: u64,
    start: int,
    path: Seq<usize>,
    vacant: usize,
    entry: (u64, u32),
    b: int,
)
    requires
        is_chain(buckets, mask, start, path, vacant),
        0 <= b < buckets.len(),
    ensures
        ({
            let after = placed(buckets, (path, vacant), entry);
            &&& after.len() == buckets.len()
            &&& path.len() == 0 ==> after[vacant as int] == Some(entry)
            &&& path.len() > 0 ==> after[path[0] as int] == Some(entry) && after[vacant as int] == buckets[path.last() as int]
            &&& forall|i: int| 0 <= i < path.len() - 1 ==> after[#[trigger] path[i + 1] as int] == buckets[path[i] as int]
            &&& b != vacant && (forall|i: int| 0 <= i < path.len() ==> #[trigger] path[i] != b) ==> after[b] == buckets[b]
        }),
{
    lemma_path_is_full(buckets, mask, start, path, vacant);
    lemma_shifted_entries(buckets, mask, start, path, vacant, 0);
    let after = placed(buckets, (path, vacant), entry);
    let moved = shifted(buckets, path, vacant, 0);
    assert forall|i: int| 0 <= i < path.len() - 1 implies after[#[trigger] path[i + 1] as int] == buckets[path[i] as int] by {
        assert(chain_slot(path, vacant, i + 1) == path[i + 1]);
        assert(moved[chain_slot(path, vacant, i + 1) as int] == buckets[path[i] as int]);
        assert(path[i + 1] != path[0]);
    }
    if path.len() > 0 {
        let last = path.len() - 1;
        assert(chain_slot(path, vacant, last + 1) == vacant);
        assert(moved[chain_slot(path, vacant, last + 1) as int] == buckets[path[last] as int]);
        assert(path[0] != vacant);
    }
}

proof fn lemma_path_is_full(buckets: Seq<Bucket>, mask: u64, start: int, path: Seq<usize>, vacant: usize)
    requires
        is_chain(buckets, mask, start, path, vacant),
    ensures
        forall|i: int| 0 <= i < path.len() ==> (#[trigger] path[i]) < buckets.len() && path[i] != vacant,
        chain_slot(path, vacant, 0) < buckets.len(),
{
    assert forall|i: int| 0 <= i < path.len() implies (#[trigger] path[i]) < buckets.len() && path[i] != vacant by {
        assert(can_move(buckets, mask, path, vacant, i));
    }
}

proof fn lemma_shifted_entries(buckets: Seq<Bucket>, mask: u64, start: int, path: Seq<usize>, vacant: usize, index: int)
    requires
        is_chain(buckets, mask, start, path, vacant),
        0 <= index <= path.len(),
    ensures
        ({
            let after = shifted(buckets, path, vacant, index);
            &&& after.len() == buckets.len()
            &&& forall|i: int|
                index <= i < path.len() ==> after[#[trigger] chain_slot(path, vacant, i + 1) as int] == buckets[path[i] as int]
            &&& forall|i: int| 0 <= i < index ==> after[#[trigger] path[i] as int] == buckets[path[i] as int]
            &&& forall|b: int|
                0 <= b < buckets.len() && b != vacant && (forall|i: int| index <= i < path.len() ==> #[trigger] path[i] != b)
                    ==> #[trigger] after[b] == buckets[b]
        }),
    decreases path.len() - index,
{
    lemma_path_is_full(buckets, mask, start, path, vacant);
    if index < path.len() {
        lemma_shifted_entries(buckets, mask, start, path, vacant, index + 1);
        let later = shifted(buckets, path, vacant, index + 1);
        let after = shifted(buckets, path, vacant, index);
        let from = path[index] as int;
        let to = chain_slot(path, vacant, index + 1) as int;
        assert(later[path[index] as int] == buckets[from]);
        assert(to < buckets.len());
        assert(to != from) by {
            if index + 1 < path.len() {
                assert(path[index + 1] != path[index]);
            }
        }
        assert forall|i: int| index <= i < path.len() implies after[#[trigger] chain_slot(path, vacant, i + 1) as int]
            == buckets[path[i] as int] by {
            if i > index {
                let place = chain_slot(path, vacant, i + 1) as int;
                assert(place != from) by {
                    if i + 1 < path.len() {
                        assert(path[i + 1] != path[index]);
                    }
                }
                assert(place != to) by {
                    if i + 1 < path.len() {
                        assert(path[i + 1] != path[index + 1]);
                    }
                }
            }
        }
        assert forall|i: int| 0 <= i < index implies after[#[trigger] path[i] as int] == buckets[path[i] as int] by {
            assert(path[i] != path[index]);
            if index + 1 < path.len() {
                assert(path[i] != path[index + 1]);
            }
            assert(later[path[i] as int] == buckets[path[i] as int]);
        }
        assert forall|b: int|
            0 <= b < buckets.len() && b != vacant && (forall|i: int| index <= i < path.len() ==> #[trigger] path[i] != b) implies #[trigger] after[b]
            == buckets[b] by {
            assert(path[index] != b);
            if index + 1 < path.len() {
                assert(path[index + 1] != b);
            }
            assert(later[b] == buckets[b]);
        }
    }
}

/// With both groups full, entries are displaced one after the other from the
/// second group for an odd hash and from the first for an even one, at most
/// eight of them; each moves to its other group, into the first vacant bucket
/// there or in the place of the next, and a walk that comes back to a group has
/// failed.
pub proof fn law_walks_of_displacements(directory: DirectoryModel, displaced: u64, groups: Seq<u64>, path: Seq<usize>, kicks: nat, hash: u64)
    requires
        groups.len() > 0,
    ensures
        directory.fast_walk(displaced, groups, path, 0) is None,
        kicks > 0 ==> ({
            let group = groups.last();
            let bucket = (8 * group + offset_of(displaced, path.len() as u64)) as usize;
            let occupant = (directory.buckets[bucket as int]->0).0;
            let next = other_group(occupant, directory.mask(), group as int) as u64;
            let walk = directory.fast_walk(displaced, groups, path, kicks);
            &&& groups.contains(next) ==> walk is None
            &&& !groups.contains(next) && !directory.group_full(next as int) ==> walk == Some(
                (path.push(bucket), directory.first_vacant(next as int) as usize),
            )
            &&& !groups.contains(next) && directory.group_full(next as int) ==> walk == directory.fast_walk(
                occupant,
                groups.push(next),
                path.push(bucket),
                (kicks - 1) as nat,
            )
        }),
        ({
            let (first, second) = groups_of(hash, directory.mask());
            directory.group_full(first as int) && directory.group_full(second as int) && first != second && directory.buckets.len() > 0 ==> {
                let walk = directory.fast_walk(hash, seq![if hash % 2 == 1 { second } else { first }], Seq::empty(), 8);
                directory.displacement(hash) == if walk is Some {
                    walk
                } else {
                    directory.wide_path(hash)
                }
            }
        }),
{
    assert((hash & 1 == 1) == (hash % 2 == 1)) by (bit_vector);
}

/// What is found was stored under a hash with the same tag and accepted by the
/// caller.
pub proof fn law_answers_were_stored<F: Fn(u32) -> bool>(directory: DirectoryModel, hash: u64, equal: F, head: u32)
    requires
        directory.answers(hash, equal, head),
    ensures
        equal.ensures((head,), true),
        exists|b: int|
            0 <= b < directory.buckets.len() && (#[trigger] directory.buckets[b]) is Some && (directory.buckets[b]->0).1 == head && tag_of(
                (directory.buckets[b]->0).0,
            ) == tag_of(hash),
{
    let stored_hash = choose|stored_hash: u64| #[trigger] directory.may_answer(hash, equal, stored_hash, head);
    let b = lemma_occurrences_witness(directory.buckets, stored_hash, head);
    assert(directory.buckets[b] == Some((stored_hash, head)));
}

/// An exchange takes out one entry and puts in another under the same hash, so
/// exchanging them back restores what was there.
pub proof fn law_exchanges_can_be_undone(
    before: DirectoryModel,
    hash: u64,
    previous: u32,
    head: u32,
    middle: DirectoryModel,
    after: DirectoryModel,
)
    requires
        before.exchanged(hash, previous, head, middle),
        middle.exchanged(hash, head, previous, after),
        before.count(hash, previous) > 0,
    ensures
        middle.count(hash, head) > 0,
        previous != head ==> middle.count(hash, previous) == before.count(hash, previous) - 1,
        after.len() == before.len(),
        forall|h: u64, other: u32| #[trigger] after.count(h, other) == before.count(h, other),
{
}

/// A table is saturated for a hash only if both of its groups are full.
pub proof fn law_saturation_needs_full_groups(directory: DirectoryModel, hash: u64, b: int)
    requires
        directory.saturated(hash),
        ({
            let (first, second) = groups_of(hash, directory.mask());
            8 * first <= b < 8 * first + 8 || 8 * second <= b < 8 * second + 8
        }),
    ensures
        directory.buckets[b] is Some,
{
    let (first, second) = groups_of(hash, directory.mask());
    let groups = choose|groups: Seq<u64>| #[trigger] directory.saturated_by(hash, groups);
    let first_at = groups.index_of(first);
    let second_at = groups.index_of(second);
    assert(groups[first_at] == first && groups[second_at] == second);
    assert(directory.group_full(groups[first_at] as int) && directory.group_full(groups[second_at] as int));
}

/// The wide search starts from the two groups of the hash and comes to at most
/// 32. It ends at the first group with a vacant bucket, and takes in from a full
/// one the groups that its entries can move to, in order, each once.
pub proof fn law_wide_search(directory: DirectoryModel, nodes: Seq<SearchNode>, cursor: nat, count: nat, hash: u64)
    ensures
        cursor >= nodes.len() || cursor >= 32 ==> directory.wide_search(nodes, cursor) is None,
        cursor < nodes.len() && cursor < 32 ==> ({
            let node = nodes[cursor as int];
            if directory.group_full(node.group as int) {
                directory.wide_search(nodes, cursor) == directory.wide_search(directory.with_neighbours(nodes, node, 8), cursor + 1)
            } else {
                directory.wide_search(nodes, cursor) == Some((node.path, directory.first_vacant(node.group as int) as usize))
            }
        }),
        cursor < nodes.len() ==> ({
            let node = nodes[cursor as int];
            let before = directory.with_neighbours(nodes, node, count);
            let after = directory.with_neighbours(nodes, node, count + 1);
            let bucket = (8 * node.group + count) as usize;
            let next = other_group((directory.buckets[bucket as int]->0).0, directory.mask(), node.group as int) as u64;
            let known = exists|n: int| 0 <= n < before.len() && (#[trigger] before[n]).group == next;
            &&& known || before.len() >= 32 ==> after == before
            &&& !known && before.len() < 32 ==> after == before.push(SearchNode { group: next, path: node.path.push(bucket) })
        }),
        ({
            let (first, second) = groups_of(hash, directory.mask());
            directory.wide_path(hash) == directory.wide_search(
                seq![SearchNode { group: first, path: Seq::empty() }, SearchNode { group: second, path: Seq::empty() }],
                0,
            )
        }),
{
}

} // verus!
