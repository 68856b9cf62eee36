//! Sharded slot storage of the Region index.
//!
//! Slots are grouped into pages. A page that failed validation faults every
//! read of its slots. Each shard counts its occupied slots by kind.

use crate::index::{IndexEntry, MAX_INDEX_PROBES};
use vstd::prelude::*;

verus! {

/// Slots per storage page.
pub const INDEX_SLOTS_PER_PAGE: usize = 126;

/// State of one index slot.
#[derive(Clone, Copy, Debug, PartialEq, Eq, Structural)]
pub enum IndexSlotStateV1 {
    Empty,
    /// Probing continues past a deleted slot.
    Deleted,
    /// Reserved by an in-flight producer.
    Masked { hash: u64, seqno: u64 },
    Value { hash: u64, entry: IndexEntry },
}

/// Why a page failed validation.
#[derive(Clone, Copy, Debug, PartialEq, Eq, Structural)]
pub enum CorruptPageReason {
    /// The page's checksum is not that of its bytes.
    ChecksumMismatch { stored: u32, computed: u32 },
}

/// Why a slot could not be read.
#[derive(Clone, Copy, Debug, PartialEq, Eq, Structural)]
pub enum IndexStorageError {
    /// There are no slots.
    Empty,
    /// The slot's page failed validation.
    CorruptPage { page_index: usize, reason: CorruptPageReason },
}

/// Occupied slots by kind.
#[derive(Clone, Copy, Debug, PartialEq, Eq, Structural)]
pub struct IndexPhysicalStats {
    pub value: usize,
    pub deleted: usize,
    pub masked: usize,
}

/// How many slots hold a value.
pub open spec fn value_count(slots: Seq<IndexSlotStateV1>) -> nat
    decreases slots.len(),
{
    if slots.len() == 0 {
        0
    } else {
        value_count(slots.drop_last()) + if slots.last() is Value { 1nat } else { 0nat }
    }
}

/// How many slots are deleted.
pub open spec fn deleted_count(slots: Seq<IndexSlotStateV1>) -> nat
    decreases slots.len(),
{
    if slots.len() == 0 {
        0
    } else {
        deleted_count(slots.drop_last()) + if slots.last() is Deleted { 1nat } else { 0nat }
    }
}

/// How many slots are masked.
pub open spec fn masked_count(slots: Seq<IndexSlotStateV1>) -> nat
    decreases slots.len(),
{
    if slots.len() == 0 {
        0
    } else {
        masked_count(slots.drop_last()) + if slots.last() is Masked { 1nat } else { 0nat }
    }
}

proof fn lemma_counts_update(slots: Seq<IndexSlotStateV1>, index: int, state: IndexSlotStateV1)
    requires
        0 <= index < slots.len(),
    ensures
        value_count(slots.update(index, state)) == value_count(slots) - (if slots[index] is Value { 1int } else { 0int }) + (if state is Value {
            1int
        } else {
            0int
        }),
        deleted_count(slots.update(index, state)) == deleted_count(slots) - (if slots[index] is Deleted { 1int } else { 0int }) + (if state is Deleted {
            1int
        } else {
            0int
        }),
        masked_count(slots.update(index, state)) == masked_count(slots) - (if slots[index] is Masked { 1int } else { 0int }) + (if state is Masked {
            1int
        } else {
            0int
        }),
    decreases slots.len(),
{
    let updated = slots.update(index, state);
    if index == slots.len() - 1 {
        assert(updated.drop_last() =~= slots.drop_last());
    } else {
        assert(updated.drop_last() =~= slots.drop_last().update(index, state));
        lemma_counts_update(slots.drop_last(), index, state);
    }
}

proof fn lemma_counts_bounded(slots: Seq<IndexSlotStateV1>)
    ensures
        value_count(slots) + deleted_count(slots) + masked_count(slots) <= slots.len(),
    decreases slots.len(),
{
    if slots.len() > 0 {
        lemma_counts_bounded(slots.drop_last());
    }
}

proof fn lemma_counts_positive(slots: Seq<IndexSlotStateV1>, index: int)
    requires
        0 <= index < slots.len(),
    ensures
        slots[index] is Value ==> value_count(slots) > 0,
        slots[index] is Deleted ==> deleted_count(slots) > 0,
        slots[index] is Masked ==> masked_count(slots) > 0,
    decreases slots.len(),
{
    if index < slots.len() - 1 {
        lemma_counts_positive(slots.drop_last(), index);
    }
}

/// What a shard holds.
#[verifier::ext_equal]
pub struct IndexShardModel {
    pub first_slot: int,
    pub slots: Seq<IndexSlotStateV1>,
    /// Pages of the whole storage that fault, and why.
    pub corrupt_pages: Map<int, CorruptPageReason>,
}

impl IndexShardModel {
    /// The storage page of a slot of this shard.
    pub open spec fn page_of(self, local_slot: int) -> int {
        (self.first_slot + local_slot) / INDEX_SLOTS_PER_PAGE as int
    }

    /// Reading the slot faults.
    pub open spec fn faults(self, local_slot: int) -> bool {
        self.corrupt_pages.contains_key(self.page_of(local_slot))
    }

    /// The fault that reading the slot reports, if it faults.
    pub open spec fn fault_at(self, local_slot: int) -> IndexStorageError {
        IndexStorageError::CorruptPage {
            page_index: self.page_of(local_slot) as usize,
            reason: self.corrupt_pages[self.page_of(local_slot)],
        }
    }

    /// The shard with one slot replaced.
    pub open spec fn replaced(self, local_slot: int, state: IndexSlotStateV1) -> IndexShardModel {
        IndexShardModel { slots: self.slots.update(local_slot, state), ..self }
    }

    /// Occupied slots by kind.
    pub open spec fn stats(self) -> IndexPhysicalStats {
        IndexPhysicalStats {
            value: value_count(self.slots) as usize,
            deleted: deleted_count(self.slots) as usize,
            masked: masked_count(self.slots) as usize,
        }
    }
}

/// The pages that marks make fault: the last mark on a page says why.
pub open spec fn marked_pages(marks: Seq<(usize, CorruptPageReason)>) -> Map<int, CorruptPageReason>
    decreases marks.len(),
{
    if marks.len() == 0 {
        Map::empty()
    } else {
        marked_pages(marks.drop_last()).insert(marks.last().0 as int, marks.last().1)
    }
}

/// Marks from `from` on are on other pages, so the earlier ones decide.
proof fn lemma_marks_before(marks: Seq<(usize, CorruptPageReason)>, page: int, from: int)
    requires
        0 <= from <= marks.len(),
        forall|j: int| from <= j < marks.len() ==> (#[trigger] marks[j]).0 != page,
    ensures
        marked_pages(marks).contains_key(page) == marked_pages(marks.take(from)).contains_key(page),
        marked_pages(marks).contains_key(page) ==> marked_pages(marks)[page] == marked_pages(marks.take(from))[page],
    decreases marks.len() - from,
{
    if from < marks.len() {
        assert(marks.drop_last().take(from) =~= marks.take(from));
        lemma_marks_before(marks.drop_last(), page, from);
    } else {
        assert(marks.take(from) =~= marks);
    }
}

/// One shard of slots.
pub struct IndexShard {
    first_slot: usize,
    slots: Vec<IndexSlotStateV1>,
    corrupt_pages: Vec<(usize, CorruptPageReason)>,
    stats: IndexPhysicalStats,
}

impl View for IndexShard {
    type V = IndexShardModel;

    closed spec fn view(&self) -> IndexShardModel {
        IndexShardModel {
            first_slot: self.first_slot as int,
            slots: self.slots@,
            corrupt_pages: marked_pages(self.corrupt_pages@),
        }
    }
}

impl IndexShard {
    /// The shard's invariant.
    pub closed spec fn wf(&self) -> bool {
        &&& self.slots@.len() > 0
        &&& self.first_slot + self.slots@.len() <= usize::MAX
        &&& self.stats.value == value_count(self.slots@)
        &&& self.stats.deleted == deleted_count(self.slots@)
        &&& self.stats.masked == masked_count(self.slots@)
    }

    /// The invariant bounds the slots.
    pub proof fn lemma_bounds(&self)
        requires
            self.wf(),
        ensures
            0 < self@.slots.len(),
            self@.first_slot >= 0,
            self@.first_slot + self@.slots.len() <= usize::MAX,
    {
    }

    fn new(first_slot: usize, slot_count: usize) -> (shard: IndexShard)
        requires
            slot_count > 0,
            first_slot + slot_count <= usize::MAX,
        ensures
            shard.wf(),
            shard@ == (IndexShardModel {
                first_slot: first_slot as int,
                slots: Seq::new(slot_count as nat, |k: int| IndexSlotStateV1::Empty),
                corrupt_pages: Map::empty(),
            }),
    {
        let mut slots: Vec<IndexSlotStateV1> = Vec::new();
        while slots.len() < slot_count
            invariant
                slots@.len() <= slot_count,
                forall|k: int| 0 <= k < slots@.len() ==> #[trigger] slots@[k] == IndexSlotStateV1::Empty,
                value_count(slots@) == 0,
                deleted_count(slots@) == 0,
                masked_count(slots@) == 0,
            decreases slot_count - slots@.len(),
        {
            let ghost before = slots@;
            slots.push(IndexSlotStateV1::Empty);
            assert(slots@.drop_last() =~= before);
        }
        let shard = IndexShard {
            first_slot,
            slots,
            corrupt_pages: Vec::new(),
            stats: IndexPhysicalStats { value: 0, deleted: 0, masked: 0 },
        };
        proof {
            assert(shard@.slots =~= Seq::new(slot_count as nat, |k: int| IndexSlotStateV1::Empty));
            assert(shard@.corrupt_pages =~= Map::<int, CorruptPageReason>::empty());
        }
        shard
    }

    /// How many slots the shard has.
    pub fn slot_count(&self) -> (count: usize)
        ensures
            count == self@.slots.len(),
    {
        self.slots.len()
    }

    /// The storage-wide number of the shard's first slot.
    pub fn first_slot(&self) -> (slot: usize)
        ensures
            slot == self@.first_slot,
    {
        self.first_slot
    }

    /// Reads a slot; a slot on a corrupt page faults.
    pub fn read(&self, local_slot: usize) -> (result: Result<IndexSlotStateV1, IndexStorageError>)
        requires
            self.wf(),
            local_slot < self@.slots.len(),
        ensures
            result == (if self@.faults(local_slot as int) {
                Err::<IndexSlotStateV1, IndexStorageError>(
                    self@.fault_at(local_slot as int),
                )
            } else {
                Ok::<IndexSlotStateV1, IndexStorageError>(self@.slots[local_slot as int])
            }),
    {
        let page_index = (self.first_slot + local_slot) / INDEX_SLOTS_PER_PAGE;
        let mut k: usize = self.corrupt_pages.len();
        while k > 0
            invariant
                k <= self.corrupt_pages@.len(),
                self.wf(),
                local_slot < self@.slots.len(),
                page_index == self@.page_of(local_slot as int),
                forall|j: int| k <= j < self.corrupt_pages@.len() ==> (#[trigger] self.corrupt_pages@[j]).0 != page_index,
            decreases k,
        {
            k = k - 1;
            let (page, reason) = self.corrupt_pages[k];
            if page == page_index {
                proof {
                    let marks = self.corrupt_pages@;
                    lemma_marks_before(marks, page_index as int, k + 1);
                    assert(marks.take(k + 1).drop_last() =~= marks.take(k as int));
                    assert(marks.take(k + 1).last() == (page, reason));
                }
                return Err(IndexStorageError::CorruptPage { page_index, reason });
            }
        }
        proof {
            lemma_marks_before(self.corrupt_pages@, page_index as int, 0);
            assert(self.corrupt_pages@.take(0) =~= Seq::<(usize, CorruptPageReason)>::empty());
        }
        Ok(self.slots[local_slot])
    }

    /// Replaces a slot and hands out what it held.
    pub fn replace(&mut self, local_slot: usize, state: IndexSlotStateV1) -> (result: Result<IndexSlotStateV1, IndexStorageError>)
        requires
            old(self).wf(),
            local_slot < old(self)@.slots.len(),
        ensures
            final(self).wf(),
            if old(self)@.faults(local_slot as int) {
                &&& result == Err::<IndexSlotStateV1, IndexStorageError>(
                    old(self)@.fault_at(local_slot as int),
                )
                &&& final(self)@ == old(self)@
            } else {
                &&& result == Ok::<IndexSlotStateV1, IndexStorageError>(old(self)@.slots[local_slot as int])
                &&& final(self)@ == old(self)@.replaced(local_slot as int, state)
            },
    {
        let previous = match self.read(local_slot) {
            Ok(previous) => previous,
            Err(error) => {
                return Err(error);
            },
        };
        proof {
            lemma_counts_update(self.slots@, local_slot as int, state);
            lemma_counts_positive(self.slots@, local_slot as int);
            lemma_counts_bounded(self.slots@.update(local_slot as int, state));
            assert(self.slots@.update(local_slot as int, state).len() == self.slots.len());
        }
        match previous {
            IndexSlotStateV1::Empty => {},
            IndexSlotStateV1::Deleted => {
                self.stats.deleted = self.stats.deleted - 1;
            },
            IndexSlotStateV1::Masked { .. } => {
                self.stats.masked = self.stats.masked - 1;
            },
            IndexSlotStateV1::Value { .. } => {
                self.stats.value = self.stats.value - 1;
            },
        }
        match state {
            IndexSlotStateV1::Empty => {},
            IndexSlotStateV1::Deleted => {
                self.stats.deleted = self.stats.deleted + 1;
            },
            IndexSlotStateV1::Masked { .. } => {
                self.stats.masked = self.stats.masked + 1;
            },
            IndexSlotStateV1::Value { .. } => {
                self.stats.value = self.stats.value + 1;
            },
        }
        self.slots.set(local_slot, state);
        Ok(previous)
    }

    /// Occupied slots by kind.
    pub fn stats(&self) -> (stats: IndexPhysicalStats)
        requires
            self.wf(),
        ensures
            stats == self@.stats(),
    {
        self.stats
    }
}

/// What the storage holds.
pub type IndexStorageModel = Seq<IndexShardModel>;

/// The shard of a hash.
pub open spec fn shard_of(storage: IndexStorageModel, hash: u64) -> int {
    hash as int % storage.len() as int
}

/// Sum of the shards' counts.
pub open spec fn storage_stats(storage: IndexStorageModel) -> (nat, nat, nat)
    decreases storage.len(),
{
    if storage.len() == 0 {
        (0, 0, 0)
    } else {
        let rest = storage_stats(storage.drop_last());
        let slots = storage.last().slots;
        (rest.0 + value_count(slots), rest.1 + deleted_count(slots), rest.2 + masked_count(slots))
    }
}

/// How many slots there are.
pub open spec fn storage_slots(storage: IndexStorageModel) -> nat
    decreases storage.len(),
{
    if storage.len() == 0 {
        0
    } else {
        storage_slots(storage.drop_last()) + storage.last().slots.len()
    }
}

proof fn lemma_storage_stats_bounded(storage: IndexStorageModel)
    ensures
        storage_stats(storage).0 + storage_stats(storage).1 + storage_stats(storage).2 <= storage_slots(storage),
    decreases storage.len(),
{
    if storage.len() > 0 {
        lemma_storage_stats_bounded(storage.drop_last());
        lemma_counts_bounded(storage.last().slots);
    }
}

proof fn lemma_storage_slots_prefix(storage: IndexStorageModel, count: int)
    requires
        0 <= count <= storage.len(),
    ensures
        storage_slots(storage.take(count)) <= storage_slots(storage),
    decreases storage.len(),
{
    if count == storage.len() {
        assert(storage.take(count) =~= storage);
    } else {
        assert(storage.drop_last().take(count) =~= storage.take(count));
        lemma_storage_slots_prefix(storage.drop_last(), count);
    }
}

/// Slots split into shards.
pub struct ShardedIndexStorage {
    shards: Vec<IndexShard>,
}

impl View for ShardedIndexStorage {
    type V = IndexStorageModel;

    closed spec fn view(&self) -> IndexStorageModel {
        Seq::new(self.shards@.len(), |k: int| self.shards@[k]@)
    }
}

/// How many shards hold `slot_count` slots: one per full page, where a last
/// page shorter than the probe window belongs to the shard before it.
pub open spec fn shard_count_for(slot_count: int) -> int {
    let full = slot_count / INDEX_SLOTS_PER_PAGE as int;
    let rest = slot_count % INDEX_SLOTS_PER_PAGE as int;
    if full == 0 {
        1
    } else if rest >= MAX_INDEX_PROBES {
        full + 1
    } else {
        full
    }
}

impl ShardedIndexStorage {
    /// The storage's invariant.
    pub closed spec fn wf(&self) -> bool {
        &&& self.shards@.len() > 0
        &&& forall|k: int| 0 <= k < self.shards@.len() ==> (#[trigger] self.shards@[k]).wf()
        &&& storage_slots(self@) <= usize::MAX
    }

    /// The invariant gives at least one shard, each with a slot.
    pub proof fn lemma_has_shards(&self)
        requires
            self.wf(),
        ensures
            self@.len() > 0,
            forall|k: int| 0 <= k < self@.len() ==> (#[trigger] self@[k]).slots.len() > 0,
    {
        assert forall|k: int| 0 <= k < self@.len() implies (#[trigger] self@[k]).slots.len() > 0 by {
            assert(self.shards@[k].wf());
        }
    }

    /// Empty slots without a backing image.
    pub fn anonymous(slot_count: usize) -> (result: Result<ShardedIndexStorage, IndexStorageError>)
        ensures
            match result {
                Ok(storage) => {
                    &&& slot_count > 0
                    &&& storage.wf()
                    &&& storage@.len() == shard_count_for(slot_count as int)
                    &&& storage_slots(storage@) == slot_count
                    &&& forall|k: int| 0 <= k < storage@.len() ==> {
                        let shard = #[trigger] storage@[k];
                        &&& shard.first_slot == k * INDEX_SLOTS_PER_PAGE
                        &&& shard.corrupt_pages == Map::<int, CorruptPageReason>::empty()
                        &&& k + 1 < storage@.len() ==> shard.slots.len() == INDEX_SLOTS_PER_PAGE
                        &&& forall|s: int| 0 <= s < shard.slots.len() ==> (#[trigger] shard.slots[s]) is Empty
                    }
                },
                Err(error) => slot_count == 0 && error == IndexStorageError::Empty,
            },
    {
        if slot_count == 0 {
            return Err(IndexStorageError::Empty);
        }
        let full = slot_count / INDEX_SLOTS_PER_PAGE;
        let rest = slot_count % INDEX_SLOTS_PER_PAGE;
        let shard_count: usize = if full == 0 {
            1
        } else if rest >= MAX_INDEX_PROBES {
            full + 1
        } else {
            full
        };
        let mut shards: Vec<IndexShard> = Vec::new();
        let mut first_slot: usize = 0;
        let ghost mut models: IndexStorageModel = Seq::empty();
        while shards.len() < shard_count
            invariant
                slot_count > 0,
                shard_count == shard_count_for(slot_count as int),
                shards@.len() <= shard_count,
                models.len() == shards@.len(),
                forall|k: int| 0 <= k < models.len() ==> (#[trigger] models[k]) == shards@[k]@,
                forall|k: int| 0 <= k < shards@.len() ==> (#[trigger] shards@[k]).wf(),
                shards@.len() < shard_count ==> first_slot == shards@.len() * INDEX_SLOTS_PER_PAGE && first_slot < slot_count,
                shards@.len() == shard_count ==> first_slot == slot_count,
                storage_slots(models) == first_slot,
                forall|k: int| 0 <= k < models.len() ==> {
                    let shard = #[trigger] models[k];
                    &&& shard.first_slot == k * INDEX_SLOTS_PER_PAGE
                    &&& shard.corrupt_pages == Map::<int, CorruptPageReason>::empty()
                    &&& k + 1 < shard_count ==> shard.slots.len() == INDEX_SLOTS_PER_PAGE
                    &&& forall|s: int| 0 <= s < shard.slots.len() ==> (#[trigger] shard.slots[s]) is Empty
                },
            decreases shard_count - shards@.len(),
        {
            let count: usize = if shards.len() + 1 < shard_count { INDEX_SLOTS_PER_PAGE } else { slot_count - first_slot };
            let shard = IndexShard::new(first_slot, count);
            proof {
                let longer = models.push(shard@);
                assert(longer.drop_last() =~= models);
                models = longer;
            }
            shards.push(shard);
            first_slot = first_slot + count;
        }
        let storage = ShardedIndexStorage { shards };
        assert(storage@ =~= models);
        Ok(storage)
    }

    /// How many shards there are.
    pub fn shard_count(&self) -> (count: usize)
        ensures
            count == self@.len(),
    {
        self.shards.len()
    }

    fn shard_index(&self, hash: u64) -> (index: usize)
        requires
            self.wf(),
        ensures
            index == shard_of(self@, hash),
            index < self.shards@.len(),
    {
        assert(self@.len() == self.shards@.len());
        (hash % (self.shards.len() as u64)) as usize
    }

    /// The shard of a hash.
    pub fn read_hash_shard(&self, hash: u64) -> (shard: &IndexShard)
        requires
            self.wf(),
        ensures
            shard.wf(),
            shard@ == self@[shard_of(self@, hash)],
    {
        let index = self.shard_index(hash);
        &self.shards[index]
    }

    /// Replaces a slot of the shard of a hash.
    pub fn replace(&mut self, hash: u64, local_slot: usize, state: IndexSlotStateV1) -> (result: Result<
        IndexSlotStateV1,
        IndexStorageError,
    >)
        requires
            old(self).wf(),
            local_slot < old(self)@[shard_of(old(self)@, hash)].slots.len(),
        ensures
            final(self).wf(),
            ({
                let id = shard_of(old(self)@, hash);
                let shard = old(self)@[id];
                if shard.faults(local_slot as int) {
                    &&& result == Err::<IndexSlotStateV1, IndexStorageError>(
                        shard.fault_at(local_slot as int),
                    )
                    &&& final(self)@ == old(self)@
                } else {
                    &&& result == Ok::<IndexSlotStateV1, IndexStorageError>(shard.slots[local_slot as int])
                    &&& final(self)@ == old(self)@.update(id, shard.replaced(local_slot as int, state))
                }
            }),
    {
        let index = self.shard_index(hash);
        let ghost before = self@;
        assert(before[index as int] == self.shards@[index as int]@);
        let shard = &mut self.shards[index];
        let result = shard.replace(local_slot, state);
        proof {
            assert(self@ =~= before.update(index as int, self.shards@[index as int]@));
            assert(before.update(index as int, before[index as int]) =~= before);
            lemma_slots_update(before, index as int, self.shards@[index as int]@);
            assert forall|k: int| 0 <= k < self.shards@.len() implies (#[trigger] self.shards@[k]).wf() by {
                if k != index {
                    assert(old(self).shards@[k].wf());
                }
            }
        }
        result
    }

    /// Occupied slots of every shard, by kind.
    pub fn shard_stats(&self) -> (stats: Vec<IndexPhysicalStats>)
        requires
            self.wf(),
        ensures
            stats@.len() == self@.len(),
            forall|k: int| 0 <= k < stats@.len() ==> #[trigger] stats@[k] == self@[k].stats(),
    {
        let mut stats: Vec<IndexPhysicalStats> = Vec::new();
        let mut k: usize = 0;
        while k < self.shards.len()
            invariant
                self.wf(),
                k <= self.shards@.len(),
                stats@.len() == k,
                forall|j: int| 0 <= j < k ==> #[trigger] stats@[j] == self@[j].stats(),
            decreases self.shards@.len() - k,
        {
            stats.push(self.shards[k].stats());
            k = k + 1;
        }
        stats
    }

    /// Occupied slots of the whole storage, by kind.
    pub fn physical_stats(&self) -> (stats: IndexPhysicalStats)
        requires
            self.wf(),
        ensures
            stats.value == storage_stats(self@).0,
            stats.deleted == storage_stats(self@).1,
            stats.masked == storage_stats(self@).2,
    {
        let mut stats = IndexPhysicalStats { value: 0, deleted: 0, masked: 0 };
        let mut k: usize = 0;
        while k < self.shards.len()
            invariant
                self.wf(),
                k <= self.shards@.len(),
                self@.len() == self.shards@.len(),
                stats.value == storage_stats(self@.take(k as int)).0,
                stats.deleted == storage_stats(self@.take(k as int)).1,
                stats.masked == storage_stats(self@.take(k as int)).2,
            decreases self.shards@.len() - k,
        {
            proof {
                assert(self@.take(k + 1).drop_last() =~= self@.take(k as int));
                lemma_storage_stats_bounded(self@.take(k + 1));
                lemma_storage_slots_prefix(self@, k + 1);
                lemma_counts_bounded(self@[k as int].slots);
            }
            let shard = self.shards[k].stats();
            stats.value = stats.value + shard.value;
            stats.deleted = stats.deleted + shard.deleted;
            stats.masked = stats.masked + shard.masked;
            k = k + 1;
        }
        assert(self@.take(self@.len() as int) =~= self@);
        stats
    }

    /// Makes every slot of a page fault from now on, for the given reason.
    pub fn mark_page_corrupt(&mut self, page_index: usize, reason: CorruptPageReason)
        requires
            old(self).wf(),
        ensures
            final(self).wf(),
            final(self)@.len() == old(self)@.len(),
            forall|k: int| 0 <= k < old(self)@.len() ==> #[trigger] final(self)@[k] == (IndexShardModel {
                corrupt_pages: old(self)@[k].corrupt_pages.insert(page_index as int, reason),
                ..old(self)@[k]
            }),
    {
        let ghost before = self@;
        let mut k: usize = 0;
        while k < self.shards.len()
            invariant
                before == old(self)@,
                self.wf(),
                k <= self.shards@.len(),
                self.shards@.len() == before.len(),
                forall|j: int| 0 <= j < k ==> #[trigger] self@[j] == (IndexShardModel {
                    corrupt_pages: before[j].corrupt_pages.insert(page_index as int, reason),
                    ..before[j]
                }),
                forall|j: int| k <= j < before.len() ==> #[trigger] self@[j] == before[j],
            decreases self.shards@.len() - k,
        {
            let ghost storage = self@;
            let ghost shards = self.shards@;
            let ghost pages = self.shards@[k as int].corrupt_pages@;
            let shard = &mut self.shards[k];
            shard.corrupt_pages.push((page_index, reason));
            proof {
                let now = self.shards@[k as int];
                assert(now.corrupt_pages@ == pages.push((page_index, reason)));
                assert(now.corrupt_pages@.drop_last() =~= pages);
                assert(now@.corrupt_pages =~= shards[k as int]@.corrupt_pages.insert(page_index as int, reason));
                assert(shards[k as int]@ == storage[k as int]);
                assert(now@ =~= (IndexShardModel {
                    corrupt_pages: before[k as int].corrupt_pages.insert(page_index as int, reason),
                    ..before[k as int]
                }));
                assert(self@ =~= storage.update(k as int, now@));
                lemma_slots_update(storage, k as int, now@);
                assert forall|j: int| 0 <= j < self.shards@.len() implies (#[trigger] self.shards@[j]).wf() by {
                    if j != k {
                        assert(shards[j].wf());
                    }
                }
            }
            k = k + 1;
        }
    }
}

proof fn lemma_slots_update(storage: IndexStorageModel, index: int, shard: IndexShardModel)
    requires
        0 <= index < storage.len(),
        shard.slots.len() == storage[index].slots.len(),
    ensures
        storage_slots(storage.update(index, shard)) == storage_slots(storage),
    decreases storage.len(),
{
    let updated = storage.update(index, shard);
    if index == storage.len() - 1 {
        assert(updated.drop_last() =~= storage.drop_last());
    } else {
        assert(updated.drop_last() =~= storage.drop_last().update(index, shard));
        lemma_slots_update(storage.drop_last(), index, shard);
    }
}

/// One more slot counts for its kind.
pub proof fn law_slots_are_counted_by_kind(slots: Seq<IndexSlotStateV1>, state: IndexSlotStateV1)
    ensures
        value_count(slots.push(state)) == value_count(slots) + if state is Value { 1int } else { 0int },
        deleted_count(slots.push(state)) == deleted_count(slots) + if state is Deleted { 1int } else { 0int },
        masked_count(slots.push(state)) == masked_count(slots) + if state is Masked { 1int } else { 0int },
        value_count(Seq::empty()) == 0,
        deleted_count(Seq::empty()) == 0,
        masked_count(Seq::empty()) == 0,
{
    assert(slots.push(state).drop_last() =~= slots);
}

/// A shard's counts are those of its slots, and a storage's those of its shards.
pub proof fn law_statistics_add_up(storage: IndexStorageModel, shard: IndexShardModel)
    requires
        shard.slots.len() <= usize::MAX,
    ensures
        shard.stats().value == value_count(shard.slots),
        shard.stats().deleted == deleted_count(shard.slots),
        shard.stats().masked == masked_count(shard.slots),
        storage_stats(storage.push(shard)).0 == storage_stats(storage).0 + value_count(shard.slots),
        storage_stats(storage.push(shard)).1 == storage_stats(storage).1 + deleted_count(shard.slots),
        storage_stats(storage.push(shard)).2 == storage_stats(storage).2 + masked_count(shard.slots),
        storage_slots(storage.push(shard)) == storage_slots(storage) + shard.slots.len(),
        storage_stats(Seq::empty()) == (0nat, 0nat, 0nat),
        storage_slots(Seq::empty()) == 0,
{
    assert(storage.push(shard).drop_last() =~= storage);
    lemma_counts_bounded(shard.slots);
}

/// Slots are split into shards of a page each; the last one takes what is left
/// over, and has at least as many slots as a point operation examines if there
/// are that many.
pub proof fn law_shards_hold_a_page_each(slot_count: int)
    requires
        slot_count > 0,
    ensures
        ({
            let count = shard_count_for(slot_count);
            let last = slot_count - 126 * (count - 1);
            &&& count >= 1
            &&& 0 < last < 126 + 8
            &&& slot_count >= 8 ==> last >= 8
        }),
{
}

/// A hash belongs to one shard, whatever it is, and slots to a page of 126 each.
pub proof fn law_places_of_hashes_and_slots(storage: IndexStorageModel, hash: u64, shard: IndexShardModel, slot: int)
    requires
        storage.len() > 0,
    ensures
        0 <= shard_of(storage, hash) < storage.len(),
        shard_of(storage, hash) == hash as int % storage.len() as int,
        126 * shard.page_of(slot) <= shard.first_slot + slot < 126 * shard.page_of(slot) + 126,
        shard.faults(slot) <==> shard.corrupt_pages.contains_key(shard.page_of(slot)),
{
    vstd::arithmetic::div_mod::lemma_mod_bound(hash as int, storage.len() as int);
}

/// A page that was marked as corrupt is one, with the reason it was last marked
/// for, and no other is.
pub proof fn law_marked_pages(marks: Seq<(usize, CorruptPageReason)>, page: usize, reason: CorruptPageReason, other: int)
    ensures
        marked_pages(marks.push((page, reason)))[page as int] == reason,
        marked_pages(marks.push((page, reason))).contains_key(page as int),
        other != page ==> (marked_pages(marks.push((page, reason))).contains_key(other) <==> marked_pages(marks).contains_key(other)),
        other != page && marked_pages(marks).contains_key(other) ==> marked_pages(marks.push((page, reason)))[other]
            == marked_pages(marks)[other],
        !marked_pages(Seq::empty()).contains_key(other),
{
    assert(marks.push((page, reason)).drop_last() =~= marks);
}

} // verus!
