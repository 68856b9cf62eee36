//! Bounded shard-local RAM tier for the hybrid data path.
//!
//! L1 is process-local and never participates in recovery. Entries are visible
//! immediately, may be discarded at any time, and use a small bounded eviction
//! policy.
//!
//! A value that has been handed out stays charged until its last outside handle
//! is gone, even after its entry has left the shard: the shard keeps such
//! values on a side list and releases them when it next looks.

use crate::bytes::bytes_equal;
use crate::containers::{vec_try_reserve, vec_try_reserve_exact};
use crate::eviction::{
    frequency_sum, lemma_rotated, AdmissionHint, EvictionModel, EvictionPolicy, EvictionState, FREQUENCY_COUNTERS,
    MAX_POLICY_SCAN_STEPS, MAX_POLICY_SLOT_INDEX,
};
use crate::expiry::ExpiryClock;
use crate::slot_chains::{chain_of, lemma_front_contains, lemma_removed_contains, without_slot, SlotChains};
use std::sync::Arc;
use vstd::prelude::*;

verus! {

/// Charged resident metadata: the entry slot, eviction-policy slot, and the
/// retained-value ownership. Container buckets and allocator metadata are
/// excluded from managed figures, like the other runtime collections.
pub const MEMORY_ENTRY_OVERHEAD_BYTES: usize = 64;

/// Full-key collision work must stay bounded even when callers supply many
/// distinct keys with the same 64-bit cache hash.
pub const MAX_SAME_HASH_ENTRIES: usize = 8;

/// A foreground admission may discard only a small, fixed number of clean
/// entries. Larger compaction work degrades to L1 bypass instead of scaling
/// with shard occupancy.
pub const MAX_EVICTIONS_PER_INSERT: usize = 16;

// ---------------------------------------------------------------------------
// Budget
// ---------------------------------------------------------------------------

/// Byte budget of one shard.
pub struct MemoryBudget {
    pub capacity_bytes: usize,
    pub used_bytes: usize,
}

/// What became of a request for budget.
#[derive(Clone, Copy, Debug, PartialEq, Eq, Structural)]
pub enum MemoryChargeAttempt {
    Charged,
    Full,
}

impl MemoryBudget {
    /// Usage stays within the capacity.
    pub open spec fn wf(&self) -> bool {
        self.used_bytes <= self.capacity_bytes
    }

    /// An unused budget.
    pub fn new(capacity_bytes: usize) -> (budget: MemoryBudget)
        ensures
            budget.wf(),
            budget == (MemoryBudget { capacity_bytes, used_bytes: 0 }),
    {
        MemoryBudget { capacity_bytes, used_bytes: 0 }
    }

    /// Takes `bytes` out of the budget if they fit.
    pub fn try_charge(&mut self, bytes: usize) -> (attempt: MemoryChargeAttempt)
        requires
            old(self).wf(),
        ensures
            final(self).wf(),
            final(self).capacity_bytes == old(self).capacity_bytes,
            if old(self).used_bytes + bytes <= old(self).capacity_bytes {
                &&& attempt == MemoryChargeAttempt::Charged
                &&& final(self).used_bytes == old(self).used_bytes + bytes
            } else {
                &&& attempt == MemoryChargeAttempt::Full
                &&& *final(self) == *old(self)
            },
    {
        match self.used_bytes.checked_add(bytes) {
            Some(next) => if next > self.capacity_bytes {
                MemoryChargeAttempt::Full
            } else {
                self.used_bytes = next;
                MemoryChargeAttempt::Charged
            },
            None => MemoryChargeAttempt::Full,
        }
    }

    /// Bytes that are not in use.
    pub fn available_bytes(&self) -> (bytes: usize)
        requires
            self.wf(),
        ensures
            bytes == self.capacity_bytes - self.used_bytes,
    {
        self.capacity_bytes - self.used_bytes
    }

    /// Transfers victim charges to one candidate before any resident entry is
    /// removed. A refusal leaves the accounting unchanged.
    pub fn try_transfer_charge(&mut self, released: usize, required: usize) -> (attempt: MemoryChargeAttempt)
        requires
            old(self).wf(),
        ensures
            final(self).wf(),
            final(self).capacity_bytes == old(self).capacity_bytes,
            if released <= old(self).used_bytes && old(self).used_bytes - released + required <= old(self).capacity_bytes {
                &&& attempt == MemoryChargeAttempt::Charged
                &&& final(self).used_bytes == old(self).used_bytes - released + required
            } else {
                &&& attempt == MemoryChargeAttempt::Full
                &&& *final(self) == *old(self)
            },
    {
        if released > self.used_bytes {
            return MemoryChargeAttempt::Full;
        }
        match (self.used_bytes - released).checked_add(required) {
            Some(next) => if next > self.capacity_bytes {
                MemoryChargeAttempt::Full
            } else {
                self.used_bytes = next;
                MemoryChargeAttempt::Charged
            },
            None => MemoryChargeAttempt::Full,
        }
    }

    /// Gives a charge back.
    pub fn release(&mut self, bytes: usize)
        requires
            old(self).wf(),
            bytes <= old(self).used_bytes,
        ensures
            final(self).wf(),
            final(self).capacity_bytes == old(self).capacity_bytes,
            final(self).used_bytes == old(self).used_bytes - bytes,
    {
        self.used_bytes = self.used_bytes - bytes;
    }
}

// ---------------------------------------------------------------------------
// Values
// ---------------------------------------------------------------------------

#[derive(Debug)]
struct MemoryValueInner {
    bytes: Vec<u8>,
    key_length: usize,
}

/// A cached key and value in one shared allocation.
#[derive(Debug)]
pub struct MemoryValue {
    inner: Arc<MemoryValueInner>,
}

/// What a [`MemoryValue`] holds.
#[verifier::ext_equal]
pub struct ValueModel {
    pub key: Seq<u8>,
    pub value: Seq<u8>,
}

impl ValueModel {
    /// Overhead plus the bytes held.
    pub open spec fn charge(self) -> int {
        MEMORY_ENTRY_OVERHEAD_BYTES + self.key.len() + self.value.len()
    }
}

impl View for MemoryValue {
    type V = ValueModel;

    closed spec fn view(&self) -> ValueModel {
        ValueModel {
            key: self.inner.bytes@.take(self.inner.key_length as int),
            value: self.inner.bytes@.skip(self.inner.key_length as int),
        }
    }
}

/// `Arc::strong_count`: how many handles share the allocation. Handles outside
/// the shard come and go on their own, so nothing is claimed of the number but
/// that the handle at hand counts.
#[verifier::external_body]
fn handle_count(handle: &Arc<MemoryValueInner>) -> (count: usize)
    ensures
        count >= 1,
{
    Arc::strong_count(handle)
}

impl MemoryValue {
    /// The value's invariant.
    pub closed spec fn wf(&self) -> bool {
        &&& self.inner.key_length <= self.inner.bytes@.len()
        &&& self.inner.bytes@.len() + MEMORY_ENTRY_OVERHEAD_BYTES <= usize::MAX
    }

    /// Copies a key and a value into one allocation; `None` if their charge
    /// cannot be counted or the allocator refuses, which is not asked for no
    /// bytes.
    pub fn try_new(key: &[u8], value: &[u8]) -> (result: Option<MemoryValue>)
        ensures
            match result {
                Some(stored) => {
                    &&& stored.wf()
                    &&& stored@ == (ValueModel { key: key@, value: value@ })
                    &&& stored@.charge() <= usize::MAX
                },
                None => key@.len() + value@.len() > 0,
            },
    {
        let length: usize = match key.len().checked_add(value.len()) {
            Some(length) => length,
            None => {
                return None;
            },
        };
        if length > usize::MAX - MEMORY_ENTRY_OVERHEAD_BYTES {
            return None;
        }
        let mut bytes: Vec<u8> = Vec::new();
        if !vec_try_reserve_exact(&mut bytes, length) {
            return None;
        }
        Some(MemoryValue::in_room(bytes, key, value))
    }

    /// Copies a key and a value into an allocation that holds nothing yet.
    pub fn in_room(room: Vec<u8>, key: &[u8], value: &[u8]) -> (stored: MemoryValue)
        requires
            room@.len() == 0,
            MEMORY_ENTRY_OVERHEAD_BYTES + key@.len() + value@.len() <= usize::MAX,
        ensures
            stored.wf(),
            stored@ == (ValueModel { key: key@, value: value@ }),
    {
        let mut bytes = room;
        bytes.extend_from_slice(key);
        bytes.extend_from_slice(value);
        proof {
            assert(bytes@ =~= key@ + value@);
            assert(bytes@.take(key@.len() as int) =~= key@);
            assert(bytes@.skip(key@.len() as int) =~= value@);
        }
        MemoryValue { inner: Arc::new(MemoryValueInner { bytes, key_length: key.len() }) }
    }

    /// Overhead plus the bytes held.
    pub fn charged_bytes(&self) -> (bytes: usize)
        requires
            self.wf(),
        ensures
            bytes == self@.charge(),
    {
        MEMORY_ENTRY_OVERHEAD_BYTES + self.inner.bytes.len()
    }

    /// The key.
    pub fn key(&self) -> (key: &[u8])
        requires
            self.wf(),
        ensures
            key@ == self@.key,
    {
        assert(self.inner.bytes@.take(self.inner.key_length as int) =~= self.inner.bytes@.subrange(
            0,
            self.inner.key_length as int,
        ));
        vstd::slice::slice_subrange(self.inner.bytes.as_slice(), 0, self.inner.key_length)
    }

    /// The value.
    pub fn value(&self) -> (value: &[u8])
        requires
            self.wf(),
        ensures
            value@ == self@.value,
    {
        assert(self.inner.bytes@.skip(self.inner.key_length as int) =~= self.inner.bytes@.subrange(
            self.inner.key_length as int,
            self.inner.bytes@.len() as int,
        ));
        vstd::slice::slice_subrange(self.inner.bytes.as_slice(), self.inner.key_length, self.inner.bytes.len())
    }

    /// Another handle on the same allocation.
    pub fn share(&self) -> (handle: MemoryValue)
        ensures
            handle@ == self@,
            self.wf() ==> handle.wf(),
    {
        MemoryValue { inner: Arc::clone(&self.inner) }
    }

    /// How many handles share the allocation, this one among them. Handles
    /// elsewhere may come and go between two calls.
    fn handles(&self) -> (count: usize)
        ensures
            count >= 1,
    {
        handle_count(&self.inner)
    }

    /// Whether dropping one of so many handles frees the allocation and with it
    /// the charge.
    fn releases_charge_on_remove(handles: usize) -> (releases: bool)
        ensures
            releases == !held_elsewhere(handles),
    {
        handles <= 1
    }
}

/// One of so many handles is not the only one.
pub open spec fn held_elsewhere(handles: usize) -> bool {
    handles > 1
}

// ---------------------------------------------------------------------------
// Model of a shard
// ---------------------------------------------------------------------------

/// One resident entry.
#[verifier::ext_equal]
pub struct MemoryItem {
    pub hash: u64,
    pub namespace_id: u32,
    pub stored: ValueModel,
    pub expires_at_unix_ms: u64,
    pub seqno: u64,
}

impl MemoryItem {
    /// Whether the item answers to this hash and key.
    pub open spec fn is_for(self, hash: u64, namespace_id: u32, key: Seq<u8>) -> bool {
        self.hash == hash && self.namespace_id == namespace_id && self.stored.key == key
    }
}

/// Charge of the entries in the slots.
pub open spec fn charge_sum(slots: Seq<u32>, resident: Map<u32, MemoryItem>) -> int
    decreases slots.len(),
{
    if slots.len() == 0 {
        0
    } else {
        charge_sum(slots.drop_last(), resident) + resident[slots.last()].stored.charge()
    }
}

/// Sum of charges.
pub open spec fn byte_sum(charges: Seq<int>) -> int
    decreases charges.len(),
{
    if charges.len() == 0 {
        0
    } else {
        byte_sum(charges.drop_last()) + charges.last()
    }
}

/// No two resident entries answer to the same hash and key.
#[verifier::opaque]
pub open spec fn distinct_items(resident: Map<u32, MemoryItem>) -> bool {
    forall|a: u32, b: u32|
        resident.contains_key(a) && resident.contains_key(b) && a != b ==> !(#[trigger] resident[a]).is_for(
            (#[trigger] resident[b]).hash,
            resident[b].namespace_id,
            resident[b].stored.key,
        )
}

/// What a shard holds.
#[verifier::ext_equal]
pub struct MemoryShardModel {
    pub capacity_bytes: usize,
    /// Resident entries by slot.
    pub resident: Map<u32, MemoryItem>,
    /// Eviction order over the resident slots.
    pub eviction: EvictionModel,
    /// Charges of removed values that may still have handles elsewhere.
    pub lingering: Seq<int>,
}

impl MemoryShardModel {
    /// A shard that holds nothing and has been asked for nothing.
    pub open spec fn fresh(capacity_bytes: usize, policy: EvictionPolicy) -> MemoryShardModel {
        MemoryShardModel {
            capacity_bytes,
            resident: Map::empty(),
            eviction: EvictionModel {
                policy,
                queue: Seq::empty(),
                visited: Seq::empty(),
                hand: 0,
                frequency: Seq::new(FREQUENCY_COUNTERS as nat, |k: int| 0u8),
            },
            lingering: Seq::empty(),
        }
    }

    /// Bytes charged to the shard.
    pub open spec fn used_bytes(self) -> int {
        charge_sum(self.eviction.queue, self.resident) + byte_sum(self.lingering)
    }

    /// How many resident entries have this hash.
    pub open spec fn same_hash(self, hash: u64) -> Set<u32> {
        Set::new(|slot: u32| self.resident.contains_key(slot) && self.resident[slot].hash == hash)
    }

    /// The queue names exactly the resident slots, no key occurs twice, nothing
    /// lingers at a negative charge, and the charge stays within the capacity.
    pub open spec fn valid(self) -> bool {
        &&& self.eviction.valid()
        &&& forall|slot: u32| #[trigger] self.resident.contains_key(slot) <==> self.eviction.queue.contains(slot)
        &&& distinct_items(self.resident)
        &&& forall|k: int| 0 <= k < self.lingering.len() ==> 0 <= #[trigger] self.lingering[k]
        &&& self.used_bytes() <= self.capacity_bytes
    }

    /// The slot holds the entry of this hash and key.
    pub open spec fn holds_at(self, hash: u64, namespace_id: u32, key: Seq<u8>, slot: u32) -> bool {
        self.resident.contains_key(slot) && self.resident[slot].is_for(hash, namespace_id, key)
    }

    /// The slot that holds the entry of this hash and key.
    pub open spec fn find(self, hash: u64, namespace_id: u32, key: Seq<u8>) -> Option<u32> {
        if exists|slot: u32| self.holds_at(hash, namespace_id, key, slot) {
            Some(choose|slot: u32| self.holds_at(hash, namespace_id, key, slot))
        } else {
            None
        }
    }
}

proof fn lemma_find_at(shard: MemoryShardModel, hash: u64, namespace_id: u32, key: Seq<u8>, slot: u32)
    requires
        shard.valid(),
        shard.holds_at(hash, namespace_id, key, slot),
    ensures
        shard.find(hash, namespace_id, key) == Some(slot),
{
    reveal(distinct_items);
    let found = choose|s: u32| shard.holds_at(hash, namespace_id, key, s);
    assert(shard.holds_at(hash, namespace_id, key, found));
    if found != slot {
        assert(!shard.resident[found].is_for(hash, shard.resident[slot].namespace_id, shard.resident[slot].stored.key));
    }
}

proof fn lemma_charge_sum_append(first: Seq<u32>, second: Seq<u32>, resident: Map<u32, MemoryItem>)
    ensures
        charge_sum(first + second, resident) == charge_sum(first, resident) + charge_sum(second, resident),
    decreases second.len(),
{
    if second.len() == 0 {
        assert(first + second =~= first);
    } else {
        assert((first + second).drop_last() =~= first + second.drop_last());
        lemma_charge_sum_append(first, second.drop_last(), resident);
    }
}

proof fn lemma_charge_sum_remove(slots: Seq<u32>, position: int, resident: Map<u32, MemoryItem>)
    requires
        0 <= position < slots.len(),
    ensures
        charge_sum(slots.remove(position), resident) == charge_sum(slots, resident) - resident[slots[position]].stored.charge(),
{
    let front = slots.take(position);
    let one = seq![slots[position]];
    let back = slots.skip(position + 1);
    assert(slots =~= (front + one) + back);
    assert(slots.remove(position) =~= front + back);
    lemma_charge_sum_append(front + one, back, resident);
    lemma_charge_sum_append(front, one, resident);
    lemma_charge_sum_append(front, back, resident);
    assert(one.drop_last() =~= Seq::<u32>::empty());
    assert(charge_sum(one.drop_last(), resident) == 0);
}

proof fn lemma_charge_sum_same(slots: Seq<u32>, first: Map<u32, MemoryItem>, second: Map<u32, MemoryItem>)
    requires
        forall|k: int| 0 <= k < slots.len() ==> first[#[trigger] slots[k]] == second[slots[k]],
    ensures
        charge_sum(slots, first) == charge_sum(slots, second),
    decreases slots.len(),
{
    if slots.len() > 0 {
        let shorter = slots.drop_last();
        assert forall|k: int| 0 <= k < shorter.len() implies first[#[trigger] shorter[k]] == second[shorter[k]] by {
            assert(shorter[k] == slots[k]);
        }
        lemma_charge_sum_same(shorter, first, second);
        assert(first[slots[slots.len() - 1]] == second[slots[slots.len() - 1]]);
    }
}

proof fn lemma_charge_sum_nonnegative(slots: Seq<u32>, resident: Map<u32, MemoryItem>)
    ensures
        0 <= charge_sum(slots, resident),
    decreases slots.len(),
{
    if slots.len() > 0 {
        lemma_charge_sum_nonnegative(slots.drop_last(), resident);
    }
}

proof fn lemma_byte_sum_remove(charges: Seq<int>, position: int)
    requires
        0 <= position < charges.len(),
    ensures
        byte_sum(charges.remove(position)) == byte_sum(charges) - charges[position],
    decreases charges.len(),
{
    if position == charges.len() - 1 {
        assert(charges.remove(position) =~= charges.drop_last());
    } else {
        assert(charges.remove(position).drop_last() =~= charges.drop_last().remove(position));
        lemma_byte_sum_remove(charges.drop_last(), position);
    }
}

proof fn lemma_byte_sum_nonnegative(charges: Seq<int>)
    requires
        forall|k: int| 0 <= k < charges.len() ==> 0 <= #[trigger] charges[k],
    ensures
        0 <= byte_sum(charges),
    decreases charges.len(),
{
    if charges.len() > 0 {
        let shorter = charges.drop_last();
        assert forall|k: int| 0 <= k < shorter.len() implies 0 <= #[trigger] shorter[k] by {
            assert(shorter[k] == charges[k]);
        }
        lemma_byte_sum_nonnegative(shorter);
        assert(0 <= charges[charges.len() - 1]);
    }
}

// ---------------------------------------------------------------------------
// Shard
// ---------------------------------------------------------------------------

struct MemoryEntry {
    value: MemoryValue,
    expires_at_unix_ms: u64,
    seqno: u64,
    namespace_id: u32,
    hash: u64,
}

spec fn item_of(entry: MemoryEntry) -> MemoryItem {
    MemoryItem {
        hash: entry.hash,
        namespace_id: entry.namespace_id,
        stored: entry.value@,
        expires_at_unix_ms: entry.expires_at_unix_ms,
        seqno: entry.seqno,
    }
}

spec fn occupied(slots: Seq<Option<MemoryEntry>>, slot: u32) -> bool {
    slot < slots.len() && slots[slot as int] is Some
}

spec fn resident_of(slots: Seq<Option<MemoryEntry>>) -> Map<u32, MemoryItem> {
    Map::new(|slot: u32| occupied(slots, slot), |slot: u32| item_of(slots[slot as int]->0))
}

/// The slots, the queue, the chains and the free list describe the same set of
/// entries.
#[verifier::opaque]
spec fn arena_linked(slots: Seq<Option<MemoryEntry>>, free: Seq<u32>, queue: Seq<u32>, chains: Map<u64, Seq<u32>>) -> bool {
    &&& forall|slot: u32| #[trigger] occupied(slots, slot) <==> queue.contains(slot)
    &&& forall|slot: u32| #[trigger]
        occupied(slots, slot) ==> {
            let entry = slots[slot as int]->0;
            &&& entry.value.wf()
            &&& chains.contains_key(entry.hash)
            &&& chains[entry.hash].contains(slot)
        }
    &&& forall|hash: u64, slot: u32|
        chains.contains_key(hash) && #[trigger] chains[hash].contains(slot) ==> occupied(slots, slot) && (slots[slot as int]->0).hash == hash
    &&& forall|hash: u64| #[trigger] chains.contains_key(hash) ==> chains[hash].len() <= MAX_SAME_HASH_ENTRIES
    &&& free.no_duplicates()
    &&& forall|k: int| 0 <= k < free.len() ==> (#[trigger] free[k]) < slots.len() && slots[free[k] as int] is None
    &&& forall|i: int| 0 <= i < slots.len() && (#[trigger] slots[i]) is None ==> free.contains(i as u32)
    &&& queue.len() + free.len() == slots.len()
    &&& slots.len() <= MAX_POLICY_SLOT_INDEX + 1
}

/// One shard of the RAM tier.
pub struct MemoryShard {
    budget: MemoryBudget,
    eviction: EvictionState,
    chains: SlotChains,
    slots: Vec<Option<MemoryEntry>>,
    free_slots: Vec<u32>,
    lingering: Vec<MemoryValue>,
}

impl View for MemoryShard {
    type V = MemoryShardModel;

    closed spec fn view(&self) -> MemoryShardModel {
        MemoryShardModel {
            capacity_bytes: self.budget.capacity_bytes,
            resident: resident_of(self.slots@),
            eviction: self.eviction@,
            lingering: Seq::new(self.lingering@.len(), |k: int| self.lingering@[k]@.charge()),
        }
    }
}

impl MemoryShard {
    /// The invariant while `pending` bytes are charged for an entry that is not
    /// resident yet, or no longer.
    closed spec fn wf_pending(&self, pending: int) -> bool {
        &&& arena_linked(self.slots@, self.free_slots@, self.eviction@.queue, self.chains@)
        &&& self.eviction.wf()
        &&& self.chains.wf()
        &&& self.chains.slots() == self.slots@.len()
        &&& self.eviction@.visited.len() == self.slots@.len()
        &&& distinct_items(self@.resident)
        &&& forall|k: int| 0 <= k < self.lingering@.len() ==> (#[trigger] self.lingering@[k]).wf()
        &&& self.budget.wf()
        &&& pending >= 0
        &&& self.budget.used_bytes == self@.used_bytes() + pending
    }

    /// The shard's invariant.
    pub closed spec fn wf(&self) -> bool {
        self.wf_pending(0)
    }

    /// The shard's invariant implies what it promises of its contents.
    pub proof fn lemma_valid(&self)
        requires
            self.wf(),
        ensures
            self@.valid(),
    {
        reveal(arena_linked);
    }

    /// An empty shard.
    pub fn new(capacity_bytes: usize, policy: EvictionPolicy) -> (shard: MemoryShard)
        ensures
            shard.wf(),
            shard@ == MemoryShardModel::fresh(capacity_bytes, policy),
    {
        let shard = MemoryShard {
            budget: MemoryBudget::new(capacity_bytes),
            eviction: EvictionState::new(policy),
            chains: SlotChains::new(),
            slots: Vec::new(),
            free_slots: Vec::new(),
            lingering: Vec::new(),
        };
        proof {
            reveal(arena_linked);
            reveal(distinct_items);
            assert(shard@.resident =~= Map::<u32, MemoryItem>::empty());
            assert(shard@.lingering =~= Seq::<int>::empty());
            assert(shard@.eviction =~= MemoryShardModel::fresh(capacity_bytes, policy).eviction);
        }
        shard
    }

    /// Finds the slot of an entry; at most the chain limit of entries is
    /// compared.
    fn find(&self, hash: u64, namespace_id: u32, key: &[u8]) -> (found: Option<u32>)
        requires
            self.wf(),
        ensures
            found == self@.find(hash, namespace_id, key@),
            found matches Some(slot) ==> occupied(self.slots@, slot) && self@.holds_at(hash, namespace_id, key@, slot),
    {
        proof {
            reveal(arena_linked);
            self.chains.lemma_chain(hash);
            self.lemma_valid();
        }
        let ghost chain = chain_of(self.chains@, hash);
        let mut cursor: Option<u32> = self.chains.head(hash);
        let ghost mut position: int = 0;
        loop
            invariant
                self.wf(),
                self@.valid(),
                self.chains.wf(),
                chain == chain_of(self.chains@, hash),
                0 <= position <= chain.len(),
                cursor == (if position < chain.len() { Some(chain[position]) } else { None }),
                forall|k: int| 0 <= k < position ==> !self@.holds_at(hash, namespace_id, key@, #[trigger] chain[k]),
            decreases chain.len() - position,
        {
            match cursor {
                None => {
                    proof {
                        reveal(arena_linked);
                        assert forall|slot: u32| !self@.holds_at(hash, namespace_id, key@, slot) by {
                            if self@.holds_at(hash, namespace_id, key@, slot) {
                                assert(occupied(self.slots@, slot));
                                assert(chain.contains(slot));
                                let k = chain.index_of(slot);
                                assert(chain[k] == slot);
                            }
                        }
                    }
                    return None;
                },
                Some(slot) => {
                    proof {
                        reveal(arena_linked);
                        assert(self.chains@[hash].contains(slot)) by {
                            assert(chain[position] == slot);
                        }
                        assert(occupied(self.slots@, slot));
                    }
                    let entry = self.slots[slot as usize].as_ref().unwrap();
                    if entry.namespace_id == namespace_id && bytes_equal(entry.value.key(), key) {
                        proof {
                            assert(self@.resident[slot] == item_of(*entry));
                            lemma_find_at(self@, hash, namespace_id, key@, slot);
                        }
                        return Some(slot);
                    }
                    assert(self@.resident[slot] == item_of(*entry));
                    cursor = self.chains.next(slot, Ghost(hash), Ghost(position));
                    proof {
                        position = position + 1;
                    }
                },
            }
        }
    }

    /// Whether the chain of a hash has reached its limit.
    fn hash_chain_is_full(&self, hash: u64) -> (full: bool)
        requires
            self.wf(),
        ensures
            full == (chain_of(self.chains@, hash).len() >= MAX_SAME_HASH_ENTRIES),
    {
        let ghost chain = chain_of(self.chains@, hash);
        let mut cursor: Option<u32> = self.chains.head(hash);
        let mut depth: usize = 0;
        proof {
            self.chains.lemma_chain(hash);
        }
        while depth < MAX_SAME_HASH_ENTRIES
            invariant
                self.chains.wf(),
                chain == chain_of(self.chains@, hash),
                depth <= MAX_SAME_HASH_ENTRIES,
                depth <= chain.len(),
                cursor == (if depth < chain.len() { Some(chain[depth as int]) } else { None }),
            decreases MAX_SAME_HASH_ENTRIES - depth,
        {
            match cursor {
                None => {
                    return false;
                },
                Some(slot) => {
                    cursor = self.chains.next(slot, Ghost(hash), Ghost(depth as int));
                    depth = depth + 1;
                },
            }
        }
        true
    }

    /// Takes an entry out of the arena, its chain and the eviction order. Its
    /// charge is left pending.
    fn take_slot(&mut self, slot: u32, Ghost(pending): Ghost<int>) -> (entry: MemoryEntry)
        requires
            old(self).wf_pending(pending),
            occupied(old(self).slots@, slot),
        ensures
            item_of(entry) == old(self)@.resident[slot],
            entry.value.wf(),
            final(self).wf_pending(pending + entry.value@.charge()),
            final(self)@ == (MemoryShardModel {
                resident: old(self)@.resident.remove(slot),
                eviction: old(self)@.eviction.removed(old(self)@.eviction.queue.index_of(slot)),
                ..old(self)@
            }),
            final(self).budget == old(self).budget,
            final(self).slots@.len() == old(self).slots@.len(),
            final(self).free_slots@.len() == old(self).free_slots@.len() + 1,
            forall|h: u64| (#[trigger] chain_of(final(self).chains@, h)).len() <= chain_of(old(self).chains@, h).len(),
            chain_of(final(self).chains@, entry.hash).len() < chain_of(old(self).chains@, entry.hash).len(),
    {
        let ghost before = self@;
        let ghost slots = self.slots@;
        let ghost free = self.free_slots@;
        let ghost queue = self.eviction@.queue;
        let ghost chains = self.chains@;
        let ghost position = queue.index_of(slot);
        let ghost hash = (slots[slot as int]->0).hash;
        let ghost chain = chains[hash];
        proof {
            reveal(arena_linked);
            self.chains.lemma_chain(hash);
            assert(queue.contains(slot));
            assert(chain.contains(slot));
            lemma_charge_sum_remove(queue, position, before.resident);
        }
        let entry_hash = self.slots[slot as usize].as_ref().unwrap().hash;
        self.eviction.remove(slot);
        self.chains.detach(entry_hash, slot);
        let entry = self.slots[slot as usize].take().unwrap();
        self.free_slots.push(slot);
        proof {
            let after_queue = queue.remove(position);
            let after_chains = without_slot(chains, hash, slot);
            let at = chain.index_of(slot);
            assert(self.slots@ == slots.update(slot as int, None));
            assert(self@.resident =~= before.resident.remove(slot));
            assert forall|x: u32| after_queue.contains(x) <==> x != slot && queue.contains(x) by {
                lemma_removed_contains(queue, position, x);
            }
            assert forall|k: int| 0 <= k < after_queue.len() implies before.resident[#[trigger] after_queue[k]]
                == self@.resident[after_queue[k]] by {
                assert(after_queue.contains(after_queue[k]));
            }
            lemma_charge_sum_same(after_queue, before.resident, self@.resident);
            assert forall|s: u32| #[trigger] occupied(self.slots@, s) <==> after_queue.contains(s) by {
                assert(occupied(slots, s) <==> queue.contains(s));
            }
            lemma_removed_contains(chain, at, slot);
            assert(distinct_items(self@.resident)) by {
                reveal(distinct_items);
            }
            assert forall|s: u32| #[trigger] occupied(self.slots@, s) implies (self.slots@[s as int]->0).value.wf() && after_chains.contains_key(
                (self.slots@[s as int]->0).hash,
            ) && after_chains[(self.slots@[s as int]->0).hash].contains(s) by {
                assert(occupied(slots, s));
                let h = (slots[s as int]->0).hash;
                if h == hash {
                    lemma_removed_contains(chain, at, s);
                    let k = chain.remove(at).index_of(s);
                    assert(chain.remove(at).len() > 0);
                }
            }
            assert forall|h: u64, s: u32|
                after_chains.contains_key(h) && #[trigger] after_chains[h].contains(s) implies occupied(self.slots@, s) && (
            self.slots@[s as int]->0).hash == h by {
                if h == hash {
                    lemma_removed_contains(chain, at, s);
                }
                assert(chains[h].contains(s));
                assert(occupied(slots, s));
            }
            assert forall|k: int| 0 <= k < self.free_slots@.len() implies (#[trigger] self.free_slots@[k]) < self.slots@.len()
                && self.slots@[self.free_slots@[k] as int] is None by {
                if k < free.len() {
                    assert(free[k] < slots.len());
                }
            }
            assert(!free.contains(slot)) by {
                if free.contains(slot) {
                    let k = free.index_of(slot);
                    assert(slots[free[k] as int] is None);
                }
            }
            assert forall|i: int| 0 <= i < self.slots@.len() && (#[trigger] self.slots@[i]) is None implies self.free_slots@.contains(
                i as u32,
            ) by {
                if i == slot {
                    assert(self.free_slots@[free.len() as int] == slot);
                } else {
                    assert(slots[i] is None);
                    let k = free.index_of(i as u32);
                    assert(self.free_slots@[k] == i as u32);
                }
            }
            assert forall|h: u64| #[trigger] after_chains.contains_key(h) implies after_chains[h].len() <= MAX_SAME_HASH_ENTRIES by {
                assert(chains.contains_key(h));
            }
            assert(self.free_slots@.no_duplicates());
            assert(arena_linked(self.slots@, self.free_slots@, after_queue, after_chains));
        }
        entry
    }
}

/// Two queues over the same slots.
pub open spec fn same_slots(first: Seq<u32>, second: Seq<u32>) -> bool {
    &&& first.len() == second.len()
    &&& forall|slot: u32| #[trigger] first.contains(slot) <==> second.contains(slot)
}

/// The charges that linger on: those whose values have more than one handle.
pub open spec fn still_lingering(charges: Seq<int>, handles: Seq<usize>) -> Seq<int>
    decreases charges.len(),
{
    if charges.len() == 0 {
        Seq::empty()
    } else {
        let rest = still_lingering(charges.drop_last(), handles);
        if held_elsewhere(handles[charges.len() - 1]) {
            rest.push(charges.last())
        } else {
            rest
        }
    }
}

/// Counts of later values change nothing for the earlier ones.
proof fn lemma_more_counts(charges: Seq<int>, handles: Seq<usize>, count: usize)
    requires
        charges.len() <= handles.len(),
    ensures
        still_lingering(charges, handles.push(count)) == still_lingering(charges, handles),
    decreases charges.len(),
{
    if charges.len() > 0 {
        lemma_more_counts(charges.drop_last(), handles, count);
    }
}

/// What lingers on is charged no more than before.
proof fn lemma_still_lingering(charges: Seq<int>, handles: Seq<usize>)
    requires
        forall|k: int| 0 <= k < charges.len() ==> 0 <= #[trigger] charges[k],
    ensures
        byte_sum(still_lingering(charges, handles)) <= byte_sum(charges),
        0 <= byte_sum(still_lingering(charges, handles)),
    decreases charges.len(),
{
    if charges.len() > 0 {
        let shorter = charges.drop_last();
        assert forall|k: int| 0 <= k < shorter.len() implies 0 <= #[trigger] shorter[k] by {
            assert(shorter[k] == charges[k]);
        }
        lemma_still_lingering(shorter, handles);
        assert(0 <= charges[charges.len() - 1]);
        let rest = still_lingering(shorter, handles);
        assert(rest.push(charges.last()).drop_last() =~= rest);
    }
}

impl MemoryShard {
    /// A shard whose queue has been reordered is still sound.
    proof fn lemma_requeued(before: &MemoryShard, after: &MemoryShard, pending: int)
        requires
            before.wf_pending(pending),
            after.slots == before.slots,
            after.free_slots == before.free_slots,
            after.chains == before.chains,
            after.lingering == before.lingering,
            after.budget == before.budget,
            after.eviction.wf(),
            after.eviction@.visited.len() == before.eviction@.visited.len(),
            same_slots(before.eviction@.queue, after.eviction@.queue),
            charge_sum(after.eviction@.queue, before@.resident) == charge_sum(before.eviction@.queue, before@.resident),
        ensures
            after.wf_pending(pending),
            after@ == (MemoryShardModel { eviction: after.eviction@, ..before@ }),
    {
        reveal(arena_linked);
        assert forall|s: u32| #[trigger] occupied(after.slots@, s) <==> after.eviction@.queue.contains(s) by {
            assert(before.eviction@.queue.contains(s) <==> after.eviction@.queue.contains(s));
        }
    }

    /// Deals with one removed value that has so many handles: its charge is given
    /// back if there is no other one. Tells which value comes next.
    fn pass_lingering(&mut self, index: usize, handles: usize, Ghost(pending): Ghost<int>) -> (next: usize)
        requires
            old(self).wf_pending(pending),
            index < old(self)@.lingering.len(),
        ensures
            final(self).wf_pending(pending),
            if !held_elsewhere(handles) {
                &&& next == index
                &&& final(self)@ == (MemoryShardModel { lingering: old(self)@.lingering.remove(index as int), ..old(self)@ })
                &&& final(self).budget.used_bytes == old(self).budget.used_bytes - old(self)@.lingering[index as int]
            } else {
                &&& next == index + 1
                &&& *final(self) == *old(self)
            },
            final(self).slots == old(self).slots,
            final(self).free_slots == old(self).free_slots,
            final(self).chains == old(self).chains,
            final(self).eviction == old(self).eviction,
            final(self).budget.capacity_bytes == old(self).budget.capacity_bytes,
    {
        assert(index < self.lingering.len());
        if !MemoryValue::releases_charge_on_remove(handles) {
            return index + 1;
        }
        let ghost charges = self@.lingering;
        let ghost values = self.lingering@;
        proof {
            lemma_byte_sum_remove(charges, index as int);
            assert forall|k: int| 0 <= k < charges.remove(index as int).len() implies 0 <= #[trigger] charges.remove(index as int)[k] by {
                assert(charges.remove(index as int)[k] == charges[if k < index { k } else { k + 1 }]);
            }
            lemma_byte_sum_nonnegative(charges.remove(index as int));
            lemma_charge_sum_nonnegative(self@.eviction.queue, self@.resident);
        }
        let value = self.lingering.remove(index);
        let bytes = value.charged_bytes();
        self.budget.release(bytes);
        proof {
            assert(self@.lingering =~= charges.remove(index as int));
            assert forall|k: int| 0 <= k < self.lingering@.len() implies (#[trigger] self.lingering@[k]).wf() by {
                assert(self.lingering@[k] == values[if k < index { k } else { k + 1 }]);
            }
        }
        index
    }

    /// Releases the charge of removed values that have no other handle left. The
    /// handles are counted in order; the counts are reported.
    fn sweep(&mut self, Ghost(pending): Ghost<int>) -> (answers: Ghost<Seq<usize>>)
        requires
            old(self).wf_pending(pending),
        ensures
            final(self).wf_pending(pending),
            answers@.len() == old(self)@.lingering.len(),
            final(self)@ == (MemoryShardModel { lingering: still_lingering(old(self)@.lingering, answers@), ..old(self)@ }),
            byte_sum(final(self)@.lingering) <= byte_sum(old(self)@.lingering),
            final(self).slots == old(self).slots,
            final(self).free_slots == old(self).free_slots,
            final(self).chains == old(self).chains,
            final(self).eviction == old(self).eviction,
            final(self).budget.capacity_bytes == old(self).budget.capacity_bytes,
            final(self).budget.used_bytes == old(self).budget.used_bytes - byte_sum(old(self)@.lingering) + byte_sum(
                final(self)@.lingering,
            ),
    {
        let ghost charges = self@.lingering;
        let ghost mut answers: Seq<usize> = Seq::empty();
        let mut index: usize = 0;
        assert(still_lingering(charges.take(0), answers) + charges.skip(0) =~= charges);
        while index < self.lingering.len()
            invariant
                charges == old(self)@.lingering,
                self.wf_pending(pending),
                self@ == (MemoryShardModel { lingering: self@.lingering, ..old(self)@ }),
                byte_sum(self@.lingering) <= byte_sum(charges),
                self.slots == old(self).slots,
                self.free_slots == old(self).free_slots,
                self.chains == old(self).chains,
                self.eviction == old(self).eviction,
                self.budget.capacity_bytes == old(self).budget.capacity_bytes,
                self.budget.used_bytes == old(self).budget.used_bytes - byte_sum(charges) + byte_sum(self@.lingering),
                answers.len() <= charges.len(),
                index == still_lingering(charges.take(answers.len() as int), answers).len(),
                self@.lingering == still_lingering(charges.take(answers.len() as int), answers) + charges.skip(
                    answers.len() as int,
                ),
            decreases self.lingering@.len() - index,
        {
            let handles = self.lingering[index].handles();
            let ghost asked = answers.len() as int;
            let ghost before = self@.lingering;
            let ghost passed = still_lingering(charges.take(asked), answers);
            proof {
                lemma_byte_sum_remove(before, index as int);
                assert(before[index as int] == charges[asked]);
                assert(0 <= before[index as int]);
                lemma_more_counts(charges.take(asked), answers, handles);
                answers = answers.push(handles);
                assert(charges.take(asked + 1).drop_last() =~= charges.take(asked));
                assert(passed.push(charges[asked]) + charges.skip(asked + 1) =~= before);
                assert(passed + charges.skip(asked + 1) =~= before.remove(index as int));
            }
            index = self.pass_lingering(index, handles, Ghost(pending));
        }
        proof {
            assert(answers.len() == charges.len()) by {
                assert(self@.lingering.len() == index);
            }
            assert(charges.take(charges.len() as int) =~= charges);
            assert(self@.lingering =~= still_lingering(charges, answers));
        }
        Ghost(answers)
    }

    /// Moves a removed value to the side list; its charge is no longer pending.
    /// It stays charged while it has another handle. The counted handles are
    /// reported.
    fn retire(&mut self, value: MemoryValue, Ghost(pending): Ghost<int>) -> (answers: Ghost<Seq<usize>>)
        requires
            value.wf(),
            old(self).wf_pending(pending + value@.charge()),
            pending >= 0,
        ensures
            final(self).wf_pending(pending),
            answers@.len() == old(self)@.lingering.len() + 1,
            final(self)@ == (MemoryShardModel {
                lingering: still_lingering(old(self)@.lingering.push(value@.charge()), answers@),
                ..old(self)@
            }),
            final(self).slots == old(self).slots,
            final(self).free_slots == old(self).free_slots,
            final(self).chains == old(self).chains,
            final(self).eviction == old(self).eviction,
            final(self).budget.capacity_bytes == old(self).budget.capacity_bytes,
            final(self).budget.used_bytes <= old(self).budget.used_bytes,
    {
        let ghost charges = self@.lingering;
        let ghost values = self.lingering@;
        self.lingering.push(value);
        proof {
            assert(self@.lingering =~= charges.push(value@.charge()));
            assert(charges.push(value@.charge()).drop_last() =~= charges);
            assert forall|k: int| 0 <= k < self.lingering@.len() implies (#[trigger] self.lingering@[k]).wf() by {
                if k < values.len() {
                    assert(self.lingering@[k] == values[k]);
                }
            }
        }
        self.sweep(Ghost(pending))
    }
}

// ---------------------------------------------------------------------------
// Admission
// ---------------------------------------------------------------------------

/// Whether the policy takes victims strictly from the old end of the queue.
pub open spec fn takes_oldest(policy: EvictionPolicy) -> bool {
    policy == EvictionPolicy::Lru || policy == EvictionPolicy::Fifo || policy == EvictionPolicy::TinyLfu
}

/// Victims that an admission may discard: distinct resident entries, at most
/// the fixed number, and not the entry that is being replaced.
pub open spec fn is_victim_plan(shard: MemoryShardModel, replacement: Option<u32>, victims: Seq<u32>) -> bool {
    &&& victims.no_duplicates()
    &&& victims.len() <= MAX_EVICTIONS_PER_INSERT
    &&& forall|k: int| 0 <= k < victims.len() ==> shard.resident.contains_key(#[trigger] victims[k]) && Some(victims[k]) != replacement
}

/// Every entry older than a victim is a victim too, is being replaced, or was
/// found to have handles elsewhere.
pub open spec fn oldest_first(queue: Seq<u32>, replacement: Option<u32>, victims: Seq<u32>, shared: Set<u32>) -> bool {
    forall|older: int, newer: int|
        0 <= older < newer < queue.len() && victims.contains(#[trigger] queue[newer]) ==> victims.contains(#[trigger] queue[older])
            || Some(queue[older]) == replacement || shared.contains(queue[older])
}

/// Whether the policy passes over an entry that has been hit since it last did.
pub open spec fn gives_second_chance(policy: EvictionPolicy) -> bool {
    policy == EvictionPolicy::Clock || policy == EvictionPolicy::Sieve
}

/// How far a search for victims has come.
#[verifier::ext_equal]
pub struct VictimSearch {
    pub eviction: EvictionModel,
    /// The queue position to look at next.
    pub position: int,
    pub victims: Seq<u32>,
    /// Bytes that the victims and the replaced entry give back.
    pub freed: int,
    /// How many entries have been asked for handles elsewhere.
    pub asked: int,
}

impl VictimSearch {
    /// A search that has not looked at any entry.
    pub open spec fn start(eviction: EvictionModel, freed: int) -> VictimSearch {
        VictimSearch {
            eviction,
            position: if eviction.policy == EvictionPolicy::Sieve { eviction.hand } else { 0 },
            victims: Seq::empty(),
            freed,
            asked: 0,
        }
    }

    /// The queue position that is looked at next. Only a hand starts over.
    pub open spec fn target(self) -> Option<int> {
        if 0 <= self.position < self.eviction.queue.len() {
            Some(self.position)
        } else if self.eviction.policy == EvictionPolicy::Sieve && self.eviction.queue.len() > 0 {
            Some(0)
        } else {
            None
        }
    }

    /// The search once it has looked at `queue[target]`: the replaced entry and
    /// victims are skipped, a recent hit is passed over once, and any other entry
    /// is a victim if it has no handle elsewhere.
    pub open spec fn looked_at(self, target: int, resident: Map<u32, MemoryItem>, replacement: Option<u32>, handles: Seq<usize>) -> VictimSearch {
        let slot = self.eviction.queue[target];
        if Some(slot) == replacement || self.victims.contains(slot) {
            VictimSearch { position: target + 1, ..self }
        } else if gives_second_chance(self.eviction.policy) && self.eviction.visited[slot as int] {
            let passed = EvictionModel { visited: self.eviction.visited.update(slot as int, false), ..self.eviction };
            if self.eviction.policy == EvictionPolicy::Sieve {
                VictimSearch { eviction: passed, position: target + 1, ..self }
            } else {
                VictimSearch {
                    eviction: EvictionModel { queue: self.eviction.queue.remove(target).push(slot), ..passed },
                    position: target,
                    ..self
                }
            }
        } else if !held_elsewhere(handles[self.asked]) {
            VictimSearch {
                position: target + 1,
                victims: self.victims.push(slot),
                freed: self.freed + resident[slot].stored.charge(),
                asked: self.asked + 1,
                ..self
            }
        } else {
            VictimSearch { position: target + 1, asked: self.asked + 1, ..self }
        }
    }

    /// Enough has been found, or as much as may be.
    pub open spec fn is_over(self, needed: int) -> bool {
        self.freed >= needed || self.victims.len() >= MAX_EVICTIONS_PER_INSERT || self.target() is None
    }

    /// The search after at most so many more steps.
    pub open spec fn finished(
        self,
        needed: int,
        steps: nat,
        resident: Map<u32, MemoryItem>,
        replacement: Option<u32>,
        handles: Seq<usize>,
    ) -> VictimSearch
        decreases steps,
    {
        if steps == 0 || self.is_over(needed) {
            self
        } else {
            self.looked_at(self.target()->0, resident, replacement, handles).finished(
                needed,
                (steps - 1) as nat,
                resident,
                replacement,
                handles,
            )
        }
    }

    /// The eviction order that the search leaves behind.
    pub open spec fn order(self) -> EvictionModel {
        if self.eviction.policy == EvictionPolicy::Sieve {
            EvictionModel { hand: self.position, ..self.eviction }
        } else {
            self.eviction
        }
    }
}

/// Whatever the remaining answers are, the search that started at `start` ends
/// where the one at `current` does.
#[verifier::opaque]
spec fn continues(
    start: VictimSearch,
    current: VictimSearch,
    taken: nat,
    needed: int,
    resident: Map<u32, MemoryItem>,
    replacement: Option<u32>,
    answers: Seq<usize>,
) -> bool {
    &&& taken <= MAX_POLICY_SCAN_STEPS
    &&& current.asked == answers.len()
    &&& forall|all: Seq<usize>|
        answers.is_prefix_of(all) ==> #[trigger] start.finished(needed, MAX_POLICY_SCAN_STEPS as nat, resident, replacement, all)
            == current.finished(needed, (MAX_POLICY_SCAN_STEPS - taken) as nat, resident, replacement, all)
}

proof fn lemma_search_starts(start: VictimSearch, needed: int, resident: Map<u32, MemoryItem>, replacement: Option<u32>)
    requires
        start.asked == 0,
    ensures
        continues(start, start, 0, needed, resident, replacement, Seq::empty()),
{
    reveal(continues);
}

proof fn lemma_search_continues(
    start: VictimSearch,
    current: VictimSearch,
    taken: nat,
    needed: int,
    resident: Map<u32, MemoryItem>,
    replacement: Option<u32>,
    answers: Seq<usize>,
    next: VictimSearch,
    more: Seq<usize>,
)
    requires
        continues(start, current, taken, needed, resident, replacement, answers),
        taken < MAX_POLICY_SCAN_STEPS,
        !current.is_over(needed),
        answers.is_prefix_of(more),
        next.asked == more.len(),
        next == current.looked_at(current.target()->0, resident, replacement, more),
    ensures
        continues(start, next, taken + 1, needed, resident, replacement, more),
{
    reveal(continues);
    assert forall|all: Seq<usize>| more.is_prefix_of(all) implies #[trigger] start.finished(
        needed,
        MAX_POLICY_SCAN_STEPS as nat,
        resident,
        replacement,
        all,
    ) == next.finished(needed, (MAX_POLICY_SCAN_STEPS - (taken + 1)) as nat, resident, replacement, all) by {
        assert(answers.is_prefix_of(all)) by {
            assert(more =~= all.take(more.len() as int));
            assert(answers =~= all.take(answers.len() as int));
        }
        if current.asked < more.len() {
            assert(more[current.asked] == all.take(more.len() as int)[current.asked]);
        }
        assert(current.looked_at(current.target()->0, resident, replacement, all) == next);
    }
}

proof fn lemma_search_ends(
    start: VictimSearch,
    current: VictimSearch,
    taken: nat,
    needed: int,
    resident: Map<u32, MemoryItem>,
    replacement: Option<u32>,
    answers: Seq<usize>,
)
    requires
        continues(start, current, taken, needed, resident, replacement, answers),
        taken >= MAX_POLICY_SCAN_STEPS || current.is_over(needed),
    ensures
        start.finished(needed, MAX_POLICY_SCAN_STEPS as nat, resident, replacement, answers) == current,
{
    reveal(continues);
    assert(answers.is_prefix_of(answers));
}

/// The entries that remain when these slots are emptied.
pub open spec fn without_slots(resident: Map<u32, MemoryItem>, slots: Seq<u32>) -> Map<u32, MemoryItem> {
    resident.remove_keys(slots.to_set())
}

proof fn lemma_subset_charge(slots: Seq<u32>, queue: Seq<u32>, resident: Map<u32, MemoryItem>)
    requires
        slots.no_duplicates(),
        queue.no_duplicates(),
        forall|k: int| 0 <= k < slots.len() ==> queue.contains(#[trigger] slots[k]),
    ensures
        charge_sum(slots, resident) <= charge_sum(queue, resident),
    decreases slots.len(),
{
    if slots.len() == 0 {
        lemma_charge_sum_nonnegative(queue, resident);
    } else {
        let last = slots.last();
        let position = queue.index_of(last);
        assert(queue.contains(slots[slots.len() - 1]));
        let shorter = slots.drop_last();
        assert forall|k: int| 0 <= k < shorter.len() implies queue.remove(position).contains(#[trigger] shorter[k]) by {
            assert(shorter[k] == slots[k]);
            lemma_removed_contains(queue, position, shorter[k]);
        }
        lemma_removed_contains(queue, position, last);
        lemma_charge_sum_remove(queue, position, resident);
        lemma_subset_charge(shorter, queue.remove(position), resident);
    }
}

fn contains_slot(slots: &Vec<u32>, slot: u32) -> (found: bool)
    ensures
        found == slots@.contains(slot),
{
    let mut index: usize = 0;
    while index < slots.len()
        invariant
            index <= slots@.len(),
            forall|i: int| 0 <= i < index ==> slots@[i] != slot,
        decreases slots@.len() - index,
    {
        if slots[index] == slot {
            assert(slots@[index as int] == slot);
            return true;
        }
        index = index + 1;
    }
    false
}

impl MemoryShard {
    /// Chooses victims until their charge, together with what is `released`
    /// already, covers `needed` bytes, within the fixed limits. Only entries
    /// without other handles qualify. Policies with second chances may reorder
    /// the queue on the way; no entry leaves.
    #[verifier::rlimit(80)]
    fn plan_victims(&mut self, replacement: Option<u32>, released: usize, needed: usize) -> (plan: (
        Vec<u32>,
        usize,
        Ghost<Set<u32>>,
        Ghost<Seq<usize>>,
    ))
        requires
            old(self).wf(),
            released > 0 ==> (replacement matches Some(slot) && occupied(old(self).slots@, slot) && released
                == old(self)@.resident[slot].stored.charge()),
        ensures
            final(self).wf(),
            final(self)@ == (MemoryShardModel { eviction: final(self)@.eviction, ..old(self)@ }),
            final(self).slots == old(self).slots,
            final(self).free_slots == old(self).free_slots,
            final(self).chains == old(self).chains,
            final(self).budget == old(self).budget,
            same_slots(old(self)@.eviction.queue, final(self)@.eviction.queue),
            final(self)@.eviction.frequency == old(self)@.eviction.frequency,
            final(self)@.eviction.policy == old(self)@.eviction.policy,
            takes_oldest(old(self)@.eviction.policy) ==> final(self)@.eviction == old(self)@.eviction && oldest_first(
                old(self)@.eviction.queue,
                replacement,
                plan.0@,
                plan.2@,
            ),
            is_victim_plan(old(self)@, replacement, plan.0@),
            plan.1 == released + charge_sum(plan.0@, old(self)@.resident),
            plan.1 <= old(self).budget.used_bytes,
            ({
                let found = VictimSearch::start(old(self)@.eviction, released as int).finished(
                    needed as int,
                    MAX_POLICY_SCAN_STEPS as nat,
                    old(self)@.resident,
                    replacement,
                    plan.3@,
                );
                &&& plan.0@ == found.victims
                &&& plan.1 == found.freed
                &&& final(self)@.eviction == found.order()
            }),
    {
        let ghost before = *self;
        let ghost start = VictimSearch::start(self@.eviction, released as int);
        let ghost mut answers: Seq<usize> = Seq::empty();
        let ghost resident = self@.resident;
        let mut victims: Vec<u32> = Vec::new();
        let mut freed: usize = released;
        let ghost mut shared: Set<u32> = Set::empty();
        let policy = self.eviction.policy();
        let second_chance = matches!(policy, EvictionPolicy::Clock | EvictionPolicy::Sieve);
        let hand_driven = matches!(policy, EvictionPolicy::Sieve);
        let mut position: usize = if hand_driven { self.eviction.hand() } else { 0 };
        let mut steps: usize = 0;
        proof {
            reveal(arena_linked);
            lemma_charge_sum_nonnegative(self@.eviction.queue, resident);
            assert forall|k: int| 0 <= k < self@.lingering.len() implies 0 <= #[trigger] self@.lingering[k] by {}
            lemma_byte_sum_nonnegative(self@.lingering);
            if released > 0 {
                let slot = replacement->0;
                assert(self@.eviction.queue.contains(slot));
                let one = seq![slot];
                assert(one.drop_last() =~= Seq::<u32>::empty());
                assert(charge_sum(one.drop_last(), resident) == 0);
                lemma_subset_charge(one, self@.eviction.queue, resident);
            }
            lemma_search_starts(start, needed as int, resident, replacement);
            assert(start =~= (VictimSearch {
                eviction: self@.eviction,
                position: position as int,
                victims: victims@,
                freed: freed as int,
                asked: 0,
            }));
        }
        while freed < needed && victims.len() < MAX_EVICTIONS_PER_INSERT && steps < MAX_POLICY_SCAN_STEPS
            invariant
                before == *old(self),
                before.wf(),
                self.wf(),
                resident == before@.resident,
                self@ == (MemoryShardModel { eviction: self@.eviction, ..before@ }),
                self.slots == before.slots,
                self.free_slots == before.free_slots,
                self.chains == before.chains,
                self.lingering == before.lingering,
                self.budget == before.budget,
                same_slots(before@.eviction.queue, self@.eviction.queue),
                charge_sum(self@.eviction.queue, resident) == charge_sum(before@.eviction.queue, resident),
                self@.eviction.frequency == before@.eviction.frequency,
                self@.eviction.policy == policy,
                before@.eviction.policy == policy,
                second_chance == (policy == EvictionPolicy::Clock || policy == EvictionPolicy::Sieve),
                hand_driven == (policy == EvictionPolicy::Sieve),
                !second_chance ==> self@.eviction == before@.eviction,
                position <= self@.eviction.queue.len(),
                steps <= MAX_POLICY_SCAN_STEPS,
                is_victim_plan(before@, replacement, victims@),
                freed == released + charge_sum(victims@, resident),
                freed <= before.budget.used_bytes,
                0 <= byte_sum(before@.lingering),
                released > 0 ==> (replacement matches Some(slot) && occupied(before.slots@, slot) && released
                    == before@.resident[slot].stored.charge()),
                !second_chance ==> forall|k: int| 0 <= k < position ==> victims@.contains(#[trigger] self@.eviction.queue[k]) || Some(
                    self@.eviction.queue[k],
                ) == replacement || shared.contains(self@.eviction.queue[k]),
                !second_chance ==> forall|k: int|
                    position <= k < self@.eviction.queue.len() ==> !victims@.contains(#[trigger] self@.eviction.queue[k]),
                continues(
                    start,
                    VictimSearch {
                        eviction: self@.eviction,
                        position: position as int,
                        victims: victims@,
                        freed: freed as int,
                        asked: answers.len() as int,
                    },
                    steps as nat,
                    needed as int,
                    resident,
                    replacement,
                    answers,
                ),
            ensures
                freed >= needed || victims.len() >= MAX_EVICTIONS_PER_INSERT || steps >= MAX_POLICY_SCAN_STEPS || (position
                    >= self@.eviction.queue.len() && (!hand_driven || self@.eviction.queue.len() == 0)),
            decreases MAX_POLICY_SCAN_STEPS - steps,
        {
            let ghost current = VictimSearch {
                eviction: self@.eviction,
                position: position as int,
                victims: victims@,
                freed: freed as int,
                asked: answers.len() as int,
            };
            let ghost known = answers;
            if position >= self.eviction.len() {
                if !hand_driven || self.eviction.len() == 0 {
                    break;
                }
                position = 0;
            }
            steps = steps + 1;
            let slot = self.eviction.slot_at(position);
            let ghost queue = self@.eviction.queue;
            proof {
                reveal(arena_linked);
                assert(queue.contains(slot)) by {
                    assert(queue[position as int] == slot);
                }
                assert(occupied(self.slots@, slot));
            }
            let is_replacement = match replacement {
                Some(replaced) => replaced == slot,
                None => false,
            };
            if is_replacement || contains_slot(&victims, slot) {
                position = position + 1;
            } else if second_chance && self.eviction.is_visited(slot) {
                let ghost current = *self;
                self.eviction.clear_visited(slot);
                if hand_driven {
                    position = position + 1;
                } else {
                    self.eviction.rotate(position);
                    proof {
                        lemma_rotated(queue, position as int);
                        lemma_charge_sum_remove(queue, position as int, resident);
                        let rotated = queue.remove(position as int).push(slot);
                        assert(rotated.drop_last() =~= queue.remove(position as int));
                    }
                }
                proof {
                    MemoryShard::lemma_requeued(&current, self, 0);
                    assert forall|x: u32| #[trigger] before@.eviction.queue.contains(x) <==> self@.eviction.queue.contains(x) by {
                        assert(before@.eviction.queue.contains(x) <==> current@.eviction.queue.contains(x));
                        assert(current@.eviction.queue.contains(x) <==> self@.eviction.queue.contains(x));
                    }
                }
            } else {
                let entry = self.slots[slot as usize].as_ref().unwrap();
                let handles = entry.value.handles();
                proof {
                    answers = known.push(handles);
                    assert(known =~= answers.take(known.len() as int));
                }
                if MemoryValue::releases_charge_on_remove(handles) {
                    let weight = entry.value.charged_bytes();
                    let ghost chosen = victims@;
                    proof {
                        assert(resident[slot] == item_of(*entry));
                        let more = chosen.push(slot);
                        assert(more.drop_last() =~= chosen);
                        let all = if released > 0 { seq![replacement->0] + more } else { more };
                        assert forall|k: int| 0 <= k < all.len() implies before@.eviction.queue.contains(#[trigger] all[k]) by {
                            if released > 0 {
                                if k == 0 {
                                    assert(occupied(before.slots@, replacement->0));
                                } else {
                                    assert(all[k] == more[k - 1]);
                                    if k - 1 < chosen.len() {
                                        assert(more[k - 1] == chosen[k - 1]);
                                        assert(before@.resident.contains_key(chosen[k - 1]));
                                        assert(occupied(before.slots@, chosen[k - 1]));
                                    }
                                }
                            } else {
                                if k < chosen.len() {
                                    assert(more[k] == chosen[k]);
                                    assert(before@.resident.contains_key(chosen[k]));
                                    assert(occupied(before.slots@, chosen[k]));
                                }
                            }
                        }
                        assert(more.no_duplicates());
                        assert(all.no_duplicates()) by {
                            if released > 0 {
                                assert forall|i: int, j: int| 0 <= i < j < all.len() implies all[i] != all[j] by {
                                    assert(all[j] == more[j - 1]);
                                    if i > 0 {
                                        assert(all[i] == more[i - 1]);
                                    } else if j - 1 < chosen.len() {
                                        assert(more[j - 1] == chosen[j - 1]);
                                        assert(Some(chosen[j - 1]) != replacement);
                                    }
                                }
                            }
                        }
                        lemma_subset_charge(all, before@.eviction.queue, resident);
                        if released > 0 {
                            lemma_charge_sum_append(seq![replacement->0], more, resident);
                            assert(seq![replacement->0].drop_last() =~= Seq::<u32>::empty());
                            assert(charge_sum(seq![replacement->0].drop_last(), resident) == 0);
                        }
                    }
                    victims.push(slot);
                    freed = freed + weight;
                    proof {
                        assert forall|k: int| 0 <= k < victims@.len() implies before@.resident.contains_key(#[trigger] victims@[k])
                            && Some(victims@[k]) != replacement by {
                            if k < chosen.len() {
                                assert(victims@[k] == chosen[k]);
                            }
                        }
                        assert(victims@[chosen.len() as int] == slot);
                        assert forall|x: u32| chosen.contains(x) implies #[trigger] victims@.contains(x) by {
                            let k = chosen.index_of(x);
                            assert(victims@[k] == x);
                        }
                        assert forall|k: int| position + 1 <= k < queue.len() && !second_chance implies !victims@.contains(#[trigger] queue[k]) by {
                            assert(queue[k] != slot);
                            if victims@.contains(queue[k]) {
                                let at = victims@.index_of(queue[k]);
                                assert(chosen[at] == queue[k]);
                                assert(chosen.contains(queue[k]));
                            }
                        }
                    }
                } else {
                    proof {
                        shared = shared.insert(slot);
                    }
                }
                position = position + 1;
            }
            proof {
                let next = VictimSearch {
                    eviction: self@.eviction,
                    position: position as int,
                    victims: victims@,
                    freed: freed as int,
                    asked: answers.len() as int,
                };
                assert(next =~= current.looked_at(current.target()->0, resident, replacement, answers));
                lemma_search_continues(
                    start,
                    current,
                    (steps - 1) as nat,
                    needed as int,
                    resident,
                    replacement,
                    known,
                    next,
                    answers,
                );
            }
        }
        proof {
            lemma_search_ends(
                start,
                VictimSearch {
                    eviction: self@.eviction,
                    position: position as int,
                    victims: victims@,
                    freed: freed as int,
                    asked: answers.len() as int,
                },
                steps as nat,
                needed as int,
                resident,
                replacement,
                answers,
            );
        }
        if hand_driven {
            let ghost current = *self;
            self.eviction.set_hand(position);
            proof {
                MemoryShard::lemma_requeued(&current, self, 0);
            }
        }
        (victims, freed, Ghost(shared), Ghost(answers))
    }
}

/// What became of a request for budget.
#[derive(Clone, Copy, Debug, PartialEq, Eq, Structural)]
enum ChargeResult {
    Charged { evictions: usize },
    Rejected { admission: bool },
}

/// The slots that an admission empties: the replaced one and the victims.
pub open spec fn emptied(replacement: Option<u32>, victims: Seq<u32>) -> Seq<u32> {
    match replacement {
        Some(slot) => victims.push(slot),
        None => victims,
    }
}

/// The eviction order once these slots have left, one after the other.
pub open spec fn evicted(eviction: EvictionModel, slots: Seq<u32>) -> EvictionModel
    decreases slots.len(),
{
    if slots.len() == 0 {
        eviction
    } else {
        let rest = evicted(eviction, slots.drop_last());
        rest.removed(rest.queue.index_of(slots.last()))
    }
}

/// The handles that a shard counts while it makes room.
#[verifier::ext_equal]
pub struct HandlesSeen {
    /// Of the lingering values, before anything else.
    pub swept: Seq<usize>,
    /// Of the replaced entry.
    pub replaced: usize,
    /// Of the entries considered as victims, in order.
    pub considered: Seq<usize>,
    /// Of the lingering values once the replaced one has joined them.
    pub retired: Seq<usize>,
}

/// What becomes of a request for budget, and what it leaves of the eviction
/// order and of lingering values.
pub enum ChargeModel {
    Charged { victims: Seq<u32>, eviction: EvictionModel, lingering: Seq<int> },
    Rejected { admission: bool, eviction: EvictionModel, lingering: Seq<int> },
}

impl MemoryShardModel {
    /// What lingers once values without another handle have been given back.
    pub open spec fn swept(self, seen: HandlesSeen) -> Seq<int> {
        still_lingering(self.lingering, seen.swept)
    }

    /// What lingers once the replaced value has joined and values without another
    /// handle have been given back.
    pub open spec fn retired(self, replacement: Option<u32>, seen: HandlesSeen) -> Seq<int> {
        match replacement {
            Some(slot) => still_lingering(self.swept(seen).push(self.resident[slot].stored.charge()), seen.retired),
            None => self.swept(seen),
        }
    }

    /// Bytes that are not in use once lingering values have been looked after.
    pub open spec fn available_bytes(self, seen: HandlesSeen) -> int {
        self.capacity_bytes - charge_sum(self.eviction.queue, self.resident) - byte_sum(self.swept(seen))
    }

    /// The search for victims that make room for `required` bytes.
    pub open spec fn victim_search(self, required: int, replacement: Option<u32>, seen: HandlesSeen) -> VictimSearch {
        let released = match replacement {
            Some(slot) => if held_elsewhere(seen.replaced) {
                0
            } else {
                self.resident[slot].stored.charge()
            },
            None => 0,
        };
        VictimSearch::start(self.eviction, released).finished(
            required - self.available_bytes(seen),
            MAX_POLICY_SCAN_STEPS as nat,
            self.resident,
            replacement,
            seen.considered,
        )
    }

    /// Whether and how room is made for `required` bytes. What fits is charged
    /// at once. Otherwise victims are searched for; they have to suffice, and
    /// behind the frequency gate the newcomer has to have been asked for more
    /// often than all of them together. The replaced value's charge passes to
    /// the newcomer only if nothing else holds the value and room was short.
    pub open spec fn charge_decision(self, required: int, hint: AdmissionHint, replacement: Option<u32>, seen: HandlesSeen) -> ChargeModel {
        let found = self.victim_search(required, replacement, seen);
        if required > self.capacity_bytes {
            ChargeModel::Rejected { admission: false, eviction: self.eviction, lingering: self.lingering }
        } else if required <= self.available_bytes(seen) {
            ChargeModel::Charged {
                victims: Seq::empty(),
                eviction: evicted(self.eviction, emptied(replacement, Seq::empty())),
                lingering: self.retired(replacement, seen),
            }
        } else if found.freed < required - self.available_bytes(seen) {
            ChargeModel::Rejected { admission: false, eviction: found.order(), lingering: self.swept(seen) }
        } else if self.eviction.policy == EvictionPolicy::TinyLfu && found.victims.len() > 0 && hint.frequency <= frequency_sum(
            self.eviction,
            hashes_of(self.resident, found.victims),
        ) {
            ChargeModel::Rejected { admission: true, eviction: found.order(), lingering: self.swept(seen) }
        } else {
            ChargeModel::Charged {
                victims: found.victims,
                eviction: evicted(found.order(), emptied(replacement, found.victims)),
                lingering: if held_elsewhere(seen.replaced) {
                    self.retired(replacement, seen)
                } else {
                    self.swept(seen)
                },
            }
        }
    }
}

impl MemoryShard {
    /// Takes planned victims out of the shard. Their charge is left pending.
    fn discard(&mut self, victims: &Vec<u32>, Ghost(pending): Ghost<int>)
        requires
            old(self).wf_pending(pending),
            victims@.no_duplicates(),
            forall|k: int| 0 <= k < victims@.len() ==> occupied(old(self).slots@, #[trigger] victims@[k]),
        ensures
            final(self).wf_pending(pending + charge_sum(victims@, old(self)@.resident)),
            final(self)@.resident == without_slots(old(self)@.resident, victims@),
            final(self)@.eviction == evicted(old(self)@.eviction, victims@),
            final(self)@.capacity_bytes == old(self)@.capacity_bytes,
            final(self)@.lingering == old(self)@.lingering,
            final(self)@.eviction.policy == old(self)@.eviction.policy,
            final(self)@.eviction.frequency == old(self)@.eviction.frequency,
            final(self).budget == old(self).budget,
            final(self).slots@.len() == old(self).slots@.len(),
            final(self).free_slots@.len() == old(self).free_slots@.len() + victims@.len(),
            forall|h: u64| (#[trigger] chain_of(final(self).chains@, h)).len() <= chain_of(old(self).chains@, h).len(),
    {
        let ghost before = self@;
        let mut index: usize = 0;
        proof {
            assert(without_slots(before.resident, victims@.take(0)) =~= before.resident);
            assert(victims@.take(0) =~= Seq::<u32>::empty());
        }
        while index < victims.len()
            invariant
                before == old(self)@,
                index <= victims@.len(),
                victims@.no_duplicates(),
                forall|k: int| 0 <= k < victims@.len() ==> before.resident.contains_key(#[trigger] victims@[k]),
                self.wf_pending(pending + charge_sum(victims@.take(index as int), before.resident)),
                self@.resident == without_slots(before.resident, victims@.take(index as int)),
                self@.eviction == evicted(before.eviction, victims@.take(index as int)),
                self@.capacity_bytes == before.capacity_bytes,
                self@.lingering == before.lingering,
                self@.eviction.policy == before.eviction.policy,
                self@.eviction.frequency == before.eviction.frequency,
                self.budget == old(self).budget,
                self.slots@.len() == old(self).slots@.len(),
                self.free_slots@.len() == old(self).free_slots@.len() + index,
                forall|h: u64| (#[trigger] chain_of(self.chains@, h)).len() <= chain_of(old(self).chains@, h).len(),
            decreases victims@.len() - index,
        {
            let slot = victims[index];
            let ghost taken = victims@.take(index as int);
            let ghost more = victims@.take(index + 1);
            proof {
                assert(more.drop_last() =~= taken);
                assert(!taken.to_set().contains(slot)) by {
                    if taken.contains(slot) {
                        let k = taken.index_of(slot);
                        assert(victims@[k] == victims@[index as int]);
                    }
                }
                assert(self@.resident.contains_key(slot));
                assert(self@.resident[slot] == before.resident[slot]);
                assert(occupied(self.slots@, slot));
            }
            let ghost pending_now = pending + charge_sum(taken, before.resident);
            let ghost middle = self@;
            let _victim = self.take_slot(slot, Ghost(pending_now));
            proof {
                assert forall|x: u32| more.to_set().contains(x) <==> x == slot || taken.to_set().contains(x) by {
                    if taken.contains(x) {
                        let k = taken.index_of(x);
                        assert(more[k] == x);
                    }
                    assert(more[index as int] == slot);
                    if more.contains(x) && x != slot {
                        let k = more.index_of(x);
                        assert(taken[k] == x);
                    }
                }
                assert(self@.resident =~= without_slots(before.resident, more));
            }
            index = index + 1;
        }
        assert(victims@.take(victims@.len() as int) =~= victims@);
    }

    /// Makes room for `required` bytes and charges them, discarding entries
    /// where it has to. A refusal leaves every entry where it was.
    #[verifier::rlimit(60)]
    fn charge_with_eviction(&mut self, required: usize, hint: AdmissionHint, replacement: Option<u32>) -> (outcome: (
        ChargeResult,
        Ghost<Seq<u32>>,
        Ghost<HandlesSeen>,
    ))
        requires
            old(self).wf(),
            replacement matches Some(slot) ==> occupied(old(self).slots@, slot),
        ensures
            match outcome.0 {
                ChargeResult::Charged { evictions } => {
                    &&& final(self).wf_pending(required as int)
                    &&& required <= old(self)@.capacity_bytes
                    &&& evictions == outcome.1@.len()
                    &&& is_victim_plan(old(self)@, replacement, outcome.1@)
                    &&& final(self)@.resident == without_slots(old(self)@.resident, emptied(replacement, outcome.1@))
                    &&& final(self).free_slots@.len() == old(self).free_slots@.len() + emptied(replacement, outcome.1@).len()
                    &&& replacement matches Some(slot) ==> chain_of(final(self).chains@, old(self)@.resident[slot].hash).len() < chain_of(
                        old(self).chains@,
                        old(self)@.resident[slot].hash,
                    ).len()
                    &&& old(self)@.charge_decision(required as int, hint, replacement, outcome.2@) == (ChargeModel::Charged {
                        victims: outcome.1@,
                        eviction: final(self)@.eviction,
                        lingering: final(self)@.lingering,
                    })
                },
                ChargeResult::Rejected { admission } => {
                    &&& final(self).wf()
                    &&& final(self)@.resident == old(self)@.resident
                    &&& final(self).free_slots@.len() == old(self).free_slots@.len()
                    &&& same_slots(old(self)@.eviction.queue, final(self)@.eviction.queue)
                    &&& old(self)@.charge_decision(required as int, hint, replacement, outcome.2@) == (ChargeModel::Rejected {
                        admission,
                        eviction: final(self)@.eviction,
                        lingering: final(self)@.lingering,
                    })
                },
            },
            final(self)@.capacity_bytes == old(self)@.capacity_bytes,
            final(self)@.eviction.policy == old(self)@.eviction.policy,
            final(self)@.eviction.frequency == old(self)@.eviction.frequency,
            final(self).slots@.len() == old(self).slots@.len(),
            forall|h: u64| (#[trigger] chain_of(final(self).chains@, h)).len() <= chain_of(old(self).chains@, h).len(),
    {
        let ghost before = self@;
        let ghost mut seen = HandlesSeen { swept: Seq::empty(), replaced: 1, considered: Seq::empty(), retired: Seq::empty() };
        if required > self.budget.capacity_bytes {
            return (ChargeResult::Rejected { admission: false }, Ghost(Seq::empty()), Ghost(seen));
        }
        let Ghost(lingering_handles) = self.sweep(Ghost(0));
        proof {
            seen = HandlesSeen { swept: lingering_handles, ..seen };
            assert(before.available_bytes(seen) == self.budget.capacity_bytes - self.budget.used_bytes);
        }
        match self.budget.try_charge(required) {
            MemoryChargeAttempt::Charged => {
                let ghost none: Seq<u32> = Seq::empty();
                match replacement {
                    Some(slot) => {
                        let entry = self.take_slot(slot, Ghost(required as int));
                        let Ghost(retired_handles) = self.retire(entry.value, Ghost(required as int));
                        proof {
                            seen = HandlesSeen { retired: retired_handles, ..seen };
                            assert(none.push(slot)[0] == slot);
                            assert forall|x: u32| none.push(slot).to_set().contains(x) <==> x == slot by {
                                if none.push(slot).contains(x) {
                                    let k = none.push(slot).index_of(x);
                                }
                            }
                            assert(self@.resident =~= without_slots(before.resident, none.push(slot)));
                            assert(none.push(slot).drop_last() =~= none);
                            assert(evicted(before.eviction, none) == before.eviction);
                        }
                    },
                    None => {
                        assert(self@.resident =~= without_slots(before.resident, none));
                    },
                }
                return (ChargeResult::Charged { evictions: 0 }, Ghost(none), Ghost(seen));
            },
            MemoryChargeAttempt::Full => {},
        }
        let ghost swept = self@;
        let ghost mut replaced_handles: usize = 1;
        let mut transfers = false;
        let mut replacement_bytes: usize = 0;
        if let Some(slot) = replacement {
            proof {
                reveal(arena_linked);
            }
            let entry = self.slots[slot as usize].as_ref().unwrap();
            let handles = entry.value.handles();
            proof {
                replaced_handles = handles;
            }
            if MemoryValue::releases_charge_on_remove(handles) {
                transfers = true;
                replacement_bytes = entry.value.charged_bytes();
                assert(swept.resident[slot] == item_of(*entry));
            }
        }
        let available = self.budget.available_bytes();
        let required_release = required - available;
        let (victims, released, Ghost(_shared), Ghost(answers)) = self.plan_victims(replacement, replacement_bytes, required_release);
        let ghost planned = *self;
        proof {
            seen = HandlesSeen { replaced: replaced_handles, considered: answers, ..seen };
            assert(before.available_bytes(seen) == available);
            assert(before.victim_search(required as int, replacement, seen).order() == self@.eviction);
        }
        if released < required_release {
            return (ChargeResult::Rejected { admission: false }, Ghost(Seq::empty()), Ghost(seen));
        }
        let hashes = self.victim_hashes(&victims);
        if !self.eviction.admits_victims(hint, &hashes) {
            proof {
                lemma_frequency_sum_same(before.eviction, self@.eviction, hashes@);
            }
            return (ChargeResult::Rejected { admission: true }, Ghost(victims@), Ghost(seen));
        }
        proof {
            lemma_frequency_sum_same(before.eviction, self@.eviction, hashes@);
            assert forall|k: int| 0 <= k < victims@.len() implies occupied(self.slots@, #[trigger] victims@[k]) by {
                assert(self@.resident.contains_key(victims@[k]));
            }
        }
        let ghost queued = self@;
        self.discard(&victims, Ghost(0));
        let ghost victim_bytes = charge_sum(victims@, queued.resident);
        let ghost cleared = self@;
        let ghost mut pending: int = victim_bytes;
        if let Some(slot) = replacement {
            proof {
                assert(!victims@.to_set().contains(slot)) by {
                    if victims@.contains(slot) {
                        let k = victims@.index_of(slot);
                        assert(Some(victims@[k]) != replacement);
                    }
                }
                assert(queued.resident.contains_key(slot)) by {
                    assert(occupied(planned.slots@, slot));
                }
                assert(self@.resident.contains_key(slot));
                assert(occupied(self.slots@, slot));
            }
            let ghost chains_before = self.chains@;
            let entry = self.take_slot(slot, Ghost(pending));
            if transfers {
                proof {
                    pending = pending + entry.value@.charge();
                }
            } else {
                let Ghost(retired_handles) = self.retire(entry.value, Ghost(pending));
                proof {
                    seen = HandlesSeen { retired: retired_handles, ..seen };
                }
            }
            proof {
                let gone = victims@.push(slot);
                assert forall|x: u32| gone.to_set().contains(x) <==> x == slot || victims@.to_set().contains(x) by {
                    assert(gone[victims@.len() as int] == slot);
                    if victims@.contains(x) {
                        let k = victims@.index_of(x);
                        assert(gone[k] == x);
                    }
                    if gone.contains(x) && x != slot {
                        let k = gone.index_of(x);
                        assert(victims@[k] == x);
                    }
                }
                assert(self@.resident =~= without_slots(before.resident, gone));
                assert(gone.drop_last() =~= victims@);
            }
        }
        proof {
            assert(self@.eviction == evicted(queued.eviction, emptied(replacement, victims@)));
            assert(pending == released);
            lemma_charge_sum_nonnegative(self@.eviction.queue, self@.resident);
            assert forall|k: int| 0 <= k < self@.lingering.len() implies 0 <= #[trigger] self@.lingering[k] by {}
            lemma_byte_sum_nonnegative(self@.lingering);
        }
        let attempt = self.budget.try_transfer_charge(released, required);
        assert(attempt == MemoryChargeAttempt::Charged);
        (ChargeResult::Charged { evictions: victims.len() }, Ghost(victims@), Ghost(seen))
    }

    /// The hashes of planned victims, in order.
    fn victim_hashes(&self, victims: &Vec<u32>) -> (hashes: Vec<u64>)
        requires
            self.wf(),
            forall|k: int| 0 <= k < victims@.len() ==> self@.resident.contains_key(#[trigger] victims@[k]),
        ensures
            hashes@ == hashes_of(self@.resident, victims@),
    {
        let mut hashes: Vec<u64> = Vec::new();
        let mut index: usize = 0;
        while index < victims.len()
            invariant
                self.wf(),
                forall|k: int| 0 <= k < victims@.len() ==> self@.resident.contains_key(#[trigger] victims@[k]),
                index <= victims@.len(),
                hashes@.len() == index,
                forall|k: int| 0 <= k < index ==> #[trigger] hashes@[k] == self@.resident[victims@[k]].hash,
            decreases victims@.len() - index,
        {
            let slot = victims[index];
            assert(self@.resident.contains_key(slot));
            assert(occupied(self.slots@, slot));
            hashes.push(self.slots[slot as usize].as_ref().unwrap().hash);
            index = index + 1;
        }
        assert(hashes@ =~= hashes_of(self@.resident, victims@));
        hashes
    }
}

/// The hashes of the entries in the slots.
pub open spec fn hashes_of(resident: Map<u32, MemoryItem>, slots: Seq<u32>) -> Seq<u64> {
    Seq::new(slots.len(), |k: int| resident[slots[k]].hash)
}

proof fn lemma_frequency_sum_same(first: EvictionModel, second: EvictionModel, hashes: Seq<u64>)
    requires
        first.frequency == second.frequency,
    ensures
        frequency_sum(first, hashes) == frequency_sum(second, hashes),
    decreases hashes.len(),
{
    if hashes.len() > 0 {
        lemma_frequency_sum_same(first, second, hashes.drop_last());
    }
}

/// What became of an entry offered to a shard.
#[derive(Clone, Copy, Debug, PartialEq, Eq, Structural)]
pub struct MemoryInsertResult {
    pub inserted: bool,
    pub evictions: usize,
    pub admission_rejected: bool,
}

impl MemoryInsertResult {
    /// Not admitted, without any work done.
    pub fn bypassed() -> (result: MemoryInsertResult)
        ensures
            result == (MemoryInsertResult { inserted: false, evictions: 0, admission_rejected: false }),
    {
        MemoryInsertResult { inserted: false, evictions: 0, admission_rejected: false }
    }

    /// Not admitted.
    pub fn rejected(evictions: usize, admission_rejected: bool) -> (result: MemoryInsertResult)
        ensures
            result == (MemoryInsertResult { inserted: false, evictions, admission_rejected }),
    {
        MemoryInsertResult { inserted: false, evictions, admission_rejected }
    }
}

impl MemoryShardModel {
    /// Room for one more entry of this hash in its chain.
    pub open spec fn chain_has_room(self, hash: u64) -> bool {
        self.same_hash(hash).len() < MAX_SAME_HASH_ENTRIES
    }

    /// No slot is vacant and no further one can be named.
    pub open spec fn is_full(self) -> bool {
        self.eviction.queue.len() == self.eviction.visited.len() && self.eviction.visited.len() > MAX_POLICY_SLOT_INDEX
    }

    /// The shard with an entry in `slot`, which was vacant, as its newest.
    pub open spec fn with_entry(self, slot: u32, item: MemoryItem) -> MemoryShardModel {
        MemoryShardModel {
            resident: self.resident.insert(slot, item),
            eviction: EvictionModel {
                queue: self.eviction.queue.push(slot),
                visited: if slot < self.eviction.visited.len() {
                    self.eviction.visited.update(slot as int, false)
                } else {
                    self.eviction.visited.push(false)
                },
                ..self.eviction
            },
            ..self
        }
    }

    /// What becomes of an entry for which room has been made. It comes in, in a
    /// slot that was vacant, if its copy has been allocated and a slot is left.
    pub open spec fn settlement(
        self,
        item: MemoryItem,
        allocated: bool,
        evictions: usize,
        after: MemoryShardModel,
        result: MemoryInsertResult,
    ) -> bool {
        if !allocated || self.is_full() {
            &&& after == self
            &&& result == (MemoryInsertResult { inserted: false, evictions, admission_rejected: false })
        } else {
            let slot = after.eviction.queue.last();
            &&& slot <= self.eviction.visited.len()
            &&& !self.resident.contains_key(slot)
            &&& after == self.with_entry(slot, item)
            &&& after.find(item.hash, item.namespace_id, item.stored.key) == Some(slot)
            &&& result == (MemoryInsertResult { inserted: true, evictions, admission_rejected: false })
        }
    }

    /// What offering an entry does, depending on the given circumstances. An
    /// entry is bypassed if the chain of its hash is full, its charge cannot be
    /// counted or its admission cannot be prepared. Else room is made for it,
    /// the entry of its key and the victims leave, and it comes in.
    pub open spec fn insert_outcome(
        self,
        item: MemoryItem,
        hint: AdmissionHint,
        given: InsertCircumstances,
        after: MemoryShardModel,
        result: MemoryInsertResult,
    ) -> bool {
        let replacement = self.find(item.hash, item.namespace_id, item.stored.key);
        if (replacement is None && !self.chain_has_room(item.hash)) || item.stored.charge() > usize::MAX || !given.prepared {
            &&& after == self
            &&& result == (MemoryInsertResult { inserted: false, evictions: 0, admission_rejected: false })
        } else {
            match self.charge_decision(item.stored.charge(), hint, replacement, given.seen) {
                ChargeModel::Rejected { admission, eviction, lingering } => {
                    &&& after == (MemoryShardModel { eviction, lingering, ..self })
                    &&& result == (MemoryInsertResult { inserted: false, evictions: 0, admission_rejected: admission })
                },
                ChargeModel::Charged { victims, eviction, lingering } => {
                    let rest = MemoryShardModel {
                        resident: without_slots(self.resident, emptied(replacement, victims)),
                        eviction,
                        lingering,
                        ..self
                    };
                    &&& rest.settlement(item, given.allocated, victims.len() as usize, after, result)
                    &&& given.allocated || rest.may_be_denied(item)
                },
            }
        }
    }
}

impl MemoryShardModel {
    /// The allocator is asked for the item: it has bytes to copy or no slot is
    /// vacant.
    pub open spec fn may_be_denied(self, item: MemoryItem) -> bool {
        self.eviction.queue.len() == self.eviction.visited.len() || item.stored.key.len() + item.stored.value.len() > 0
    }
}

/// What the allocator and the counted handles decide about an admission.
#[verifier::ext_equal]
pub struct InsertCircumstances {
    /// The bookkeeping of an admission has been reserved.
    pub prepared: bool,
    /// The handles that are counted.
    pub seen: HandlesSeen,
    /// A slot has been reserved and the entry's copy allocated.
    pub allocated: bool,
}

/// How many slots an admission may vacate: those of the victims and that of the
/// replaced entry.
fn most_freed_slots(replacement: Option<u32>) -> (slots: usize)
    ensures
        slots == MAX_EVICTIONS_PER_INSERT + if replacement is Some { 1int } else { 0int },
{
    MAX_EVICTIONS_PER_INSERT + (if replacement.is_some() { 1 } else { 0 })
}

impl MemoryShard {
    /// The chain of a hash lists exactly the resident entries of that hash.
    proof fn lemma_chain_len(&self, hash: u64)
        requires
            self.wf(),
        ensures
            self@.same_hash(hash).len() == chain_of(self.chains@, hash).len(),
            self@.same_hash(hash).finite(),
    {
        reveal(arena_linked);
        self.chains.lemma_chain(hash);
        let chain = chain_of(self.chains@, hash);
        assert forall|slot: u32| self@.same_hash(hash).contains(slot) <==> chain.to_set().contains(slot) by {
            if self@.same_hash(hash).contains(slot) {
                assert(occupied(self.slots@, slot));
            }
            if chain.contains(slot) {
                assert(self.chains@[hash].contains(slot));
                assert(occupied(self.slots@, slot));
            }
        }
        assert(self@.same_hash(hash) =~= chain.to_set());
        chain.unique_seq_to_set();
        vstd::seq_lib::seq_to_set_is_finite(chain);
    }

    /// Places an entry whose charge is pending into a vacant slot.
    fn place(&mut self, entry: MemoryEntry, Ghost(pending): Ghost<int>) -> (slot: u32)
        requires
            old(self).wf_pending(pending),
            pending == entry.value@.charge(),
            entry.value.wf(),
            old(self).free_slots@.len() > 0 || old(self).slots@.len() <= MAX_POLICY_SLOT_INDEX,
            chain_of(old(self).chains@, entry.hash).len() < MAX_SAME_HASH_ENTRIES,
            forall|slot: u32| #[trigger]
                old(self)@.resident.contains_key(slot) ==> !old(self)@.resident[slot].is_for(
                    entry.hash,
                    entry.namespace_id,
                    entry.value@.key,
                ),
        ensures
            final(self).wf(),
            !old(self)@.resident.contains_key(slot),
            slot <= old(self)@.eviction.visited.len(),
            final(self)@ == old(self)@.with_entry(slot, item_of(entry)),
    {
        let ghost before = self@;
        let ghost slots = self.slots@;
        let ghost free = self.free_slots@;
        let ghost queue = self.eviction@.queue;
        let ghost chains = self.chains@;
        let ghost item = item_of(entry);
        let hash = entry.hash;
        proof {
            reveal(arena_linked);
        }
        let slot: u32 = match self.free_slots.pop() {
            Some(slot) => {
                assert(free[free.len() - 1] == slot);
                self.slots.set(slot as usize, Some(entry));
                slot
            },
            None => {
                let slot: u32 = self.slots.len() as u32;
                self.slots.push(Some(entry));
                self.chains.push_slot();
                self.eviction.push_slot();
                slot
            },
        };
        proof {
            assert(!occupied(slots, slot));
            assert(!queue.contains(slot));
            assert forall|h: u64| self.chains@.contains_key(h) implies !(#[trigger] self.chains@[h]).contains(slot) by {
                if self.chains@[h].contains(slot) {
                    assert(chains[h].contains(slot));
                }
            }
        }
        self.eviction.insert(slot);
        self.chains.attach(hash, slot);
        proof {
            let chain = chain_of(chains, hash);
            let after_chains = self.chains@;
            assert(forall|i: int| 0 <= i < slots.len() && i != slot ==> self.slots@[i] == slots[i]);
            assert(self@.resident =~= before.resident.insert(slot, item));
            assert forall|s: u32| queue.push(slot).contains(s) <==> s == slot || queue.contains(s) by {
                assert(queue.push(slot)[queue.len() as int] == slot);
                if queue.contains(s) {
                    let k = queue.index_of(s);
                    assert(queue.push(slot)[k] == s);
                }
                if queue.push(slot).contains(s) && s != slot {
                    let k = queue.push(slot).index_of(s);
                    assert(queue[k] == s);
                }
            }
            assert forall|s: u32| #[trigger] occupied(self.slots@, s) <==> self.eviction@.queue.contains(s) by {
                assert(occupied(slots, s) <==> queue.contains(s));
            }
            assert forall|s: u32| #[trigger] occupied(self.slots@, s) implies (self.slots@[s as int]->0).value.wf() && after_chains.contains_key(
                (self.slots@[s as int]->0).hash,
            ) && after_chains[(self.slots@[s as int]->0).hash].contains(s) by {
                lemma_front_contains(slot, chain, s);
                if s != slot {
                    assert(occupied(slots, s));
                }
            }
            assert forall|h: u64, s: u32|
                after_chains.contains_key(h) && #[trigger] after_chains[h].contains(s) implies occupied(self.slots@, s) && (
            self.slots@[s as int]->0).hash == h by {
                lemma_front_contains(slot, chain, s);
                if s != slot {
                    if h == hash {
                        assert(chain.contains(s));
                    }
                    assert(chains[h].contains(s));
                    assert(occupied(slots, s));
                } else if h != hash {
                    assert(chains[h].contains(slot));
                }
            }
            assert forall|k: int| 0 <= k < self.free_slots@.len() implies (#[trigger] self.free_slots@[k]) < self.slots@.len()
                && self.slots@[self.free_slots@[k] as int] is None by {
                assert(self.free_slots@[k] == free[k]);
                assert(free[k] != slot);
            }
            assert forall|i: int| 0 <= i < self.slots@.len() && (#[trigger] self.slots@[i]) is None implies self.free_slots@.contains(
                i as u32,
            ) by {
                assert(slots[i] is None);
                let k = free.index_of(i as u32);
                assert(self.free_slots@[k] == i as u32);
            }
            assert(queue.push(slot).drop_last() =~= queue);
            assert forall|k: int| 0 <= k < queue.len() implies before.resident[#[trigger] queue[k]] == self@.resident[queue[k]] by {
                assert(queue.contains(queue[k]));
            }
            lemma_charge_sum_same(queue, before.resident, self@.resident);
            assert(distinct_items(self@.resident)) by {
                reveal(distinct_items);
                assert forall|a: u32, b: u32|
                    self@.resident.contains_key(a) && self@.resident.contains_key(b) && a != b implies !(#[trigger] self@.resident[a]).is_for(
                    (#[trigger] self@.resident[b]).hash,
                    self@.resident[b].namespace_id,
                    self@.resident[b].stored.key,
                ) by {
                    if a != slot {
                        assert(before.resident.contains_key(a));
                    }
                    if b != slot {
                        assert(before.resident.contains_key(b));
                    }
                    if a == slot {
                        assert(!before.resident[b].is_for(item.hash, item.namespace_id, item.stored.key));
                    }
                }
            }
        }
        slot
    }

    /// Reserves what an admission may need beside its copy. Whether the
    /// allocator agrees is left open.
    fn prepare_insert(&mut self, hash: u64, charged_bytes: usize, replacement: Option<u32>) -> (prepared: bool)
        requires
            old(self).wf(),
        ensures
            final(self).wf(),
            final(self)@ == old(self)@,
            final(self).slots@ == old(self).slots@,
            final(self).free_slots@ == old(self).free_slots@,
            final(self).chains@ == old(self).chains@,
    {
        if !self.chains.can_attach(hash) {
            return false;
        }
        if !vec_try_reserve(&mut self.free_slots, most_freed_slots(replacement)) {
            return false;
        }
        !self.may_append(charged_bytes, replacement) || (vec_try_reserve(&mut self.slots, 1) && self.chains.try_reserve_slot())
    }

    /// Whether an admission that needs no victim takes a further slot: none is
    /// vacant, none is emptied, and the charge fits.
    fn may_append(&self, charged_bytes: usize, replacement: Option<u32>) -> (appends: bool)
        requires
            self.wf(),
        ensures
            appends == (self@.eviction.queue.len() == self@.eviction.visited.len() && replacement is None && self@.used_bytes()
                + charged_bytes <= self@.capacity_bytes),
    {
        proof {
            reveal(arena_linked);
        }
        self.free_slots.len() == 0 && replacement.is_none() && self.budget.available_bytes() >= charged_bytes
    }

    /// Reserves a slot where none is vacant, and copies the entry. Whether the
    /// allocator agrees is left open; it is not asked for an entry without bytes
    /// that finds a vacant slot.
    fn allocate_entry(&mut self, key: &[u8], value: &[u8], Ghost(pending): Ghost<int>) -> (allocated: Option<MemoryValue>)
        requires
            old(self).wf_pending(pending),
        ensures
            final(self).wf_pending(pending),
            final(self)@ == old(self)@,
            final(self).chains@ == old(self).chains@,
            match allocated {
                Some(copy) => copy.wf() && copy@ == (ValueModel { key: key@, value: value@ }),
                None => old(self)@.eviction.queue.len() == old(self)@.eviction.visited.len() || key@.len() + value@.len() > 0,
            },
    {
        proof {
            reveal(arena_linked);
        }
        if self.free_slots.len() == 0 && (!vec_try_reserve(&mut self.slots, 1) || !self.chains.try_reserve_slot()) {
            return None;
        }
        MemoryValue::try_new(key, value)
    }

    /// Puts an entry in for which room has been made and charged, or gives the
    /// charge back if it was not allocated or no slot is left.
    fn settle(&mut self, item: Ghost<MemoryItem>, allocated: Option<MemoryEntry>, charged_bytes: usize, evictions: usize) -> (result: MemoryInsertResult)
        requires
            old(self).wf_pending(charged_bytes as int),
            charged_bytes == item@.stored.charge(),
            allocated matches Some(entry) ==> entry.value.wf() && item_of(entry) == item@,
            chain_of(old(self).chains@, item@.hash).len() < MAX_SAME_HASH_ENTRIES,
            forall|slot: u32| #[trigger]
                old(self)@.resident.contains_key(slot) ==> !old(self)@.resident[slot].is_for(
                    item@.hash,
                    item@.namespace_id,
                    item@.stored.key,
                ),
        ensures
            final(self).wf(),
            old(self)@.settlement(item@, allocated is Some, evictions, final(self)@, result),
    {
        proof {
            reveal(arena_linked);
            lemma_charge_sum_nonnegative(self@.eviction.queue, self@.resident);
            assert forall|k: int| 0 <= k < self@.lingering.len() implies 0 <= #[trigger] self@.lingering[k] by {}
            lemma_byte_sum_nonnegative(self@.lingering);
        }
        let full = self.free_slots.len() == 0 && self.slots.len() > MAX_POLICY_SLOT_INDEX;
        assert(full == self@.is_full());
        let entry = match allocated {
            Some(entry) => entry,
            None => {
                self.budget.release(charged_bytes);
                return MemoryInsertResult::rejected(evictions, false);
            },
        };
        if full {
            self.budget.release(charged_bytes);
            return MemoryInsertResult::rejected(evictions, false);
        }
        let slot = self.place(entry, Ghost(charged_bytes as int));
        proof {
            self.lemma_valid();
            assert(self@.eviction.queue.last() == slot);
            assert(self@.holds_at(item@.hash, item@.namespace_id, item@.stored.key, slot));
            lemma_find_at(self@, item@.hash, item@.namespace_id, item@.stored.key, slot);
        }
        MemoryInsertResult { inserted: true, evictions, admission_rejected: false }
    }

    /// Offers an entry to the shard. `replacement` is the slot of the entry
    /// with the same key, if there is one.
    #[verifier::rlimit(60)]
    fn insert(
        &mut self,
        hash: u64,
        namespace_id: u32,
        key: &[u8],
        value: &[u8],
        expires_at_unix_ms: u64,
        seqno: u64,
        hint: AdmissionHint,
        replacement: Option<u32>,
    ) -> (outcome: (MemoryInsertResult, Ghost<InsertCircumstances>))
        requires
            old(self).wf(),
            replacement == old(self)@.find(hash, namespace_id, key@),
        ensures
            final(self).wf(),
            old(self)@.insert_outcome(
                MemoryItem {
                    hash,
                    namespace_id,
                    stored: ValueModel { key: key@, value: value@ },
                    expires_at_unix_ms,
                    seqno,
                },
                hint,
                outcome.1@,
                final(self)@,
                outcome.0,
            ),
    {
        let ghost before = self@;
        let ghost mut given = InsertCircumstances {
            prepared: false,
            seen: HandlesSeen { swept: Seq::empty(), replaced: 1, considered: Seq::empty(), retired: Seq::empty() },
            allocated: false,
        };
        let ghost item = MemoryItem {
            hash,
            namespace_id,
            stored: ValueModel { key: key@, value: value@ },
            expires_at_unix_ms,
            seqno,
        };
        proof {
            self.lemma_chain_len(hash);
            self.lemma_valid();
            if replacement is Some {
                let slot = replacement->0;
                assert(before.holds_at(hash, namespace_id, key@, slot));
                assert(occupied(self.slots@, slot));
            }
        }
        if replacement.is_none() && self.hash_chain_is_full(hash) {
            return (MemoryInsertResult::bypassed(), Ghost(given));
        }
        let charged_bytes: usize = match MEMORY_ENTRY_OVERHEAD_BYTES.checked_add(key.len()) {
            Some(partial) => match partial.checked_add(value.len()) {
                Some(total) => total,
                None => {
                    return (MemoryInsertResult::bypassed(), Ghost(given));
                },
            },
            None => {
                return (MemoryInsertResult::bypassed(), Ghost(given));
            },
        };
        let prepared = self.prepare_insert(hash, charged_bytes, replacement);
        self.insert_prepared(
            hash,
            namespace_id,
            key,
            value,
            expires_at_unix_ms,
            seqno,
            hint,
            replacement,
            charged_bytes,
            prepared,
        )
    }

    /// Offers an entry of a known charge to the shard, once it has been found out
    /// whether its admission could be prepared.
    #[verifier::rlimit(60)]
    fn insert_prepared(
        &mut self,
        hash: u64,
        namespace_id: u32,
        key: &[u8],
        value: &[u8],
        expires_at_unix_ms: u64,
        seqno: u64,
        hint: AdmissionHint,
        replacement: Option<u32>,
        charged_bytes: usize,
        prepared: bool,
    ) -> (outcome: (MemoryInsertResult, Ghost<InsertCircumstances>))
        requires
            old(self).wf(),
            replacement == old(self)@.find(hash, namespace_id, key@),
            replacement is Some || old(self)@.chain_has_room(hash),
            charged_bytes == MEMORY_ENTRY_OVERHEAD_BYTES + key@.len() + value@.len(),
        ensures
            final(self).wf(),
            outcome.1@.prepared == prepared,
            old(self)@.insert_outcome(
                MemoryItem {
                    hash,
                    namespace_id,
                    stored: ValueModel { key: key@, value: value@ },
                    expires_at_unix_ms,
                    seqno,
                },
                hint,
                outcome.1@,
                final(self)@,
                outcome.0,
            ),
    {
        let ghost before = self@;
        let ghost mut given = InsertCircumstances {
            prepared,
            seen: HandlesSeen { swept: Seq::empty(), replaced: 1, considered: Seq::empty(), retired: Seq::empty() },
            allocated: false,
        };
        let ghost item = MemoryItem {
            hash,
            namespace_id,
            stored: ValueModel { key: key@, value: value@ },
            expires_at_unix_ms,
            seqno,
        };
        if !prepared {
            return (MemoryInsertResult::bypassed(), Ghost(given));
        }
        proof {
            self.lemma_chain_len(hash);
            self.lemma_valid();
            if replacement is Some {
                let slot = replacement->0;
                assert(before.holds_at(hash, namespace_id, key@, slot));
                assert(occupied(self.slots@, slot));
            }
        }
        let ghost chain_before = chain_of(self.chains@, hash);
        proof {
            reveal(arena_linked);
            assert(chain_before.len() <= MAX_SAME_HASH_ENTRIES);
        }
        let (charge, Ghost(victims), Ghost(seen)) = self.charge_with_eviction(charged_bytes, hint, replacement);
        proof {
            given = InsertCircumstances { prepared: true, seen, allocated: false };
        }
        let evictions: usize = match charge {
            ChargeResult::Charged { evictions } => evictions,
            ChargeResult::Rejected { admission } => {
                assert(self@ =~= (MemoryShardModel { eviction: self@.eviction, lingering: self@.lingering, ..before }));
                return (MemoryInsertResult::rejected(0, admission), Ghost(given));
            },
        };
        let ghost rest = self@;
        proof {
            assert(chain_of(self.chains@, hash).len() <= chain_before.len());
            assert forall|slot: u32| #[trigger] self@.resident.contains_key(slot) implies !self@.resident[slot].is_for(
                hash,
                namespace_id,
                key@,
            ) by {
                assert(before.resident.contains_key(slot));
                assert(self@.resident[slot] == before.resident[slot]);
                if before.resident[slot].is_for(hash, namespace_id, key@) {
                    assert(before.holds_at(hash, namespace_id, key@, slot));
                    lemma_find_at(before, hash, namespace_id, key@, slot);
                    assert(replacement == Some(slot));
                    assert(victims.push(slot)[victims.len() as int] == slot);
                    assert(emptied(replacement, victims).contains(slot));
                }
            }
        }
        let allocated: Option<MemoryEntry> = match self.allocate_entry(key, value, Ghost(charged_bytes as int)) {
            Some(copy) => Some(MemoryEntry { value: copy, expires_at_unix_ms, seqno, namespace_id, hash }),
            None => None,
        };
        proof {
            given = InsertCircumstances { allocated: allocated is Some, ..given };
        }
        let result = self.settle(Ghost(item), allocated, charged_bytes, evictions);
        assert(rest =~= (MemoryShardModel {
            resident: without_slots(before.resident, emptied(replacement, victims)),
            eviction: rest.eviction,
            lingering: self@.lingering,
            ..before
        }));
        (result, Ghost(given))
    }
}

impl MemoryShardModel {
    /// One more request for a hash on the eviction order's record.
    pub open spec fn requested(self, hash: u64) -> MemoryShardModel {
        MemoryShardModel { eviction: self.eviction.requested(hash), ..self }
    }

    /// The entry in `slot` has been hit.
    pub open spec fn hit(self, slot: u32) -> MemoryShardModel {
        MemoryShardModel { eviction: self.eviction.hit(self.eviction.queue.index_of(slot)), ..self }
    }

    /// The entry in `slot` has left. It stays charged while its value has another
    /// handle, as do the values that linger already.
    pub open spec fn dropped(self, slot: u32, handles: Seq<usize>) -> MemoryShardModel {
        MemoryShardModel {
            resident: self.resident.remove(slot),
            eviction: self.eviction.removed(self.eviction.queue.index_of(slot)),
            lingering: still_lingering(self.lingering.push(self.resident[slot].stored.charge()), handles),
            ..self
        }
    }

    /// Lingering values without another handle have been given back.
    pub open spec fn looked_after(self, handles: Seq<usize>) -> MemoryShardModel {
        MemoryShardModel { lingering: still_lingering(self.lingering, handles), ..self }
    }
}

/// Lookups depend on the resident entries only.
proof fn lemma_find_same(first: MemoryShardModel, second: MemoryShardModel, hash: u64, namespace_id: u32, key: Seq<u8>)
    requires
        first.valid(),
        second.valid(),
        first.resident == second.resident,
    ensures
        first.find(hash, namespace_id, key) == second.find(hash, namespace_id, key),
{
    if exists|slot: u32| first.holds_at(hash, namespace_id, key, slot) {
        let slot = choose|slot: u32| first.holds_at(hash, namespace_id, key, slot);
        assert(second.holds_at(hash, namespace_id, key, slot));
        lemma_find_at(first, hash, namespace_id, key, slot);
        lemma_find_at(second, hash, namespace_id, key, slot);
    } else {
        assert forall|slot: u32| !second.holds_at(hash, namespace_id, key, slot) by {
            assert(!first.holds_at(hash, namespace_id, key, slot));
        }
    }
}

impl MemoryShard {
    /// Notes a request for a hash.
    fn record_request(&mut self, hash: u64) -> (hint: AdmissionHint)
        requires
            old(self).wf(),
        ensures
            final(self).wf(),
            final(self)@ == old(self)@.requested(hash),
            hint.frequency == final(self)@.eviction.frequency_of(hash),
    {
        self.eviction.record_request(hash)
    }

    /// Notes a hit on an entry.
    fn record_hit(&mut self, slot: u32)
        requires
            old(self).wf(),
            occupied(old(self).slots@, slot),
        ensures
            final(self).wf(),
            final(self)@ == old(self)@.hit(slot),
            final(self).slots == old(self).slots,
    {
        let ghost before = *self;
        let ghost queue = self@.eviction.queue;
        let ghost position = queue.index_of(slot);
        proof {
            reveal(arena_linked);
            assert(queue.contains(slot));
            lemma_rotated(queue, position);
            lemma_charge_sum_remove(queue, position, self@.resident);
            assert(queue.remove(position).push(slot).drop_last() =~= queue.remove(position));
        }
        self.eviction.record_hit(slot);
        proof {
            MemoryShard::lemma_requeued(&before, self, 0);
        }
    }

    /// Drops an entry. The counted handles are reported.
    fn remove_slot(&mut self, slot: u32) -> (handles: Ghost<Seq<usize>>)
        requires
            old(self).wf(),
            occupied(old(self).slots@, slot),
        ensures
            final(self).wf(),
            handles@.len() == old(self)@.lingering.len() + 1,
            final(self)@ == old(self)@.dropped(slot, handles@),
    {
        let entry = self.take_slot(slot, Ghost(0));
        self.retire(entry.value, Ghost(0))
    }

    /// Bytes charged to the shard, after releasing values without handles.
    pub fn used_bytes(&mut self) -> (bytes: usize)
        requires
            old(self).wf(),
        ensures
            final(self).wf(),
            exists|handles: Seq<usize>|
                handles.len() == old(self)@.lingering.len() && final(self)@ == #[trigger] old(self)@.looked_after(handles),
            bytes == final(self)@.used_bytes(),
            bytes <= final(self)@.capacity_bytes,
    {
        let Ghost(handles) = self.sweep(Ghost(0));
        assert(self@ == old(self)@.looked_after(handles));
        self.budget.used_bytes
    }
}

// ---------------------------------------------------------------------------
// Store
// ---------------------------------------------------------------------------

/// Where a miss happened, and how often its key had been asked for.
#[derive(Clone, Copy, Debug, PartialEq, Eq, Structural)]
pub struct MemoryReadToken {
    pub shard_id: usize,
    pub admission: AdmissionHint,
}

/// What a lookup found.
#[derive(Debug)]
pub enum MemoryLookup {
    Hit(MemoryValue),
    Miss(MemoryReadToken),
}

/// Counters of the RAM tier.
#[derive(Clone, Copy, Debug, PartialEq, Eq, Structural)]
pub struct MemoryMetricsSnapshot {
    pub evictions: u64,
    pub bypasses: u64,
    pub admission_rejections: u64,
}

/// Why the tier could not be made.
#[derive(Clone, Copy, Debug, PartialEq, Eq, Structural)]
pub enum MemoryStoreError {
    NoShards,
    OutOfMemory,
}

impl MemoryStoreError {
    /// What went wrong, in words.
    pub fn message(&self) -> (message: &'static str)
        ensures
            message@ == (match *self {
                MemoryStoreError::NoShards => "memory tier requires at least one shard"@,
                MemoryStoreError::OutOfMemory => "cannot allocate memory-tier shards"@,
            }),
    {
        match self {
            MemoryStoreError::NoShards => "memory tier requires at least one shard",
            MemoryStoreError::OutOfMemory => "cannot allocate memory-tier shards",
        }
    }
}

/// What the tier holds.
#[verifier::ext_equal]
pub struct MemoryStoreModel {
    pub shards: Seq<MemoryShardModel>,
    /// Shards that somebody else is working on.
    pub held: Seq<bool>,
    pub metrics_enabled: bool,
    pub metrics: MemoryMetricsSnapshot,
}

impl MemoryStoreModel {
    /// The shard of a hash.
    pub open spec fn route(self, hash: u64) -> int {
        hash as int % self.shards.len() as int
    }

    /// The tier with one shard replaced.
    pub open spec fn with_shard(self, shard_id: int, shard: MemoryShardModel) -> MemoryStoreModel {
        MemoryStoreModel { shards: self.shards.update(shard_id, shard), ..self }
    }

    /// The tier's counters with one more insertion attempt on them.
    pub open spec fn recorded(self, result: MemoryInsertResult) -> MemoryStoreModel {
        if self.metrics_enabled {
            MemoryStoreModel {
                metrics: MemoryMetricsSnapshot {
                    evictions: self.metrics.evictions.wrapping_add(result.evictions as u64),
                    bypasses: if result.inserted { self.metrics.bypasses } else { self.metrics.bypasses.wrapping_add(1) },
                    admission_rejections: if result.admission_rejected {
                        self.metrics.admission_rejections.wrapping_add(1)
                    } else {
                        self.metrics.admission_rejections
                    },
                },
                ..self
            }
        } else {
            self
        }
    }

    /// Every shard keeps to its own budget.
    pub open spec fn valid(self) -> bool {
        &&& self.shards.len() > 0
        &&& self.shards.len() == self.held.len()
        &&& forall|k: int| 0 <= k < self.shards.len() ==> (#[trigger] self.shards[k]).valid()
    }

    /// A publication ended like this. A held shard is bypassed, and a delayed
    /// publication gives way to a newer one of its key.
    pub open spec fn publication(self, item: MemoryItem, after: MemoryStoreModel, published: bool) -> bool {
        let id = self.route(item.hash);
        let shard = self.shards[id];
        let found = shard.find(item.hash, item.namespace_id, item.stored.key);
        if self.held[id] {
            &&& !published
            &&& after == self.recorded(MemoryInsertResult { inserted: false, evictions: 0, admission_rejected: false })
        } else if found is Some && shard.resident[found->0].seqno >= item.seqno {
            published && after == self
        } else {
            let requested = shard.requested(item.hash);
            let hint = AdmissionHint { frequency: requested.eviction.frequency_of(item.hash) };
            self.with_shard(id, requested).insertion(id, item, hint, after, published)
        }
    }

    /// An insertion attempt on a shard ended like this.
    pub open spec fn insertion(
        self,
        shard_id: int,
        item: MemoryItem,
        hint: AdmissionHint,
        after: MemoryStoreModel,
        inserted: bool,
    ) -> bool {
        exists|given: InsertCircumstances, result: MemoryInsertResult|
            {
                &&& #[trigger] self.shards[shard_id].insert_outcome(item, hint, given, after.shards[shard_id], result)
                &&& after == self.with_shard(shard_id, after.shards[shard_id]).recorded(result)
                &&& inserted == result.inserted
            }
    }

    /// What a lookup shows, and the store then. An expired entry leaves the tier
    /// and counts as a miss.
    pub open spec fn lookup_outcome(
        self,
        hash: u64,
        namespace_id: u32,
        key: Seq<u8>,
        clock: ExpiryClock,
        after: MemoryStoreModel,
        result: MemoryLookup,
    ) -> bool {
        let id = self.route(hash);
        let shard = self.shards[id];
        let found = shard.find(hash, namespace_id, key);
        if self.held[id] {
            &&& after == self
            &&& result matches MemoryLookup::Miss(token) && token.shard_id == id && token.admission.frequency == 0
        } else if found is None {
            &&& after == self.with_shard(id, shard.requested(hash))
            &&& result matches MemoryLookup::Miss(token) && token.shard_id == id && token.admission.frequency
                == shard.requested(hash).eviction.frequency_of(hash)
        } else if clock.expired(shard.resident[found->0].expires_at_unix_ms) {
            exists|handles: Seq<usize>|
                {
                    let gone = #[trigger] shard.dropped(found->0, handles);
                    &&& handles.len() == shard.lingering.len() + 1
                    &&& after == self.with_shard(id, gone.requested(hash))
                    &&& result matches MemoryLookup::Miss(token) && token.shard_id == id && token.admission.frequency
                        == gone.requested(hash).eviction.frequency_of(hash)
                }
        } else {
            &&& after == self.with_shard(id, shard.hit(found->0))
            &&& result matches MemoryLookup::Hit(value) && value.wf() && value@ == shard.resident[found->0].stored
        }
    }

    /// What becomes of a value offered after a miss, and the store then. An entry
    /// that has come in since the miss is left alone.
    pub open spec fn promotion(
        self,
        token: MemoryReadToken,
        item: MemoryItem,
        after: MemoryStoreModel,
        promoted: Option<MemoryValue>,
    ) -> bool {
        let id = self.route(item.hash);
        if token.shard_id != id || self.held[id] || self.shards[id].find(item.hash, item.namespace_id, item.stored.key) is Some {
            promoted is None && after == self
        } else {
            &&& self.insertion(id, item, token.admission, after, promoted is Some)
            &&& promoted matches Some(handle) ==> handle.wf() && handle@ == item.stored
        }
    }
}

struct MemoryShardLock {
    shard: MemoryShard,
    held: bool,
}

/// The sharded RAM tier.
pub struct MemoryStore {
    shards: Vec<MemoryShardLock>,
    metrics_enabled: bool,
    metrics: MemoryMetricsSnapshot,
}

impl View for MemoryStore {
    type V = MemoryStoreModel;

    closed spec fn view(&self) -> MemoryStoreModel {
        MemoryStoreModel {
            shards: Seq::new(self.shards@.len(), |k: int| self.shards@[k].shard@),
            held: Seq::new(self.shards@.len(), |k: int| self.shards@[k].held),
            metrics_enabled: self.metrics_enabled,
            metrics: self.metrics,
        }
    }
}

impl MemoryStore {
    /// The tier's invariant.
    pub closed spec fn wf(&self) -> bool {
        &&& self.shards@.len() > 0
        &&& forall|k: int| 0 <= k < self.shards@.len() ==> (#[trigger] self.shards@[k]).shard.wf()
    }

    /// The tier's invariant implies what it promises of its contents.
    pub proof fn lemma_valid(&self)
        requires
            self.wf(),
        ensures
            self@.valid(),
    {
        assert forall|k: int| 0 <= k < self@.shards.len() implies (#[trigger] self@.shards[k]).valid() by {
            self.shards@[k].shard.lemma_valid();
        }
    }

    /// Splits a byte capacity over the shards.
    pub fn new(capacity_bytes: usize, shard_count: usize, policy: EvictionPolicy, statistics_enabled: bool) -> (result: Result<
        MemoryStore,
        MemoryStoreError,
    >)
        ensures
            match result {
                Ok(store) => shard_count > 0 && store.is_fresh(capacity_bytes, shard_count, policy, statistics_enabled),
                Err(MemoryStoreError::NoShards) => shard_count == 0,
                Err(MemoryStoreError::OutOfMemory) => shard_count > 0,
            },
    {
        if shard_count == 0 {
            return Err(MemoryStoreError::NoShards);
        }
        let mut room: Vec<MemoryShardLock> = Vec::new();
        if !vec_try_reserve_exact(&mut room, shard_count) {
            return Err(MemoryStoreError::OutOfMemory);
        }
        Ok(MemoryStore::in_room(room, capacity_bytes, shard_count, policy, statistics_enabled))
    }

    /// An empty tier whose capacity is split over the shards.
    pub open spec fn is_fresh(&self, capacity_bytes: usize, shard_count: usize, policy: EvictionPolicy, statistics_enabled: bool) -> bool {
        &&& self.wf()
        &&& self@.shards.len() == shard_count
        &&& self@.held.len() == shard_count
        &&& self@.metrics_enabled == statistics_enabled
        &&& self@.metrics == (MemoryMetricsSnapshot { evictions: 0, bypasses: 0, admission_rejections: 0 })
        &&& forall|k: int| 0 <= k < shard_count ==> {
            &&& #[trigger] self@.shards[k] == MemoryShardModel::fresh(
                crate::memory_engine::shard_capacity(capacity_bytes as int, shard_count as int, k) as usize,
                policy,
            )
            &&& !self@.held[k]
        }
    }

    /// Splits a byte capacity over the shards, kept in an empty list.
    fn in_room(
        room: Vec<MemoryShardLock>,
        capacity_bytes: usize,
        shard_count: usize,
        policy: EvictionPolicy,
        statistics_enabled: bool,
    ) -> (store: MemoryStore)
        requires
            room@.len() == 0,
            shard_count > 0,
        ensures
            store.is_fresh(capacity_bytes, shard_count, policy, statistics_enabled),
    {
        let mut shards = room;
        let base = capacity_bytes / shard_count;
        let remainder = capacity_bytes % shard_count;
        proof {
            vstd::arithmetic::div_mod::lemma_fundamental_div_mod(capacity_bytes as int, shard_count as int);
            vstd::arithmetic::mul::lemma_mul_inequality(1, shard_count as int, base as int);
            vstd::arithmetic::mul::lemma_mul_is_commutative(base as int, shard_count as int);
        }
        let mut shard_id: usize = 0;
        while shard_id < shard_count
            invariant
                shard_id <= shard_count,
                0 < shard_count,
                base == capacity_bytes / shard_count,
                remainder == capacity_bytes % shard_count,
                base + (if 0 < remainder { 1int } else { 0int }) <= usize::MAX,
                shards@.len() == shard_id,
                forall|k: int| 0 <= k < shard_id ==> {
                    &&& (#[trigger] shards@[k]).shard.wf()
                    &&& !shards@[k].held
                    &&& shards@[k].shard@ == MemoryShardModel::fresh(
                        crate::memory_engine::shard_capacity(capacity_bytes as int, shard_count as int, k) as usize,
                        policy,
                    )
                },
            decreases shard_count - shard_id,
        {
            let share: usize = if shard_id < remainder { base + 1 } else { base };
            shards.push(MemoryShardLock { shard: MemoryShard::new(share, policy), held: false });
            shard_id = shard_id + 1;
        }
        MemoryStore {
            shards,
            metrics_enabled: statistics_enabled,
            metrics: MemoryMetricsSnapshot { evictions: 0, bypasses: 0, admission_rejections: 0 },
        }
    }

    /// The shard of a hash.
    fn route(&self, hash: u64) -> (shard_id: usize)
        requires
            self.wf(),
        ensures
            shard_id == self@.route(hash),
            shard_id < self.shards@.len(),
    {
        assert(self@.shards.len() == self.shards@.len());
        (hash % (self.shards.len() as u64)) as usize
    }

    /// Marks a shard as being worked on elsewhere, or as free again. Requests
    /// bypass a held shard instead of waiting for it.
    pub fn set_held(&mut self, shard_id: usize, held: bool)
        requires
            old(self).wf(),
            shard_id < old(self)@.shards.len(),
        ensures
            final(self).wf(),
            final(self)@ == (MemoryStoreModel { held: old(self)@.held.update(shard_id as int, held), ..old(self)@ }),
    {
        let lock = &mut self.shards[shard_id];
        lock.held = held;
        proof {
            assert(self@.shards =~= old(self)@.shards);
            assert(self@.held =~= old(self)@.held.update(shard_id as int, held));
        }
    }

    /// Bytes charged to a shard.
    pub fn used_bytes(&mut self, shard_id: usize) -> (bytes: usize)
        requires
            old(self).wf(),
            shard_id < old(self)@.shards.len(),
        ensures
            final(self).wf(),
            bytes == final(self)@.shards[shard_id as int].used_bytes(),
            bytes <= old(self)@.shards[shard_id as int].capacity_bytes,
            exists|handles: Seq<usize>|
                {
                    &&& handles.len() == old(self)@.shards[shard_id as int].lingering.len()
                    &&& final(self)@ == old(self)@.with_shard(
                        shard_id as int,
                        #[trigger] old(self)@.shards[shard_id as int].looked_after(handles),
                    )
                },
    {
        let lock = &mut self.shards[shard_id];
        let ghost before = lock.shard@;
        let bytes = lock.shard.used_bytes();
        proof {
            MemoryStore::lemma_shard_replaced(old(self), self, shard_id as int);
            let handles = choose|handles: Seq<usize>|
                handles.len() == before.lingering.len() && self.shards@[shard_id as int].shard@ == #[trigger] before.looked_after(handles);
            assert(self@ == old(self)@.with_shard(shard_id as int, old(self)@.shards[shard_id as int].looked_after(handles)));
        }
        bytes
    }

    proof fn lemma_shard_replaced(before: &MemoryStore, after: &MemoryStore, shard_id: int)
        requires
            before.wf(),
            0 <= shard_id < before.shards@.len(),
            after.shards@ == before.shards@.update(shard_id, after.shards@[shard_id]),
            after.shards@[shard_id].held == before.shards@[shard_id].held,
            after.shards@[shard_id].shard.wf(),
        ensures
            after.wf(),
            after@.shards == before@.shards.update(shard_id, after.shards@[shard_id].shard@),
            after@.held == before@.held,
    {
        assert(after@.shards =~= before@.shards.update(shard_id, after.shards@[shard_id].shard@));
        assert(after@.held =~= before@.held);
        assert forall|k: int| 0 <= k < after.shards@.len() implies (#[trigger] after.shards@[k]).shard.wf() by {
            if k != shard_id {
                assert(before.shards@[k].shard.wf());
            }
        }
    }

    /// Counts an insertion attempt.
    fn record_insert(&mut self, result: MemoryInsertResult)
        requires
            old(self).wf(),
        ensures
            final(self).wf(),
            final(self)@ == old(self)@.recorded(result),
    {
        if !self.metrics_enabled {
            return;
        }
        self.metrics.evictions = self.metrics.evictions.wrapping_add(result.evictions as u64);
        if !result.inserted {
            self.metrics.bypasses = self.metrics.bypasses.wrapping_add(1);
        }
        if result.admission_rejected {
            self.metrics.admission_rejections = self.metrics.admission_rejections.wrapping_add(1);
        }
    }

    /// Counters of the tier.
    pub fn metrics_snapshot(&self) -> (snapshot: MemoryMetricsSnapshot)
        ensures
            snapshot == self@.metrics,
    {
        self.metrics
    }

    /// Offers a new value. A newer publication of the same key suppresses a
    /// delayed older one. Reports whether the key's newest value is in the tier.
    pub fn publish(
        &mut self,
        hash: u64,
        namespace_id: u32,
        key: &[u8],
        value: &[u8],
        expires_at_unix_ms: u64,
        seqno: u64,
    ) -> (published: bool)
        requires
            old(self).wf(),
        ensures
            final(self).wf(),
            old(self)@.publication(
                MemoryItem {
                    hash,
                    namespace_id,
                    stored: ValueModel { key: key@, value: value@ },
                    expires_at_unix_ms,
                    seqno,
                },
                final(self)@,
                published,
            ),
    {
        let ghost before = self@;
        let shard_id = self.route(hash);
        assert(self@.shards[shard_id as int] == self.shards@[shard_id as int].shard@);
        if self.shards[shard_id].held {
            self.record_insert(MemoryInsertResult::bypassed());
            return false;
        }
        let existing = self.shards[shard_id].shard.find(hash, namespace_id, key);
        if let Some(slot) = existing {
            let entry = self.shards[shard_id].shard.slots[slot as usize].as_ref().unwrap();
            assert(self.shards@[shard_id as int].shard@.resident[slot] == item_of(*entry));
            if entry.seqno >= seqno {
                return true;
            }
        }
        let lock = &mut self.shards[shard_id];
        let ghost shard_before = lock.shard@;
        proof {
            lock.shard.lemma_valid();
        }
        let admission = lock.shard.record_request(hash);
        proof {
            lock.shard.lemma_valid();
            lemma_find_same(shard_before, lock.shard@, hash, namespace_id, key@);
        }
        let ghost requested = lock.shard@;
        let (result, Ghost(given)) = lock.shard.insert(
            hash,
            namespace_id,
            key,
            value,
            expires_at_unix_ms,
            seqno,
            admission,
            existing,
        );
        let ghost middle = *self;
        proof {
            MemoryStore::lemma_shard_replaced(old(self), &middle, shard_id as int);
        }
        self.record_insert(result);
        proof {
            let id = shard_id as int;
            let start = before.with_shard(id, requested);
            let item = MemoryItem {
                hash,
                namespace_id,
                stored: ValueModel { key: key@, value: value@ },
                expires_at_unix_ms,
                seqno,
            };
            assert(start.shards[id] == requested);
            assert(self@.shards[id] == middle@.shards[id]);
            assert(start.shards[id].insert_outcome(item, admission, given, self@.shards[id], result));
            assert(start.with_shard(id, self@.shards[id]).shards =~= middle@.shards);
            assert(self@ == start.with_shard(id, self@.shards[id]).recorded(result));
            assert(start.insertion(id, item, admission, self@, result.inserted));
        }
        result.inserted
    }

    /// Looks a value up. An expired entry leaves the tier and counts as a miss.
    pub fn lookup(&mut self, hash: u64, namespace_id: u32, key: &[u8], clock: ExpiryClock) -> (result: MemoryLookup)
        requires
            old(self).wf(),
        ensures
            final(self).wf(),
            old(self)@.lookup_outcome(hash, namespace_id, key@, clock, final(self)@, result),
    {
        let ghost before = self@;
        let shard_id = self.route(hash);
        assert(self@.shards[shard_id as int] == self.shards@[shard_id as int].shard@);
        if self.shards[shard_id].held {
            return MemoryLookup::Miss(MemoryReadToken { shard_id, admission: AdmissionHint::default() });
        }
        let lock = &mut self.shards[shard_id];
        let slot: u32 = match lock.shard.find(hash, namespace_id, key) {
            Some(slot) => slot,
            None => {
                let admission = lock.shard.record_request(hash);
                proof {
                    MemoryStore::lemma_shard_replaced(old(self), self, shard_id as int);
                }
                return MemoryLookup::Miss(MemoryReadToken { shard_id, admission });
            },
        };
        let entry = lock.shard.slots[slot as usize].as_ref().unwrap();
        assert(lock.shard@.resident[slot] == item_of(*entry));
        if clock.is_expired(entry.expires_at_unix_ms) {
            let ghost shard_before = lock.shard@;
            let Ghost(handles) = lock.shard.remove_slot(slot);
            let admission = lock.shard.record_request(hash);
            proof {
                MemoryStore::lemma_shard_replaced(old(self), self, shard_id as int);
                let gone = before.shards[shard_id as int].dropped(slot, handles);
                assert(self@ == before.with_shard(shard_id as int, gone.requested(hash)));
            }
            return MemoryLookup::Miss(MemoryReadToken { shard_id, admission });
        }
        proof {
            reveal(arena_linked);
        }
        let value = entry.value.share();
        lock.shard.record_hit(slot);
        proof {
            MemoryStore::lemma_shard_replaced(old(self), self, shard_id as int);
        }
        MemoryLookup::Hit(value)
    }

    /// Offers a value read from disk after a miss. An entry that has come in
    /// since then is left alone.
    pub fn promote(
        &mut self,
        token: MemoryReadToken,
        hash: u64,
        namespace_id: u32,
        key: &[u8],
        value: &[u8],
        expires_at_unix_ms: u64,
        seqno: u64,
    ) -> (promoted: Option<MemoryValue>)
        requires
            old(self).wf(),
        ensures
            final(self).wf(),
            old(self)@.promotion(
                token,
                MemoryItem {
                    hash,
                    namespace_id,
                    stored: ValueModel { key: key@, value: value@ },
                    expires_at_unix_ms,
                    seqno,
                },
                final(self)@,
                promoted,
            ),
    {
        let ghost before = self@;
        let shard_id = self.route(hash);
        if token.shard_id != shard_id {
            return None;
        }
        assert(self@.shards[shard_id as int] == self.shards@[shard_id as int].shard@);
        if self.shards[shard_id].held {
            return None;
        }
        let lock = &mut self.shards[shard_id];
        if lock.shard.find(hash, namespace_id, key).is_some() {
            proof {
                MemoryStore::lemma_shard_replaced(old(self), self, shard_id as int);
                assert(before.shards.update(shard_id as int, before.shards[shard_id as int]) =~= before.shards);
            }
            return None;
        }
        let (result, Ghost(given)) = lock.shard.insert(
            hash,
            namespace_id,
            key,
            value,
            expires_at_unix_ms,
            seqno,
            token.admission,
            None,
        );
        let mut promoted: Option<MemoryValue> = None;
        if result.inserted {
            let slot: u32 = lock.shard.find(hash, namespace_id, key).unwrap();
            let entry = lock.shard.slots[slot as usize].as_ref().unwrap();
            proof {
                reveal(arena_linked);
                assert(lock.shard@.resident[slot] == item_of(*entry));
            }
            promoted = Some(entry.value.share());
        }
        let ghost middle = *self;
        proof {
            MemoryStore::lemma_shard_replaced(old(self), &middle, shard_id as int);
        }
        self.record_insert(result);
        proof {
            let id = shard_id as int;
            let item = MemoryItem {
                hash,
                namespace_id,
                stored: ValueModel { key: key@, value: value@ },
                expires_at_unix_ms,
                seqno,
            };
            assert(before.shards[id].insert_outcome(item, token.admission, given, self@.shards[id], result));
            assert(before.with_shard(id, self@.shards[id]).shards =~= middle@.shards);
            assert(self@ == before.with_shard(id, self@.shards[id]).recorded(result));
            assert(before.insertion(id, item, token.admission, self@, result.inserted));
        }
        promoted
    }
}

// ---------------------------------------------------------------------------
// Laws
// ---------------------------------------------------------------------------

/// An admitted entry is found, with the value and sequence number it came with.
pub proof fn law_inserted_entry_is_found(
    before: MemoryShardModel,
    item: MemoryItem,
    hint: AdmissionHint,
    given: InsertCircumstances,
    after: MemoryShardModel,
    result: MemoryInsertResult,
)
    requires
        before.insert_outcome(item, hint, given, after, result),
        result.inserted,
    ensures
        after.find(item.hash, item.namespace_id, item.stored.key) is Some,
        after.resident[after.find(item.hash, item.namespace_id, item.stored.key)->0] == item,
{
}

/// An insertion touches only its victims and the entry of its key: every other
/// entry stays in its slot, as it was.
pub proof fn law_other_entries_stay(
    before: MemoryShardModel,
    item: MemoryItem,
    hint: AdmissionHint,
    given: InsertCircumstances,
    after: MemoryShardModel,
    result: MemoryInsertResult,
    slot: u32,
)
    requires
        before.insert_outcome(item, hint, given, after, result),
        before.resident.contains_key(slot),
        before.find(item.hash, item.namespace_id, item.stored.key) != Some(slot),
        before.charge_decision(
            item.stored.charge(),
            hint,
            before.find(item.hash, item.namespace_id, item.stored.key),
            given.seen,
        ) matches ChargeModel::Charged { victims, .. } ==> !victims.contains(slot),
    ensures
        after.resident.contains_key(slot),
        after.resident[slot] == before.resident[slot],
{
    let replacement = before.find(item.hash, item.namespace_id, item.stored.key);
    match before.charge_decision(item.stored.charge(), hint, replacement, given.seen) {
        ChargeModel::Charged { victims, .. } => {
            let gone = emptied(replacement, victims);
            if gone.contains(slot) {
                let k = gone.index_of(slot);
                if k < victims.len() {
                    assert(victims[k] == slot);
                }
            }
            assert(without_slots(before.resident, gone).contains_key(slot));
        },
        ChargeModel::Rejected { .. } => {},
    }
}

/// An entry that the frequency gate turns away leaves every entry where it is.
pub proof fn law_turned_away_entry_changes_no_entry(
    before: MemoryShardModel,
    item: MemoryItem,
    hint: AdmissionHint,
    given: InsertCircumstances,
    after: MemoryShardModel,
    result: MemoryInsertResult,
)
    requires
        before.insert_outcome(item, hint, given, after, result),
        result.admission_rejected,
    ensures
        !result.inserted,
        result.evictions == 0,
        before.eviction.policy == EvictionPolicy::TinyLfu,
        after.resident == before.resident,
{
}

proof fn lemma_search_bounded(
    search: VictimSearch,
    needed: int,
    steps: nat,
    resident: Map<u32, MemoryItem>,
    replacement: Option<u32>,
    handles: Seq<usize>,
)
    requires
        search.victims.len() <= MAX_EVICTIONS_PER_INSERT,
    ensures
        search.finished(needed, steps, resident, replacement, handles).victims.len() <= MAX_EVICTIONS_PER_INSERT,
    decreases steps,
{
    if steps > 0 && !search.is_over(needed) {
        lemma_search_bounded(
            search.looked_at(search.target()->0, resident, replacement, handles),
            needed,
            (steps - 1) as nat,
            resident,
            replacement,
            handles,
        );
    }
}

/// One insertion never discards more than the fixed number of entries.
pub proof fn law_evictions_are_bounded(
    before: MemoryShardModel,
    item: MemoryItem,
    hint: AdmissionHint,
    given: InsertCircumstances,
    after: MemoryShardModel,
    result: MemoryInsertResult,
)
    requires
        before.insert_outcome(item, hint, given, after, result),
    ensures
        result.evictions <= MAX_EVICTIONS_PER_INSERT,
{
    let required = item.stored.charge();
    let replacement = before.find(item.hash, item.namespace_id, item.stored.key);
    let released = match replacement {
        Some(slot) => if held_elsewhere(given.seen.replaced) {
            0
        } else {
            before.resident[slot].stored.charge()
        },
        None => 0,
    };
    lemma_search_bounded(
        VictimSearch::start(before.eviction, released),
        required - before.available_bytes(given.seen),
        MAX_POLICY_SCAN_STEPS as nat,
        before.resident,
        replacement,
        given.seen.considered,
    );
}

/// An entry that fits beside the others comes in, under every policy and
/// without a victim, unless the chain of its hash is full, the slots have run
/// out or the allocator refuses.
pub proof fn law_fitting_entry_is_admitted(
    before: MemoryShardModel,
    item: MemoryItem,
    hint: AdmissionHint,
    given: InsertCircumstances,
    after: MemoryShardModel,
    result: MemoryInsertResult,
)
    requires
        before.valid(),
        before.insert_outcome(item, hint, given, after, result),
        before.used_bytes() + item.stored.charge() <= before.capacity_bytes,
        before.find(item.hash, item.namespace_id, item.stored.key) is Some || before.chain_has_room(item.hash),
        before.eviction.visited.len() <= MAX_POLICY_SLOT_INDEX,
        given.prepared,
        given.allocated,
    ensures
        result == (MemoryInsertResult { inserted: true, evictions: 0, admission_rejected: false }),
{
    lemma_charge_sum_nonnegative(before.eviction.queue, before.resident);
    lemma_byte_sum_nonnegative(before.lingering);
    let replacement = before.find(item.hash, item.namespace_id, item.stored.key);
    let gone = emptied(replacement, Seq::empty());
    lemma_still_lingering(before.lingering, given.seen.swept);
    reveal_with_fuel(evicted, 2);
    assert(evicted(before.eviction, gone).visited == before.eviction.visited);
}

/// A value that a reader still holds stays charged when its entry leaves, until
/// the reader lets go of it: its charge lingers as long as it has another handle.
pub proof fn law_held_value_stays_charged(before: MemoryShardModel, slot: u32, handles: Seq<usize>)
    requires
        held_elsewhere(handles[before.lingering.len() as int]),
    ensures
        ({
            let after = before.dropped(slot, handles);
            &&& after.lingering.len() > 0
            &&& after.lingering.last() == before.resident[slot].stored.charge()
        }),
{
    let charges = before.lingering.push(before.resident[slot].stored.charge());
    assert(charges.drop_last() =~= before.lingering);
}

/// Replacing an entry whose value a reader still holds keeps that value charged
/// beside the new one.
pub proof fn law_replaced_value_stays_charged(
    before: MemoryShardModel,
    item: MemoryItem,
    hint: AdmissionHint,
    given: InsertCircumstances,
    after: MemoryShardModel,
    result: MemoryInsertResult,
    slot: u32,
)
    requires
        before.insert_outcome(item, hint, given, after, result),
        result.inserted,
        before.find(item.hash, item.namespace_id, item.stored.key) == Some(slot),
        held_elsewhere(given.seen.replaced),
        held_elsewhere(given.seen.retired[before.swept(given.seen).len() as int]),
    ensures
        after.lingering.len() > 0,
        after.lingering.last() == before.resident[slot].stored.charge(),
{
    let swept = before.swept(given.seen);
    let charges = swept.push(before.resident[slot].stored.charge());
    assert(charges.drop_last() =~= swept);
}

/// Once a publication reports success, its key is in the tier, with its own
/// value or that of a newer publication.
pub proof fn law_published_key_is_newest(before: MemoryStoreModel, item: MemoryItem, after: MemoryStoreModel, published: bool)
    requires
        before.valid(),
        before.publication(item, after, published),
        published,
    ensures
        ({
            let shard = after.shards[after.route(item.hash)];
            let found = shard.find(item.hash, item.namespace_id, item.stored.key);
            &&& found is Some
            &&& shard.resident[found->0].seqno >= item.seqno
            &&& shard.resident[found->0].seqno == item.seqno ==> shard.resident[found->0] == item || after == before
        }),
{
    let id = before.route(item.hash);
    assert(0 <= id < before.shards.len());
}

/// A delayed publication never displaces a newer one of its key.
pub proof fn law_delayed_publication_changes_nothing(before: MemoryStoreModel, item: MemoryItem, after: MemoryStoreModel, published: bool)
    requires
        before.publication(item, after, published),
        !before.held[before.route(item.hash)],
        ({
            let shard = before.shards[before.route(item.hash)];
            let found = shard.find(item.hash, item.namespace_id, item.stored.key);
            found is Some && shard.resident[found->0].seqno >= item.seqno
        }),
    ensures
        after == before,
{
}

/// A publication touches no shard but that of its hash.
pub proof fn law_publication_stays_in_its_shard(
    before: MemoryStoreModel,
    item: MemoryItem,
    after: MemoryStoreModel,
    published: bool,
    shard_id: int,
)
    requires
        before.publication(item, after, published),
        0 <= shard_id < before.shards.len(),
        shard_id != before.route(item.hash),
    ensures
        after.shards.len() == before.shards.len(),
        after.shards[shard_id] == before.shards[shard_id],
{
}

/// A shard's charge never exceeds its own capacity, whatever happens in other
/// shards.
pub proof fn law_shards_keep_their_own_budget(store: MemoryStoreModel, shard_id: int)
    requires
        store.valid(),
        0 <= shard_id < store.shards.len(),
    ensures
        store.shards[shard_id].used_bytes() <= store.shards[shard_id].capacity_bytes,
{
}

// ---------------------------------------------------------------------------
// What the tier does, in terms of its entries
// ---------------------------------------------------------------------------

/// An entry is charged for its key, its value and 64 bytes of bookkeeping.
pub proof fn law_charges(stored: ValueModel, slots: Seq<u32>, slot: u32, resident: Map<u32, MemoryItem>, charges: Seq<int>, charge: int)
    ensures
        stored.charge() == stored.key.len() + stored.value.len() + 64,
        charge_sum(Seq::empty(), resident) == 0,
        charge_sum(slots.push(slot), resident) == charge_sum(slots, resident) + resident[slot].stored.key.len()
            + resident[slot].stored.value.len() + 64,
        byte_sum(Seq::empty()) == 0,
        byte_sum(charges.push(charge)) == byte_sum(charges) + charge,
{
    assert(slots.push(slot).drop_last() =~= slots);
    assert(charges.push(charge).drop_last() =~= charges);
}

/// A key is found exactly if an entry holds it, under its hash and in its
/// namespace.
pub proof fn law_keys_are_found(shard: MemoryShardModel, hash: u64, namespace_id: u32, key: Seq<u8>)
    ensures
        shard.find(hash, namespace_id, key) matches Some(slot) ==> {
            &&& shard.resident.contains_key(slot)
            &&& shard.resident[slot].hash == hash
            &&& shard.resident[slot].namespace_id == namespace_id
            &&& shard.resident[slot].stored.key == key
        },
        shard.find(hash, namespace_id, key) is None ==> forall|slot: u32| #[trigger]
            shard.resident.contains_key(slot) ==> shard.resident[slot].hash != hash || shard.resident[slot].namespace_id != namespace_id
                || shard.resident[slot].stored.key != key,
{
    if exists|slot: u32| shard.holds_at(hash, namespace_id, key, slot) {
    } else {
        assert forall|slot: u32| #[trigger] shard.resident.contains_key(slot) implies shard.resident[slot].hash != hash
            || shard.resident[slot].namespace_id != namespace_id || shard.resident[slot].stored.key != key by {
            assert(!shard.holds_at(hash, namespace_id, key, slot));
        }
    }
}

/// A value that has left lingers, with its charge, exactly while someone else
/// holds it.
pub proof fn law_values_linger_while_they_are_held(charges: Seq<int>, charge: int, handles: Seq<usize>)
    ensures
        still_lingering(Seq::empty(), handles) == Seq::<int>::empty(),
        handles[charges.len() as int] > 1 ==> still_lingering(charges.push(charge), handles) == still_lingering(charges, handles) + seq![
            charge,
        ],
        handles[charges.len() as int] <= 1 ==> still_lingering(charges.push(charge), handles) == still_lingering(charges, handles),
{
    assert(charges.push(charge).drop_last() =~= charges);
    assert(still_lingering(charges, handles).push(charge) =~= still_lingering(charges, handles) + seq![charge]);
}

/// An entry that is dropped leaves with its place in the queue and nothing else
/// leaves; its charge is given back unless someone still holds the value.
pub proof fn law_dropped_entry_leaves_alone(shard: MemoryShardModel, slot: u32, handles: Seq<usize>)
    requires
        shard.valid(),
        shard.resident.contains_key(slot),
    ensures
        ({
            let after = shard.dropped(slot, handles);
            &&& !after.resident.contains_key(slot)
            &&& forall|other: u32|
                other != slot ==> (#[trigger] after.resident.contains_key(other) <==> shard.resident.contains_key(other))
                    && after.resident[other] == shard.resident[other]
            &&& after.capacity_bytes == shard.capacity_bytes
            &&& after.eviction.queue.len() == shard.eviction.queue.len() - 1
            &&& !after.eviction.queue.contains(slot)
            &&& (forall|k: int| 0 <= k <= shard.lingering.len() ==> handles[k] <= 1) ==> after.lingering.len() == 0 && after.used_bytes()
                == charge_sum(shard.eviction.queue, shard.resident) - shard.resident[slot].stored.charge()
            &&& (forall|k: int| 0 <= k <= shard.lingering.len() ==> handles[k] > 1) ==> after.used_bytes() == shard.used_bytes()
        }),
{
    let position = shard.eviction.queue.index_of(slot);
    let after = shard.dropped(slot, handles);
    let queue = shard.eviction.queue;
    assert(queue.contains(slot));
    crate::eviction::law_removal_keeps_the_order(shard.eviction, position);
    lemma_charge_sum_remove(queue, position, shard.resident);
    assert forall|k: int| 0 <= k < after.eviction.queue.len() implies shard.resident[#[trigger] after.eviction.queue[k]]
        == after.resident[after.eviction.queue[k]] by {
        assert(after.eviction.queue[k] != slot) by {
            assert(after.eviction.queue.contains(after.eviction.queue[k]));
        }
    }
    lemma_charge_sum_same(after.eviction.queue, shard.resident, after.resident);
    let charge = shard.resident[slot].stored.charge();
    if forall|k: int| 0 <= k <= shard.lingering.len() ==> handles[k] <= 1 {
        lemma_none_linger(shard.lingering.push(charge), handles);
    }
    if forall|k: int| 0 <= k <= shard.lingering.len() ==> handles[k] > 1 {
        lemma_all_linger(shard.lingering.push(charge), handles);
        law_charges(shard.resident[slot].stored, queue, slot, shard.resident, shard.lingering, charge);
    }
}

proof fn lemma_none_linger(charges: Seq<int>, handles: Seq<usize>)
    requires
        forall|k: int| 0 <= k < charges.len() ==> handles[k] <= 1,
    ensures
        still_lingering(charges, handles) == Seq::<int>::empty(),
    decreases charges.len(),
{
    if charges.len() > 0 {
        lemma_none_linger(charges.drop_last(), handles);
    }
}

proof fn lemma_all_linger(charges: Seq<int>, handles: Seq<usize>)
    requires
        forall|k: int| 0 <= k < charges.len() ==> handles[k] > 1,
    ensures
        still_lingering(charges, handles) == charges,
    decreases charges.len(),
{
    if charges.len() > 0 {
        lemma_all_linger(charges.drop_last(), handles);
        assert(charges.drop_last().push(charges.last()) =~= charges);
    } else {
        assert(charges =~= Seq::<int>::empty());
    }
}

/// The search for victims passes over the entry that is being replaced and over
/// what it has chosen. An entry that was hit gets its second chance, at the end
/// of the queue or in its place; any other is chosen unless someone holds its
/// value.
pub proof fn law_steps_of_the_search(
    search: VictimSearch,
    target: int,
    resident: Map<u32, MemoryItem>,
    replacement: Option<u32>,
    handles: Seq<usize>,
)
    requires
        0 <= target < search.eviction.queue.len(),
        search.eviction.queue[target] < search.eviction.visited.len(),
    ensures
        ({
            let slot = search.eviction.queue[target];
            let next = search.looked_at(target, resident, replacement, handles);
            let skipped = Some(slot) == replacement || search.victims.contains(slot);
            let spared = !skipped && (search.eviction.policy is Clock || search.eviction.policy is Sieve)
                && search.eviction.visited[slot as int];
            let asked = !skipped && !spared;
            let free = asked && handles[search.asked] <= 1;
            &&& next.asked == search.asked + if asked { 1int } else { 0int }
            &&& free ==> next.victims == search.victims + seq![slot] && next.freed == search.freed + resident[slot].stored.charge()
            &&& !free ==> next.victims == search.victims && next.freed == search.freed
            &&& !spared ==> next.eviction == search.eviction && next.position == target + 1
            &&& spared ==> {
                &&& !next.eviction.visited[slot as int]
                &&& forall|k: int|
                    0 <= k < search.eviction.visited.len() && k != slot ==> #[trigger] next.eviction.visited[k]
                        == search.eviction.visited[k]
                &&& search.eviction.policy is Sieve ==> next.position == target + 1 && next.eviction.queue == search.eviction.queue
                &&& search.eviction.policy is Clock ==> next.position == target && next.eviction.queue.last() == slot
                    && next.eviction.queue.len() == search.eviction.queue.len() && (forall|k: int|
                    0 <= k < target ==> #[trigger] next.eviction.queue[k] == search.eviction.queue[k]) && (forall|k: int|
                    target <= k < search.eviction.queue.len() - 1 ==> #[trigger] next.eviction.queue[k] == search.eviction.queue[k + 1])
            }
        }),
{
    let slot = search.eviction.queue[target];
    assert(search.victims.push(slot) =~= search.victims + seq![slot]);
}

/// The search starts at the hand where there is one, and else with the oldest
/// entry; behind the last entry only the hand goes on, with the first. It stops
/// once enough is freed, at sixteen victims, and where nothing is left.
pub proof fn law_search_goes_round(eviction: EvictionModel, freed: int, search: VictimSearch, needed: int)
    requires
        eviction.valid(),
        search.position >= 0,
    ensures
        ({
            let start = VictimSearch::start(eviction, freed);
            &&& start.eviction == eviction && start.victims.len() == 0 && start.freed == freed && start.asked == 0
            &&& start.position == if eviction.policy is Sieve {
                eviction.hand
            } else {
                0
            }
        }),
        search.position < search.eviction.queue.len() ==> search.target() == Some(search.position),
        search.position >= search.eviction.queue.len() ==> search.target() == if search.eviction.policy is Sieve
            && search.eviction.queue.len() > 0 {
            Some(0int)
        } else {
            None
        },
        search.is_over(needed) <==> search.freed >= needed || search.victims.len() >= 16 || search.target() is None,
        search.order() == if search.eviction.policy is Sieve {
            EvictionModel { hand: search.position, ..search.eviction }
        } else {
            search.eviction
        },
{
}

/// The victims of a search free what they are charged for, each was needed when
/// it was chosen, none is the entry that is being replaced, none is chosen
/// twice, and they are at most sixteen.
pub proof fn law_search_frees_what_it_chooses(
    search: VictimSearch,
    needed: int,
    steps: nat,
    resident: Map<u32, MemoryItem>,
    replacement: Option<u32>,
    handles: Seq<usize>,
)
    requires
        search.victims.no_duplicates(),
        search.victims.len() <= 16,
        replacement matches Some(slot) ==> !search.victims.contains(slot),
    ensures
        ({
            let found = search.finished(needed, steps, resident, replacement, handles);
            let chosen = found.victims;
            let before = search.victims.len() as int;
            &&& before <= chosen.len() <= 16
            &&& chosen.take(before) == search.victims
            &&& chosen.no_duplicates()
            &&& replacement matches Some(slot) ==> !chosen.contains(slot)
            &&& found.freed == search.freed + charge_sum(chosen, resident) - charge_sum(search.victims, resident)
            &&& forall|k: int|
                before <= k < chosen.len() ==> search.freed + charge_sum(#[trigger] chosen.take(k), resident) - charge_sum(
                    search.victims,
                    resident,
                ) < needed
        }),
    decreases steps,
{
    let found = search.finished(needed, steps, resident, replacement, handles);
    assert(search.victims.take(search.victims.len() as int) =~= search.victims);
    if steps > 0 && !search.is_over(needed) {
        let target = search.target()->0;
        let slot = search.eviction.queue[target];
        let next = search.looked_at(target, resident, replacement, handles);
        if next.victims != search.victims {
            assert(next.victims == search.victims.push(slot));
            law_charges(resident[slot].stored, search.victims, slot, resident, Seq::empty(), 0);
            assert(next.victims.no_duplicates());
            if replacement is Some {
                assert(!next.victims.contains(replacement->0)) by {
                    if next.victims.contains(replacement->0) {
                        let k = next.victims.index_of(replacement->0);
                        if k < search.victims.len() {
                            assert(search.victims[k] == replacement->0);
                            assert(search.victims.contains(replacement->0));
                        }
                    }
                }
            }
        }
        law_search_frees_what_it_chooses(next, needed, (steps - 1) as nat, resident, replacement, handles);
        let chosen = found.victims;
        let before = search.victims.len() as int;
        assert(chosen.take(before) =~= search.victims) by {
            assert(chosen.take(next.victims.len() as int) == next.victims);
            assert(next.victims.take(before) =~= search.victims);
            assert(chosen.take(before) =~= chosen.take(next.victims.len() as int).take(before));
        }
        assert forall|k: int| before <= k < chosen.len() implies search.freed + charge_sum(#[trigger] chosen.take(k), resident)
            - charge_sum(search.victims, resident) < needed by {
            if k == before && next.victims.len() > before {
                assert(chosen.take(k) == search.victims);
            }
        }
    }
}

/// Where only age or recency counts and nobody holds a value, the victims are
/// the oldest entries, in order.
pub proof fn law_oldest_entries_go_first(
    search: VictimSearch,
    needed: int,
    steps: nat,
    resident: Map<u32, MemoryItem>,
    handles: Seq<usize>,
)
    requires
        search.eviction.policy is Lru || search.eviction.policy is Fifo || search.eviction.policy is TinyLfu,
        search.eviction.valid(),
        0 <= search.position <= search.eviction.queue.len(),
        search.victims == search.eviction.queue.take(search.position),
        forall|k: int| 0 <= k ==> #[trigger] handles[k] <= 1,
        search.asked >= 0,
    ensures
        ({
            let found = search.finished(needed, steps, resident, None, handles);
            &&& found.victims == search.eviction.queue.take(found.victims.len() as int)
            &&& found.eviction == search.eviction
            &&& search.victims.len() + steps >= 16 && search.victims.len() <= 16 ==> found.freed >= needed || found.victims.len() == 16
                || found.victims.len() == search.eviction.queue.len()
        }),
    decreases steps,
{
    if steps > 0 && !search.is_over(needed) {
        let target = search.position;
        let queue = search.eviction.queue;
        let slot = queue[target];
        assert(!search.victims.contains(slot)) by {
            if search.victims.contains(slot) {
                let k = search.victims.index_of(slot);
                assert(queue[k] == slot);
            }
        }
        let next = search.looked_at(target, resident, None, handles);
        assert(next.victims =~= queue.take(target + 1));
        law_oldest_entries_go_first(next, needed, (steps - 1) as nat, resident, handles);
    }
}

/// Room is refused exactly for three reasons: the entry is larger than the
/// shard; the victims that can be had do not free enough; or frequencies decide
/// and the victims were asked for as often together as the newcomer. Where the
/// entry fits there are no victims.
pub proof fn law_room_is_refused_for_a_reason(
    shard: MemoryShardModel,
    required: int,
    hint: AdmissionHint,
    replacement: Option<u32>,
    seen: HandlesSeen,
)
    requires
        shard.valid(),
    ensures
        ({
            let decision = shard.charge_decision(required, hint, replacement, seen);
            let available = shard.capacity_bytes - charge_sum(shard.eviction.queue, shard.resident) - byte_sum(
                still_lingering(shard.lingering, seen.swept),
            );
            let found = shard.victim_search(required, replacement, seen);
            let popular = shard.eviction.policy is TinyLfu && found.victims.len() > 0 && frequency_sum(
                shard.eviction,
                hashes_of(shard.resident, found.victims),
            ) >= hint.frequency;
            &&& decision matches ChargeModel::Charged { victims, .. } ==> {
                &&& required <= shard.capacity_bytes
                &&& required <= available ==> victims.len() == 0
                &&& required > available ==> victims == found.victims && !popular && found.freed >= required - available
            }
            &&& decision matches ChargeModel::Rejected { admission, .. } ==> {
                &&& required > shard.capacity_bytes || required > available
                &&& admission <==> required <= shard.capacity_bytes && required > available && found.freed >= required - available && popular
                &&& required <= shard.capacity_bytes && !admission ==> found.freed < required - available
            }
        }),
{
}

/// What the victims and an entry that is replaced without another holder free
/// is the sum of their charges, and covers what was asked for.
pub proof fn law_victims_cover_what_is_asked_for(
    shard: MemoryShardModel,
    required: int,
    hint: AdmissionHint,
    replacement: Option<u32>,
    seen: HandlesSeen,
)
    requires
        shard.valid(),
        shard.charge_decision(required, hint, replacement, seen) is Charged,
    ensures
        ({
            let victims = shard.charge_decision(required, hint, replacement, seen)->victims;
            let given_back = match replacement {
                Some(slot) => if seen.replaced > 1 {
                    0
                } else {
                    shard.resident[slot].stored.charge()
                },
                None => 0,
            };
            let available = shard.capacity_bytes - charge_sum(shard.eviction.queue, shard.resident) - byte_sum(
                still_lingering(shard.lingering, seen.swept),
            );
            &&& victims.len() <= 16
            &&& victims.no_duplicates()
            &&& replacement matches Some(slot) ==> !victims.contains(slot)
            &&& victims.len() > 0 ==> required <= available + given_back + charge_sum(victims, shard.resident)
            &&& victims.len() > 0 ==> required > available + given_back + charge_sum(victims.drop_last(), shard.resident)
            &&& victims.len() == 0 ==> required <= available + given_back
        }),
{
    let released = match replacement {
        Some(slot) => if seen.replaced > 1 {
            0
        } else {
            shard.resident[slot].stored.charge()
        },
        None => 0,
    };
    let needed = required - shard.available_bytes(seen);
    law_search_frees_what_it_chooses(
        VictimSearch::start(shard.eviction, released),
        needed,
        MAX_POLICY_SCAN_STEPS as nat,
        shard.resident,
        replacement,
        seen.considered,
    );
    let victims = shard.charge_decision(required, hint, replacement, seen)->victims;
    if victims.len() > 0 {
        assert(victims.take(victims.len() - 1) =~= victims.drop_last());
    }
    if replacement is Some {
        assert(shard.resident[replacement->0].stored.charge() >= 0);
    }
}

/// An entry comes in exactly if the hash's chain has room or holds its key
/// already, the memory for it could be had, it was given room and a slot is
/// left. It then stands last in the queue, in a slot of its own; the victims and
/// the entry that it replaces are gone, and no other.
pub proof fn law_insertions(
    before: MemoryShardModel,
    item: MemoryItem,
    hint: AdmissionHint,
    given: InsertCircumstances,
    after: MemoryShardModel,
    result: MemoryInsertResult,
)
    requires
        before.insert_outcome(item, hint, given, after, result),
    ensures
        ({
            let replaced = before.find(item.hash, item.namespace_id, item.stored.key);
            let crowded = replaced is None && before.same_hash(item.hash).len() >= 8;
            let decision = before.charge_decision(item.stored.charge(), hint, replaced, given.seen);
            let tried = !crowded && item.stored.charge() <= usize::MAX && given.prepared;
            &&& after.capacity_bytes == before.capacity_bytes
            &&& result.inserted ==> tried && given.allocated && decision is Charged
            &&& tried && given.allocated && (decision matches ChargeModel::Charged { eviction, .. } && eviction.visited.len()
                <= 0x7fff_fffe) ==> result.inserted
            &&& !tried ==> after == before && !result.inserted && result.evictions == 0 && !result.admission_rejected
            &&& tried ==> (decision matches ChargeModel::Rejected { admission, .. } ==> {
                &&& after.resident == before.resident
                &&& !result.inserted && result.evictions == 0 && result.admission_rejected == admission
            })
            &&& tried ==> (decision matches ChargeModel::Charged { victims, .. } ==> {
                &&& !result.admission_rejected
                &&& result.evictions == victims.len() as usize
                &&& forall|slot: u32| #[trigger]
                    before.resident.contains_key(slot) && !victims.contains(slot) && replaced != Some(slot) ==> after.resident.contains_key(
                        slot,
                    ) && after.resident[slot] == before.resident[slot]
                &&& result.inserted ==> {
                    let slot = after.eviction.queue.last();
                    &&& after.eviction.queue.len() > 0
                    &&& after.resident.contains_key(slot) && after.resident[slot] == item
                    &&& forall|other: u32|
                        other != slot ==> (#[trigger] after.resident.contains_key(other) <==> before.resident.contains_key(other)
                            && !victims.contains(other) && replaced != Some(other))
                }
                &&& !result.inserted ==> forall|other: u32| #[trigger]
                    after.resident.contains_key(other) <==> before.resident.contains_key(other) && !victims.contains(other) && replaced
                        != Some(other)
            })
        }),
{
    let replaced = before.find(item.hash, item.namespace_id, item.stored.key);
    let decision = before.charge_decision(item.stored.charge(), hint, replaced, given.seen);
    if decision is Charged {
        let victims = decision->victims;
        let gone = emptied(replaced, victims);
        let rest = without_slots(before.resident, gone);
        assert forall|slot: u32| #[trigger]
            rest.contains_key(slot) <==> before.resident.contains_key(slot) && !victims.contains(slot) && replaced != Some(slot) by {
            if gone.contains(slot) {
                let k = gone.index_of(slot);
                if k < victims.len() {
                    assert(victims[k] == slot);
                }
            } else {
                if victims.contains(slot) {
                    let k = victims.index_of(slot);
                    assert(gone[k] == slot);
                }
                if replaced == Some(slot) {
                    assert(gone[victims.len() as int] == slot);
                }
            }
        }
    }
}

/// A value that is published while its shard is held is turned away and counted
/// as such. An entry with an equal or newer version stays as it is. Any other
/// publication is a request and goes in by what its hash has been asked for.
pub proof fn law_publications(before: MemoryStoreModel, item: MemoryItem, after: MemoryStoreModel, published: bool)
    requires
        before.valid(),
        before.publication(item, after, published),
    ensures
        ({
            let id = item.hash as int % before.shards.len() as int;
            let shard = before.shards[id];
            let found = shard.find(item.hash, item.namespace_id, item.stored.key);
            &&& before.held[id] ==> {
                &&& !published
                &&& after.shards == before.shards && after.held == before.held
                &&& before.metrics_enabled ==> after.metrics.bypasses as int == (before.metrics.bypasses + 1) % 0x1_0000_0000_0000_0000
                &&& after.metrics.evictions == before.metrics.evictions
                &&& after.metrics.admission_rejections == before.metrics.admission_rejections
            }
            &&& !before.held[id] && (found matches Some(slot) && shard.resident[slot].seqno >= item.seqno) ==> published && after == before
            &&& !before.held[id] && (found matches Some(slot) ==> shard.resident[slot].seqno < item.seqno) ==> {
                let counted = MemoryShardModel { eviction: shard.eviction.requested(item.hash), ..shard };
                let hint = AdmissionHint { frequency: counted.eviction.frequency[item.hash as int % 1024] };
                exists|given: InsertCircumstances, result: MemoryInsertResult| #[trigger]
                    counted.insert_outcome(item, hint, given, after.shards[id], result) && published == result.inserted
            }
        }),
{
}

/// Insertions are counted only where metrics are: evictions by their number, one
/// bypass for each that did not come in and one rejection for each that
/// admission turned away.
pub proof fn law_insertions_are_counted(store: MemoryStoreModel, result: MemoryInsertResult)
    ensures
        ({
            let after = store.recorded(result);
            let wrap = 0x1_0000_0000_0000_0000int;
            &&& after.shards == store.shards && after.held == store.held && after.metrics_enabled == store.metrics_enabled
            &&& !store.metrics_enabled ==> after.metrics == store.metrics
            &&& store.metrics_enabled ==> {
                &&& after.metrics.evictions as int == (store.metrics.evictions + result.evictions as u64) % wrap
                &&& after.metrics.bypasses as int == (store.metrics.bypasses + if result.inserted { 0int } else { 1int }) % wrap
                &&& after.metrics.admission_rejections as int == (store.metrics.admission_rejections + if result.admission_rejected {
                    1int
                } else {
                    0int
                }) % wrap
            }
        }),
{
}

/// A key's hash decides its shard, and a shard that changes leaves the others.
pub proof fn law_shards_are_apart(store: MemoryStoreModel, hash: u64, shard: MemoryShardModel, other: int)
    requires
        store.shards.len() > 0,
        0 <= other < store.shards.len(),
    ensures
        0 <= store.route(hash) < store.shards.len(),
        store.route(hash) == hash as int % store.shards.len() as int,
        ({
            let after = store.with_shard(store.route(hash), shard);
            &&& after.shards.len() == store.shards.len() && after.held == store.held && after.metrics == store.metrics
            &&& after.shards[store.route(hash)] == shard
            &&& other != store.route(hash) ==> after.shards[other] == store.shards[other]
        }),
{
    vstd::arithmetic::div_mod::lemma_mod_bound(hash as int, store.shards.len() as int);
}

/// A new shard is empty and has seen nothing.
pub proof fn law_new_shard_is_empty(capacity_bytes: usize, policy: EvictionPolicy)
    ensures
        ({
            let shard = MemoryShardModel::fresh(capacity_bytes, policy);
            &&& shard.capacity_bytes == capacity_bytes && shard.eviction.policy == policy
            &&& forall|slot: u32| !#[trigger] shard.resident.contains_key(slot)
            &&& shard.eviction.queue.len() == 0 && shard.lingering.len() == 0 && shard.eviction.hand == 0
            &&& shard.used_bytes() == 0
            &&& forall|hash: u64| #[trigger] shard.eviction.frequency_of(hash) == 0
            &&& shard.valid()
        }),
{
    let shard = MemoryShardModel::fresh(capacity_bytes, policy);
    reveal(distinct_items);
    assert(shard.eviction.queue.no_duplicates());
}

/// An entry that settles stands behind all others, in a vacant slot or a new
/// one, and has not been hit; the order, the hand and the frequencies of the
/// others stay. Without memory or a slot nothing settles.
pub proof fn law_settled_entries_come_last(
    before: MemoryShardModel,
    item: MemoryItem,
    allocated: bool,
    evictions: usize,
    after: MemoryShardModel,
    result: MemoryInsertResult,
)
    requires
        before.valid(),
        before.settlement(item, allocated, evictions, after, result),
    ensures
        result.evictions == evictions,
        !result.admission_rejected,
        result.inserted <==> allocated && (before.eviction.queue.len() < before.eviction.visited.len() || before.eviction.visited.len()
            <= 0x7fff_fffe),
        !result.inserted ==> after == before,
        result.inserted ==> ({
            let slot = after.eviction.queue.last();
            &&& after.eviction.queue == before.eviction.queue + seq![slot]
            &&& !before.eviction.queue.contains(slot)
            &&& slot <= before.eviction.visited.len()
            &&& !after.eviction.visited[slot as int]
            &&& forall|k: int|
                0 <= k < before.eviction.visited.len() && k != slot ==> #[trigger] after.eviction.visited[k] == before.eviction.visited[k]
            &&& after.eviction.hand == before.eviction.hand && after.eviction.policy == before.eviction.policy
            &&& after.eviction.frequency == before.eviction.frequency
            &&& after.lingering == before.lingering && after.capacity_bytes == before.capacity_bytes
        }),
{
    if result.inserted {
        let slot = after.eviction.queue.last();
        assert(before.eviction.queue.push(slot) =~= before.eviction.queue + seq![slot]);
    }
    lemma_queue_fits(before.eviction.queue, before.eviction.visited.len() as int);
}

proof fn lemma_queue_fits(queue: Seq<u32>, limit: int)
    requires
        queue.no_duplicates(),
        forall|k: int| 0 <= k < queue.len() ==> (#[trigger] queue[k]) < limit,
    ensures
        queue.len() <= limit || queue.len() == 0,
    decreases limit,
{
    if queue.len() > 0 && limit <= 0 {
        assert(queue[0] < limit);
    } else if queue.len() > 0 {
        let top = limit - 1;
        if queue.contains(top as u32) && 0 <= top <= u32::MAX {
            let position = queue.index_of(top as u32);
            let rest = queue.remove(position);
            assert forall|k: int| 0 <= k < rest.len() implies (#[trigger] rest[k]) < top by {
                let at = if k < position {
                    k
                } else {
                    k + 1
                };
                assert(rest[k] == queue[at]);
                assert(queue[at] != queue[position]);
                assert(queue[at] < limit);
            }
            lemma_queue_fits(rest, top);
        } else {
            assert forall|k: int| 0 <= k < queue.len() implies (#[trigger] queue[k]) < top by {
                assert(queue[k] < limit);
                if queue[k] == top {
                    assert(queue.contains(top as u32));
                }
            }
            lemma_queue_fits(queue, top);
        }
    }
}

/// Entries that are discarded leave the queue one after the other.
pub proof fn law_discarded_entries_leave_in_turn(eviction: EvictionModel, slots: Seq<u32>, slot: u32)
    ensures
        evicted(eviction, Seq::empty()) == eviction,
        evicted(eviction, slots.push(slot)) == evicted(eviction, slots).removed(evicted(eviction, slots).queue.index_of(slot)),
{
    assert(slots.push(slot).drop_last() =~= slots);
}

/// An insertion changes the entry's own shard as inserting there does, and the
/// metrics as its result says.
pub proof fn law_insertions_reach_one_shard(
    before: MemoryStoreModel,
    shard_id: int,
    item: MemoryItem,
    hint: AdmissionHint,
    after: MemoryStoreModel,
    inserted: bool,
)
    requires
        0 <= shard_id < before.shards.len(),
        before.insertion(shard_id, item, hint, after, inserted),
    ensures
        after.shards.len() == before.shards.len(),
        forall|k: int| 0 <= k < before.shards.len() && k != shard_id ==> after.shards[k] == before.shards[k],
        after.held == before.held,
        !before.metrics_enabled ==> after.metrics == before.metrics,
        before.metrics_enabled ==> after.metrics.bypasses as int == (before.metrics.bypasses + if inserted { 0int } else { 1int })
            % 0x1_0000_0000_0000_0000,
        exists|given: InsertCircumstances, result: MemoryInsertResult| #[trigger]
            before.shards[shard_id].insert_outcome(item, hint, given, after.shards[shard_id], result) && result.inserted == inserted,
{
}

/// A lookup hits exactly if its shard is free and holds a live entry for the
/// key, and shows that entry's value; the entry stays. Any other lookup misses,
/// and takes no entry out but one of this key whose time is over.
pub proof fn law_lookups(
    before: MemoryStoreModel,
    hash: u64,
    namespace_id: u32,
    key: Seq<u8>,
    clock: ExpiryClock,
    after: MemoryStoreModel,
    result: MemoryLookup,
)
    requires
        before.valid(),
        before.lookup_outcome(hash, namespace_id, key, clock, after, result),
    ensures
        ({
            let id = hash as int % before.shards.len() as int;
            let found = before.shards[id].find(hash, namespace_id, key);
            let end = before.shards[id].resident[found->0].expires_at_unix_ms;
            let live = found is Some && (end == 0 || clock.now() < end);
            &&& result is Hit <==> !before.held[id] && live
            &&& result matches MemoryLookup::Hit(value) ==> value@ == before.shards[id].resident[found->0].stored && after.shards[id].resident
                == before.shards[id].resident
            &&& result matches MemoryLookup::Miss(token) ==> token.shard_id == id
            &&& before.held[id] ==> after == before
            &&& !before.held[id] && found is None ==> after.shards[id].resident == before.shards[id].resident
            &&& !before.held[id] && found is Some && !live ==> after.shards[id].resident == before.shards[id].resident.remove(found->0)
            &&& after.shards.len() == before.shards.len()
            &&& forall|k: int| 0 <= k < before.shards.len() && k != id ==> after.shards[k] == before.shards[k]
            &&& after.metrics == before.metrics && after.held == before.held
        }),
{
    vstd::arithmetic::div_mod::lemma_mod_bound(hash as int, before.shards.len() as int);
}

/// A value that was read after a miss comes in only where the miss was, while
/// the shard is free and the key is still missing; it is handed out as it was
/// offered.
pub proof fn law_promotions(
    before: MemoryStoreModel,
    token: MemoryReadToken,
    item: MemoryItem,
    after: MemoryStoreModel,
    promoted: Option<MemoryValue>,
)
    requires
        before.valid(),
        before.promotion(token, item, after, promoted),
    ensures
        ({
            let id = item.hash as int % before.shards.len() as int;
            let taken = before.shards[id].find(item.hash, item.namespace_id, item.stored.key) is Some;
            &&& token.shard_id != id || before.held[id] || taken ==> promoted is None && after == before
            &&& promoted matches Some(value) ==> {
                &&& value@.key == item.stored.key && value@.value == item.stored.value
                &&& !taken && !before.held[id] && token.shard_id == id
                &&& after.shards[id].find(item.hash, item.namespace_id, item.stored.key) matches Some(slot)
                    && after.shards[id].resident[slot] == item
            }
        }),
{
    vstd::arithmetic::div_mod::lemma_mod_bound(item.hash as int, before.shards.len() as int);
    let id = before.route(item.hash);
    if promoted is Some {
        let (given, result) = choose|given: InsertCircumstances, result: MemoryInsertResult|
            {
                &&& #[trigger] before.shards[id].insert_outcome(item, token.admission, given, after.shards[id], result)
                &&& after == before.with_shard(id, after.shards[id]).recorded(result)
                &&& true == result.inserted
            };
        law_inserted_entry_is_found(before.shards[id], item, token.admission, given, after.shards[id], result);
    }
}

} // verus!
