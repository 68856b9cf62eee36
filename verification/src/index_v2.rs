//! Mask-aware bounded point operations over the Region index.
//!
//! This layer owns the sharded storage but deliberately does not own Region
//! visibility or logical accounting. A lookup returns only the raw typed point
//! state before the caller consults Region authority. Mutations receive one
//! authority object after the caller has acquired stable Region-manager
//! authority. No slot is modified until the probe has selected its final
//! target. The same object supplies visibility during the probe and consumes
//! the exact committed transition.

use crate::index::{IndexEntry, MAX_INDEX_PROBES};
use crate::index_storage::{
    shard_of, IndexShardModel, IndexSlotStateV1, IndexStorageError, IndexStorageModel, ShardedIndexStorage,
};
use vstd::prelude::*;

verus! {

/// One exact physical mutation.
#[derive(Clone, Copy, Debug, PartialEq, Eq, Structural)]
pub struct IndexTransitionV2 {
    pub global_slot: usize,
    pub previous: IndexSlotStateV1,
    pub installed: IndexSlotStateV1,
}

/// Stable Region authority shared by one complete index mutation.
///
/// Callers acquire the Region-manager authority before entering the index.
/// `commit` runs after the slot and the physical statistics have changed. It
/// must be infallible.
///
/// An authority outside the verified code leaves out what it sees and what it
/// has committed; the index then keeps its promises only as far as `is_visible`
/// and `commit` keep theirs.
pub trait IndexMutationAuthorityV2 {
    /// What the authority regards as visible.
    closed spec fn sees(&self, entry: IndexEntry) -> bool {
        arbitrary()
    }

    /// The transitions committed so far.
    closed spec fn committed(&self) -> Seq<IndexTransitionV2> {
        arbitrary()
    }

    fn is_visible(&self, entry: IndexEntry) -> (visible: bool)
        ensures
            visible == self.sees(entry),
    ;

    fn commit(&mut self, transition: IndexTransitionV2)
        ensures
            final(self).committed() == old(self).committed().push(transition),
    ;
}

/// An authority that sees versions from a sequence number on.
pub struct FloorAuthorityV2 {
    pub min_visible_seqno: u64,
    pub transitions: Vec<IndexTransitionV2>,
}

impl IndexMutationAuthorityV2 for FloorAuthorityV2 {
    open spec fn sees(&self, entry: IndexEntry) -> bool {
        entry.seqno >= self.min_visible_seqno
    }

    open spec fn committed(&self) -> Seq<IndexTransitionV2> {
        self.transitions@
    }

    fn is_visible(&self, entry: IndexEntry) -> (visible: bool) {
        entry.seqno >= self.min_visible_seqno
    }

    fn commit(&mut self, transition: IndexTransitionV2) {
        self.transitions.push(transition);
    }
}

/// Typed result of a point lookup.
#[derive(Clone, Copy, Debug, PartialEq, Eq, Structural)]
pub enum IndexLookupV2 {
    Hit(IndexEntry),
    Miss,
    /// A same-hash producer owns this point until it publishes or normalizes
    /// the mask. Foreign masks are invisible and probing continues past them.
    Masked { seqno: u64 },
}

/// Result of attempting to install one live value.
#[derive(Clone, Copy, Debug, PartialEq, Eq, Structural)]
pub enum IndexUpsertV2 {
    Applied {
        transition: IndexTransitionV2,
        /// The logically visible entry displaced by this install. Reusing a
        /// stale physical value reports `None` while the transition still
        /// carries the exact physical predecessor.
        previous: Option<IndexEntry>,
    },
    Ignored { current: Option<IndexEntry> },
    /// A same-hash mask is at least as new as the supplied value.
    Masked { seqno: u64 },
    /// Every candidate in the bounded window is protected by a foreign mask.
    Saturated,
}

/// Result of reserving one hash/version with a producer mask.
#[derive(Clone, Copy, Debug, PartialEq, Eq, Structural)]
pub enum IndexMaskV2 {
    Applied { transition: IndexTransitionV2, previous: Option<IndexEntry> },
    Ignored { current: Option<IndexEntry> },
    /// A same-hash mask already owns an equal or newer version.
    Masked { seqno: u64 },
    Saturated,
}

/// Result of installing a slot state.
#[derive(Clone, Copy, Debug, PartialEq, Eq, Structural)]
pub enum IndexInstallV2 {
    Applied { transition: IndexTransitionV2, previous: Option<IndexEntry> },
    Ignored { current: Option<IndexEntry> },
    Masked { seqno: u64 },
    Saturated,
}

// ---------------------------------------------------------------------------
// Probing
// ---------------------------------------------------------------------------

/// The slot that a probe starts at.
pub open spec fn start_of(hash: u64, slot_count: int) -> int {
    hash as int % slot_count
}

/// How many slots a probe may examine.
pub open spec fn window(slot_count: int) -> int {
    if slot_count < MAX_INDEX_PROBES {
        slot_count
    } else {
        MAX_INDEX_PROBES as int
    }
}

/// The slot at `step` of a probe, wrapping round the shard.
pub open spec fn probed(hash: u64, slot_count: int, step: int) -> int {
    (start_of(hash, slot_count) + step) % slot_count
}

fn start_slot(hash: u64, slot_count: usize) -> (start: usize)
    requires
        slot_count > 0,
    ensures
        start == start_of(hash, slot_count as int),
        start < slot_count,
{
    (hash % (slot_count as u64)) as usize
}

fn probe_limit(slot_count: usize) -> (limit: usize)
    ensures
        limit == window(slot_count as int),
{
    if slot_count < MAX_INDEX_PROBES {
        slot_count
    } else {
        MAX_INDEX_PROBES
    }
}

fn probe_slot(start: usize, step: usize, slot_count: usize) -> (slot: usize)
    requires
        start < slot_count,
        step < slot_count,
    ensures
        slot == (start + step) % (slot_count as int),
        slot < slot_count,
{
    proof {
        lemma_wrap(start as int, step as int, slot_count as int);
    }
    let before_wrap = slot_count - start;
    if step >= before_wrap {
        step - before_wrap
    } else {
        start + step
    }
}

impl IndexShardModel {
    /// The state that a probe sees at `step`.
    pub open spec fn at_step(self, hash: u64, step: int) -> IndexSlotStateV1 {
        self.slots[probed(hash, self.slots.len() as int, step)]
    }

    /// The page under `step` of a probe faults.
    pub open spec fn step_faults(self, hash: u64, step: int) -> bool {
        self.faults(probed(hash, self.slots.len() as int, step))
    }

    /// A probe for the hash ends at `step`: the slot faults, is empty, or
    /// belongs to the hash.
    pub open spec fn decides(self, hash: u64, step: int) -> bool {
        self.step_faults(hash, step) || match self.at_step(hash, step) {
            IndexSlotStateV1::Empty => true,
            IndexSlotStateV1::Deleted => false,
            IndexSlotStateV1::Masked { hash: owner, .. } => owner == hash,
            IndexSlotStateV1::Value { hash: owner, .. } => owner == hash,
        }
    }

    /// The first step at which a probe for the hash ends, from `step` on.
    pub open spec fn decision_from(self, hash: u64, step: int) -> Option<int>
        decreases window(self.slots.len() as int) - step,
    {
        if step >= window(self.slots.len() as int) {
            None
        } else if self.decides(hash, step) {
            Some(step)
        } else {
            self.decision_from(hash, step + 1)
        }
    }

    /// The first step at which a probe for the hash ends.
    pub open spec fn decision(self, hash: u64) -> Option<int> {
        self.decision_from(hash, 0)
    }

    /// What a lookup finds.
    pub open spec fn lookup(self, hash: u64) -> Result<IndexLookupV2, IndexStorageError> {
        match self.decision(hash) {
            None => Ok(IndexLookupV2::Miss),
            Some(step) => if self.step_faults(hash, step) {
                Err(self.fault(hash, step))
            } else {
                match self.at_step(hash, step) {
                    IndexSlotStateV1::Masked { seqno, .. } => Ok(IndexLookupV2::Masked { seqno }),
                    IndexSlotStateV1::Value { entry, .. } => Ok(IndexLookupV2::Hit(entry)),
                    _ => Ok(IndexLookupV2::Miss),
                }
            },
        }
    }

    /// The fault that `step` of a probe reports.
    pub open spec fn fault(self, hash: u64, step: int) -> IndexStorageError {
        self.fault_at(probed(hash, self.slots.len() as int, step))
    }
}

/// No step before the decision decides; the decision does.
proof fn lemma_decision_from(shard: IndexShardModel, hash: u64, step: int)
    requires
        0 <= step,
    ensures
        match shard.decision_from(hash, step) {
            Some(found) => {
                &&& step <= found < window(shard.slots.len() as int)
                &&& shard.decides(hash, found)
                &&& forall|k: int| step <= k < found ==> !#[trigger] shard.decides(hash, k)
            },
            None => forall|k: int| step <= k < window(shard.slots.len() as int) ==> !#[trigger] shard.decides(hash, k),
        },
    decreases window(shard.slots.len() as int) - step,
{
    if step < window(shard.slots.len() as int) && !shard.decides(hash, step) {
        lemma_decision_from(shard, hash, step + 1);
    }
}

/// The least deciding step is the decision.
proof fn lemma_decision_is(shard: IndexShardModel, hash: u64, step: int)
    requires
        0 <= step < window(shard.slots.len() as int),
        shard.decides(hash, step),
        forall|k: int| 0 <= k < step ==> !#[trigger] shard.decides(hash, k),
    ensures
        shard.decision(hash) == Some(step),
{
    lemma_decision_from(shard, hash, 0);
    match shard.decision(hash) {
        Some(found) => {
            if found < step {
                assert(!shard.decides(hash, found));
            }
            if step < found {
                assert(!shard.decides(hash, step));
            }
        },
        None => {
            assert(!shard.decides(hash, step));
        },
    }
}

/// Different steps of a probe look at different slots.
proof fn lemma_probed_apart(hash: u64, slot_count: int, first: int, second: int)
    requires
        slot_count > 0,
        0 <= first < window(slot_count),
        0 <= second < window(slot_count),
        first != second,
    ensures
        probed(hash, slot_count, first) != probed(hash, slot_count, second),
        0 <= probed(hash, slot_count, first) < slot_count,
{
    let start = start_of(hash, slot_count);
    assert(0 <= start < slot_count);
    lemma_wrap(start, first, slot_count);
    lemma_wrap(start, second, slot_count);
}

proof fn lemma_wrap(start: int, step: int, slot_count: int)
    requires
        0 <= start < slot_count,
        0 <= step < slot_count,
    ensures
        (start + step) % slot_count == if start + step >= slot_count { start + step - slot_count } else { start + step },
{
    if start + step >= slot_count {
        vstd::arithmetic::div_mod::lemma_fundamental_div_mod_converse(start + step, slot_count, 1, start + step - slot_count);
    } else {
        vstd::arithmetic::div_mod::lemma_small_mod((start + step) as nat, slot_count as nat);
    }
}

// ---------------------------------------------------------------------------
// Installation
// ---------------------------------------------------------------------------

/// Where an installation goes, or why it does not happen.
pub enum InstallChoice {
    Fault(IndexStorageError),
    Masked { seqno: u64 },
    Ignored { current: IndexEntry },
    /// Install at this step; `previous` is the visible entry that it displaces.
    At { step: int, previous: Option<IndexEntry> },
    Saturated,
}

/// The first step from `step` on, before `limit`, with a property.
pub open spec fn first_step(property: spec_fn(int) -> bool, step: int, limit: int) -> Option<int>
    decreases limit - step,
{
    if step >= limit {
        None
    } else if property(step) {
        Some(step)
    } else {
        first_step(property, step + 1, limit)
    }
}

impl IndexShardModel {
    /// The slot at `step` may be taken by a foreign hash: it is deleted or its
    /// value is no longer visible.
    pub open spec fn reusable(self, hash: u64, visible: spec_fn(IndexEntry) -> bool) -> spec_fn(int) -> bool {
        |step: int|
            match self.at_step(hash, step) {
                IndexSlotStateV1::Deleted => true,
                IndexSlotStateV1::Value { hash: owner, entry } => owner != hash && !visible(entry),
                _ => false,
            }
    }

    /// The slot at `step` holds a visible foreign value.
    pub open spec fn evictable(self, hash: u64, visible: spec_fn(IndexEntry) -> bool) -> spec_fn(int) -> bool {
        |step: int|
            match self.at_step(hash, step) {
                IndexSlotStateV1::Value { hash: owner, entry } => owner != hash && visible(entry),
                _ => false,
            }
    }

    /// Where a version of the hash is installed.
    ///
    /// The hash's own slot is taken unless it holds an equal or newer mask or
    /// visible value. Otherwise the first reusable slot before the end of the
    /// probe is taken, then the empty slot that ended it, then the first
    /// visible foreign value. Foreign masks are never taken.
    pub open spec fn install_choice(self, hash: u64, seqno: u64, visible: spec_fn(IndexEntry) -> bool) -> InstallChoice {
        let decision = self.decision(hash);
        let limit = match decision {
            Some(step) => step,
            None => window(self.slots.len() as int),
        };
        let free = first_step(self.reusable(hash, visible), 0, limit);
        let victim = first_step(self.evictable(hash, visible), 0, limit);
        match decision {
            Some(step) => if self.step_faults(hash, step) {
                InstallChoice::Fault(self.fault(hash, step))
            } else {
                match self.at_step(hash, step) {
                    IndexSlotStateV1::Masked { seqno: current, .. } => if seqno <= current {
                        InstallChoice::Masked { seqno: current }
                    } else {
                        InstallChoice::At { step, previous: None }
                    },
                    IndexSlotStateV1::Value { entry, .. } => if visible(entry) && seqno <= entry.seqno {
                        InstallChoice::Ignored { current: entry }
                    } else {
                        InstallChoice::At { step, previous: if visible(entry) { Some(entry) } else { None } }
                    },
                    _ => match free {
                        Some(earlier) => InstallChoice::At { step: earlier, previous: None },
                        None => InstallChoice::At { step, previous: None },
                    },
                }
            },
            None => match free {
                Some(step) => InstallChoice::At { step, previous: None },
                None => match victim {
                    Some(step) => InstallChoice::At {
                        step,
                        previous: match self.at_step(hash, step) {
                            IndexSlotStateV1::Value { entry, .. } => Some(entry),
                            _ => None,
                        },
                    },
                    None => InstallChoice::Saturated,
                },
            },
        }
    }

    /// The transition that installs a state at `step` of a probe.
    pub open spec fn transition(self, hash: u64, step: int, installed: IndexSlotStateV1) -> IndexTransitionV2 {
        IndexTransitionV2 {
            global_slot: (self.first_slot + probed(hash, self.slots.len() as int, step)) as usize,
            previous: self.at_step(hash, step),
            installed,
        }
    }

    /// The shard after a state has been installed at `step` of a probe.
    pub open spec fn installed_at(self, hash: u64, step: int, installed: IndexSlotStateV1) -> IndexShardModel {
        self.replaced(probed(hash, self.slots.len() as int, step), installed)
    }
}

proof fn lemma_first_step(property: spec_fn(int) -> bool, step: int, limit: int)
    ensures
        match first_step(property, step, limit) {
            Some(found) => {
                &&& step <= found < limit
                &&& property(found)
                &&& forall|k: int| step <= k < found ==> !#[trigger] property(k)
            },
            None => forall|k: int| step <= k < limit ==> !#[trigger] property(k),
        },
    decreases limit - step,
{
    if step < limit && !property(step) {
        lemma_first_step(property, step + 1, limit);
    }
}

/// Extending the range by one step extends the search by that step.
proof fn lemma_first_step_extends(property: spec_fn(int) -> bool, limit: int)
    requires
        0 <= limit,
    ensures
        first_step(property, 0, limit + 1) == (match first_step(property, 0, limit) {
            Some(found) => Some(found),
            None => if property(limit) {
                Some(limit)
            } else {
                None
            },
        }),
{
    lemma_first_step(property, 0, limit);
    lemma_first_step(property, 0, limit + 1);
    match first_step(property, 0, limit + 1) {
        Some(found) => {
            if first_step(property, 0, limit) is Some {
                let earlier = first_step(property, 0, limit)->0;
                if earlier < found {
                    assert(!property(earlier));
                }
                if found < earlier {
                    assert(!property(found));
                }
            } else if found < limit {
                assert(!property(found));
            }
        },
        None => {
            if first_step(property, 0, limit) is Some {
                assert(!property(first_step(property, 0, limit)->0));
            }
            assert(!property(limit));
        },
    }
}

/// A bounded point index over one canonical storage.
pub struct RegionIndexV2 {
    storage: ShardedIndexStorage,
}

impl View for RegionIndexV2 {
    type V = IndexStorageModel;

    closed spec fn view(&self) -> IndexStorageModel {
        self.storage@
    }
}

/// The shard of a hash.
pub open spec fn hash_shard(storage: IndexStorageModel, hash: u64) -> IndexShardModel {
    storage[shard_of(storage, hash)]
}

/// The storage with the shard of a hash replaced.
pub open spec fn with_hash_shard(storage: IndexStorageModel, hash: u64, shard: IndexShardModel) -> IndexStorageModel {
    storage.update(shard_of(storage, hash), shard)
}

impl RegionIndexV2 {
    /// The index's invariant.
    pub closed spec fn wf(&self) -> bool {
        self.storage.wf()
    }

    /// The invariant gives every hash a shard with a slot.
    pub proof fn lemma_has_shards(&self, hash: u64)
        requires
            self.wf(),
        ensures
            self@.len() > 0,
            hash_shard(self@, hash).slots.len() > 0,
    {
        self.storage.lemma_has_shards();
        vstd::arithmetic::div_mod::lemma_mod_bound(hash as int, self@.len() as int);
    }

    /// An index over a storage.
    pub fn from_storage(storage: ShardedIndexStorage) -> (index: RegionIndexV2)
        ensures
            index@ == storage@,
            storage.wf() ==> index.wf(),
    {
        RegionIndexV2 { storage }
    }

    /// The storage.
    pub fn storage(&self) -> (storage: &ShardedIndexStorage)
        ensures
            storage@ == self@,
            self.wf() ==> storage.wf(),
    {
        &self.storage
    }

    /// Takes the storage out.
    pub fn into_storage(self) -> (storage: ShardedIndexStorage)
        ensures
            storage@ == self@,
            self.wf() ==> storage.wf(),
    {
        self.storage
    }

    /// Looks up the raw typed state for one same-hash identity.
    ///
    /// Region generation and clear-floor visibility deliberately do not run
    /// here.
    pub fn lookup_raw(&self, hash: u64) -> (result: Result<IndexLookupV2, IndexStorageError>)
        requires
            self.wf(),
        ensures
            result == hash_shard(self@, hash).lookup(hash),
    {
        let shard = self.storage.read_hash_shard(hash);
        let ghost model = shard@;
        proof {
            shard.lemma_bounds();
        }
        let slot_count = shard.slot_count();
        let start = start_slot(hash, slot_count);
        let limit = probe_limit(slot_count);
        let mut step: usize = 0;
        while step < limit
            invariant
                shard.wf(),
                model == shard@,
                model == hash_shard(self@, hash),
                slot_count == model.slots.len(),
                slot_count > 0,
                start == start_of(hash, slot_count as int),
                start < slot_count,
                limit == window(slot_count as int),
                step <= limit,
                model.first_slot + model.slots.len() <= usize::MAX,
                model.decision(hash) == model.decision_from(hash, step as int),
            decreases limit - step,
        {
            proof {
                lemma_wrap(start as int, step as int, slot_count as int);
            }
            let slot = probe_slot(start, step, slot_count);
            match shard.read(slot) {
                Err(error) => {
                    return Err(error);
                },
                Ok(state) => match state {
                    IndexSlotStateV1::Empty => {
                        return Ok(IndexLookupV2::Miss);
                    },
                    IndexSlotStateV1::Deleted => {},
                    IndexSlotStateV1::Masked { hash: current_hash, seqno } => {
                        if current_hash == hash {
                            return Ok(IndexLookupV2::Masked { seqno });
                        }
                    },
                    IndexSlotStateV1::Value { hash: current_hash, entry } => {
                        if current_hash == hash {
                            return Ok(IndexLookupV2::Hit(entry));
                        }
                    },
                },
            }
            step = step + 1;
        }
        Ok(IndexLookupV2::Miss)
    }
}

/// What an authority sees.
pub open spec fn vision<A: IndexMutationAuthorityV2>(authority: A) -> spec_fn(IndexEntry) -> bool {
    |entry: IndexEntry| authority.sees(entry)
}

impl RegionIndexV2 {
    /// Revalidates the exact immutable record identity observed by a prior
    /// lookup without consulting Region visibility. Runtime-only flags are
    /// ignored because their transitions do not change the physical record
    /// version.
    pub fn revalidate_exact(&self, hash: u64, expected: IndexEntry) -> (result: Result<bool, IndexStorageError>)
        requires
            self.wf(),
        ensures
            result == (match hash_shard(self@, hash).lookup(hash) {
                Ok(IndexLookupV2::Hit(current)) => Ok(current.same_record(expected)),
                Ok(_) => Ok(false),
                Err(error) => Err(error),
            }),
    {
        match self.lookup_raw(hash) {
            Ok(IndexLookupV2::Hit(current)) => Ok(current.same_record_identity(expected)),
            Ok(_) => Ok(false),
            Err(error) => Err(error),
        }
    }

    /// Installs a version of the hash at the place that the bounded policy
    /// gives it, and commits the transition to the authority.
    #[verifier::rlimit(60)]
    pub fn install_if_newer<A: IndexMutationAuthorityV2>(
        &mut self,
        hash: u64,
        supplied_seqno: u64,
        installed: IndexSlotStateV1,
        authority: &mut A,
    ) -> (result: Result<IndexInstallV2, IndexStorageError>)
        requires
            old(self).wf(),
        ensures
            final(self).wf(),
            ({
                let shard = hash_shard(old(self)@, hash);
                match shard.install_choice(hash, supplied_seqno, vision(*old(authority))) {
                    InstallChoice::At { step, previous } => {
                        &&& 0 <= step < window(shard.slots.len() as int)
                        &&& result == Ok::<IndexInstallV2, IndexStorageError>(
                            IndexInstallV2::Applied { transition: shard.transition(hash, step, installed), previous },
                        )
                        &&& final(self)@ == with_hash_shard(old(self)@, hash, shard.installed_at(hash, step, installed))
                        &&& final(authority).committed() == old(authority).committed().push(
                            shard.transition(hash, step, installed),
                        )
                    },
                    InstallChoice::Fault(error) => {
                        &&& result == Err::<IndexInstallV2, IndexStorageError>(error)
                        &&& final(self)@ == old(self)@
                        &&& *final(authority) == *old(authority)
                    },
                    InstallChoice::Masked { seqno } => {
                        &&& result == Ok::<IndexInstallV2, IndexStorageError>(IndexInstallV2::Masked { seqno })
                        &&& final(self)@ == old(self)@
                        &&& *final(authority) == *old(authority)
                    },
                    InstallChoice::Ignored { current } => {
                        &&& result == Ok::<IndexInstallV2, IndexStorageError>(IndexInstallV2::Ignored { current: Some(current) })
                        &&& final(self)@ == old(self)@
                        &&& *final(authority) == *old(authority)
                    },
                    InstallChoice::Saturated => {
                        &&& result == Ok::<IndexInstallV2, IndexStorageError>(IndexInstallV2::Saturated)
                        &&& final(self)@ == old(self)@
                        &&& *final(authority) == *old(authority)
                    },
                }
            }),
    {
        let ghost visible = vision(*authority);
        let shard = self.storage.read_hash_shard(hash);
        let ghost model = shard@;
        let ghost free_property = model.reusable(hash, visible);
        let ghost victim_property = model.evictable(hash, visible);
        proof {
            shard.lemma_bounds();
        }
        let slot_count = shard.slot_count();
        let first_slot = shard.first_slot();
        let start = start_slot(hash, slot_count);
        let limit = probe_limit(slot_count);
        let mut reusable: Option<usize> = None;
        let mut victim: Option<(usize, IndexEntry)> = None;
        let mut apply: Option<(usize, Option<IndexEntry>)> = None;
        let ghost mut apply_step: int = 0;
        let mut step: usize = 0;
        while step < limit && apply.is_none()
            invariant
                self.wf(),
                shard.wf(),
                *authority == *old(authority),
                visible == vision(*authority),
                *self == *old(self),
                model == shard@,
                model == hash_shard(self@, hash),
                free_property == model.reusable(hash, visible),
                victim_property == model.evictable(hash, visible),
                slot_count == model.slots.len(),
                slot_count > 0,
                start == start_of(hash, slot_count as int),
                start < slot_count,
                limit == window(slot_count as int),
                step <= limit,
                apply is None ==> model.decision(hash) == model.decision_from(hash, step as int),
                apply is None ==> match reusable {
                    Some(slot) => first_step(free_property, 0, step as int) is Some && slot == probed(
                        hash,
                        slot_count as int,
                        first_step(free_property, 0, step as int)->0,
                    ) && !model.faults(slot as int),
                    None => first_step(free_property, 0, step as int) is None,
                },
                apply is None ==> match victim {
                    Some((slot, entry)) => first_step(victim_property, 0, step as int) is Some && slot == probed(
                        hash,
                        slot_count as int,
                        first_step(victim_property, 0, step as int)->0,
                    ) && model.slots[slot as int] is Value && model.slots[slot as int]->Value_entry == entry && !model.faults(slot as int),
                    None => first_step(victim_property, 0, step as int) is None,
                },
                apply matches Some((slot, previous)) ==> {
                    &&& model.install_choice(hash, supplied_seqno, visible) == (InstallChoice::At { step: apply_step, previous })
                    &&& 0 <= apply_step < limit
                    &&& slot == probed(hash, slot_count as int, apply_step)
                    &&& slot < slot_count
                    &&& !model.faults(slot as int)
                },
            decreases limit - step, if apply is None { 1int } else { 0int },
        {
            let local_slot = probe_slot(start, step, slot_count);
            proof {
                lemma_first_step_extends(free_property, step as int);
                lemma_first_step_extends(victim_property, step as int);
                lemma_first_step(free_property, 0, step as int);
                lemma_first_step(victim_property, 0, step as int);
            }
            let state = match shard.read(local_slot) {
                Ok(state) => state,
                Err(error) => {
                    return Err(error);
                },
            };
            assert(state == model.at_step(hash, step as int));
            match state {
                IndexSlotStateV1::Empty => {
                    assert(model.decision(hash) == Some(step as int));
                    match reusable {
                        Some(slot) => {
                            proof {
                                apply_step = first_step(free_property, 0, step as int)->0;
                                lemma_wrap(start as int, apply_step, slot_count as int);
                            }
                            apply = Some((slot, None));
                        },
                        None => {
                            proof {
                                apply_step = step as int;
                            }
                            apply = Some((local_slot, None));
                        },
                    }
                },
                IndexSlotStateV1::Deleted => {
                    assert(free_property(step as int));
                    assert(!victim_property(step as int));
                    if reusable.is_none() {
                        reusable = Some(local_slot);
                    }
                },
                IndexSlotStateV1::Masked { hash: current_hash, seqno } => {
                    assert(!free_property(step as int));
                    assert(!victim_property(step as int));
                    if current_hash == hash {
                        assert(model.decision(hash) == Some(step as int));
                        if supplied_seqno <= seqno {
                            return Ok(IndexInstallV2::Masked { seqno });
                        }
                        proof {
                            apply_step = step as int;
                        }
                        apply = Some((local_slot, None));
                    }
                },
                IndexSlotStateV1::Value { hash: current_hash, entry: current } => {
                    let current_visible = authority.is_visible(current);
                    assert(current_visible == visible(current));
                    if current_hash == hash {
                        assert(model.decision(hash) == Some(step as int));
                        if current_visible && supplied_seqno <= current.seqno {
                            return Ok(IndexInstallV2::Ignored { current: Some(current) });
                        }
                        proof {
                            apply_step = step as int;
                        }
                        apply = Some((local_slot, if current_visible { Some(current) } else { None }));
                    } else if !current_visible {
                        assert(free_property(step as int));
                        assert(!victim_property(step as int));
                        if reusable.is_none() {
                            reusable = Some(local_slot);
                        }
                    } else {
                        assert(!free_property(step as int));
                        assert(victim_property(step as int));
                        if victim.is_none() {
                            victim = Some((local_slot, current));
                        }
                    }
                },
            }
            if apply.is_none() {
                step = step + 1;
            }
        }
        proof {
            lemma_first_step(free_property, 0, limit as int);
            lemma_first_step(victim_property, 0, limit as int);
            if apply is None {
                assert(model.decision(hash) is None);
                if reusable is Some {
                    apply_step = first_step(free_property, 0, limit as int)->0;
                    lemma_wrap(start as int, apply_step, slot_count as int);
                } else if victim is Some {
                    apply_step = first_step(victim_property, 0, limit as int)->0;
                    lemma_wrap(start as int, apply_step, slot_count as int);
                }
            }
        }
        let chosen: Option<(usize, Option<IndexEntry>)> = match apply {
            Some(target) => Some(target),
            None => match reusable {
                Some(slot) => Some((slot, None)),
                None => match victim {
                    Some((slot, entry)) => Some((slot, Some(entry))),
                    None => None,
                },
            },
        };
        let (local_slot, previous) = match chosen {
            Some(target) => target,
            None => {
                return Ok(IndexInstallV2::Saturated);
            },
        };
        assert(model.install_choice(hash, supplied_seqno, visible) == (InstallChoice::At { step: apply_step, previous }));
        let replaced = match self.storage.replace(hash, local_slot, installed) {
            Ok(replaced) => replaced,
            Err(error) => {
                assert(false);
                return Err(error);
            },
        };
        let transition = transition(first_slot, local_slot, replaced, installed);
        authority.commit(transition);
        Ok(IndexInstallV2::Applied { transition, previous })
    }
}

fn transition(first_slot: usize, local_slot: usize, previous: IndexSlotStateV1, installed: IndexSlotStateV1) -> (transition: IndexTransitionV2)
    requires
        first_slot + local_slot <= usize::MAX,
    ensures
        transition == (IndexTransitionV2 { global_slot: (first_slot + local_slot) as usize, previous, installed }),
{
    IndexTransitionV2 { global_slot: first_slot + local_slot, previous, installed }
}

impl IndexInstallV2 {
    /// The same outcome, of a value.
    pub open spec fn as_upsert(self) -> IndexUpsertV2 {
        match self {
            IndexInstallV2::Applied { transition, previous } => IndexUpsertV2::Applied { transition, previous },
            IndexInstallV2::Ignored { current } => IndexUpsertV2::Ignored { current },
            IndexInstallV2::Masked { seqno } => IndexUpsertV2::Masked { seqno },
            IndexInstallV2::Saturated => IndexUpsertV2::Saturated,
        }
    }

    /// The same outcome, of a mask.
    pub open spec fn as_mask(self) -> IndexMaskV2 {
        match self {
            IndexInstallV2::Applied { transition, previous } => IndexMaskV2::Applied { transition, previous },
            IndexInstallV2::Ignored { current } => IndexMaskV2::Ignored { current },
            IndexInstallV2::Masked { seqno } => IndexMaskV2::Masked { seqno },
            IndexInstallV2::Saturated => IndexMaskV2::Saturated,
        }
    }

    fn into_upsert(self) -> (outcome: IndexUpsertV2)
        ensures
            outcome == self.as_upsert(),
    {
        match self {
            IndexInstallV2::Applied { transition, previous } => IndexUpsertV2::Applied { transition, previous },
            IndexInstallV2::Ignored { current } => IndexUpsertV2::Ignored { current },
            IndexInstallV2::Masked { seqno } => IndexUpsertV2::Masked { seqno },
            IndexInstallV2::Saturated => IndexUpsertV2::Saturated,
        }
    }

    fn into_mask(self) -> (outcome: IndexMaskV2)
        ensures
            outcome == self.as_mask(),
    {
        match self {
            IndexInstallV2::Applied { transition, previous } => IndexMaskV2::Applied { transition, previous },
            IndexInstallV2::Ignored { current } => IndexMaskV2::Ignored { current },
            IndexInstallV2::Masked { seqno } => IndexMaskV2::Masked { seqno },
            IndexInstallV2::Saturated => IndexMaskV2::Saturated,
        }
    }
}

/// What installing a version of a hash does to the storage, what it answers,
/// and what it commits.
pub struct InstallOutcome {
    pub storage: IndexStorageModel,
    pub result: Result<IndexInstallV2, IndexStorageError>,
    pub committed: Option<IndexTransitionV2>,
}

/// The outcome of installing a state under the bounded policy.
pub open spec fn install_outcome(
    storage: IndexStorageModel,
    hash: u64,
    seqno: u64,
    installed: IndexSlotStateV1,
    visible: spec_fn(IndexEntry) -> bool,
) -> InstallOutcome {
    let shard = hash_shard(storage, hash);
    match shard.install_choice(hash, seqno, visible) {
        InstallChoice::At { step, previous } => {
            let transition = shard.transition(hash, step, installed);
            InstallOutcome {
                storage: with_hash_shard(storage, hash, shard.installed_at(hash, step, installed)),
                result: Ok(IndexInstallV2::Applied { transition, previous }),
                committed: Some(transition),
            }
        },
        InstallChoice::Fault(error) => InstallOutcome { storage, result: Err(error), committed: None },
        InstallChoice::Masked { seqno: current } => InstallOutcome {
            storage,
            result: Ok(IndexInstallV2::Masked { seqno: current }),
            committed: None,
        },
        InstallChoice::Ignored { current } => InstallOutcome {
            storage,
            result: Ok(IndexInstallV2::Ignored { current: Some(current) }),
            committed: None,
        },
        InstallChoice::Saturated => InstallOutcome { storage, result: Ok(IndexInstallV2::Saturated), committed: None },
    }
}

/// The authority's log with what has been committed, if anything has.
pub open spec fn logged(log: Seq<IndexTransitionV2>, committed: Option<IndexTransitionV2>) -> Seq<IndexTransitionV2> {
    match committed {
        Some(transition) => log.push(transition),
        None => log,
    }
}

impl IndexShardModel {
    /// The step of the hash's own slot with the exact mask, if a probe gets
    /// there.
    pub open spec fn mask_step(self, hash: u64, seqno: u64) -> Result<Option<int>, IndexStorageError> {
        match self.decision(hash) {
            Some(step) => if self.step_faults(hash, step) {
                Err(self.fault(hash, step))
            } else if self.at_step(hash, step) == (IndexSlotStateV1::Masked { hash, seqno }) {
                Ok(Some(step))
            } else {
                Ok(None)
            },
            None => Ok(None),
        }
    }

    /// The step of the hash's own slot with the exact record, if a probe gets
    /// there and, for a relocation, the record is visible.
    pub open spec fn record_step(
        self,
        hash: u64,
        expected: IndexEntry,
        relocates: bool,
        visible: spec_fn(IndexEntry) -> bool,
    ) -> Result<Option<int>, IndexStorageError> {
        match self.decision(hash) {
            Some(step) => if self.step_faults(hash, step) {
                Err(self.fault(hash, step))
            } else {
                match self.at_step(hash, step) {
                    IndexSlotStateV1::Value { entry, .. } => if entry.same_record(expected) && (!relocates || visible(entry)) {
                        Ok(Some(step))
                    } else {
                        Ok(None)
                    },
                    _ => Ok(None),
                }
            },
            None => Ok(None),
        }
    }
}

/// What replacing the state at a step does, or leaves be.
pub open spec fn replace_outcome(
    storage: IndexStorageModel,
    hash: u64,
    target: Result<Option<int>, IndexStorageError>,
    installed: IndexSlotStateV1,
) -> (IndexStorageModel, Result<Option<IndexTransitionV2>, IndexStorageError>, Option<IndexTransitionV2>) {
    let shard = hash_shard(storage, hash);
    match target {
        Ok(Some(step)) => {
            let transition = shard.transition(hash, step, installed);
            (
                with_hash_shard(storage, hash, shard.installed_at(hash, step, installed)),
                Ok(Some(transition)),
                Some(transition),
            )
        },
        Ok(None) => (storage, Ok(None), None),
        Err(error) => (storage, Err(error), None),
    }
}

/// A relocation keeps the record: same version, namespace, length and kind.
pub open spec fn relocates(expected: IndexEntry, replacement: IndexEntry) -> bool {
    &&& replacement.seqno != 0
    &&& replacement.seqno == expected.seqno
    &&& replacement.namespace_id == expected.namespace_id
    &&& replacement.location.record_len == expected.location.record_len
    &&& replacement.location.tombstone == expected.location.tombstone
}

impl RegionIndexV2 {
    /// Installs a live value under one stable Region authority.
    ///
    /// Deleted slots and the first invisible foreign value are reusable. A
    /// foreign mask is never reusable or evictable. If the window has no
    /// reusable slot, the first visible value becomes the bounded eviction
    /// victim; an all-mask window is saturated instead of violating a mask.
    pub fn upsert_with_authority<A: IndexMutationAuthorityV2>(
        &mut self,
        hash: u64,
        supplied: IndexEntry,
        authority: &mut A,
    ) -> (result: Result<IndexUpsertV2, IndexStorageError>)
        requires
            old(self).wf(),
        ensures
            final(self).wf(),
            if supplied.seqno == 0 || !old(authority).sees(supplied) {
                &&& result == Ok::<IndexUpsertV2, IndexStorageError>(IndexUpsertV2::Ignored { current: None })
                &&& final(self)@ == old(self)@
                &&& final(authority).committed() == old(authority).committed()
            } else {
                let outcome = install_outcome(
                    old(self)@,
                    hash,
                    supplied.seqno,
                    IndexSlotStateV1::Value { hash, entry: supplied },
                    vision(*old(authority)),
                );
                &&& result == (match outcome.result {
                    Ok(install) => Ok::<IndexUpsertV2, IndexStorageError>(install.as_upsert()),
                    Err(error) => Err::<IndexUpsertV2, IndexStorageError>(error),
                })
                &&& final(self)@ == outcome.storage
                &&& final(authority).committed() == logged(old(authority).committed(), outcome.committed)
            },
    {
        if supplied.seqno == 0 || !authority.is_visible(supplied) {
            return Ok(IndexUpsertV2::Ignored { current: None });
        }
        match self.install_if_newer(hash, supplied.seqno, IndexSlotStateV1::Value { hash, entry: supplied }, authority) {
            Ok(install) => Ok(install.into_upsert()),
            Err(error) => Err(error),
        }
    }

    /// Installs a live value where versions from `min_visible_seqno` on are
    /// visible.
    pub fn upsert(&mut self, hash: u64, supplied: IndexEntry, min_visible_seqno: u64) -> (result: Result<IndexUpsertV2, IndexStorageError>)
        requires
            old(self).wf(),
        ensures
            final(self).wf(),
            if supplied.seqno == 0 || supplied.seqno < min_visible_seqno {
                &&& result == Ok::<IndexUpsertV2, IndexStorageError>(IndexUpsertV2::Ignored { current: None })
                &&& final(self)@ == old(self)@
            } else {
                let outcome = install_outcome(
                    old(self)@,
                    hash,
                    supplied.seqno,
                    IndexSlotStateV1::Value { hash, entry: supplied },
                    |entry: IndexEntry| entry.seqno >= min_visible_seqno,
                );
                &&& result == (match outcome.result {
                    Ok(install) => Ok::<IndexUpsertV2, IndexStorageError>(install.as_upsert()),
                    Err(error) => Err::<IndexUpsertV2, IndexStorageError>(error),
                })
                &&& final(self)@ == outcome.storage
            },
    {
        let mut authority = FloorAuthorityV2 { min_visible_seqno, transitions: Vec::new() };
        assert(vision(authority) =~= (|entry: IndexEntry| entry.seqno >= min_visible_seqno));
        self.upsert_with_authority(hash, supplied, &mut authority)
    }

    /// Reserves a hash/version under one stable Region authority.
    ///
    /// Equal or newer same-hash values and masks win. Foreign masks are never
    /// overwritten, including when they fill the complete bounded window.
    pub fn mask_if_newer_with_authority<A: IndexMutationAuthorityV2>(
        &mut self,
        hash: u64,
        seqno: u64,
        authority: &mut A,
    ) -> (result: Result<IndexMaskV2, IndexStorageError>)
        requires
            old(self).wf(),
        ensures
            final(self).wf(),
            if seqno == 0 {
                &&& result == Ok::<IndexMaskV2, IndexStorageError>(IndexMaskV2::Ignored { current: None })
                &&& final(self)@ == old(self)@
                &&& final(authority).committed() == old(authority).committed()
            } else {
                let outcome = install_outcome(
                    old(self)@,
                    hash,
                    seqno,
                    IndexSlotStateV1::Masked { hash, seqno },
                    vision(*old(authority)),
                );
                &&& result == (match outcome.result {
                    Ok(install) => Ok::<IndexMaskV2, IndexStorageError>(install.as_mask()),
                    Err(error) => Err::<IndexMaskV2, IndexStorageError>(error),
                })
                &&& final(self)@ == outcome.storage
                &&& final(authority).committed() == logged(old(authority).committed(), outcome.committed)
            },
    {
        if seqno == 0 {
            return Ok(IndexMaskV2::Ignored { current: None });
        }
        match self.install_if_newer(hash, seqno, IndexSlotStateV1::Masked { hash, seqno }, authority) {
            Ok(install) => Ok(install.into_mask()),
            Err(error) => Err(error),
        }
    }

    /// Reserves a hash/version where versions from `min_visible_seqno` on are
    /// visible.
    pub fn mask_if_newer(&mut self, hash: u64, seqno: u64, min_visible_seqno: u64) -> (result: Result<IndexMaskV2, IndexStorageError>)
        requires
            old(self).wf(),
        ensures
            final(self).wf(),
            if seqno == 0 {
                &&& result == Ok::<IndexMaskV2, IndexStorageError>(IndexMaskV2::Ignored { current: None })
                &&& final(self)@ == old(self)@
            } else {
                let outcome = install_outcome(
                    old(self)@,
                    hash,
                    seqno,
                    IndexSlotStateV1::Masked { hash, seqno },
                    |entry: IndexEntry| entry.seqno >= min_visible_seqno,
                );
                &&& result == (match outcome.result {
                    Ok(install) => Ok::<IndexMaskV2, IndexStorageError>(install.as_mask()),
                    Err(error) => Err::<IndexMaskV2, IndexStorageError>(error),
                })
                &&& final(self)@ == outcome.storage
            },
    {
        let mut authority = FloorAuthorityV2 { min_visible_seqno, transitions: Vec::new() };
        assert(vision(authority) =~= (|entry: IndexEntry| entry.seqno >= min_visible_seqno));
        self.mask_if_newer_with_authority(hash, seqno, &mut authority)
    }

    /// The step at which a probe for the hash ends, with what it found there.
    fn probe_own(&self, hash: u64) -> (result: Result<Option<(usize, IndexSlotStateV1)>, IndexStorageError>)
        requires
            self.wf(),
        ensures
            ({
                let shard = hash_shard(self@, hash);
                match shard.decision(hash) {
                    Some(step) => {
                        &&& 0 <= step < window(shard.slots.len() as int)
                        &&& if shard.step_faults(hash, step) {
                            result == Err::<Option<(usize, IndexSlotStateV1)>, IndexStorageError>(shard.fault(hash, step))
                        } else {
                            &&& result matches Ok(Some((slot, state))) && slot == probed(hash, shard.slots.len() as int, step) && state
                                == shard.at_step(hash, step) && slot < shard.slots.len() && !shard.faults(slot as int)
                        }
                    },
                    None => result == Ok::<Option<(usize, IndexSlotStateV1)>, IndexStorageError>(None),
                }
            }),
    {
        let shard = self.storage.read_hash_shard(hash);
        let ghost model = shard@;
        proof {
            shard.lemma_bounds();
        }
        let slot_count = shard.slot_count();
        let start = start_slot(hash, slot_count);
        let limit = probe_limit(slot_count);
        let mut step: usize = 0;
        while step < limit
            invariant
                shard.wf(),
                model == shard@,
                model == hash_shard(self@, hash),
                slot_count == model.slots.len(),
                slot_count > 0,
                start == start_of(hash, slot_count as int),
                start < slot_count,
                limit == window(slot_count as int),
                step <= limit,
                model.decision(hash) == model.decision_from(hash, step as int),
            decreases limit - step,
        {
            let local_slot = probe_slot(start, step, slot_count);
            let state = match shard.read(local_slot) {
                Ok(state) => state,
                Err(error) => {
                    return Err(error);
                },
            };
            let decides = match state {
                IndexSlotStateV1::Empty => true,
                IndexSlotStateV1::Deleted => false,
                IndexSlotStateV1::Masked { hash: owner, .. } => owner == hash,
                IndexSlotStateV1::Value { hash: owner, .. } => owner == hash,
            };
            if decides {
                return Ok(Some((local_slot, state)));
            }
            step = step + 1;
        }
        Ok(None)
    }

    /// Replaces a slot that a probe has found, and commits the transition.
    fn replace_found<A: IndexMutationAuthorityV2>(
        &mut self,
        hash: u64,
        local_slot: usize,
        installed: IndexSlotStateV1,
        authority: &mut A,
        Ghost(step): Ghost<int>,
    ) -> (transition: IndexTransitionV2)
        requires
            old(self).wf(),
            ({
                let shard = hash_shard(old(self)@, hash);
                &&& 0 <= step < window(shard.slots.len() as int)
                &&& local_slot == probed(hash, shard.slots.len() as int, step)
                &&& local_slot < shard.slots.len()
                &&& !shard.faults(local_slot as int)
            }),
        ensures
            final(self).wf(),
            ({
                let shard = hash_shard(old(self)@, hash);
                &&& transition == shard.transition(hash, step, installed)
                &&& final(self)@ == with_hash_shard(old(self)@, hash, shard.installed_at(hash, step, installed))
                &&& final(authority).committed() == old(authority).committed().push(transition)
            }),
    {
        let shard = self.storage.read_hash_shard(hash);
        proof {
            shard.lemma_bounds();
        }
        let first_slot = shard.first_slot();
        let previous = match self.storage.replace(hash, local_slot, installed) {
            Ok(previous) => previous,
            Err(_error) => {
                assert(false);
                installed
            },
        };
        let committed = transition(first_slot, local_slot, previous, installed);
        authority.commit(committed);
        committed
    }

    /// Normalizes one exact producer mask to a deleted marker under one stable
    /// Region authority.
    pub fn normalize_mask_if_with_authority<A: IndexMutationAuthorityV2>(
        &mut self,
        hash: u64,
        seqno: u64,
        authority: &mut A,
    ) -> (result: Result<Option<IndexTransitionV2>, IndexStorageError>)
        requires
            old(self).wf(),
        ensures
            final(self).wf(),
            ({
                let outcome = replace_outcome(
                    old(self)@,
                    hash,
                    hash_shard(old(self)@, hash).mask_step(hash, seqno),
                    IndexSlotStateV1::Deleted,
                );
                &&& final(self)@ == outcome.0
                &&& result == outcome.1
                &&& final(authority).committed() == logged(old(authority).committed(), outcome.2)
            }),
    {
        match self.probe_own(hash) {
            Err(error) => Err(error),
            Ok(None) => Ok(None),
            Ok(Some((local_slot, state))) => match state {
                IndexSlotStateV1::Masked { hash: owner, seqno: current } => {
                    proof {
                        lemma_decision_from(hash_shard(self@, hash), hash, 0);
                    }
                    if owner == hash && current == seqno {
                        let ghost step = hash_shard(self@, hash).decision(hash)->0;
                        Ok(Some(self.replace_found(hash, local_slot, IndexSlotStateV1::Deleted, authority, Ghost(step))))
                    } else {
                        Ok(None)
                    }
                },
                _ => Ok(None),
            },
        }
    }

    /// Normalizes one exact producer mask to a deleted marker.
    pub fn normalize_mask_if(&mut self, hash: u64, seqno: u64) -> (result: Result<Option<IndexTransitionV2>, IndexStorageError>)
        requires
            old(self).wf(),
        ensures
            final(self).wf(),
            ({
                let outcome = replace_outcome(
                    old(self)@,
                    hash,
                    hash_shard(old(self)@, hash).mask_step(hash, seqno),
                    IndexSlotStateV1::Deleted,
                );
                final(self)@ == outcome.0 && result == outcome.1
            }),
    {
        let mut authority = FloorAuthorityV2 { min_visible_seqno: 0, transitions: Vec::new() };
        self.normalize_mask_if_with_authority(hash, seqno, &mut authority)
    }

    fn replace_exact_value<A: IndexMutationAuthorityV2>(
        &mut self,
        hash: u64,
        expected: IndexEntry,
        replacement: Option<IndexEntry>,
        authority: &mut A,
    ) -> (result: Result<Option<IndexTransitionV2>, IndexStorageError>)
        requires
            old(self).wf(),
        ensures
            final(self).wf(),
            ({
                let installed = match replacement {
                    Some(entry) => IndexSlotStateV1::Value { hash, entry },
                    None => IndexSlotStateV1::Deleted,
                };
                let outcome = replace_outcome(
                    old(self)@,
                    hash,
                    hash_shard(old(self)@, hash).record_step(hash, expected, replacement is Some, vision(*old(authority))),
                    installed,
                );
                &&& final(self)@ == outcome.0
                &&& result == outcome.1
                &&& final(authority).committed() == logged(old(authority).committed(), outcome.2)
            }),
    {
        match self.probe_own(hash) {
            Err(error) => Err(error),
            Ok(None) => Ok(None),
            Ok(Some((local_slot, state))) => match state {
                IndexSlotStateV1::Value { hash: owner, entry } => {
                    if entry.same_record_identity(expected) && (replacement.is_none() || authority.is_visible(entry)) {
                        let installed = match replacement {
                            Some(relocated) => IndexSlotStateV1::Value { hash, entry: relocated },
                            None => IndexSlotStateV1::Deleted,
                        };
                        let ghost step = hash_shard(self@, hash).decision(hash)->0;
                        Ok(Some(self.replace_found(hash, local_slot, installed, authority, Ghost(step))))
                    } else {
                        Ok(None)
                    }
                },
                _ => Ok(None),
            },
        }
    }

    /// Removes one exact record under one stable Region authority.
    pub fn remove_if_with_authority<A: IndexMutationAuthorityV2>(
        &mut self,
        hash: u64,
        expected: IndexEntry,
        authority: &mut A,
    ) -> (result: Result<Option<IndexTransitionV2>, IndexStorageError>)
        requires
            old(self).wf(),
        ensures
            final(self).wf(),
            ({
                let outcome = replace_outcome(
                    old(self)@,
                    hash,
                    hash_shard(old(self)@, hash).record_step(hash, expected, false, vision(*old(authority))),
                    IndexSlotStateV1::Deleted,
                );
                &&& final(self)@ == outcome.0
                &&& result == outcome.1
                &&& final(authority).committed() == logged(old(authority).committed(), outcome.2)
            }),
    {
        self.replace_exact_value(hash, expected, None, authority)
    }

    /// Replaces one exact immutable record identity with the canonical
    /// probe-deleted marker.
    pub fn remove_if(&mut self, hash: u64, expected: IndexEntry) -> (result: Result<Option<IndexTransitionV2>, IndexStorageError>)
        requires
            old(self).wf(),
        ensures
            final(self).wf(),
            ({
                let outcome = replace_outcome(
                    old(self)@,
                    hash,
                    hash_shard(old(self)@, hash).record_step(hash, expected, false, |entry: IndexEntry| true),
                    IndexSlotStateV1::Deleted,
                );
                final(self)@ == outcome.0 && result == outcome.1
            }),
    {
        let mut authority = FloorAuthorityV2 { min_visible_seqno: 0, transitions: Vec::new() };
        assert(vision(authority) =~= (|entry: IndexEntry| true));
        self.remove_if_with_authority(hash, expected, &mut authority)
    }

    /// Relocates one exact record under one stable Region authority. The new
    /// location may differ, but version, namespace, length and kind must remain
    /// unchanged; logical updates use [`Self::upsert_with_authority`]. Masked,
    /// deleted, stale, and foreign states are never modified.
    pub fn replace_if_with_authority<A: IndexMutationAuthorityV2>(
        &mut self,
        hash: u64,
        expected: IndexEntry,
        replacement: IndexEntry,
        authority: &mut A,
    ) -> (result: Result<Option<IndexTransitionV2>, IndexStorageError>)
        requires
            old(self).wf(),
        ensures
            final(self).wf(),
            if !relocates(expected, replacement) || !old(authority).sees(replacement) {
                &&& result == Ok::<Option<IndexTransitionV2>, IndexStorageError>(None)
                &&& final(self)@ == old(self)@
                &&& final(authority).committed() == old(authority).committed()
            } else {
                let outcome = replace_outcome(
                    old(self)@,
                    hash,
                    hash_shard(old(self)@, hash).record_step(hash, expected, true, vision(*old(authority))),
                    IndexSlotStateV1::Value { hash, entry: replacement },
                );
                &&& final(self)@ == outcome.0
                &&& result == outcome.1
                &&& final(authority).committed() == logged(old(authority).committed(), outcome.2)
            },
    {
        if replacement.seqno == 0 || replacement.seqno != expected.seqno || replacement.namespace_id != expected.namespace_id
            || replacement.location.record_len != expected.location.record_len || replacement.location.tombstone
            != expected.location.tombstone || !authority.is_visible(replacement) {
            return Ok(None);
        }
        self.replace_exact_value(hash, expected, Some(replacement), authority)
    }

    /// Relocates one exact record where everything is visible.
    pub fn replace_if(&mut self, hash: u64, expected: IndexEntry, replacement: IndexEntry) -> (result: Result<
        Option<IndexTransitionV2>,
        IndexStorageError,
    >)
        requires
            old(self).wf(),
        ensures
            final(self).wf(),
            if !relocates(expected, replacement) {
                result == Ok::<Option<IndexTransitionV2>, IndexStorageError>(None) && final(self)@ == old(self)@
            } else {
                let outcome = replace_outcome(
                    old(self)@,
                    hash,
                    hash_shard(old(self)@, hash).record_step(hash, expected, true, |entry: IndexEntry| true),
                    IndexSlotStateV1::Value { hash, entry: replacement },
                );
                final(self)@ == outcome.0 && result == outcome.1
            },
    {
        let mut authority = FloorAuthorityV2 { min_visible_seqno: 0, transitions: Vec::new() };
        assert(vision(authority) =~= (|entry: IndexEntry| true));
        self.replace_if_with_authority(hash, expected, replacement, &mut authority)
    }
}

// ---------------------------------------------------------------------------
// Laws
// ---------------------------------------------------------------------------

/// The step that an installation takes is reached by a later probe before
/// anything else decides it.
proof fn lemma_installed_step_decides(
    shard: IndexShardModel,
    hash: u64,
    seqno: u64,
    visible: spec_fn(IndexEntry) -> bool,
    installed: IndexSlotStateV1,
)
    requires
        shard.slots.len() > 0,
        shard.install_choice(hash, seqno, visible) is At,
        installed matches IndexSlotStateV1::Value { hash: owner, .. } ==> owner == hash,
        installed matches IndexSlotStateV1::Masked { hash: owner, .. } ==> owner == hash,
        installed is Value || installed is Masked,
    ensures
        ({
            let step = shard.install_choice(hash, seqno, visible)->step;
            let after = shard.installed_at(hash, step, installed);
            &&& 0 <= step < window(shard.slots.len() as int)
            &&& !shard.step_faults(hash, step)
            &&& after.decision(hash) == Some(step)
            &&& after.at_step(hash, step) == installed
            &&& !after.step_faults(hash, step)
        }),
{
    let count = shard.slots.len() as int;
    let limit = match shard.decision(hash) {
        Some(step) => step,
        None => window(count),
    };
    lemma_decision_from(shard, hash, 0);
    lemma_first_step(shard.reusable(hash, visible), 0, limit);
    lemma_first_step(shard.evictable(hash, visible), 0, limit);
    let step = shard.install_choice(hash, seqno, visible)->step;
    let after = shard.installed_at(hash, step, installed);
    assert(0 <= step < window(count));
    if step < limit {
        assert(!shard.decides(hash, step));
    }
    assert(!shard.step_faults(hash, step));
    lemma_wrap(start_of(hash, count), step, count);
    assert(after.at_step(hash, step) == installed);
    assert(after.decides(hash, step));
    assert forall|k: int| 0 <= k < step implies !#[trigger] after.decides(hash, k) by {
        lemma_probed_apart(hash, count, k, step);
        assert(!shard.decides(hash, k));
        assert(after.at_step(hash, k) == shard.at_step(hash, k));
    }
    lemma_decision_is(after, hash, step);
}

/// A value that was applied is what a lookup of its hash finds next.
pub proof fn law_lookup_after_upsert(storage: IndexStorageModel, hash: u64, entry: IndexEntry, visible: spec_fn(IndexEntry) -> bool)
    requires
        storage.len() > 0,
        hash_shard(storage, hash).slots.len() > 0,
        install_outcome(storage, hash, entry.seqno, IndexSlotStateV1::Value { hash, entry }, visible).result matches Ok(
            IndexInstallV2::Applied { .. },
        ),
    ensures
        ({
            let after = install_outcome(storage, hash, entry.seqno, IndexSlotStateV1::Value { hash, entry }, visible).storage;
            hash_shard(after, hash).lookup(hash) == Ok::<IndexLookupV2, IndexStorageError>(IndexLookupV2::Hit(entry))
        }),
{
    lemma_installed_step_decides(
        hash_shard(storage, hash),
        hash,
        entry.seqno,
        visible,
        IndexSlotStateV1::Value { hash, entry },
    );
}

/// A mask that was applied is what a lookup of its hash finds next.
pub proof fn law_lookup_after_mask(storage: IndexStorageModel, hash: u64, seqno: u64, visible: spec_fn(IndexEntry) -> bool)
    requires
        storage.len() > 0,
        hash_shard(storage, hash).slots.len() > 0,
        install_outcome(storage, hash, seqno, IndexSlotStateV1::Masked { hash, seqno }, visible).result matches Ok(
            IndexInstallV2::Applied { .. },
        ),
    ensures
        ({
            let after = install_outcome(storage, hash, seqno, IndexSlotStateV1::Masked { hash, seqno }, visible).storage;
            hash_shard(after, hash).lookup(hash) == Ok::<IndexLookupV2, IndexStorageError>(IndexLookupV2::Masked { seqno })
        }),
{
    lemma_installed_step_decides(hash_shard(storage, hash), hash, seqno, visible, IndexSlotStateV1::Masked { hash, seqno });
}

/// No installation overwrites a mask of another hash.
pub proof fn law_foreign_masks_are_kept(
    storage: IndexStorageModel,
    hash: u64,
    seqno: u64,
    installed: IndexSlotStateV1,
    visible: spec_fn(IndexEntry) -> bool,
)
    requires
        storage.len() > 0,
        hash_shard(storage, hash).slots.len() > 0,
    ensures
        install_outcome(storage, hash, seqno, installed, visible).committed matches Some(transition) ==> (
        transition.previous matches IndexSlotStateV1::Masked { hash: owner, .. } ==> owner == hash),
{
    let shard = hash_shard(storage, hash);
    let limit = match shard.decision(hash) {
        Some(step) => step,
        None => window(shard.slots.len() as int),
    };
    lemma_decision_from(shard, hash, 0);
    lemma_first_step(shard.reusable(hash, visible), 0, limit);
    lemma_first_step(shard.evictable(hash, visible), 0, limit);
}

/// An installation over a mask or a visible value of its own hash carries a
/// newer version.
pub proof fn law_newer_versions_win(
    storage: IndexStorageModel,
    hash: u64,
    seqno: u64,
    installed: IndexSlotStateV1,
    visible: spec_fn(IndexEntry) -> bool,
)
    requires
        storage.len() > 0,
        hash_shard(storage, hash).slots.len() > 0,
    ensures
        install_outcome(storage, hash, seqno, installed, visible).committed matches Some(transition) ==> match transition.previous {
            IndexSlotStateV1::Masked { seqno: current, .. } => current < seqno,
            IndexSlotStateV1::Value { hash: owner, entry } => owner == hash && visible(entry) ==> entry.seqno < seqno,
            _ => true,
        },
{
    let shard = hash_shard(storage, hash);
    let limit = match shard.decision(hash) {
        Some(step) => step,
        None => window(shard.slots.len() as int),
    };
    lemma_decision_from(shard, hash, 0);
    lemma_first_step(shard.reusable(hash, visible), 0, limit);
    lemma_first_step(shard.evictable(hash, visible), 0, limit);
}

/// An operation that commits nothing leaves the index as it was.
pub proof fn law_uncommitted_install_changes_nothing(
    storage: IndexStorageModel,
    hash: u64,
    seqno: u64,
    installed: IndexSlotStateV1,
    visible: spec_fn(IndexEntry) -> bool,
)
    requires
        install_outcome(storage, hash, seqno, installed, visible).committed is None,
    ensures
        install_outcome(storage, hash, seqno, installed, visible).storage == storage,
        !(install_outcome(storage, hash, seqno, installed, visible).result matches Ok(IndexInstallV2::Applied { .. })),
{
}

/// A record can only be removed where a lookup finds it, and a later probe for
/// its hash passes over the emptied slot.
pub proof fn law_removal_passes_over_the_slot(storage: IndexStorageModel, hash: u64, expected: IndexEntry, visible: spec_fn(IndexEntry) -> bool)
    requires
        storage.len() > 0,
        hash_shard(storage, hash).slots.len() > 0,
        hash_shard(storage, hash).record_step(hash, expected, false, visible) matches Ok(Some(_)),
    ensures
        ({
            let shard = hash_shard(storage, hash);
            let step = shard.record_step(hash, expected, false, visible)->Ok_0->0;
            let after = hash_shard(
                replace_outcome(storage, hash, Ok(Some(step)), IndexSlotStateV1::Deleted).0,
                hash,
            );
            &&& shard.lookup(hash) matches Ok(IndexLookupV2::Hit(entry)) && entry.same_record(expected)
            &&& after.decision(hash) == after.decision_from(hash, step + 1)
        }),
{
    let shard = hash_shard(storage, hash);
    let count = shard.slots.len() as int;
    lemma_decision_from(shard, hash, 0);
    let step = shard.decision(hash)->0;
    let after = shard.installed_at(hash, step, IndexSlotStateV1::Deleted);
    lemma_wrap(start_of(hash, count), step, count);
    assert(!after.decides(hash, step));
    assert forall|k: int| 0 <= k < step implies !#[trigger] after.decides(hash, k) by {
        lemma_probed_apart(hash, count, k, step);
        assert(!shard.decides(hash, k));
        assert(after.at_step(hash, k) == shard.at_step(hash, k));
    }
    lemma_decision_skip(after, hash, 0, step + 1);
}

proof fn lemma_decision_skip(shard: IndexShardModel, hash: u64, from: int, to: int)
    requires
        0 <= from <= to <= window(shard.slots.len() as int),
        forall|k: int| from <= k < to ==> !#[trigger] shard.decides(hash, k),
    ensures
        shard.decision_from(hash, from) == shard.decision_from(hash, to),
    decreases to - from,
{
    if from < to {
        assert(!shard.decides(hash, from));
        lemma_decision_skip(shard, hash, from + 1, to);
    }
}

// ---------------------------------------------------------------------------
// What point operations do to the slots
// ---------------------------------------------------------------------------

/// The slots that a point operation may examine: eight, or all if there are
/// fewer.
pub open spec fn examined(slot_count: int) -> int {
    if slot_count >= 8 {
        8
    } else {
        slot_count
    }
}

/// The slot that it examines after `step` others: they follow each other round
/// the shard from the one that the hash falls on.
pub open spec fn examined_slot(hash: u64, slot_count: int, step: int) -> int {
    (hash as int % slot_count + step) % slot_count
}

/// The slot lies on a page that passed validation.
pub open spec fn readable(shard: IndexShardModel, slot: int) -> bool {
    !shard.corrupt_pages.contains_key((shard.first_slot + slot) / 126)
}

/// The slot belongs to the hash.
pub open spec fn owned(state: IndexSlotStateV1, hash: u64) -> bool {
    match state {
        IndexSlotStateV1::Masked { hash: owner, .. } => owner == hash,
        IndexSlotStateV1::Value { hash: owner, .. } => owner == hash,
        _ => false,
    }
}

/// The first `end` slots that are examined can be read, are not empty and do not
/// belong to the hash.
pub open spec fn passed_over(shard: IndexShardModel, hash: u64, end: int) -> bool {
    forall|step: int|
        0 <= step < end ==> {
            let slot = #[trigger] examined_slot(hash, shard.slots.len() as int, step);
            &&& readable(shard, slot)
            &&& !(shard.slots[slot] is Empty)
            &&& !owned(shard.slots[slot], hash)
        }
}

proof fn lemma_probe_end(shard: IndexShardModel, hash: u64) -> (end: int)
    requires
        shard.slots.len() > 0,
    ensures
        0 <= end <= examined(shard.slots.len() as int),
        passed_over(shard, hash, end),
        end == match shard.decision(hash) {
            Some(step) => step,
            None => examined(shard.slots.len() as int),
        },
        shard.decision(hash) is Some ==> end < examined(shard.slots.len() as int) && ({
            let slot = examined_slot(hash, shard.slots.len() as int, end);
            !readable(shard, slot) || shard.slots[slot] is Empty || owned(shard.slots[slot], hash)
        }),
{
    lemma_decision_from(shard, hash, 0);
    let count = shard.slots.len() as int;
    let end = match shard.decision(hash) {
        Some(step) => step,
        None => examined(count),
    };
    assert forall|step: int| 0 <= step < end implies {
        let slot = #[trigger] examined_slot(hash, count, step);
        &&& readable(shard, slot)
        &&& !(shard.slots[slot] is Empty)
        &&& !owned(shard.slots[slot], hash)
    } by {
        assert(!shard.decides(hash, step));
        assert(examined_slot(hash, count, step) == probed(hash, count, step));
    }
    if shard.decision(hash) is Some {
        assert(shard.decides(hash, end));
    }
    end
}

/// A lookup goes from slot to slot, past deleted ones and those of other hashes,
/// until it comes to an empty one, to one of its hash or to a page that failed
/// validation; it finds what it then sees, and nothing after eight slots.
pub proof fn law_lookup_finds_the_first_own_slot(shard: IndexShardModel, hash: u64) -> (end: int)
    requires
        shard.slots.len() > 0,
        shard.first_slot >= 0,
        shard.first_slot + shard.slots.len() <= usize::MAX,
    ensures
        0 <= end <= examined(shard.slots.len() as int),
        passed_over(shard, hash, end),
        ({
            let slot = examined_slot(hash, shard.slots.len() as int, end);
            if end == examined(shard.slots.len() as int) {
                shard.lookup(hash) == Ok::<IndexLookupV2, IndexStorageError>(IndexLookupV2::Miss)
            } else if !readable(shard, slot) {
                shard.lookup(hash) == Err::<IndexLookupV2, IndexStorageError>(
                    IndexStorageError::CorruptPage {
                        page_index: ((shard.first_slot + slot) / 126) as usize,
                        reason: shard.corrupt_pages[(shard.first_slot + slot) / 126],
                    },
                )
            } else {
                match shard.slots[slot] {
                    IndexSlotStateV1::Empty => shard.lookup(hash) == Ok::<IndexLookupV2, IndexStorageError>(IndexLookupV2::Miss),
                    IndexSlotStateV1::Deleted => false,
                    IndexSlotStateV1::Masked { hash: owner, seqno } => owner == hash && shard.lookup(hash) == Ok::<
                        IndexLookupV2,
                        IndexStorageError,
                    >(IndexLookupV2::Masked { seqno }),
                    IndexSlotStateV1::Value { hash: owner, entry } => owner == hash && shard.lookup(hash) == Ok::<
                        IndexLookupV2,
                        IndexStorageError,
                    >(IndexLookupV2::Hit(entry)),
                }
            }
        }),
{
    let end = lemma_probe_end(shard, hash);
    assert(examined_slot(hash, shard.slots.len() as int, end) == probed(hash, shard.slots.len() as int, end));
    end
}

/// The state was installed in a slot of the hash's shard, the transition says
/// so, and nothing else has changed.
pub open spec fn installed_in(
    storage: IndexStorageModel,
    hash: u64,
    slot: int,
    installed: IndexSlotStateV1,
    after: IndexStorageModel,
    transition: IndexTransitionV2,
) -> bool {
    let index = hash as int % storage.len() as int;
    let shard = storage[index];
    &&& 0 <= slot < shard.slots.len()
    &&& after.len() == storage.len()
    &&& forall|k: int| 0 <= k < storage.len() && k != index ==> after[k] == storage[k]
    &&& after[index].slots.len() == shard.slots.len()
    &&& after[index].slots[slot] == installed
    &&& forall|k: int| 0 <= k < shard.slots.len() && k != slot ==> after[index].slots[k] == shard.slots[k]
    &&& after[index].first_slot == shard.first_slot
    &&& after[index].corrupt_pages == shard.corrupt_pages
    &&& transition.global_slot == shard.first_slot + slot
    &&& transition.previous == shard.slots[slot]
    &&& transition.installed == installed
}

/// The slot may be taken without loss: it is deleted or its value is no longer
/// visible.
pub open spec fn takeable(state: IndexSlotStateV1, visible: spec_fn(IndexEntry) -> bool) -> bool {
    match state {
        IndexSlotStateV1::Deleted => true,
        IndexSlotStateV1::Value { entry, .. } => !visible(entry),
        _ => false,
    }
}

/// No slot before `step` may be taken without loss.
pub open spec fn none_takeable(shard: IndexShardModel, hash: u64, visible: spec_fn(IndexEntry) -> bool, step: int) -> bool {
    forall|j: int|
        0 <= j < step ==> !takeable(shard.slots[#[trigger] examined_slot(hash, shard.slots.len() as int, j)], visible)
}

/// An installation goes to the slot that a lookup of its hash would end at if
/// that is its own, and is refused there only by an equal or newer mask or
/// visible value. Otherwise it takes the first slot on the way that is deleted
/// or no longer visible, else the empty slot at the end, else the place of the
/// first visible value, which it reports. It is refused as saturated only where
/// every slot that it may examine holds the mask of another hash.
#[verifier::rlimit(60)]
#[verifier::spinoff_prover]
pub proof fn law_installation_finds_a_place(
    storage: IndexStorageModel,
    hash: u64,
    seqno: u64,
    installed: IndexSlotStateV1,
    visible: spec_fn(IndexEntry) -> bool,
) -> (found: (int, int))
    requires
        storage.len() > 0,
        hash_shard(storage, hash).slots.len() > 0,
        hash_shard(storage, hash).first_slot >= 0,
        hash_shard(storage, hash).first_slot + hash_shard(storage, hash).slots.len() <= usize::MAX,
    ensures
        ({
            let shard = storage[hash as int % storage.len() as int];
            let count = shard.slots.len() as int;
            let limit = examined(count);
            let (end, step) = found;
            let slot = examined_slot(hash, count, step);
            let last = shard.slots[examined_slot(hash, count, end)];
            let outcome = install_outcome(storage, hash, seqno, installed, visible);
            &&& 0 <= end <= limit
            &&& passed_over(shard, hash, end)
            &&& match outcome.result {
                Err(_) => end < limit && !readable(shard, examined_slot(hash, count, end)) && outcome.storage == storage
                    && outcome.committed is None,
                Ok(IndexInstallV2::Masked { seqno: current }) => {
                    &&& end < limit
                    &&& last == (IndexSlotStateV1::Masked { hash, seqno: current })
                    &&& seqno <= current
                    &&& outcome.storage == storage
                    &&& outcome.committed is None
                },
                Ok(IndexInstallV2::Ignored { current }) => {
                    &&& end < limit
                    &&& current matches Some(entry) && last == (IndexSlotStateV1::Value { hash, entry }) && visible(entry) && seqno
                        <= entry.seqno
                    &&& outcome.storage == storage
                    &&& outcome.committed is None
                },
                Ok(IndexInstallV2::Saturated) => {
                    &&& end == limit
                    &&& forall|j: int|
                        0 <= j < limit ==> (shard.slots[#[trigger] examined_slot(hash, count, j)] matches IndexSlotStateV1::Masked {
                            hash: owner,
                            ..
                        } && owner != hash)
                    &&& outcome.storage == storage
                    &&& outcome.committed is None
                },
                Ok(IndexInstallV2::Applied { transition, previous }) => {
                    &&& 0 <= step <= end
                    &&& step < limit
                    &&& outcome.committed == Some(transition)
                    &&& installed_in(storage, hash, slot, installed, outcome.storage, transition)
                    &&& readable(shard, slot)
                    &&& match shard.slots[slot] {
                        IndexSlotStateV1::Masked { hash: owner, seqno: current } => step == end && owner == hash && current < seqno
                            && previous is None,
                        IndexSlotStateV1::Empty => step == end && previous is None && none_takeable(shard, hash, visible, end),
                        IndexSlotStateV1::Deleted => step < end && previous is None && none_takeable(shard, hash, visible, step)
                            && (end == limit || last is Empty),
                        IndexSlotStateV1::Value { hash: owner, entry } => if owner == hash {
                            &&& step == end
                            &&& visible(entry) ==> entry.seqno < seqno && previous == Some(entry)
                            &&& !visible(entry) ==> previous is None
                        } else if !visible(entry) {
                            &&& step < end
                            &&& previous is None
                            &&& none_takeable(shard, hash, visible, step)
                            &&& end == limit || last is Empty
                        } else {
                            &&& end == limit
                            &&& previous == Some(entry)
                            &&& none_takeable(shard, hash, visible, limit)
                            &&& forall|j: int|
                                0 <= j < step ==> shard.slots[#[trigger] examined_slot(hash, count, j)] is Masked
                        },
                    }
                },
            }
        }),
{
    let shard = hash_shard(storage, hash);
    let count = shard.slots.len() as int;
    let limit = examined(count);
    let end = lemma_probe_end(shard, hash);
    vstd::arithmetic::div_mod::lemma_mod_bound(hash as int, storage.len() as int);
    lemma_first_step(shard.reusable(hash, visible), 0, end);
    lemma_first_step(shard.evictable(hash, visible), 0, end);
    let choice = shard.install_choice(hash, seqno, visible);
    let step = match choice {
        InstallChoice::At { step, .. } => step,
        _ => 0,
    };
    assert forall|j: int| examined_slot(hash, count, j) == #[trigger] probed(hash, count, j) by {}
    let free = first_step(shard.reusable(hash, visible), 0, end);
    let victim = first_step(shard.evictable(hash, visible), 0, end);
    let clear = match free {
        Some(first) => first,
        None => end,
    };
    assert(none_takeable(shard, hash, visible, clear)) by {
        assert forall|j: int| 0 <= j < clear implies !takeable(shard.slots[#[trigger] examined_slot(hash, count, j)], visible) by {
            assert(!shard.reusable(hash, visible)(j));
            assert(!owned(shard.slots[examined_slot(hash, count, j)], hash));
        }
    }
    if choice is At {
        assert(0 <= step <= end && step < limit);
        lemma_wrap(start_of(hash, count), step, count);
        let slot = examined_slot(hash, count, step);
        assert(0 <= slot < count);
        if step < end {
            assert(readable(shard, examined_slot(hash, count, step)));
            assert(!owned(shard.slots[examined_slot(hash, count, step)], hash));
            assert(!(shard.slots[examined_slot(hash, count, step)] is Empty));
        }
    }
    if choice is At && step < end && free is None {
        assert(victim == Some(step));
        assert(shard.evictable(hash, visible)(step));
        assert forall|j: int| 0 <= j < step implies shard.slots[#[trigger] examined_slot(hash, count, j)] is Masked by {
            assert(!shard.evictable(hash, visible)(j));
            assert(!takeable(shard.slots[examined_slot(hash, count, j)], visible));
            assert(!owned(shard.slots[examined_slot(hash, count, j)], hash));
            assert(!(shard.slots[examined_slot(hash, count, j)] is Empty));
        }
    }
    if choice is Saturated {
        assert forall|j: int| 0 <= j < limit implies (shard.slots[#[trigger] examined_slot(hash, count, j)] matches IndexSlotStateV1::Masked {
            hash: owner,
            ..
        } && owner != hash) by {
            assert(!shard.evictable(hash, visible)(j));
            assert(!takeable(shard.slots[examined_slot(hash, count, j)], visible));
            assert(!owned(shard.slots[examined_slot(hash, count, j)], hash));
            assert(!(shard.slots[examined_slot(hash, count, j)] is Empty));
        }
    }
    if free is Some && choice is At && step < end {
        assert(shard.reusable(hash, visible)(step));
    }
    (end, step)
}

/// A value, or a mask, that is installed reports its outcome as it is.
pub proof fn law_install_outcomes_are_passed_on(install: IndexInstallV2)
    ensures
        match install {
            IndexInstallV2::Applied { transition, previous } => {
                &&& install.as_upsert() == (IndexUpsertV2::Applied { transition, previous })
                &&& install.as_mask() == (IndexMaskV2::Applied { transition, previous })
            },
            IndexInstallV2::Ignored { current } => {
                &&& install.as_upsert() == (IndexUpsertV2::Ignored { current })
                &&& install.as_mask() == (IndexMaskV2::Ignored { current })
            },
            IndexInstallV2::Masked { seqno } => {
                &&& install.as_upsert() == (IndexUpsertV2::Masked { seqno })
                &&& install.as_mask() == (IndexMaskV2::Masked { seqno })
            },
            IndexInstallV2::Saturated => install.as_upsert() is Saturated && install.as_mask() is Saturated,
        },
{
}

/// A record is removed or relocated exactly if a lookup of its hash finds that
/// very record, by location, version and namespace; a relocation also needs it
/// to be visible. Then its slot alone changes. A fault on the way is the
/// lookup's.
pub proof fn law_only_the_expected_record_is_changed(
    storage: IndexStorageModel,
    hash: u64,
    expected: IndexEntry,
    relocation: bool,
    visible: spec_fn(IndexEntry) -> bool,
    installed: IndexSlotStateV1,
) -> (slot: int)
    requires
        storage.len() > 0,
        hash_shard(storage, hash).slots.len() > 0,
        hash_shard(storage, hash).first_slot >= 0,
        hash_shard(storage, hash).first_slot + hash_shard(storage, hash).slots.len() <= usize::MAX,
    ensures
        ({
            let shard = storage[hash as int % storage.len() as int];
            let (after, result, committed) = replace_outcome(
                storage,
                hash,
                shard.record_step(hash, expected, relocation, visible),
                installed,
            );
            match shard.lookup(hash) {
                Err(error) => result == Err::<Option<IndexTransitionV2>, IndexStorageError>(error) && after == storage && committed is None,
                Ok(IndexLookupV2::Hit(entry)) => if entry.location == expected.location && entry.seqno == expected.seqno
                    && entry.namespace_id == expected.namespace_id && (relocation ==> visible(entry)) {
                    &&& result matches Ok(Some(transition)) && committed == Some(transition) && installed_in(
                        storage,
                        hash,
                        slot,
                        installed,
                        after,
                        transition,
                    ) && transition.previous == (IndexSlotStateV1::Value { hash, entry })
                } else {
                    result == Ok::<Option<IndexTransitionV2>, IndexStorageError>(None) && after == storage && committed is None
                },
                Ok(_) => result == Ok::<Option<IndexTransitionV2>, IndexStorageError>(None) && after == storage && committed is None,
            }
        }),
{
    let shard = hash_shard(storage, hash);
    let count = shard.slots.len() as int;
    let end = lemma_probe_end(shard, hash);
    vstd::arithmetic::div_mod::lemma_mod_bound(hash as int, storage.len() as int);
    assert(examined_slot(hash, count, end) == probed(hash, count, end));
    if end < examined(count) {
        lemma_wrap(start_of(hash, count), end, count);
    }
    examined_slot(hash, count, end)
}

/// A mask is lifted exactly if a lookup of its hash finds that very version
/// masked; then its slot alone changes.
pub proof fn law_only_the_exact_mask_is_lifted(storage: IndexStorageModel, hash: u64, seqno: u64, installed: IndexSlotStateV1) -> (slot: int)
    requires
        storage.len() > 0,
        hash_shard(storage, hash).slots.len() > 0,
        hash_shard(storage, hash).first_slot >= 0,
        hash_shard(storage, hash).first_slot + hash_shard(storage, hash).slots.len() <= usize::MAX,
    ensures
        ({
            let shard = storage[hash as int % storage.len() as int];
            let (after, result, committed) = replace_outcome(storage, hash, shard.mask_step(hash, seqno), installed);
            match shard.lookup(hash) {
                Err(error) => result == Err::<Option<IndexTransitionV2>, IndexStorageError>(error) && after == storage && committed is None,
                Ok(IndexLookupV2::Masked { seqno: current }) => if current == seqno {
                    result matches Ok(Some(transition)) && committed == Some(transition) && installed_in(
                        storage,
                        hash,
                        slot,
                        installed,
                        after,
                        transition,
                    ) && transition.previous == (IndexSlotStateV1::Masked { hash, seqno })
                } else {
                    result == Ok::<Option<IndexTransitionV2>, IndexStorageError>(None) && after == storage && committed is None
                },
                Ok(_) => result == Ok::<Option<IndexTransitionV2>, IndexStorageError>(None) && after == storage && committed is None,
            }
        }),
{
    let shard = hash_shard(storage, hash);
    let count = shard.slots.len() as int;
    let end = lemma_probe_end(shard, hash);
    vstd::arithmetic::div_mod::lemma_mod_bound(hash as int, storage.len() as int);
    assert(examined_slot(hash, count, end) == probed(hash, count, end));
    if end < examined(count) {
        lemma_wrap(start_of(hash, count), end, count);
    }
    examined_slot(hash, count, end)
}

/// A relocation keeps a record's version, namespace, length and kind.
pub proof fn law_relocation_keeps_the_record(expected: IndexEntry, replacement: IndexEntry)
    ensures
        relocates(expected, replacement) <==> {
            &&& replacement.seqno > 0
            &&& replacement.seqno == expected.seqno
            &&& replacement.namespace_id == expected.namespace_id
            &&& replacement.location.record_len == expected.location.record_len
            &&& replacement.location.tombstone == expected.location.tombstone
        },
        expected.same_record(replacement) <==> {
            &&& expected.location.region_id == replacement.location.region_id
            &&& expected.location.offset == replacement.location.offset
            &&& expected.location.record_len == replacement.location.record_len
            &&& expected.location.tombstone == replacement.location.tombstone
            &&& expected.seqno == replacement.seqno
            &&& expected.namespace_id == replacement.namespace_id
        },
{
}

/// Every committed transition is logged, in order.
pub proof fn law_transitions_are_logged(log: Seq<IndexTransitionV2>, transition: IndexTransitionV2)
    ensures
        logged(log, Some(transition)) == log + seq![transition],
        logged(log, None) == log,
{
    assert(log.push(transition) =~= log + seq![transition]);
}

/// An installation that meets a corrupt page fails as the lookup does, and every
/// other comes through.
pub proof fn law_installation_faults_are_the_lookups(
    storage: IndexStorageModel,
    hash: u64,
    seqno: u64,
    installed: IndexSlotStateV1,
    visible: spec_fn(IndexEntry) -> bool,
)
    requires
        storage.len() > 0,
        hash_shard(storage, hash).slots.len() > 0,
    ensures
        ({
            let found = storage[hash as int % storage.len() as int].lookup(hash);
            let result = install_outcome(storage, hash, seqno, installed, visible).result;
            &&& found matches Err(error) ==> result == Err::<IndexInstallV2, IndexStorageError>(error)
            &&& found is Ok ==> result is Ok
        }),
{
    lemma_probe_end(hash_shard(storage, hash), hash);
}

/// An entry is visible exactly from the floor on.
pub proof fn law_floor_hides_older_versions(authority: FloorAuthorityV2, entry: IndexEntry)
    ensures
        authority.sees(entry) <==> authority.min_visible_seqno <= entry.seqno,
        vision(authority)(entry) == authority.sees(entry),
{
}

} // verus!
