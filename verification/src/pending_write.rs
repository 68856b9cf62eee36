//! Exact-key visibility fences for detached hybrid write-back values.
//!
//! The directory contains only bounded background work. A directory hit means
//! that an older lower-tier value must stay hidden until the detached value is
//! either persisted or explicitly invalidated.

use std::collections::HashMap;
use vstd::prelude::*;

use crate::bytes::bytes_equal;
use crate::containers::{map_try_reserve, vec_try_reserve, vec_try_reserve_exact};
use crate::policy::NamespaceId;

verus! {

/// What a pending value costs beside its bytes.
pub const PENDING_WRITE_OWNED_OVERHEAD_BYTES: usize = 256;

/// What a shard of the directory costs.
pub const PENDING_WRITE_SHARD_OVERHEAD_BYTES: usize = 128;

#[derive(Clone, Copy, Debug, PartialEq, Eq, Structural)]
pub struct PendingWriteSnapshot {
    pub entries: u64,
    pub entries_peak: u64,
    pub bytes: u64,
    pub bytes_peak: u64,
}

impl Default for PendingWriteSnapshot {
    fn default() -> (snapshot: PendingWriteSnapshot)
        ensures
            snapshot == (PendingWriteSnapshot { entries: 0, entries_peak: 0, bytes: 0, bytes_peak: 0 }),
    {
        PendingWriteSnapshot { entries: 0, entries_peak: 0, bytes: 0, bytes_peak: 0 }
    }
}

#[derive(Clone, Copy, Debug, PartialEq, Eq, Structural)]
pub enum PendingRegisterError {
    AlreadyPending,
    AllocationFailed,
}

#[derive(Clone, Copy, Debug, PartialEq, Eq, Structural)]
pub enum PendingWaitOutcome {
    Finished,
    Failed,
}

/// The owner's hold on a pending value.
#[derive(Debug)]
pub struct PendingWriteSlot {
    pub id: u64,
    pub namespace: NamespaceId,
    pub key: Vec<u8>,
    pub hash: u64,
    pub charged_bytes: usize,
}

/// A pending value as the directory knows it.
pub struct OwnerModel {
    pub id: u64,
    pub namespace: NamespaceId,
    pub key: Seq<u8>,
    pub hash: u64,
    pub charged_bytes: usize,
    pub failed: bool,
}

impl OwnerModel {
    /// It is the one for this key.
    pub open spec fn matches(self, namespace: NamespaceId, key: Seq<u8>, hash: u64) -> bool {
        self.namespace == namespace && self.key == key && self.hash == hash
    }
}

impl PendingWriteSlot {
    /// The value that the slot stands for.
    pub open spec fn model(&self, failed: bool) -> OwnerModel {
        OwnerModel {
            id: self.id,
            namespace: self.namespace,
            key: self.key@,
            hash: self.hash,
            charged_bytes: self.charged_bytes,
            failed,
        }
    }

    fn matches(&self, namespace: NamespaceId, key: &[u8]) -> (same: bool)
        ensures
            same == (self.namespace == namespace && self.key@ == key@),
    {
        self.namespace == namespace && bytes_equal(self.key.as_slice(), key)
    }

    /// Another hold on the same value.
    fn duplicate(&self) -> (slot: PendingWriteSlot)
        ensures
            slot.model(false) == self.model(false),
    {
        let mut key: Vec<u8> = Vec::new();
        key.extend_from_slice(self.key.as_slice());
        assert(key@ =~= self.key@);
        PendingWriteSlot {
            id: self.id,
            namespace: self.namespace,
            key,
            hash: self.hash,
            charged_bytes: self.charged_bytes,
        }
    }
}

struct Resident {
    slot: PendingWriteSlot,
    failed: bool,
}

impl Resident {
    spec fn model(self) -> OwnerModel {
        self.slot.model(self.failed)
    }
}

/// The owner of a key among the pending values.
pub open spec fn owner_of(owners: Seq<OwnerModel>, namespace: NamespaceId, key: Seq<u8>, hash: u64) -> Option<int> {
    if exists|k: int| 0 <= k < owners.len() && (#[trigger] owners[k]).matches(namespace, key, hash) {
        Some(choose|k: int| 0 <= k < owners.len() && (#[trigger] owners[k]).matches(namespace, key, hash))
    } else {
        None
    }
}

/// The position of an owner among the pending values.
pub open spec fn position_of(owners: Seq<OwnerModel>, id: u64) -> Option<int> {
    if exists|k: int| 0 <= k < owners.len() && (#[trigger] owners[k]).id == id {
        Some(choose|k: int| 0 <= k < owners.len() && (#[trigger] owners[k]).id == id)
    } else {
        None
    }
}

/// What the pending values are charged together.
pub open spec fn total_charge(owners: Seq<OwnerModel>) -> int
    decreases owners.len(),
{
    if owners.len() == 0 {
        0
    } else {
        total_charge(owners.drop_last()) + owners.last().charged_bytes
    }
}

proof fn lemma_charge_without(owners: Seq<OwnerModel>, index: int)
    requires
        0 <= index < owners.len(),
    ensures
        total_charge(owners.remove(index)) == total_charge(owners) - owners[index].charged_bytes,
    decreases owners.len(),
{
    if index == owners.len() - 1 {
        assert(owners.remove(index) =~= owners.drop_last());
    } else {
        lemma_charge_without(owners.drop_last(), index);
        assert(owners.remove(index).drop_last() =~= owners.drop_last().remove(index));
        assert(owners.remove(index).last() == owners.last());
    }
}

proof fn lemma_charge_of_failed(owners: Seq<OwnerModel>, index: int)
    requires
        0 <= index < owners.len(),
    ensures
        total_charge(owners.update(index, OwnerModel { failed: true, ..owners[index] })) == total_charge(owners),
    decreases owners.len(),
{
    let after = owners.update(index, OwnerModel { failed: true, ..owners[index] });
    if index == owners.len() - 1 {
        assert(after.drop_last() =~= owners.drop_last());
    } else {
        lemma_charge_of_failed(owners.drop_last(), index);
        assert(after.drop_last() =~= owners.drop_last().update(
            index,
            OwnerModel { failed: true, ..owners.drop_last()[index] },
        ));
    }
}

/// A sum as a counter holds it.
pub open spec fn counted(sum: int) -> u64 {
    (sum % 0x1_0000_0000_0000_0000) as u64
}

/// The larger of two numbers.
pub open spec fn larger(left: u64, right: u64) -> u64 {
    if left > right {
        left
    } else {
        right
    }
}

/// A sum that stays at the largest number.
pub open spec fn stuck_sum(left: u64, right: u64) -> u64 {
    if left + right > u64::MAX {
        u64::MAX
    } else {
        (left + right) as u64
    }
}

/// Where a hash has its chain.
spec fn shard_of(hash: u64, mask: usize) -> int {
    ((hash as usize) & mask) as int
}

/// The values whose write-back has been detached and not ended.
pub struct PendingWriteDirectory {
    shards: Vec<HashMap<u64, Vec<Resident>>>,
    shard_mask: usize,
    next_id: u64,
    entries: u64,
    entries_peak: u64,
    bytes: u64,
    bytes_peak: u64,
    owners: Ghost<Seq<OwnerModel>>,
}

impl PendingWriteDirectory {
    /// The pending values, oldest first.
    pub closed spec fn owners(&self) -> Seq<OwnerModel> {
        self.owners@
    }

    /// How many registrations there have been.
    pub closed spec fn registrations(&self) -> u64 {
        self.next_id
    }

    /// The largest number of pending values so far.
    pub closed spec fn peak_entries(&self) -> u64 {
        self.entries_peak
    }

    /// The largest charge so far.
    pub closed spec fn peak_bytes(&self) -> u64 {
        self.bytes_peak
    }

    /// The residents with a hash.
    spec fn chain(&self, hash: u64) -> Seq<Resident> {
        let shard = self.shards@[shard_of(hash, self.shard_mask)];
        if shard@.contains_key(hash) {
            shard@[hash]@
        } else {
            Seq::empty()
        }
    }

    /// An owner is in the chain of its hash.
    spec fn listed(&self, owner: OwnerModel) -> bool {
        exists|k: int| 0 <= k < self.chain(owner.hash).len() && (#[trigger] self.chain(owner.hash)[k]).model() == owner
    }

    spec fn chains_wf(&self) -> bool {
        &&& forall|hash: u64, k: int|
            0 <= k < self.chain(hash).len() ==> {
                let model = (#[trigger] self.chain(hash)[k]).model();
                model.hash == hash && self.owners@.contains(model)
            }
        &&& forall|k: int| 0 <= k < self.owners@.len() ==> self.listed(#[trigger] self.owners@[k])
        &&& forall|hash: u64, i: int, j: int|
            0 <= i < j < self.chain(hash).len() ==> (#[trigger] self.chain(hash)[i]).slot.id != (#[trigger] self.chain(
                hash,
            )[j]).slot.id
    }

    /// At most one owner holds a key, owners are told apart, and the counters
    /// count them.
    pub closed spec fn wf(&self) -> bool {
        &&& self.shards@.len() > 0
        &&& self.shard_mask == self.shards@.len() - 1
        &&& self.chains_wf()
        &&& forall|k: int| 0 <= k < self.owners@.len() ==> (#[trigger] self.owners@[k]).id < self.next_id
        &&& forall|i: int, j: int|
            0 <= i < j < self.owners@.len() ==> (#[trigger] self.owners@[i]).id != (#[trigger] self.owners@[j]).id
        &&& distinct_keys(self.owners@)
        &&& self.entries == self.owners@.len()
        &&& self.owners@.len() <= self.next_id
        &&& self.bytes == counted(total_charge(self.owners@))
    }

    /// An empty directory. The number of shards is a power of two.
    pub fn try_new(shards: usize) -> (result: Result<PendingWriteDirectory, PendingRegisterError>)
        ensures
            match result {
                Ok(directory) => crate::memory_engine::power_of_two(shards as int) && directory.is_fresh(),
                Err(error) => error == PendingRegisterError::AllocationFailed,
            },
    {
        if shards == 0 || !crate::memory_engine::is_power_of_two(shards) {
            return Err(PendingRegisterError::AllocationFailed);
        }
        let mut room: Vec<HashMap<u64, Vec<Resident>>> = Vec::new();
        if !vec_try_reserve_exact(&mut room, shards) {
            return Err(PendingRegisterError::AllocationFailed);
        }
        Ok(PendingWriteDirectory::in_room(room, shards))
    }

    /// Nothing is pending, and nothing ever was.
    pub open spec fn is_fresh(&self) -> bool {
        &&& self.wf()
        &&& self.owners() == Seq::<OwnerModel>::empty()
        &&& self.registrations() == 0
        &&& self.peak_entries() == 0
        &&& self.peak_bytes() == 0
    }

    /// An empty directory whose shards are kept in an empty list.
    fn in_room(room: Vec<HashMap<u64, Vec<Resident>>>, shards: usize) -> (directory: PendingWriteDirectory)
        requires
            room@.len() == 0,
            crate::memory_engine::power_of_two(shards as int),
        ensures
            directory.is_fresh(),
            directory.shards@.len() == shards,
    {
        broadcast use vstd::std_specs::hash::group_hash_axioms;

        let mut tables = room;
        while tables.len() < shards
            invariant
                tables@.len() <= shards,
                forall|k: int| 0 <= k < tables@.len() ==> (#[trigger] tables@[k])@ == Map::<u64, Vec<Resident>>::empty(),
            decreases shards - tables@.len(),
        {
            tables.push(HashMap::new());
        }
        let directory = PendingWriteDirectory {
            shards: tables,
            shard_mask: shards - 1,
            next_id: 0,
            entries: 0,
            entries_peak: 0,
            bytes: 0,
            bytes_peak: 0,
            owners: Ghost(Seq::empty()),
        };
        proof {
            assert forall|hash: u64| #[trigger] directory.chain(hash).len() == 0 by {
                lemma_shard_in_range(hash, directory.shard_mask);
            }
        }
        directory
    }

    /// Where a key is in the chain of its hash.
    fn find_in_chain(chain: &Vec<Resident>, namespace: NamespaceId, key: &[u8]) -> (found: Option<usize>)
        ensures
            match found {
                Some(index) => {
                    &&& index < chain@.len()
                    &&& chain@[index as int].slot.namespace == namespace
                    &&& chain@[index as int].slot.key@ == key@
                },
                None => forall|k: int|
                    0 <= k < chain@.len() ==> !((#[trigger] chain@[k]).slot.namespace == namespace && chain@[k].slot.key@
                        == key@),
            },
    {
        let mut index: usize = 0;
        while index < chain.len()
            invariant
                index <= chain@.len(),
                forall|k: int|
                    0 <= k < index ==> !((#[trigger] chain@[k]).slot.namespace == namespace && chain@[k].slot.key@ == key@),
            decreases chain@.len() - index,
        {
            if chain[index].slot.matches(namespace, key) {
                return Some(index);
            }
            index = index + 1;
        }
        None
    }

    /// Where an owner is in a chain.
    fn find_owner(chain: &Vec<Resident>, id: u64) -> (found: Option<usize>)
        ensures
            match found {
                Some(index) => index < chain@.len() && chain@[index as int].slot.id == id,
                None => forall|k: int| 0 <= k < chain@.len() ==> (#[trigger] chain@[k]).slot.id != id,
            },
    {
        let mut index: usize = 0;
        while index < chain.len()
            invariant
                index <= chain@.len(),
                forall|k: int| 0 <= k < index ==> (#[trigger] chain@[k]).slot.id != id,
            decreases chain@.len() - index,
        {
            if chain[index].slot.id == id {
                return Some(index);
            }
            index = index + 1;
        }
        None
    }

    /// What is not in the chain of its hash is not pending.
    proof fn lemma_absent(&self, namespace: NamespaceId, key: Seq<u8>, hash: u64)
        requires
            self.wf(),
            forall|k: int|
                0 <= k < self.chain(hash).len() ==> !((#[trigger] self.chain(hash)[k]).slot.namespace == namespace
                    && self.chain(hash)[k].slot.key@ == key),
        ensures
            owner_of(self.owners@, namespace, key, hash) is None,
    {
        assert forall|k: int| 0 <= k < self.owners@.len() implies !(#[trigger] self.owners@[k]).matches(
            namespace,
            key,
            hash,
        ) by {
            assert(self.listed(self.owners@[k]));
        }
    }

    /// What is in the chain of its hash is the one that is pending for its key,
    /// and for its owner.
    proof fn lemma_present(&self, hash: u64, index: int)
        requires
            self.wf(),
            0 <= index < self.chain(hash).len(),
        ensures
            ({
                let model = self.chain(hash)[index].model();
                &&& owner_of(self.owners@, model.namespace, model.key, hash) is Some
                &&& owner_of(self.owners@, model.namespace, model.key, hash) == position_of(self.owners@, model.id)
                &&& 0 <= position_of(self.owners@, model.id)->0 < self.owners@.len()
                &&& self.owners@[position_of(self.owners@, model.id)->0] == model
            }),
    {
        let model = self.chain(hash)[index].model();
        assert(self.owners@.contains(model));
        let k = choose|k: int| 0 <= k < self.owners@.len() && self.owners@[k] == model;
        assert(self.owners@[k].matches(model.namespace, model.key, hash));
        assert(self.owners@[k].id == model.id);
        let found = owner_of(self.owners@, model.namespace, model.key, hash)->0;
        assert(self.owners@[found].matches(model.namespace, model.key, hash));
        assert(same_key(self.owners@[found], self.owners@[k]));
        let position = position_of(self.owners@, model.id)->0;
        assert(self.owners@[position].id == model.id);
    }

    /// What no chain lists is not pending.
    proof fn lemma_unknown(&self, id: u64, hash: u64)
        requires
            self.wf(),
            forall|k: int| 0 <= k < self.chain(hash).len() ==> (#[trigger] self.chain(hash)[k]).slot.id != id,
        ensures
            match position_of(self.owners@, id) {
                Some(index) => self.owners@[index].hash != hash,
                None => true,
            },
    {
        if let Some(index) = position_of(self.owners@, id) {
            assert(0 <= index < self.owners@.len() && self.owners@[index].id == id);
            assert(self.listed(self.owners@[index]));
        }
    }

    /// The pending value for a key.
    pub fn find(&self, namespace: NamespaceId, key: &[u8], hash: u64) -> (found: Option<PendingWriteSlot>)
        requires
            self.wf(),
        ensures
            match owner_of(self.owners(), namespace, key@, hash) {
                Some(index) => found is Some && found->0.model(self.owners()[index].failed) == self.owners()[index],
                None => found is None,
            },
    {
        broadcast use vstd::std_specs::hash::group_hash_axioms;

        proof {
            lemma_shard_in_range(hash, self.shard_mask);
        }
        let shard = &self.shards[hash as usize & self.shard_mask];
        match shard.get(&hash) {
            None => {
                proof {
                    self.lemma_absent(namespace, key@, hash);
                }
                None
            },
            Some(chain) => match Self::find_in_chain(chain, namespace, key) {
                None => {
                    proof {
                        self.lemma_absent(namespace, key@, hash);
                    }
                    None
                },
                Some(index) => {
                    proof {
                        self.lemma_present(hash, index as int);
                    }
                    Some(chain[index].slot.duplicate())
                },
            },
        }
    }

    /// The chain of a hash is replaced; every other stays.
    spec fn rechained(&self, before: &PendingWriteDirectory, hash: u64, chain: Seq<Resident>) -> bool {
        &&& self.shards@.len() == before.shards@.len()
        &&& self.shard_mask == before.shard_mask
        &&& self.chain(hash) == chain
        &&& forall|other: u64| other != hash ==> #[trigger] self.chain(other) == before.chain(other)
    }

    /// Takes the chain of a hash out.
    fn take_chain(&mut self, hash: u64) -> (chain: Vec<Resident>)
        requires
            old(self).shards@.len() > 0,
            old(self).shard_mask == old(self).shards@.len() - 1,
        ensures
            chain@ == old(self).chain(hash),
            final(self).rechained(old(self), hash, Seq::empty()),
            final(self).same_counts(old(self)),
    {
        broadcast use vstd::std_specs::hash::group_hash_axioms;

        proof {
            lemma_shard_in_range(hash, self.shard_mask);
            assert forall|other: u64| 0 <= #[trigger] shard_of(other, self.shard_mask) < self.shards@.len() by {
                lemma_shard_in_range(other, self.shard_mask);
            }
        }
        let index: usize = hash as usize & self.shard_mask;
        let shard = &mut self.shards[index];
        let removed = shard.remove(&hash);
        match removed {
            Some(chain) => chain,
            None => Vec::new(),
        }
    }

    /// Puts the chain of a hash in.
    fn put_chain(&mut self, hash: u64, chain: Vec<Resident>)
        requires
            old(self).shards@.len() > 0,
            old(self).shard_mask == old(self).shards@.len() - 1,
        ensures
            final(self).rechained(old(self), hash, chain@),
            final(self).same_counts(old(self)),
    {
        broadcast use vstd::std_specs::hash::group_hash_axioms;

        proof {
            lemma_shard_in_range(hash, self.shard_mask);
            assert forall|other: u64| 0 <= #[trigger] shard_of(other, self.shard_mask) < self.shards@.len() by {
                lemma_shard_in_range(other, self.shard_mask);
            }
        }
        let index: usize = hash as usize & self.shard_mask;
        let shard = &mut self.shards[index];
        shard.insert(hash, chain);
    }

    spec fn same_counts(&self, other: &PendingWriteDirectory) -> bool {
        &&& self.next_id == other.next_id
        &&& self.entries == other.entries
        &&& self.entries_peak == other.entries_peak
        &&& self.bytes == other.bytes
        &&& self.bytes_peak == other.bytes_peak
        &&& self.owners@ == other.owners@
    }

    /// Asks for room for the chain of a hash, unless there is one already.
    fn reserve(&mut self, hash: u64) -> (reserved: bool)
        requires
            old(self).shards@.len() > 0,
            old(self).shard_mask == old(self).shards@.len() - 1,
        ensures
            old(self).chain(hash).len() > 0 ==> reserved,
            final(self).rechained(old(self), hash, old(self).chain(hash)),
            final(self).same_counts(old(self)),
    {
        broadcast use vstd::std_specs::hash::group_hash_axioms;

        proof {
            lemma_shard_in_range(hash, self.shard_mask);
            assert forall|other: u64| 0 <= #[trigger] shard_of(other, self.shard_mask) < self.shards@.len() by {
                lemma_shard_in_range(other, self.shard_mask);
            }
        }
        let index: usize = hash as usize & self.shard_mask;
        if self.shards[index].contains_key(&hash) {
            return true;
        }
        let shard = &mut self.shards[index];
        map_try_reserve(shard, 1)
    }

    /// The values stay pending whose chains stay.
    proof fn lemma_unchanged(&self, before: &PendingWriteDirectory, hash: u64)
        requires
            before.wf(),
            self.rechained(before, hash, before.chain(hash)),
            self.same_counts(before),
        ensures
            self.wf(),
    {
        assert forall|other: u64| #[trigger] self.chain(other) == before.chain(other) by {}
        assert forall|k: int| 0 <= k < self.owners@.len() implies self.listed(#[trigger] self.owners@[k]) by {
            let owner = self.owners@[k];
            assert(before.listed(before.owners@[k]));
            let at = choose|at: int|
                0 <= at < before.chain(owner.hash).len() && (#[trigger] before.chain(owner.hash)[at]).model() == owner;
            assert(self.chain(owner.hash) == before.chain(owner.hash));
            assert(self.chain(owner.hash)[at].model() == owner);
        }
    }

    /// A chain that was taken out and put back changed is a chain that was
    /// changed.
    proof fn lemma_replaced(
        &self,
        placed: &PendingWriteDirectory,
        taken: &PendingWriteDirectory,
        before: &PendingWriteDirectory,
        hash: u64,
        chain: Seq<Resident>,
    )
        requires
            taken.rechained(before, hash, Seq::empty()),
            placed.rechained(taken, hash, chain),
            self.shards == placed.shards,
            self.shard_mask == placed.shard_mask,
        ensures
            self.rechained(before, hash, chain),
    {
        assert forall|other: u64| other != hash implies #[trigger] self.chain(other) == before.chain(other) by {
            assert(self.chain(other) == placed.chain(other));
            assert(placed.chain(other) == taken.chain(other));
        }
        assert(self.chain(hash) == placed.chain(hash));
    }

    /// The directory with one more owner.
    pub open spec fn registered(&self, before: &PendingWriteDirectory, owner: OwnerModel) -> bool {
        &&& self.owners() == before.owners().push(owner)
        &&& self.registrations() == before.registrations() + 1
        &&& self.peak_entries() == larger(before.peak_entries(), (before.owners().len() + 1) as u64)
        &&& self.peak_bytes() == larger(
            before.peak_bytes(),
            stuck_sum(counted(total_charge(before.owners())), owner.charged_bytes as u64),
        )
    }

    /// The directory as it was.
    pub open spec fn untouched(&self, before: &PendingWriteDirectory) -> bool {
        &&& self.owners() == before.owners()
        &&& self.registrations() == before.registrations()
        &&& self.peak_entries() == before.peak_entries()
        &&& self.peak_bytes() == before.peak_bytes()
    }

    /// Puts a chain that was taken out of `before` back, with one more owner at
    /// its end if the allocator gave room for it and an identifier is left.
    #[verifier::rlimit(60)]
    #[verifier::spinoff_prover]
    fn register_in(
        &mut self,
        Ghost(before): Ghost<PendingWriteDirectory>,
        chain: Vec<Resident>,
        room: bool,
        namespace: NamespaceId,
        key: Vec<u8>,
        hash: u64,
        charged_bytes: usize,
    ) -> (slot: Option<PendingWriteSlot>)
        requires
            before.wf(),
            old(self).rechained(&before, hash, Seq::empty()),
            old(self).same_counts(&before),
            chain@ == before.chain(hash),
            owner_of(before.owners(), namespace, key@, hash) is None,
        ensures
            final(self).wf(),
            slot is Some <==> room && before.registrations() < u64::MAX,
            match slot {
                Some(slot) => {
                    &&& slot.model(false) == (OwnerModel {
                        id: before.registrations(),
                        namespace,
                        key: key@,
                        hash,
                        charged_bytes,
                        failed: false,
                    })
                    &&& final(self).registered(&before, slot.model(false))
                },
                None => final(self).untouched(&before),
            },
    {
        let ghost taken = *self;
        let ghost listed = chain@;
        let mut chain = chain;
        if !room || self.next_id == u64::MAX {
            if chain.len() > 0 {
                self.put_chain(hash, chain);
            }
            proof {
                assert(self.chain(hash) =~= before.chain(hash));
                self.lemma_unchanged(&before, hash);
            }
            return None;
        }
        let slot = PendingWriteSlot { id: self.next_id, namespace, key, hash, charged_bytes };
        let held = slot.duplicate();
        chain.push(Resident { slot: held, failed: false });
        let ghost lengthened = chain@;
        self.put_chain(hash, chain);
        let ghost placed = *self;
        proof {
            let owner = slot.model(false);
            assert(lengthened.last().model() == owner);
            assert(lengthened.drop_last() =~= listed);
            assert(total_charge(before.owners@.push(owner)) == total_charge(before.owners@) + charged_bytes) by {
                assert(before.owners@.push(owner).drop_last() =~= before.owners@);
            }
            self.owners@ = before.owners@.push(owner);
        }
        self.next_id = self.next_id + 1;
        self.entries = self.entries + 1;
        if self.entries > self.entries_peak {
            self.entries_peak = self.entries;
        }
        let bytes: u64 = self.bytes.saturating_add(charged_bytes as u64);
        self.bytes = self.bytes.wrapping_add(charged_bytes as u64);
        if bytes > self.bytes_peak {
            self.bytes_peak = bytes;
        }
        proof {
            self.lemma_replaced(&placed, &taken, &before, hash, lengthened);
            self.lemma_registered(&before, slot.model(false), listed, lengthened);
        }
        Some(slot)
    }

    /// Registers a value that is to be written back. A key has at most one
    /// owner at a time. The allocator may refuse a registration.
    pub fn try_register(&mut self, namespace: NamespaceId, key: &[u8], hash: u64, charged_bytes: usize) -> (result: Result<
        PendingWriteSlot,
        PendingRegisterError,
    >)
        requires
            old(self).wf(),
        ensures
            final(self).wf(),
            match result {
                Ok(slot) => {
                    &&& old(self).registrations() < u64::MAX
                    &&& owner_of(old(self).owners(), namespace, key@, hash) is None
                    &&& slot.model(false) == (OwnerModel {
                        id: old(self).registrations(),
                        namespace,
                        key: key@,
                        hash,
                        charged_bytes,
                        failed: false,
                    })
                    &&& final(self).registered(old(self), slot.model(false))
                },
                Err(error) => {
                    &&& final(self).untouched(old(self))
                    &&& (error == PendingRegisterError::AlreadyPending) == (owner_of(
                        old(self).owners(),
                        namespace,
                        key@,
                        hash,
                    ) is Some)
                },
            },
    {
        if self.find(namespace, key, hash).is_some() {
            return Err(PendingRegisterError::AlreadyPending);
        }
        let mut owned_key: Vec<u8> = Vec::new();
        if !vec_try_reserve_exact(&mut owned_key, key.len()) {
            return Err(PendingRegisterError::AllocationFailed);
        }
        owned_key.extend_from_slice(key);
        assert(owned_key@ =~= key@);
        let listable = self.reserve(hash);
        let ghost reserved = *self;
        proof {
            self.lemma_unchanged(old(self), hash);
        }
        let mut chain = self.take_chain(hash);
        let room = listable && vec_try_reserve(&mut chain, 1);
        match self.register_in(Ghost(reserved), chain, room, namespace, owned_key, hash, charged_bytes) {
            Some(slot) => Ok(slot),
            None => Err(PendingRegisterError::AllocationFailed),
        }
    }

    /// A new owner at the end of its chain and of the owners keeps the directory
    /// in order.
    proof fn lemma_registered(
        &self,
        before: &PendingWriteDirectory,
        owner: OwnerModel,
        listed: Seq<Resident>,
        lengthened: Seq<Resident>,
    )
        requires
            before.wf(),
            owner_of(before.owners@, owner.namespace, owner.key, owner.hash) is None,
            owner.id == before.next_id,
            listed == before.chain(owner.hash),
            lengthened.len() == listed.len() + 1,
            lengthened.drop_last() == listed,
            lengthened.last().model() == owner,
            self.rechained(before, owner.hash, lengthened),
            self.owners@ == before.owners@.push(owner),
        ensures
            self.chains_wf(),
            distinct_keys(self.owners@),
            forall|i: int, j: int|
                0 <= i < j < self.owners@.len() ==> (#[trigger] self.owners@[i]).id != (#[trigger] self.owners@[j]).id,
    {
        assert forall|hash: u64, k: int| 0 <= k < self.chain(hash).len() implies {
            let model = (#[trigger] self.chain(hash)[k]).model();
            model.hash == hash && self.owners@.contains(model)
        } by {
            let model = self.chain(hash)[k].model();
            if hash == owner.hash && k == listed.len() {
                assert(self.owners@[before.owners@.len() as int] == owner);
            } else {
                if hash == owner.hash {
                    assert(lengthened.drop_last()[k] == lengthened[k]);
                }
                assert(before.chain(hash)[k] == self.chain(hash)[k]);
                assert(before.owners@.contains(model));
                let at = choose|at: int| 0 <= at < before.owners@.len() && before.owners@[at] == model;
                assert(self.owners@[at] == model);
            }
        }
        assert forall|k: int| 0 <= k < self.owners@.len() implies self.listed(#[trigger] self.owners@[k]) by {
            let listed_owner = self.owners@[k];
            if k == before.owners@.len() {
                assert(self.chain(owner.hash)[listed.len() as int].model() == owner);
            } else {
                assert(before.listed(before.owners@[k]));
                let at = choose|at: int|
                    0 <= at < before.chain(listed_owner.hash).len() && (#[trigger] before.chain(listed_owner.hash)[at]).model()
                        == listed_owner;
                if listed_owner.hash == owner.hash {
                    assert(lengthened.drop_last()[at] == lengthened[at]);
                }
                assert(self.chain(listed_owner.hash)[at].model() == listed_owner);
            }
        }
        assert forall|hash: u64, i: int, j: int| 0 <= i < j < self.chain(hash).len() implies (#[trigger] self.chain(
            hash,
        )[i]).slot.id != (#[trigger] self.chain(hash)[j]).slot.id by {
            if hash == owner.hash {
                assert(lengthened.drop_last()[i] == lengthened[i]);
                if j < listed.len() {
                    assert(lengthened.drop_last()[j] == lengthened[j]);
                    assert(before.chain(hash)[i].slot.id != before.chain(hash)[j].slot.id);
                } else {
                    let model = before.chain(hash)[i].model();
                    assert(before.owners@.contains(model));
                }
            } else {
                assert(before.chain(hash)[i].slot.id != before.chain(hash)[j].slot.id);
            }
        }
        assert forall|i: int, j: int|
            0 <= i < self.owners@.len() && 0 <= j < self.owners@.len() && i != j implies !#[trigger] same_key(
            self.owners@[i],
            self.owners@[j],
        ) by {
            if i < before.owners@.len() && j < before.owners@.len() {
                assert(!same_key(before.owners@[i], before.owners@[j]));
            } else if j == before.owners@.len() {
                assert(!before.owners@[i].matches(owner.namespace, owner.key, owner.hash));
            } else {
                assert(!before.owners@[j].matches(owner.namespace, owner.key, owner.hash));
            }
        }
    }

    /// A changed chain, with the owners changed alike, keeps the directory in
    /// order.
    proof fn lemma_rechained(&self, before: &PendingWriteDirectory, hash: u64, chain: Seq<Resident>)
        requires
            before.wf(),
            self.rechained(before, hash, chain),
            forall|k: int| 0 <= k < chain.len() ==> self.owners@.contains((#[trigger] chain[k]).model()) && chain[k].slot.hash == hash,
            forall|i: int, j: int| 0 <= i < j < chain.len() ==> (#[trigger] chain[i]).slot.id != (#[trigger] chain[j]).slot.id,
            forall|k: int|
                0 <= k < self.owners@.len() && self.owners@[k].hash == hash ==> self.listed(#[trigger] self.owners@[k]),
            forall|k: int|
                0 <= k < self.owners@.len() && self.owners@[k].hash != hash ==> before.owners@.contains(
                    #[trigger] self.owners@[k],
                ),
            forall|k: int|
                0 <= k < before.owners@.len() && before.owners@[k].hash != hash ==> self.owners@.contains(
                    #[trigger] before.owners@[k],
                ),
        ensures
            self.chains_wf(),
    {
        assert forall|other: u64, k: int| 0 <= k < self.chain(other).len() implies {
            let model = (#[trigger] self.chain(other)[k]).model();
            model.hash == other && self.owners@.contains(model)
        } by {
            let model = self.chain(other)[k].model();
            if other != hash {
                assert(before.chain(other)[k] == self.chain(other)[k]);
                assert(before.owners@.contains(model));
            } else {
                assert(self.owners@.contains(chain[k].model()));
            }
        }
        assert forall|k: int| 0 <= k < self.owners@.len() implies self.listed(#[trigger] self.owners@[k]) by {
            let owner = self.owners@[k];
            if owner.hash != hash {
                assert(before.owners@.contains(owner));
                let from = choose|from: int| 0 <= from < before.owners@.len() && before.owners@[from] == owner;
                assert(before.listed(before.owners@[from]));
                let at = choose|at: int|
                    0 <= at < before.chain(owner.hash).len() && (#[trigger] before.chain(owner.hash)[at]).model() == owner;
                assert(self.chain(owner.hash)[at].model() == owner);
            }
        }
        assert forall|other: u64, i: int, j: int| 0 <= i < j < self.chain(other).len() implies (#[trigger] self.chain(
            other,
        )[i]).slot.id != (#[trigger] self.chain(other)[j]).slot.id by {
            if other != hash {
                assert(before.chain(other)[i].slot.id != before.chain(other)[j].slot.id);
            }
        }
    }

    /// The value of a slot is pending, and its write-back has not failed.
    pub open spec fn active(&self, slot: &PendingWriteSlot) -> Option<int> {
        match position_of(self.owners(), slot.id) {
            Some(index) => if self.owners()[index] == slot.model(false) {
                Some(index)
            } else {
                None
            },
            None => None,
        }
    }

    /// The slot is one of the directory's: if its identifier is pending, it is
    /// for this slot's value.
    pub open spec fn issued(&self, slot: &PendingWriteSlot) -> bool {
        match position_of(self.owners(), slot.id) {
            Some(index) => self.owners()[index] == slot.model(self.owners()[index].failed),
            None => true,
        }
    }

    /// Removes a completed owner from the directory. One that has ended already
    /// stays as it is.
    #[verifier::rlimit(60)]
    #[verifier::spinoff_prover]
    pub fn finish(&mut self, slot: &PendingWriteSlot)
        requires
            old(self).wf(),
            old(self).issued(slot),
        ensures
            final(self).wf(),
            final(self).registrations() == old(self).registrations(),
            final(self).peak_entries() == old(self).peak_entries(),
            final(self).peak_bytes() == old(self).peak_bytes(),
            final(self).owners() == (match old(self).active(slot) {
                Some(index) => old(self).owners().remove(index),
                None => old(self).owners(),
            }),
    {
        let ghost before = *self;
        let mut chain = self.take_chain(slot.hash);
        let ghost listed = chain@;
        let found = Self::find_owner(&chain, slot.id);
        let index: usize = match found {
            Some(index) => index,
            None => {
                proof {
                    before.lemma_unknown(slot.id, slot.hash);
                }
                if chain.len() > 0 {
                    self.put_chain(slot.hash, chain);
                }
                proof {
                    assert(self.chain(slot.hash) =~= before.chain(slot.hash));
                    self.lemma_unchanged(&before, slot.hash);
                }
                return;
            },
        };
        proof {
            before.lemma_present(slot.hash, index as int);
        }
        if chain[index].failed {
            self.put_chain(slot.hash, chain);
            proof {
                self.lemma_unchanged(&before, slot.hash);
            }
            return;
        }
        let removed = chain.swap_remove(index);
        let ghost shortened = chain@;
        let ghost taken = *self;
        if chain.len() > 0 {
            self.put_chain(slot.hash, chain);
        }
        let ghost placed = *self;
        let ghost at = position_of(before.owners@, slot.id)->0;
        proof {
            assert(self.chain(slot.hash) =~= shortened);
            assert(placed.rechained(&taken, slot.hash, shortened));
            self.owners@ = before.owners@.remove(at);
            lemma_charge_without(before.owners@, at);
        }
        self.entries = self.entries - 1;
        self.bytes = self.bytes.wrapping_sub(removed.slot.charged_bytes as u64);
        proof {
            self.lemma_replaced(&placed, &taken, &before, slot.hash, shortened);
            self.lemma_finished(&before, slot.hash, index as int, at, shortened);
        }
    }

    /// A resident that has left its chain and the owners leaves the directory in
    /// order.
    #[verifier::spinoff_prover]
    proof fn lemma_finished(&self, before: &PendingWriteDirectory, hash: u64, index: int, at: int, shortened: Seq<Resident>)
        requires
            before.wf(),
            0 <= index < before.chain(hash).len(),
            0 <= at < before.owners@.len(),
            before.owners@[at] == before.chain(hash)[index].model(),
            shortened == before.chain(hash).update(index, before.chain(hash).last()).drop_last(),
            self.rechained(before, hash, shortened),
            self.owners@ == before.owners@.remove(at),
        ensures
            self.chains_wf(),
            distinct_keys(self.owners@),
            forall|i: int, j: int|
                0 <= i < j < self.owners@.len() ==> (#[trigger] self.owners@[i]).id != (#[trigger] self.owners@[j]).id,
            forall|k: int| 0 <= k < self.owners@.len() ==> (#[trigger] self.owners@[k]).id < before.next_id,
    {
        let listed = before.chain(hash);
        let last = listed.len() - 1;
        assert forall|k: int| 0 <= k < self.owners@.len() implies (#[trigger] self.owners@[k]) == before.owners@[if k < at {
            k
        } else {
            k + 1
        }] by {}
        assert forall|k: int| 0 <= k < shortened.len() implies (#[trigger] shortened[k]) == listed[if k == index {
            last
        } else {
            k
        }] by {}
        assert forall|k: int| 0 <= k < before.owners@.len() && k != at implies self.owners@.contains(#[trigger] before.owners@[k]) by {
            let to = if k < at {
                k
            } else {
                k - 1
            };
            assert(self.owners@[to] == before.owners@[k]);
        }
        assert forall|k: int| 0 <= k < shortened.len() implies self.owners@.contains((#[trigger] shortened[k]).model())
            && shortened[k].slot.hash == hash by {
            let from = if k == index {
                last
            } else {
                k
            };
            let model = before.chain(hash)[from].model();
            assert(before.owners@.contains(model));
            let k2 = choose|k2: int| 0 <= k2 < before.owners@.len() && before.owners@[k2] == model;
            if from < index {
                assert(listed[from].slot.id != listed[index].slot.id);
            } else {
                assert(listed[index].slot.id != listed[from].slot.id);
            }
            assert(k2 != at);
            assert(self.owners@.contains(before.owners@[k2]));
        }
        assert forall|i: int, j: int| 0 <= i < j < shortened.len() implies (#[trigger] shortened[i]).slot.id != (#[trigger] shortened[j]).slot.id by {
            let a = if i == index {
                last
            } else {
                i
            };
            let b = if j == index {
                last
            } else {
                j
            };
            if a < b {
                assert(before.chain(hash)[a].slot.id != before.chain(hash)[b].slot.id);
            } else {
                assert(before.chain(hash)[b].slot.id != before.chain(hash)[a].slot.id);
            }
        }
        assert forall|k: int| 0 <= k < self.owners@.len() && self.owners@[k].hash == hash implies self.listed(
            #[trigger] self.owners@[k],
        ) by {
            let from = if k < at {
                k
            } else {
                k + 1
            };
            let owner = before.owners@[from];
            assert(before.listed(owner));
            let c = choose|c: int|
                0 <= c < before.chain(owner.hash).len() && (#[trigger] before.chain(owner.hash)[c]).model() == owner;
            if from < at {
                assert(before.owners@[from].id != before.owners@[at].id);
            } else {
                assert(before.owners@[at].id != before.owners@[from].id);
            }
            assert(c != index);
            let to = if c == last {
                index
            } else {
                c
            };
            assert(self.chain(hash)[to] == shortened[to]);
            assert(self.chain(owner.hash)[to].model() == owner);
        }
        assert forall|k: int| 0 <= k < self.owners@.len() && self.owners@[k].hash != hash implies before.owners@.contains(
            #[trigger] self.owners@[k],
        ) by {}
        self.lemma_rechained(before, hash, shortened);
        assert forall|i: int, j: int|
            0 <= i < self.owners@.len() && 0 <= j < self.owners@.len() && i != j implies !#[trigger] same_key(
            self.owners@[i],
            self.owners@[j],
        ) by {
            let a = if i < at {
                i
            } else {
                i + 1
            };
            let b = if j < at {
                j
            } else {
                j + 1
            };
            assert(!same_key(before.owners@[a], before.owners@[b]));
        }
    }

    /// Keeps a failed fence resident. The owning cache is poisoned before this,
    /// and a reader that already passed its first health check can still observe
    /// the failure and refuse the stale lower value.
    #[verifier::rlimit(60)]
    #[verifier::spinoff_prover]
    pub fn fail(&mut self, slot: &PendingWriteSlot)
        requires
            old(self).wf(),
            old(self).issued(slot),
        ensures
            final(self).wf(),
            final(self).registrations() == old(self).registrations(),
            final(self).peak_entries() == old(self).peak_entries(),
            final(self).peak_bytes() == old(self).peak_bytes(),
            final(self).owners() == (match old(self).active(slot) {
                Some(index) => old(self).owners().update(index, slot.model(true)),
                None => old(self).owners(),
            }),
    {
        let ghost before = *self;
        let mut chain = self.take_chain(slot.hash);
        let found = Self::find_owner(&chain, slot.id);
        let index: usize = match found {
            Some(index) => index,
            None => {
                proof {
                    before.lemma_unknown(slot.id, slot.hash);
                }
                if chain.len() > 0 {
                    self.put_chain(slot.hash, chain);
                }
                proof {
                    assert(self.chain(slot.hash) =~= before.chain(slot.hash));
                    self.lemma_unchanged(&before, slot.hash);
                }
                return;
            },
        };
        proof {
            before.lemma_present(slot.hash, index as int);
        }
        if chain[index].failed {
            self.put_chain(slot.hash, chain);
            proof {
                self.lemma_unchanged(&before, slot.hash);
            }
            return;
        }
        let resident = &mut chain[index];
        resident.failed = true;
        let ghost marked = chain@;
        let ghost taken = *self;
        self.put_chain(slot.hash, chain);
        let ghost placed = *self;
        proof {
            let at = position_of(before.owners@, slot.id)->0;
            assert(slot.model(true) == (OwnerModel { failed: true, ..before.owners@[at] }));
            lemma_charge_of_failed(before.owners@, at);
            self.owners@ = before.owners@.update(at, slot.model(true));
            self.lemma_replaced(&placed, &taken, &before, slot.hash, marked);
            self.lemma_failed(&before, slot.hash, index as int, at, marked);
        }
    }

    /// A resident that has failed leaves the directory in order.
    #[verifier::spinoff_prover]
    proof fn lemma_failed(&self, before: &PendingWriteDirectory, hash: u64, index: int, at: int, marked: Seq<Resident>)
        requires
            before.wf(),
            0 <= index < before.chain(hash).len(),
            0 <= at < before.owners@.len(),
            before.owners@[at] == before.chain(hash)[index].model(),
            marked == before.chain(hash).update(index, Resident { failed: true, ..before.chain(hash)[index] }),
            self.rechained(before, hash, marked),
            self.owners@ == before.owners@.update(at, OwnerModel { failed: true, ..before.owners@[at] }),
        ensures
            self.chains_wf(),
            distinct_keys(self.owners@),
            forall|i: int, j: int|
                0 <= i < j < self.owners@.len() ==> (#[trigger] self.owners@[i]).id != (#[trigger] self.owners@[j]).id,
            forall|k: int| 0 <= k < self.owners@.len() ==> (#[trigger] self.owners@[k]).id < before.next_id,
    {
        let listed = before.chain(hash);
        assert forall|k: int| 0 <= k < before.owners@.len() && k != at implies self.owners@.contains(#[trigger] before.owners@[k]) by {
            assert(self.owners@[k] == before.owners@[k]);
        }
        assert forall|k: int| 0 <= k < marked.len() implies self.owners@.contains((#[trigger] marked[k]).model())
            && marked[k].slot.hash == hash by {
            let model = before.chain(hash)[k].model();
            assert(before.owners@.contains(model));
            if k == index {
                assert(self.owners@[at] == marked[k].model());
            } else {
                let k2 = choose|k2: int| 0 <= k2 < before.owners@.len() && before.owners@[k2] == model;
                if k < index {
                    assert(listed[k].slot.id != listed[index].slot.id);
                } else {
                    assert(listed[index].slot.id != listed[k].slot.id);
                }
                assert(k2 != at);
                assert(self.owners@.contains(before.owners@[k2]));
            }
        }
        assert forall|i: int, j: int| 0 <= i < j < marked.len() implies (#[trigger] marked[i]).slot.id != (#[trigger] marked[j]).slot.id by {
            assert(before.chain(hash)[i].slot.id != before.chain(hash)[j].slot.id);
        }
        assert forall|k: int| 0 <= k < self.owners@.len() && self.owners@[k].hash == hash implies self.listed(
            #[trigger] self.owners@[k],
        ) by {
            if k == at {
                assert(self.chain(hash)[index] == marked[index]);
                assert(self.chain(hash)[index].model() == self.owners@[k]);
            } else {
                let owner = before.owners@[k];
                assert(before.listed(owner));
                let c = choose|c: int|
                    0 <= c < before.chain(owner.hash).len() && (#[trigger] before.chain(owner.hash)[c]).model() == owner;
                if k < at {
                    assert(before.owners@[k].id != before.owners@[at].id);
                } else {
                    assert(before.owners@[at].id != before.owners@[k].id);
                }
                assert(c != index);
                assert(self.chain(hash)[c] == marked[c]);
                assert(self.chain(owner.hash)[c].model() == owner);
            }
        }
        assert forall|k: int| 0 <= k < self.owners@.len() && self.owners@[k].hash != hash implies before.owners@.contains(
            #[trigger] self.owners@[k],
        ) by {
            assert(self.owners@[k] == before.owners@[k]);
        }
        self.lemma_rechained(before, hash, marked);
        assert forall|i: int, j: int|
            0 <= i < self.owners@.len() && 0 <= j < self.owners@.len() && i != j implies !#[trigger] same_key(
            self.owners@[i],
            self.owners@[j],
        ) by {
            assert(!same_key(before.owners@[i], before.owners@[j]));
        }
        assert forall|i: int, j: int| 0 <= i < j < self.owners@.len() implies (#[trigger] self.owners@[i]).id != (#[trigger] self.owners@[j]).id by {
            assert(before.owners@[i].id != before.owners@[j].id);
        }
    }

    /// How an owner's write-back has ended, if it has. Whoever waits for it asks
    /// again until then.
    pub fn outcome(&self, slot: &PendingWriteSlot) -> (outcome: Option<PendingWaitOutcome>)
        requires
            self.wf(),
            self.issued(slot),
        ensures
            outcome == (match position_of(self.owners(), slot.id) {
                Some(index) => if self.owners()[index].failed {
                    Some(PendingWaitOutcome::Failed)
                } else {
                    None
                },
                None => Some(PendingWaitOutcome::Finished),
            }),
    {
        broadcast use vstd::std_specs::hash::group_hash_axioms;

        proof {
            lemma_shard_in_range(slot.hash, self.shard_mask);
        }
        let shard = &self.shards[slot.hash as usize & self.shard_mask];
        match shard.get(&slot.hash) {
            None => {
                proof {
                    self.lemma_unknown(slot.id, slot.hash);
                }
                Some(PendingWaitOutcome::Finished)
            },
            Some(chain) => match Self::find_owner(chain, slot.id) {
                None => {
                    proof {
                        self.lemma_unknown(slot.id, slot.hash);
                    }
                    Some(PendingWaitOutcome::Finished)
                },
                Some(index) => {
                    proof {
                        self.lemma_present(slot.hash, index as int);
                    }
                    if chain[index].failed {
                        Some(PendingWaitOutcome::Failed)
                    } else {
                        None
                    }
                },
            },
        }
    }

    /// Whether an owner's write-back has failed.
    pub fn failed(&self, slot: &PendingWriteSlot) -> (failed: bool)
        requires
            self.wf(),
            self.issued(slot),
        ensures
            failed == (match position_of(self.owners(), slot.id) {
                Some(index) => self.owners()[index].failed,
                None => false,
            }),
    {
        match self.outcome(slot) {
            Some(PendingWaitOutcome::Failed) => true,
            _ => false,
        }
    }

    /// How much is pending, and the most there ever was.
    pub fn snapshot(&self) -> (snapshot: PendingWriteSnapshot)
        requires
            self.wf(),
        ensures
            snapshot.entries == self.owners().len(),
            snapshot.bytes == counted(total_charge(self.owners())),
            snapshot.entries_peak == larger(self.peak_entries(), snapshot.entries),
            snapshot.bytes_peak == larger(self.peak_bytes(), snapshot.bytes),
    {
        PendingWriteSnapshot {
            entries: self.entries,
            entries_peak: if self.entries_peak > self.entries {
                self.entries_peak
            } else {
                self.entries
            },
            bytes: self.bytes,
            bytes_peak: if self.bytes_peak > self.bytes {
                self.bytes_peak
            } else {
                self.bytes
            },
        }
    }
}

/// Two owners hold the same key.
pub open spec fn same_key(left: OwnerModel, right: OwnerModel) -> bool {
    left.matches(right.namespace, right.key, right.hash)
}

/// No two owners hold the same key.
pub open spec fn distinct_keys(owners: Seq<OwnerModel>) -> bool {
    forall|i: int, j: int| 0 <= i < owners.len() && 0 <= j < owners.len() && i != j ==> !#[trigger] same_key(owners[i], owners[j])
}

proof fn lemma_shard_in_range(hash: u64, mask: usize)
    ensures
        0 <= shard_of(hash, mask) <= mask,
{
    let low = hash as usize;
    assert(low & mask <= mask) by (bit_vector);
}

/// What the directory is charged for its shards.
pub fn allocation_bytes(shards: usize) -> (bytes: Option<usize>)
    ensures
        bytes == (if shards * PENDING_WRITE_SHARD_OVERHEAD_BYTES <= usize::MAX {
            Some((shards * PENDING_WRITE_SHARD_OVERHEAD_BYTES) as usize)
        } else {
            None
        }),
{
    shards.checked_mul(PENDING_WRITE_SHARD_OVERHEAD_BYTES)
}

/// A key whose owner has finished is not fenced any more, so that it can be
/// registered again.
pub proof fn law_finished_key_is_free(owners: Seq<OwnerModel>, index: int)
    requires
        distinct_keys(owners),
        0 <= index < owners.len(),
    ensures
        owner_of(owners.remove(index), owners[index].namespace, owners[index].key, owners[index].hash) is None,
{
    let owner = owners[index];
    let after = owners.remove(index);
    assert forall|k: int| 0 <= k < after.len() implies !(#[trigger] after[k]).matches(owner.namespace, owner.key, owner.hash) by {
        let from = if k < index {
            k
        } else {
            k + 1
        };
        assert(!same_key(owners[from], owners[index]));
    }
}

/// Keys have independent fences, though they share a hash: one that finishes
/// leaves every other as it is.
pub proof fn law_fences_are_independent(
    owners: Seq<OwnerModel>,
    index: int,
    namespace: NamespaceId,
    key: Seq<u8>,
    hash: u64,
)
    requires
        distinct_keys(owners),
        0 <= index < owners.len(),
        !owners[index].matches(namespace, key, hash),
    ensures
        match owner_of(owners, namespace, key, hash) {
            Some(found) => match owner_of(owners.remove(index), namespace, key, hash) {
                Some(kept) => owners.remove(index)[kept] == owners[found],
                None => false,
            },
            None => owner_of(owners.remove(index), namespace, key, hash) is None,
        },
{
    let after = owners.remove(index);
    match owner_of(owners, namespace, key, hash) {
        Some(found) => {
            assert(0 <= found < owners.len() && owners[found].matches(namespace, key, hash));
            let to = if found < index {
                found
            } else {
                found - 1
            };
            assert(after[to] == owners[found]);
            assert(after[to].matches(namespace, key, hash));
            let kept = owner_of(after, namespace, key, hash)->0;
            assert(0 <= kept < after.len() && after[kept].matches(namespace, key, hash));
            let from = if kept < index {
                kept
            } else {
                kept + 1
            };
            assert(owners[from] == after[kept]);
            assert(same_key(owners[from], owners[found]));
        },
        None => {
            assert forall|k: int| 0 <= k < after.len() implies !(#[trigger] after[k]).matches(namespace, key, hash) by {
                let from = if k < index {
                    k
                } else {
                    k + 1
                };
                assert(!owners[from].matches(namespace, key, hash));
            }
        },
    }
}

/// A key whose write-back has failed stays fenced.
pub proof fn law_failed_fence_stays(owners: Seq<OwnerModel>, index: int)
    requires
        distinct_keys(owners),
        0 <= index < owners.len(),
    ensures
        ({
            let owner = owners[index];
            let after = owners.update(index, OwnerModel { failed: true, ..owner });
            owner_of(after, owner.namespace, owner.key, owner.hash) == Some(index) && after[index].failed
        }),
{
    let owner = owners[index];
    let after = owners.update(index, OwnerModel { failed: true, ..owner });
    assert(after[index].matches(owner.namespace, owner.key, owner.hash));
    let found = owner_of(after, owner.namespace, owner.key, owner.hash)->0;
    assert(0 <= found < after.len() && after[found].matches(owner.namespace, owner.key, owner.hash));
    if found != index {
        assert(!same_key(owners[found], owners[index]));
    }
}

/// A key has an owner exactly if one was registered for it, under its hash and
/// in its namespace; an identifier likewise.
pub proof fn law_owners_are_found(owners: Seq<OwnerModel>, namespace: NamespaceId, key: Seq<u8>, hash: u64, id: u64)
    ensures
        owner_of(owners, namespace, key, hash) matches Some(k) ==> 0 <= k < owners.len() && owners[k].namespace == namespace && owners[k].key
            == key && owners[k].hash == hash,
        owner_of(owners, namespace, key, hash) is None ==> forall|k: int|
            0 <= k < owners.len() ==> (#[trigger] owners[k]).namespace != namespace || owners[k].key != key || owners[k].hash != hash,
        position_of(owners, id) matches Some(k) ==> 0 <= k < owners.len() && owners[k].id == id,
        position_of(owners, id) is None ==> forall|k: int| 0 <= k < owners.len() ==> (#[trigger] owners[k]).id != id,
{
    if owner_of(owners, namespace, key, hash) is None {
        assert forall|k: int| 0 <= k < owners.len() implies (#[trigger] owners[k]).namespace != namespace || owners[k].key != key
            || owners[k].hash != hash by {
            assert(!owners[k].matches(namespace, key, hash));
        }
    }
}

/// What a registered owner is charged adds to what is pending, and no more.
pub proof fn law_pending_charges_add_up(owners: Seq<OwnerModel>, owner: OwnerModel)
    ensures
        total_charge(Seq::empty()) == 0,
        total_charge(owners.push(owner)) == total_charge(owners) + owner.charged_bytes,
{
    assert(owners.push(owner).drop_last() =~= owners);
}

/// A registration adds its owner behind the others; the peaks rise to what is
/// pending then and never fall.
pub proof fn law_registrations(before: PendingWriteDirectory, after: PendingWriteDirectory, owner: OwnerModel)
    requires
        after.registered(&before, owner),
        before.owners().len() < u64::MAX,
    ensures
        after.owners() == before.owners() + seq![owner],
        after.registrations() == before.registrations() + 1,
        after.peak_entries() >= before.peak_entries(),
        after.peak_entries() >= after.owners().len(),
        after.peak_entries() == before.peak_entries() || after.peak_entries() == after.owners().len(),
        after.peak_bytes() >= before.peak_bytes(),
        0 <= total_charge(before.owners()) && total_charge(after.owners()) <= u64::MAX ==> after.peak_bytes() >= total_charge(
            after.owners(),
        ) && (after.peak_bytes() == before.peak_bytes() || after.peak_bytes() == total_charge(after.owners())),
{
    assert(before.owners().push(owner) =~= before.owners() + seq![owner]);
    law_pending_charges_add_up(before.owners(), owner);
    let sum = total_charge(before.owners());
    if 0 <= sum <= u64::MAX {
        vstd::arithmetic::div_mod::lemma_small_mod(sum as nat, 0x1_0000_0000_0000_0000nat);
    }
}

/// A slot is active exactly while its owner is registered, unchanged and not
/// failed.
pub proof fn law_active_slots(directory: PendingWriteDirectory, slot: &PendingWriteSlot)
    ensures
        directory.active(slot) matches Some(k) ==> {
            &&& 0 <= k < directory.owners().len()
            &&& directory.owners()[k].id == slot.id && directory.owners()[k].namespace == slot.namespace
            &&& directory.owners()[k].key == slot.key@ && directory.owners()[k].hash == slot.hash
            &&& directory.owners()[k].charged_bytes == slot.charged_bytes
            &&& !directory.owners()[k].failed
        },
        directory.active(slot) is None && directory.issued(slot) ==> forall|k: int|
            0 <= k < directory.owners().len() && (#[trigger] directory.owners()[k]).id == slot.id && position_of(
                directory.owners(),
                slot.id,
            ) == Some(k) ==> directory.owners()[k].failed,
{
    law_owners_are_found(directory.owners(), slot.namespace, slot.key@, slot.hash, slot.id);
}

} // verus!
