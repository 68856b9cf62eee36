//! Eviction order of one RAM-tier shard.
//!
//! Resident slots stand in a queue from the oldest to the newest. Policies
//! differ in what a hit does to the queue, in where a scan for victims starts
//! and in whether a candidate has to earn its admission.

use crate::slot_chains::lemma_removed_contains;
use vstd::prelude::*;

verus! {

/// How victims are chosen.
#[derive(Clone, Copy, Debug, PartialEq, Eq, Structural)]
pub enum EvictionPolicy {
    /// First in, first out, with a second chance for entries that were hit.
    Clock,
    /// Least recently used.
    Lru,
    /// First in, first out.
    Fifo,
    /// Least recently used, behind a frequency gate.
    TinyLfu,
    /// First in, first out, with a hand that passes over entries that were hit.
    Sieve,
}

impl EvictionPolicy {
    /// Every policy.
    pub fn all() -> (policies: [EvictionPolicy; 5])
        ensures
            policies@ == seq![
                EvictionPolicy::Clock,
                EvictionPolicy::Lru,
                EvictionPolicy::Fifo,
                EvictionPolicy::TinyLfu,
                EvictionPolicy::Sieve,
            ],
    {
        let policies = [
            EvictionPolicy::Clock,
            EvictionPolicy::Lru,
            EvictionPolicy::Fifo,
            EvictionPolicy::TinyLfu,
            EvictionPolicy::Sieve,
        ];
        assert(policies@ =~= seq![
            EvictionPolicy::Clock,
            EvictionPolicy::Lru,
            EvictionPolicy::Fifo,
            EvictionPolicy::TinyLfu,
            EvictionPolicy::Sieve,
        ]);
        policies
    }
}

/// Counters of the frequency sketch.
pub const FREQUENCY_COUNTERS: usize = 1024;

/// Queue positions that one admission may examine.
pub const MAX_POLICY_SCAN_STEPS: usize = 128;

/// Largest slot index that a policy can name.
pub const MAX_POLICY_SLOT_INDEX: usize = 0x7fff_fffe;

/// How often a candidate had been asked for when its admission was prepared.
#[derive(Clone, Copy, Debug, PartialEq, Eq, Structural)]
pub struct AdmissionHint {
    pub frequency: u8,
}

impl Default for AdmissionHint {
    fn default() -> (hint: AdmissionHint)
        ensures
            hint.frequency == 0,
    {
        AdmissionHint { frequency: 0 }
    }
}

/// What the eviction order holds.
#[verifier::ext_equal]
pub struct EvictionModel {
    pub policy: EvictionPolicy,
    /// Resident slots, oldest first.
    pub queue: Seq<u32>,
    /// Slots that have been hit since they were last passed over.
    pub visited: Seq<bool>,
    /// Where the next scan of a hand-driven policy starts.
    pub hand: int,
    pub frequency: Seq<u8>,
}

impl EvictionModel {
    pub open spec fn valid(self) -> bool {
        &&& self.queue.no_duplicates()
        &&& forall|k: int| 0 <= k < self.queue.len() ==> (#[trigger] self.queue[k]) < self.visited.len()
        &&& 0 <= self.hand <= self.queue.len()
        &&& self.frequency.len() == FREQUENCY_COUNTERS
    }

    /// How often the hash has been asked for, up to the counter's maximum.
    pub open spec fn frequency_of(self, hash: u64) -> u8 {
        self.frequency[hash as int % FREQUENCY_COUNTERS as int]
    }

    /// One more request for the hash, where the policy counts them.
    pub open spec fn requested(self, hash: u64) -> EvictionModel {
        if self.policy == EvictionPolicy::TinyLfu && self.frequency_of(hash) < u8::MAX {
            EvictionModel {
                frequency: self.frequency.update(
                    hash as int % FREQUENCY_COUNTERS as int,
                    (self.frequency_of(hash) + 1) as u8,
                ),
                ..self
            }
        } else {
            self
        }
    }

    /// A slot has come in at the new end.
    pub open spec fn inserted(self, slot: u32) -> EvictionModel {
        EvictionModel { queue: self.queue.push(slot), visited: self.visited.update(slot as int, false), ..self }
    }

    /// The slot at `position` has left.
    pub open spec fn removed(self, position: int) -> EvictionModel {
        EvictionModel {
            queue: self.queue.remove(position),
            hand: if position < self.hand { self.hand - 1 } else { self.hand },
            ..self
        }
    }

    /// The slot at `position` has been hit.
    pub open spec fn hit(self, position: int) -> EvictionModel {
        match self.policy {
            EvictionPolicy::Lru | EvictionPolicy::TinyLfu => EvictionModel {
                queue: self.queue.remove(position).push(self.queue[position]),
                ..self
            },
            EvictionPolicy::Fifo => self,
            EvictionPolicy::Clock | EvictionPolicy::Sieve => EvictionModel {
                visited: self.visited.update(self.queue[position] as int, true),
                ..self
            },
        }
    }
}

/// Sum of the frequencies of the hashes.
pub open spec fn frequency_sum(model: EvictionModel, hashes: Seq<u64>) -> int
    decreases hashes.len(),
{
    if hashes.len() == 0 {
        0
    } else {
        frequency_sum(model, hashes.drop_last()) + model.frequency_of(hashes.last())
    }
}

/// The eviction order of one shard.
pub struct EvictionState {
    policy: EvictionPolicy,
    queue: Vec<u32>,
    visited: Vec<bool>,
    hand: usize,
    frequency: Vec<u8>,
}

impl View for EvictionState {
    type V = EvictionModel;

    closed spec fn view(&self) -> EvictionModel {
        EvictionModel {
            policy: self.policy,
            queue: self.queue@,
            visited: self.visited@,
            hand: self.hand as int,
            frequency: self.frequency@,
        }
    }
}

impl EvictionState {
    /// The order's invariant.
    pub open spec fn wf(&self) -> bool {
        self@.valid()
    }

    /// An empty order.
    pub fn new(policy: EvictionPolicy) -> (state: EvictionState)
        ensures
            state.wf(),
            state@.policy == policy,
            state@.queue == Seq::<u32>::empty(),
            state@.visited == Seq::<bool>::empty(),
            state@.hand == 0,
            forall|k: int| 0 <= k < FREQUENCY_COUNTERS ==> #[trigger] state@.frequency[k] == 0,
    {
        let mut frequency: Vec<u8> = Vec::new();
        frequency.resize(FREQUENCY_COUNTERS, 0);
        EvictionState { policy, queue: Vec::new(), visited: Vec::new(), hand: 0, frequency }
    }

    /// The policy.
    pub fn policy(&self) -> (policy: EvictionPolicy)
        ensures
            policy == self@.policy,
    {
        self.policy
    }

    /// How many slots are queued.
    pub fn len(&self) -> (len: usize)
        ensures
            len == self@.queue.len(),
    {
        self.queue.len()
    }

    /// The slot at a queue position.
    pub fn slot_at(&self, position: usize) -> (slot: u32)
        requires
            position < self@.queue.len(),
        ensures
            slot == self@.queue[position as int],
    {
        self.queue[position]
    }

    /// Where a hand-driven scan starts.
    pub fn hand(&self) -> (hand: usize)
        ensures
            hand == self@.hand,
    {
        self.hand
    }

    /// Moves the hand.
    pub fn set_hand(&mut self, hand: usize)
        requires
            old(self).wf(),
            hand <= old(self)@.queue.len(),
        ensures
            final(self).wf(),
            final(self)@ == (EvictionModel { hand: hand as int, ..old(self)@ }),
    {
        self.hand = hand;
    }

    /// Whether a slot has been hit since it was last passed over.
    pub fn is_visited(&self, slot: u32) -> (visited: bool)
        requires
            slot < self@.visited.len(),
        ensures
            visited == self@.visited[slot as int],
    {
        self.visited[slot as usize]
    }

    /// Passes over a slot.
    pub fn clear_visited(&mut self, slot: u32)
        requires
            old(self).wf(),
            slot < old(self)@.visited.len(),
        ensures
            final(self).wf(),
            final(self)@ == (EvictionModel { visited: old(self)@.visited.update(slot as int, false), ..old(self)@ }),
    {
        self.visited.set(slot as usize, false);
    }

    /// Where a slot stands in the queue.
    pub fn position_of(&self, slot: u32) -> (position: usize)
        requires
            self.wf(),
            self@.queue.contains(slot),
        ensures
            position < self@.queue.len(),
            self@.queue[position as int] == slot,
            position == self@.queue.index_of(slot),
    {
        let ghost at = self@.queue.index_of(slot);
        let mut position: usize = 0;
        while self.queue[position] != slot
            invariant
                self.wf(),
                position <= at < self.queue.len(),
                self.queue@[at] == slot,
                self@.queue == self.queue@,
                forall|k: int| 0 <= k < position ==> self.queue@[k] != slot,
            decreases at - position,
        {
            position = position + 1;
        }
        position
    }

    /// Moves the slot at a position to the new end.
    pub fn rotate(&mut self, position: usize)
        requires
            old(self).wf(),
            position < old(self)@.queue.len(),
        ensures
            final(self).wf(),
            final(self)@ == (EvictionModel {
                queue: old(self)@.queue.remove(position as int).push(old(self)@.queue[position as int]),
                ..old(self)@
            }),
    {
        let ghost queue = self.queue@;
        let slot = self.queue.remove(position);
        self.queue.push(slot);
        proof {
            lemma_rotated(queue, position as int);
        }
    }

    /// Adds storage for one more slot.
    pub fn push_slot(&mut self)
        requires
            old(self).wf(),
        ensures
            final(self).wf(),
            final(self)@ == (EvictionModel { visited: old(self)@.visited.push(false), ..old(self)@ }),
    {
        self.visited.push(false);
    }

    /// Puts a slot in at the new end.
    pub fn insert(&mut self, slot: u32)
        requires
            old(self).wf(),
            slot < old(self)@.visited.len(),
            !old(self)@.queue.contains(slot),
        ensures
            final(self).wf(),
            final(self)@ == old(self)@.inserted(slot),
    {
        self.queue.push(slot);
        self.visited.set(slot as usize, false);
    }

    /// Takes a slot out.
    pub fn remove(&mut self, slot: u32)
        requires
            old(self).wf(),
            old(self)@.queue.contains(slot),
        ensures
            final(self).wf(),
            final(self)@ == old(self)@.removed(old(self)@.queue.index_of(slot)),
    {
        let ghost queue = self.queue@;
        let position = self.position_of(slot);
        let _slot = self.queue.remove(position);
        if position < self.hand {
            self.hand = self.hand - 1;
        }
        proof {
            lemma_removed_contains(queue, position as int, slot);
        }
    }

    /// Notes a hit on a slot.
    pub fn record_hit(&mut self, slot: u32)
        requires
            old(self).wf(),
            old(self)@.queue.contains(slot),
        ensures
            final(self).wf(),
            final(self)@ == old(self)@.hit(old(self)@.queue.index_of(slot)),
    {
        match self.policy {
            EvictionPolicy::Lru | EvictionPolicy::TinyLfu => {
                let position = self.position_of(slot);
                self.rotate(position);
            },
            EvictionPolicy::Fifo => {},
            EvictionPolicy::Clock | EvictionPolicy::Sieve => {
                assert(self@.queue[self@.queue.index_of(slot)] == slot);
                self.visited.set(slot as usize, true);
            },
        }
    }

    /// How often a hash has been asked for.
    pub fn frequency_of(&self, hash: u64) -> (frequency: u8)
        requires
            self.wf(),
        ensures
            frequency == self@.frequency_of(hash),
    {
        self.frequency[(hash % (FREQUENCY_COUNTERS as u64)) as usize]
    }

    /// Notes a request for a hash and hints at its frequency.
    pub fn record_request(&mut self, hash: u64) -> (hint: AdmissionHint)
        requires
            old(self).wf(),
        ensures
            final(self).wf(),
            final(self)@ == old(self)@.requested(hash),
            hint.frequency == final(self)@.frequency_of(hash),
    {
        let index = (hash % (FREQUENCY_COUNTERS as u64)) as usize;
        match self.policy {
            EvictionPolicy::TinyLfu => {
                let count = self.frequency[index];
                if count < u8::MAX {
                    self.frequency.set(index, count + 1);
                }
            },
            _ => {},
        }
        AdmissionHint { frequency: self.frequency[index] }
    }

    /// Whether a candidate may displace these victims: behind the frequency
    /// gate it has to have been asked for more often than all of them together.
    pub fn admits_victims(&self, hint: AdmissionHint, hashes: &Vec<u64>) -> (admitted: bool)
        requires
            self.wf(),
            hashes@.len() <= 0x1000,
        ensures
            admitted == (self@.policy != EvictionPolicy::TinyLfu || hashes@.len() == 0 || hint.frequency > frequency_sum(self@, hashes@)),
    {
        match self.policy {
            EvictionPolicy::TinyLfu => {},
            _ => {
                return true;
            },
        }
        let mut sum: u64 = 0;
        let mut index: usize = 0;
        while index < hashes.len()
            invariant
                self.wf(),
                hashes@.len() <= 0x1000,
                index <= hashes@.len(),
                sum == frequency_sum(self@, hashes@.take(index as int)),
                sum <= index * 255,
            decreases hashes@.len() - index,
        {
            proof {
                assert(hashes@.take(index + 1).drop_last() =~= hashes@.take(index as int));
            }
            sum = sum + self.frequency_of(hashes[index]) as u64;
            index = index + 1;
        }
        assert(hashes@.take(hashes@.len() as int) =~= hashes@);
        hashes.len() == 0 || hint.frequency as u64 > sum
    }
}

/// Moving a slot to the end of a duplicate-free list keeps its slots.
pub proof fn lemma_rotated(list: Seq<u32>, position: int)
    requires
        list.no_duplicates(),
        0 <= position < list.len(),
    ensures
        list.remove(position).push(list[position]).no_duplicates(),
        list.remove(position).push(list[position]).len() == list.len(),
        forall|x: u32| list.remove(position).push(list[position]).contains(x) <==> #[trigger] list.contains(x),
{
    let shorter = list.remove(position);
    let rotated = shorter.push(list[position]);
    lemma_removed_contains(list, position, list[position]);
    assert forall|x: u32| rotated.contains(x) <==> #[trigger] list.contains(x) by {
        lemma_removed_contains(list, position, x);
        if list.contains(x) {
            if x == list[position] {
                assert(rotated[shorter.len() as int] == x);
            } else {
                let k = shorter.index_of(x);
                assert(rotated[k] == x);
            }
        }
        if rotated.contains(x) {
            let k = rotated.index_of(x);
            if k < shorter.len() {
                assert(shorter[k] == x);
                assert(shorter.contains(x));
            } else {
                assert(list[position] == x);
            }
        }
    }
}

/// A request is counted only where frequencies decide, in one of 1024 counters
/// that the hash picks, which stops at 255; nothing else changes.
pub proof fn law_requests_are_counted(model: EvictionModel, hash: u64, counter: int)
    requires
        model.frequency.len() == 1024,
        0 <= counter < 1024,
    ensures
        ({
            let after = model.requested(hash);
            &&& after.policy == model.policy && after.queue == model.queue && after.visited == model.visited && after.hand == model.hand
            &&& !(model.policy is TinyLfu) || counter != hash as int % 1024 || model.frequency[counter] == 255 ==> after.frequency[counter]
                == model.frequency[counter]
            &&& model.policy is TinyLfu && counter == hash as int % 1024 && model.frequency[counter] < 255 ==> after.frequency[counter]
                == model.frequency[counter] + 1
            &&& after.frequency_of(hash) == after.frequency[hash as int % 1024]
        }),
{
}

/// A hit moves an entry behind all others where recency counts, marks it where
/// second chances are given, and changes nothing where only age counts.
pub proof fn law_hits_are_remembered(model: EvictionModel, position: int)
    requires
        model.valid(),
        0 <= position < model.queue.len(),
    ensures
        ({
            let after = model.hit(position);
            let slot = model.queue[position];
            &&& after.policy == model.policy && after.hand == model.hand && after.frequency == model.frequency
            &&& after.queue.len() == model.queue.len()
            &&& model.policy is Fifo ==> after == model
            &&& model.policy is Lru || model.policy is TinyLfu ==> {
                &&& after.visited == model.visited
                &&& after.queue.last() == slot
                &&& forall|k: int| 0 <= k < position ==> #[trigger] after.queue[k] == model.queue[k]
                &&& forall|k: int| position <= k < model.queue.len() - 1 ==> #[trigger] after.queue[k] == model.queue[k + 1]
            }
            &&& model.policy is Clock || model.policy is Sieve ==> {
                &&& after.queue == model.queue
                &&& after.visited[slot as int]
                &&& forall|k: int| 0 <= k < model.visited.len() && k != slot ==> #[trigger] after.visited[k] == model.visited[k]
            }
        }),
{
}

/// An entry that leaves takes nothing but its own place; the hand stays with
/// the entry that it points at.
pub proof fn law_removal_keeps_the_order(model: EvictionModel, position: int)
    requires
        model.valid(),
        0 <= position < model.queue.len(),
    ensures
        ({
            let after = model.removed(position);
            &&& after.policy == model.policy && after.frequency == model.frequency && after.visited == model.visited
            &&& after.queue.len() == model.queue.len() - 1
            &&& !after.queue.contains(model.queue[position])
            &&& forall|k: int| 0 <= k < position ==> #[trigger] after.queue[k] == model.queue[k]
            &&& forall|k: int| position <= k < after.queue.len() ==> #[trigger] after.queue[k] == model.queue[k + 1]
            &&& model.hand < model.queue.len() && model.hand != position ==> after.queue[after.hand] == model.queue[model.hand]
            &&& model.hand == position ==> after.hand == position
            &&& model.hand == model.queue.len() ==> after.hand == after.queue.len()
        }),
{
}

/// A new entry comes last and has not been hit.
pub proof fn law_new_entries_come_last(model: EvictionModel, slot: u32)
    requires
        slot < model.visited.len(),
    ensures
        ({
            let after = model.inserted(slot);
            &&& after.queue == model.queue + seq![slot]
            &&& !after.visited[slot as int]
            &&& forall|k: int| 0 <= k < model.visited.len() && k != slot ==> #[trigger] after.visited[k] == model.visited[k]
            &&& after.policy == model.policy && after.hand == model.hand && after.frequency == model.frequency
        }),
{
    assert(model.queue.push(slot) =~= model.queue + seq![slot]);
}

/// The frequencies of several hashes add up.
pub proof fn law_frequencies_add_up(model: EvictionModel, hashes: Seq<u64>, hash: u64)
    ensures
        frequency_sum(model, Seq::empty()) == 0,
        frequency_sum(model, hashes.push(hash)) == frequency_sum(model, hashes) + model.frequency[hash as int % 1024],
{
    assert(hashes.push(hash).drop_last() =~= hashes);
}

} // verus!
