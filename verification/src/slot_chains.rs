//! Hash chains over compact slot indices.
//!
//! Slots with the same hash form a singly linked chain. Links are 32-bit slot
//! indices kept beside the slots, so a chain needs no allocation of its own.

use crate::containers::{map_try_reserve, vec_try_reserve};
use std::collections::HashMap;
use vstd::prelude::*;

verus! {

broadcast use vstd::std_specs::hash::group_hash_axioms;

/// Marks the end of a chain.
pub const NO_SLOT_INDEX: u32 = u32::MAX;

spec fn link_at(chain: Seq<u32>, position: int) -> u32 {
    if 0 <= position < chain.len() {
        chain[position]
    } else {
        NO_SLOT_INDEX
    }
}

spec fn linked_at(next: Seq<u32>, chain: Seq<u32>, position: int) -> bool {
    &&& chain[position] < next.len()
    &&& chain[position] < NO_SLOT_INDEX
    &&& next[chain[position] as int] == link_at(chain, position + 1)
}

spec fn chain_linked(next: Seq<u32>, chain: Seq<u32>) -> bool {
    &&& chain.len() > 0
    &&& chain.no_duplicates()
    &&& forall|k: int| 0 <= k < chain.len() ==> #[trigger] linked_at(next, chain, k)
}

/// Chains of slots by hash.
pub struct SlotChains {
    directory: HashMap<u64, u32>,
    next: Vec<u32>,
    chains: Ghost<Map<u64, Seq<u32>>>,
}

impl View for SlotChains {
    type V = Map<u64, Seq<u32>>;

    closed spec fn view(&self) -> Map<u64, Seq<u32>> {
        self.chains@
    }
}

/// No slot is in two chains.
pub open spec fn chains_disjoint(chains: Map<u64, Seq<u32>>) -> bool {
    forall|g: u64, h: u64, slot: u32|
        chains.contains_key(g) && chains.contains_key(h) && #[trigger] chains[g].contains(slot) && #[trigger] chains[h].contains(slot)
            ==> g == h
}

/// The chain of a hash, empty where there is none.
pub open spec fn chain_of(chains: Map<u64, Seq<u32>>, hash: u64) -> Seq<u32> {
    if chains.contains_key(hash) {
        chains[hash]
    } else {
        Seq::empty()
    }
}

impl SlotChains {
    /// The chains' invariant.
    pub closed spec fn wf(&self) -> bool {
        &&& self.directory@.dom() == self.chains@.dom()
        &&& forall|h: u64| #[trigger]
            self.chains@.contains_key(h) ==> chain_linked(self.next@, self.chains@[h]) && self.directory@[h] == self.chains@[h][0]
        &&& chains_disjoint(self.chains@)
    }

    /// How many slots there are links for.
    pub closed spec fn slots(&self) -> nat {
        self.next@.len()
    }

    /// Chains are not empty, name existing slots and name none twice.
    pub proof fn lemma_chain(&self, hash: u64)
        requires
            self.wf(),
        ensures
            chains_disjoint(self@),
            self@.contains_key(hash) ==> self@[hash].len() > 0 && self@[hash].no_duplicates(),
            forall|k: int| self@.contains_key(hash) && 0 <= k < self@[hash].len() ==> (#[trigger] self@[hash][k]) < self.slots()
                && self@[hash][k] < NO_SLOT_INDEX,
    {
        if self@.contains_key(hash) {
            assert forall|k: int| 0 <= k < self@[hash].len() implies (#[trigger] self@[hash][k]) < self.slots() && self@[hash][k] < NO_SLOT_INDEX by {
                assert(linked_at(self.next@, self@[hash], k));
            }
        }
    }

    /// No chains.
    pub fn new() -> (chains: SlotChains)
        ensures
            chains.wf(),
            chains@ == Map::<u64, Seq<u32>>::empty(),
            chains.slots() == 0,
    {
        SlotChains { directory: HashMap::new(), next: Vec::new(), chains: Ghost(Map::empty()) }
    }

    /// The first slot of a chain.
    pub fn head(&self, hash: u64) -> (head: Option<u32>)
        requires
            self.wf(),
        ensures
            head == (if self@.contains_key(hash) { Some(self@[hash][0]) } else { None }),
    {
        match self.directory.get(&hash) {
            Some(slot) => Some(*slot),
            None => None,
        }
    }

    /// The slot after position `position` of a chain.
    pub fn next(&self, slot: u32, Ghost(hash): Ghost<u64>, Ghost(position): Ghost<int>) -> (next: Option<u32>)
        requires
            self.wf(),
            self@.contains_key(hash),
            0 <= position < self@[hash].len(),
            self@[hash][position] == slot,
        ensures
            next == (if position + 1 < self@[hash].len() { Some(self@[hash][position + 1]) } else { None }),
    {
        assert(linked_at(self.next@, self@[hash], position));
        let link: u32 = self.next[slot as usize];
        if link == NO_SLOT_INDEX {
            proof {
                if position + 1 < self@[hash].len() {
                    assert(linked_at(self.next@, self@[hash], position + 1));
                }
            }
            None
        } else {
            Some(link)
        }
    }

    /// Whether the chain of a hash exists or room for a new one could be had.
    pub fn can_attach(&mut self, hash: u64) -> (possible: bool)
        requires
            old(self).wf(),
        ensures
            final(self).wf(),
            final(self)@ == old(self)@,
            final(self).slots() == old(self).slots(),
            old(self)@.contains_key(hash) ==> possible,
    {
        if self.directory.contains_key(&hash) {
            true
        } else {
            map_try_reserve(&mut self.directory, 1)
        }
    }

    /// Asks for room for one more slot.
    pub fn try_reserve_slot(&mut self) -> (reserved: bool)
        requires
            old(self).wf(),
        ensures
            final(self).wf(),
            final(self)@ == old(self)@,
            final(self).slots() == old(self).slots(),
    {
        vec_try_reserve(&mut self.next, 1)
    }

    /// Adds links for one more slot.
    pub fn push_slot(&mut self)
        requires
            old(self).wf(),
        ensures
            final(self).wf(),
            final(self)@ == old(self)@,
            final(self).slots() == old(self).slots() + 1,
    {
        let ghost before = self.next@;
        self.next.push(NO_SLOT_INDEX);
        proof {
            assert forall|h: u64| #[trigger] self.chains@.contains_key(h) implies chain_linked(self.next@, self.chains@[h]) by {
                let chain = self.chains@[h];
                assert forall|k: int| 0 <= k < chain.len() implies #[trigger] linked_at(self.next@, chain, k) by {
                    assert(linked_at(before, chain, k));
                }
            }
        }
    }

    /// Puts a slot in front of the chain of a hash.
    pub fn attach(&mut self, hash: u64, slot: u32)
        requires
            old(self).wf(),
            slot < old(self).slots(),
            slot < NO_SLOT_INDEX,
            forall|h: u64| old(self)@.contains_key(h) ==> !(#[trigger] old(self)@[h]).contains(slot),
        ensures
            final(self).wf(),
            final(self)@ == old(self)@.insert(hash, seq![slot] + chain_of(old(self)@, hash)),
            final(self).slots() == old(self).slots(),
    {
        let ghost before = self.next@;
        let ghost chains = self.chains@;
        let ghost chain = chain_of(chains, hash);
        let link: u32 = match self.directory.insert(hash, slot) {
            Some(head) => head,
            None => NO_SLOT_INDEX,
        };
        self.next.set(slot as usize, link);
        self.chains = Ghost(chains.insert(hash, seq![slot] + chain));
        proof {
            let after = seq![slot] + chain;
            assert(chains == old(self)@);
            assert forall|h: u64| chains.contains_key(h) implies !(#[trigger] chains[h]).contains(slot) by {
                assert(!old(self)@[h].contains(slot));
            }
            assert forall|h: u64| #[trigger] self.chains@.contains_key(h) implies chain_linked(self.next@, self.chains@[h])
                && self.directory@[h] == self.chains@[h][0] by {
                if h == hash {
                    assert forall|k: int| 0 <= k < after.len() implies #[trigger] linked_at(self.next@, after, k) by {
                        if k > 0 {
                            assert(linked_at(before, chain, k - 1));
                            assert(after[k] == chain[k - 1]);
                            assert(chain.contains(chain[k - 1]));
                        }
                        if k + 1 < after.len() {
                            assert(after[k + 1] == chain[k]);
                        }
                    }
                    assert(after.no_duplicates()) by {
                        assert(chain.len() > 0 ==> chains.contains_key(hash));
                        assert(!chain.contains(slot));
                    }
                } else {
                    let other = chains[h];
                    assert(chains.contains_key(h));
                    assert forall|k: int| 0 <= k < other.len() implies #[trigger] linked_at(self.next@, other, k) by {
                        assert(linked_at(before, other, k));
                        assert(other.contains(other[k]));
                    }
                }
            }
            assert(self.directory@.dom() =~= self.chains@.dom());
            assert forall|g: u64, h: u64, x: u32|
                self.chains@.contains_key(g) && self.chains@.contains_key(h) && #[trigger] self.chains@[g].contains(x)
                    && #[trigger] self.chains@[h].contains(x) implies g == h by {
                lemma_front_contains(slot, chain, x);
                if g == hash && h != hash && x != slot {
                    assert(chain.contains(x));
                    assert(chains[hash].contains(x) && chains[h].contains(x));
                }
                if h == hash && g != hash && x != slot {
                    assert(chain.contains(x));
                    assert(chains[hash].contains(x) && chains[g].contains(x));
                }
            }
        }
    }

    /// Takes a slot out of the chain of its hash.
    pub fn detach(&mut self, hash: u64, slot: u32)
        requires
            old(self).wf(),
            old(self)@.contains_key(hash),
            old(self)@[hash].contains(slot),
        ensures
            final(self).wf(),
            final(self)@ == without_slot(old(self)@, hash, slot),
            final(self).slots() == old(self).slots(),
    {
        let ghost before = self.next@;
        let ghost chains = self.chains@;
        let ghost chain = chains[hash];
        let ghost p = chain.index_of(slot);
        let ghost after = chain.remove(p);
        assert(linked_at(before, chain, p));
        assert(linked_at(before, chain, 0));
        let link: u32 = self.next[slot as usize];
        let head: u32 = *self.directory.get(&hash).unwrap();
        if head == slot {
            assert(p == 0);
            if link == NO_SLOT_INDEX {
                proof {
                    if chain.len() > 1 {
                        assert(linked_at(before, chain, 1));
                    }
                }
                let _removed = self.directory.remove(&hash);
                self.chains = Ghost(chains.remove(hash));
                assert(after.len() == 0);
            } else {
                let _replaced = self.directory.insert(hash, link);
                self.chains = Ghost(chains.insert(hash, after));
            }
        } else {
            let mut cursor: u32 = head;
            let ghost mut k: int = 0;
            loop
                invariant
                    0 <= k < p < chain.len(),
                    cursor == chain[k],
                    self.next@ == before,
                    chain[p] == slot,
                    chain.no_duplicates(),
                    self.chains@ == chains,
                    self.directory@ == old(self).directory@,
                    forall|j: int| 0 <= j < chain.len() ==> #[trigger] linked_at(before, chain, j),
                ensures
                    k + 1 == p,
                    cursor == chain[k],
                decreases p - k,
            {
                assert(linked_at(before, chain, k));
                assert(linked_at(before, chain, k + 1));
                let following: u32 = self.next[cursor as usize];
                if following == slot {
                    break;
                }
                cursor = following;
                proof {
                    k = k + 1;
                }
            }
            assert(linked_at(before, chain, p - 1));
            self.next.set(cursor as usize, link);
            self.chains = Ghost(chains.insert(hash, after));
        }
        proof {
            assert forall|h: u64| #[trigger] self.chains@.contains_key(h) implies chain_linked(self.next@, self.chains@[h])
                && self.directory@[h] == self.chains@[h][0] by {
                if h == hash {
                    assert forall|k: int| 0 <= k < after.len() implies #[trigger] linked_at(self.next@, after, k) by {
                        if k < p {
                            assert(linked_at(before, chain, k));
                        } else {
                            assert(linked_at(before, chain, k + 1));
                        }
                    }
                    if p > 0 {
                        assert(linked_at(before, chain, p - 1));
                    }
                } else {
                    let other = chains[h];
                    assert(chains.contains_key(h));
                    assert forall|k: int| 0 <= k < other.len() implies #[trigger] linked_at(self.next@, other, k) by {
                        assert(linked_at(before, other, k));
                        if p > 0 {
                            assert(chain.contains(chain[p - 1]));
                            assert(other.contains(other[k]));
                        }
                    }
                }
            }
            assert(self.directory@.dom() =~= self.chains@.dom());
            assert forall|g: u64, h: u64, x: u32|
                self.chains@.contains_key(g) && self.chains@.contains_key(h) && #[trigger] self.chains@[g].contains(x)
                    && #[trigger] self.chains@[h].contains(x) implies g == h by {
                lemma_removed_contains(chain, p, x);
                assert(chains[g].contains(x));
                assert(chains[h].contains(x));
            }
            assert(self.chains@ =~= without_slot(chains, hash, slot));
        }
    }
}

/// The chains with one slot taken out; an emptied chain is gone.
pub open spec fn without_slot(chains: Map<u64, Seq<u32>>, hash: u64, slot: u32) -> Map<u64, Seq<u32>> {
    let after = chains[hash].remove(chains[hash].index_of(slot));
    if after.len() == 0 {
        chains.remove(hash)
    } else {
        chains.insert(hash, after)
    }
}

/// A slot in front of a list is in it, with what was in the list.
pub proof fn lemma_front_contains(slot: u32, list: Seq<u32>, x: u32)
    ensures
        (seq![slot] + list).contains(x) <==> x == slot || list.contains(x),
{
    let longer = seq![slot] + list;
    assert(longer[0] == slot);
    if list.contains(x) {
        let k = list.index_of(x);
        assert(longer[k + 1] == x);
    }
    if longer.contains(x) && x != slot {
        let k = longer.index_of(x);
        assert(list[k - 1] == x);
    }
}

/// Removing a slot from a duplicate-free list keeps exactly the others.
pub proof fn lemma_removed_contains(list: Seq<u32>, position: int, x: u32)
    requires
        list.no_duplicates(),
        0 <= position < list.len(),
    ensures
        list.remove(position).contains(x) <==> x != list[position] && list.contains(x),
        list.remove(position).no_duplicates(),
{
    let shorter = list.remove(position);
    if shorter.contains(x) {
        let k = shorter.index_of(x);
        assert(list[if k < position { k } else { k + 1 }] == x);
    }
    if list.contains(x) && x != list[position] {
        let k = list.index_of(x);
        assert(shorter[if k < position { k } else { k - 1 }] == x);
    }
}

/// A slot that is taken out of its hash's chain leaves the others in order, and
/// the last one takes the chain with it; chains of other hashes stay.
pub proof fn law_slot_leaves_its_chain(chains: Map<u64, Seq<u32>>, hash: u64, position: int)
    requires
        chains.contains_key(hash),
        0 <= position < chains[hash].len(),
        chains[hash].no_duplicates(),
    ensures
        ({
            let slot = chains[hash][position];
            let after = without_slot(chains, hash, slot);
            &&& forall|other: u64| other != hash ==> #[trigger] chain_of(after, other) == chain_of(chains, other)
            &&& chain_of(after, hash).len() == chains[hash].len() - 1
            &&& !chain_of(after, hash).contains(slot)
            &&& forall|k: int| 0 <= k < position ==> #[trigger] chain_of(after, hash)[k] == chains[hash][k]
            &&& forall|k: int|
                position <= k < chains[hash].len() - 1 ==> #[trigger] chain_of(after, hash)[k] == chains[hash][k + 1]
            &&& after.contains_key(hash) <==> chains[hash].len() > 1
        }),
{
    let chain = chains[hash];
    let slot = chain[position];
    let after = without_slot(chains, hash, slot);
    assert(chain.contains(slot));
    assert(chain.index_of(slot) == position);
    assert(chain_of(after, hash) =~= chain.remove(position));
}

} // verus!
