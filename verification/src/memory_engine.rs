//! Bounded, sharded in-memory cache used by the hybrid-cache layer.
//!
//! The engine deliberately owns only L1 policy. Disk promotion/writeback and
//! same-key ordering stay in the hybrid coordinator. Each shard owns a fixed
//! share of the configured byte capacity, so independent shards cannot
//! oversubscribe a global budget. LRU is exact within one shard and therefore
//! approximate across the complete cache.

use crate::bytes::{bytes_equal, fnv1a, fnv1a_update, le_bytes_u32, lemma_fnv1a_concat, u32_le_bytes, FNV_OFFSET_BASIS};
use crate::containers::{map_capacity, map_try_reserve, vec_capacity, vec_shrink_to, vec_try_reserve_exact};
use std::collections::HashMap;
use std::sync::Arc;
use vstd::prelude::*;

verus! {

broadcast use vstd::std_specs::hash::group_hash_axioms;

/// Hard limit on the number of shards.
pub const MAX_SHARDS: usize = 4_096;

/// Logical metadata charged to every retained arena slot.
///
/// This covers the arena node, hash bucket, collision link, LRU links, and
/// retained free-slot bookkeeping with one deliberately simple constant. The
/// full `Vec` capacities of the owned key and shared value buffer are charged
/// separately, so a caller cannot smuggle a mostly unused oversized allocation
/// into L1.
pub const MEMORY_ENTRY_OVERHEAD_BYTES: usize = 256;

/// Identity of one logical version of a cached value.
#[derive(Clone, Copy, Debug, PartialEq, Eq, Structural)]
pub struct HybridVersion {
    pub epoch: u64,
    pub seqno: u64,
}

impl HybridVersion {
    /// The version that precedes every published one.
    pub fn zero() -> (version: HybridVersion)
        ensures
            version == (HybridVersion { epoch: 0, seqno: 0 }),
    {
        HybridVersion { epoch: 0, seqno: 0 }
    }
}

/// Complete value and policy metadata transferred between L1 and the hybrid
/// coordinator.
///
/// Expiration is always an absolute Unix timestamp. `disk_clean` means the
/// disk tier already contains this exact logical version; a clean eviction may
/// therefore be discarded, while a dirty eviction must be handled by the
/// coordinator.
#[derive(Clone, Debug, PartialEq, Eq)]
pub struct MemoryEntry {
    pub namespace: u32,
    pub key: Vec<u8>,
    /// Shared so an L1 hit only clones this handle. Keeping the original `Vec`
    /// behind the handle preserves exact capacity charging and avoids copying
    /// the payload when it is admitted into L1.
    pub value: Arc<Vec<u8>>,
    pub expires_at_unix_ms: Option<u64>,
    pub version: HybridVersion,
    pub disk_clean: bool,
    /// Namespace charge associated with this version. Dirty entries hold their
    /// conservative pending reservation; clean entries retain the exact
    /// lower-tier receipt.
    pub pending_disk_bytes: u64,
}

/// What a [`MemoryEntry`] holds.
#[verifier::ext_equal]
pub struct EntryModel {
    pub namespace: u32,
    pub key: Seq<u8>,
    pub value: Seq<u8>,
    pub expires_at_unix_ms: Option<u64>,
    pub version: HybridVersion,
    pub disk_clean: bool,
    pub pending_disk_bytes: u64,
}

impl View for MemoryEntry {
    type V = EntryModel;

    open spec fn view(&self) -> EntryModel {
        EntryModel {
            namespace: self.namespace,
            key: self.key@,
            value: self.value@,
            expires_at_unix_ms: self.expires_at_unix_ms,
            version: self.version,
            disk_clean: self.disk_clean,
            pending_disk_bytes: self.pending_disk_bytes,
        }
    }
}

impl EntryModel {
    /// Whether the entry answers to this key.
    pub open spec fn is_for(self, namespace: u32, key: Seq<u8>) -> bool {
        self.namespace == namespace && self.key == key
    }

    /// Whether the entry's lifetime is over at `now`.
    pub open spec fn expired_at(self, now: u64) -> bool {
        match self.expires_at_unix_ms {
            Some(expires_at) => expires_at <= now,
            None => false,
        }
    }

    /// The entry once its persistence has been confirmed with `receipt` bytes.
    pub open spec fn persisted(self, receipt: u64) -> EntryModel {
        EntryModel { disk_clean: true, pending_disk_bytes: receipt, ..self }
    }
}

struct Node {
    entry: MemoryEntry,
    hash: u64,
    hash_next: Option<usize>,
    lru_prev: Option<usize>,
    lru_next: Option<usize>,
    revision: u64,
    charged_bytes: usize,
}

// ---------------------------------------------------------------------------
// Arena links
// ---------------------------------------------------------------------------

spec fn resident(nodes: Seq<Option<Node>>, index: int) -> bool {
    0 <= index < nodes.len() && nodes[index] is Some
}

spec fn slot_at(order: Seq<usize>, position: int) -> Option<usize> {
    if 0 <= position < order.len() {
        Some(order[position])
    } else {
        None
    }
}

/// The node at `position` of the recency order is linked to its neighbours.
spec fn lru_linked_at(nodes: Seq<Option<Node>>, order: Seq<usize>, position: int) -> bool {
    let index = order[position] as int;
    &&& resident(nodes, index)
    &&& nodes[index]->0.lru_prev == slot_at(order, position - 1)
    &&& nodes[index]->0.lru_next == slot_at(order, position + 1)
}

/// `order` lists slots from the most to the least recently used, and the nodes'
/// links spell it out.
spec fn lru_linked(nodes: Seq<Option<Node>>, order: Seq<usize>, head: Option<usize>, tail: Option<usize>) -> bool {
    &&& order.no_duplicates()
    &&& forall|k: int| 0 <= k < order.len() ==> #[trigger] lru_linked_at(nodes, order, k)
    &&& head == slot_at(order, 0)
    &&& tail == slot_at(order, order.len() - 1)
}

/// The node at `position` of a hash chain carries the chain's hash and links on.
spec fn chain_linked_at(nodes: Seq<Option<Node>>, hash: u64, chain: Seq<usize>, position: int) -> bool {
    let index = chain[position] as int;
    &&& resident(nodes, index)
    &&& nodes[index]->0.hash == hash
    &&& nodes[index]->0.hash_next == slot_at(chain, position + 1)
}

spec fn chain_linked(nodes: Seq<Option<Node>>, hash: u64, chain: Seq<usize>) -> bool {
    &&& chain.len() > 0
    &&& chain.no_duplicates()
    &&& forall|k: int| 0 <= k < chain.len() ==> #[trigger] chain_linked_at(nodes, hash, chain, k)
}

/// Every bucket heads exactly its chain.
spec fn hash_linked(nodes: Seq<Option<Node>>, chains: Map<u64, Seq<usize>>, buckets: Map<u64, usize>) -> bool {
    &&& buckets.dom() == chains.dom()
    &&& forall|h: u64| #[trigger] chains.contains_key(h) ==> chain_linked(nodes, h, chains[h]) && buckets[h] == chains[h][0]
}

/// Two arenas that differ in recency links at most.
spec fn same_but_lru(before: Seq<Option<Node>>, after: Seq<Option<Node>>) -> bool {
    &&& before.len() == after.len()
    &&& forall|i: int| 0 <= i < before.len() ==> {
        &&& (before[i] is Some) == ((#[trigger] after[i]) is Some)
        &&& before[i] is Some ==> after[i]->0 == (Node {
            lru_prev: after[i]->0.lru_prev,
            lru_next: after[i]->0.lru_next,
            ..before[i]->0
        })
    }
}

/// Two arenas that differ in hash links at most.
spec fn same_but_hash(before: Seq<Option<Node>>, after: Seq<Option<Node>>) -> bool {
    &&& before.len() == after.len()
    &&& forall|i: int| 0 <= i < before.len() ==> {
        &&& (before[i] is Some) == ((#[trigger] after[i]) is Some)
        &&& before[i] is Some ==> after[i]->0 == (Node { hash_next: after[i]->0.hash_next, ..before[i]->0 })
    }
}

proof fn lemma_hash_linked_frame(
    before: Seq<Option<Node>>,
    after: Seq<Option<Node>>,
    chains: Map<u64, Seq<usize>>,
    buckets: Map<u64, usize>,
)
    requires
        hash_linked(before, chains, buckets),
        same_but_lru(before, after),
    ensures
        hash_linked(after, chains, buckets),
{
    assert forall|h: u64| #[trigger] chains.contains_key(h) implies chain_linked(after, h, chains[h]) by {
        assert forall|k: int| 0 <= k < chains[h].len() implies #[trigger] chain_linked_at(after, h, chains[h], k) by {
            assert(chain_linked_at(before, h, chains[h], k));
        }
    }
}

proof fn lemma_lru_linked_frame(
    before: Seq<Option<Node>>,
    after: Seq<Option<Node>>,
    order: Seq<usize>,
    head: Option<usize>,
    tail: Option<usize>,
)
    requires
        lru_linked(before, order, head, tail),
        same_but_hash(before, after),
    ensures
        lru_linked(after, order, head, tail),
{
    assert forall|k: int| 0 <= k < order.len() implies #[trigger] lru_linked_at(after, order, k) by {
        assert(lru_linked_at(before, order, k));
    }
}

fn set_lru_prev(nodes: &mut Vec<Option<Node>>, index: usize, value: Option<usize>)
    requires
        resident(old(nodes)@, index as int),
    ensures
        final(nodes)@ == old(nodes)@.update(
            index as int,
            Some(Node { lru_prev: value, ..old(nodes)@[index as int]->0 }),
        ),
{
    if let Some(node) = nodes[index].as_mut() {
        node.lru_prev = value;
    }
}

fn set_lru_next(nodes: &mut Vec<Option<Node>>, index: usize, value: Option<usize>)
    requires
        resident(old(nodes)@, index as int),
    ensures
        final(nodes)@ == old(nodes)@.update(
            index as int,
            Some(Node { lru_next: value, ..old(nodes)@[index as int]->0 }),
        ),
{
    if let Some(node) = nodes[index].as_mut() {
        node.lru_next = value;
    }
}

fn set_hash_next(nodes: &mut Vec<Option<Node>>, index: usize, value: Option<usize>)
    requires
        resident(old(nodes)@, index as int),
    ensures
        final(nodes)@ == old(nodes)@.update(
            index as int,
            Some(Node { hash_next: value, ..old(nodes)@[index as int]->0 }),
        ),
{
    if let Some(node) = nodes[index].as_mut() {
        node.hash_next = value;
    }
}

fn node_ref(nodes: &Vec<Option<Node>>, index: usize) -> (node: &Node)
    requires
        resident(nodes@, index as int),
    ensures
        *node == nodes@[index as int]->0,
{
    nodes[index].as_ref().unwrap()
}

/// The recency list of an arena: head, tail and the order they spell.
struct LruList {
    head: Option<usize>,
    tail: Option<usize>,
    order: Ghost<Seq<usize>>,
}

impl LruList {
    spec fn linked(&self, nodes: Seq<Option<Node>>) -> bool {
        lru_linked(nodes, self.order@, self.head, self.tail)
    }

    fn empty() -> (list: LruList)
        ensures
            list.order@ == Seq::<usize>::empty(),
            forall|nodes: Seq<Option<Node>>| list.linked(nodes),
    {
        LruList { head: None, tail: None, order: Ghost(Seq::empty()) }
    }

    /// Takes a slot out of the list. The slot's own links are left stale.
    fn detach(&mut self, nodes: &mut Vec<Option<Node>>, index: usize)
        requires
            old(self).linked(old(nodes)@),
            old(self).order@.contains(index),
        ensures
            final(self).linked(final(nodes)@),
            final(self).order@ == old(self).order@.remove(old(self).order@.index_of(index)),
            same_but_lru(old(nodes)@, final(nodes)@),
    {
        let ghost order = self.order@;
        let ghost p = order.index_of(index);
        let ghost start = nodes@;
        assert(lru_linked_at(start, order, p));
        proof {
            if p > 0 {
                assert(lru_linked_at(start, order, p - 1));
            }
            if p + 1 < order.len() {
                assert(lru_linked_at(start, order, p + 1));
            }
        }
        let node = node_ref(nodes, index);
        let previous = node.lru_prev;
        let next = node.lru_next;
        match previous {
            Some(slot) => set_lru_next(nodes, slot, next),
            None => {
                self.head = next;
            },
        }
        match next {
            Some(slot) => set_lru_prev(nodes, slot, previous),
            None => {
                self.tail = previous;
            },
        }
        self.order = Ghost(order.remove(p));
        proof {
            let after = order.remove(p);
            assert forall|k: int| 0 <= k < after.len() implies #[trigger] lru_linked_at(nodes@, after, k) by {
                if k < p {
                    assert(lru_linked_at(start, order, k));
                } else {
                    assert(lru_linked_at(start, order, k + 1));
                }
            }
        }
    }

    /// Puts a resident slot in front of the list.
    fn attach_head(&mut self, nodes: &mut Vec<Option<Node>>, index: usize)
        requires
            old(self).linked(old(nodes)@),
            resident(old(nodes)@, index as int),
            !old(self).order@.contains(index),
        ensures
            final(self).linked(final(nodes)@),
            final(self).order@ == seq![index] + old(self).order@,
            same_but_lru(old(nodes)@, final(nodes)@),
    {
        let ghost order = self.order@;
        let ghost start = nodes@;
        proof {
            if order.len() > 0 {
                assert(lru_linked_at(start, order, 0));
            }
        }
        let old_head = self.head;
        set_lru_prev(nodes, index, None);
        set_lru_next(nodes, index, old_head);
        match old_head {
            Some(slot) => set_lru_prev(nodes, slot, Some(index)),
            None => {
                self.tail = Some(index);
            },
        }
        self.head = Some(index);
        self.order = Ghost(seq![index] + order);
        proof {
            let after = seq![index] + order;
            assert forall|k: int| 0 <= k < after.len() implies #[trigger] lru_linked_at(nodes@, after, k) by {
                if k > 0 {
                    assert(lru_linked_at(start, order, k - 1));
                    assert(after[k] == order[k - 1]);
                    if k + 1 < after.len() {
                        assert(after[k + 1] == order[k]);
                    }
                    if k > 1 {
                        assert(after[k - 1] == order[k - 2]);
                    }
                }
            }
        }
    }
}

/// The hash buckets of an arena: chain heads and the chains they spell.
struct HashChains {
    buckets: HashMap<u64, usize>,
    chains: Ghost<Map<u64, Seq<usize>>>,
}

impl HashChains {
    spec fn linked(&self, nodes: Seq<Option<Node>>) -> bool {
        hash_linked(nodes, self.chains@, self.buckets@)
    }

    /// The slots that hang under `hash`.
    spec fn chain(&self, hash: u64) -> Seq<usize> {
        if self.chains@.contains_key(hash) {
            self.chains@[hash]
        } else {
            Seq::empty()
        }
    }

    fn empty() -> (chains: HashChains)
        ensures
            forall|nodes: Seq<Option<Node>>| chains.linked(nodes),
            forall|h: u64| chains.chain(h) == Seq::<usize>::empty(),
    {
        HashChains { buckets: HashMap::new(), chains: Ghost(Map::empty()) }
    }

    /// Finds the slot of a key in the chain of its hash.
    fn find(&self, nodes: &Vec<Option<Node>>, hash: u64, namespace: u32, key: &[u8]) -> (found: Option<usize>)
        requires
            self.linked(nodes@),
        ensures
            match found {
                Some(index) => {
                    &&& resident(nodes@, index as int)
                    &&& self.chain(hash).contains(index)
                    &&& nodes@[index as int]->0.entry@.is_for(namespace, key@)
                },
                None => forall|k: int|
                    0 <= k < self.chain(hash).len() ==> !nodes@[#[trigger] self.chain(hash)[k] as int]->0.entry@.is_for(
                        namespace,
                        key@,
                    ),
            },
    {
        let ghost chain = self.chain(hash);
        let mut cursor: Option<usize> = match self.buckets.get(&hash) {
            Some(head) => Some(*head),
            None => None,
        };
        let ghost mut k: int = 0;
        loop
            invariant
                self.linked(nodes@),
                chain == self.chain(hash),
                0 <= k <= chain.len(),
                cursor == slot_at(chain, k),
                forall|j: int|
                    0 <= j < k ==> !nodes@[#[trigger] chain[j] as int]->0.entry@.is_for(namespace, key@),
            decreases chain.len() - k,
        {
            match cursor {
                None => {
                    return None;
                },
                Some(index) => {
                    assert(chain_linked_at(nodes@, hash, chain, k));
                    let node = node_ref(nodes, index);
                    if node.entry.namespace == namespace && bytes_equal(node.entry.key.as_slice(), key) {
                        assert(chain.contains(chain[k]));
                        return Some(index);
                    }
                    cursor = node.hash_next;
                    proof {
                        k = k + 1;
                    }
                },
            }
        }
    }

    /// Puts a resident slot in front of the chain of its hash.
    fn attach(&mut self, nodes: &mut Vec<Option<Node>>, hash: u64, index: usize)
        requires
            old(self).linked(old(nodes)@),
            resident(old(nodes)@, index as int),
            old(nodes)@[index as int]->0.hash == hash,
            forall|h: u64| !(#[trigger] old(self).chain(h)).contains(index),
        ensures
            final(self).linked(final(nodes)@),
            final(self).chain(hash) == seq![index] + old(self).chain(hash),
            forall|h: u64| h != hash ==> #[trigger] final(self).chain(h) == old(self).chain(h),
            same_but_hash(old(nodes)@, final(nodes)@),
    {
        let ghost start = nodes@;
        let ghost chain = self.chain(hash);
        let ghost chains = self.chains@;
        let old_head = self.buckets.insert(hash, index);
        set_hash_next(nodes, index, old_head);
        self.chains = Ghost(chains.insert(hash, seq![index] + chain));
        proof {
            let after = seq![index] + chain;
            assert(!chain.contains(index));
            assert forall|h: u64| #[trigger] self.chains@.contains_key(h) implies chain_linked(
                nodes@,
                h,
                self.chains@[h],
            ) && self.buckets@[h] == self.chains@[h][0] by {
                if h == hash {
                    assert forall|k: int| 0 <= k < after.len() implies #[trigger] chain_linked_at(nodes@, h, after, k) by {
                        if k > 0 {
                            assert(chain_linked_at(start, h, chain, k - 1));
                            assert(after[k] == chain[k - 1]);
                            assert(chain.contains(chain[k - 1]));
                        }
                        if k + 1 < after.len() {
                            assert(after[k + 1] == chain[k]);
                        }
                    }
                } else {
                    assert(chains.contains_key(h));
                    let other = chains[h];
                    assert(old(self).chain(h) == other);
                    assert forall|k: int| 0 <= k < other.len() implies #[trigger] chain_linked_at(nodes@, h, other, k) by {
                        assert(chain_linked_at(start, h, other, k));
                        assert(other.contains(other[k]));
                    }
                }
            }
            assert(self.buckets@.dom() =~= self.chains@.dom());
        }
    }

    /// Takes a slot out of the chain of its hash. The slot's own link is left
    /// stale.
    fn detach(&mut self, nodes: &mut Vec<Option<Node>>, index: usize)
        requires
            old(self).linked(old(nodes)@),
            resident(old(nodes)@, index as int),
            old(self).chain(old(nodes)@[index as int]->0.hash).contains(index),
        ensures
            final(self).linked(final(nodes)@),
            ({
                let hash = old(nodes)@[index as int]->0.hash;
                let chain = old(self).chain(hash);
                &&& final(self).chain(hash) == chain.remove(chain.index_of(index))
                &&& forall|h: u64| h != hash ==> #[trigger] final(self).chain(h) == old(self).chain(h)
            }),
            same_but_hash(old(nodes)@, final(nodes)@),
    {
        let ghost start = nodes@;
        let node = node_ref(nodes, index);
        let hash = node.hash;
        let hash_next = node.hash_next;
        let ghost chains = self.chains@;
        let ghost chain = self.chain(hash);
        let ghost p = chain.index_of(index);
        let ghost after = chain.remove(p);
        assert(chains.contains_key(hash));
        assert(chain_linked_at(start, hash, chain, p));
        assert(chain_linked_at(start, hash, chain, 0));
        let head: usize = *self.buckets.get(&hash).unwrap();
        if head == index {
            assert(p == 0);
            match hash_next {
                Some(next) => {
                    let _replaced = self.buckets.insert(hash, next);
                    self.chains = Ghost(chains.insert(hash, after));
                },
                None => {
                    let _removed = self.buckets.remove(&hash);
                    self.chains = Ghost(chains.remove(hash));
                    assert(after =~= Seq::<usize>::empty());
                },
            }
        } else {
            let mut cursor: usize = head;
            let ghost mut k: int = 0;
            loop
                invariant
                    0 <= k < p < chain.len(),
                    cursor == chain[k],
                    nodes@ == start,
                    chain[p] == index,
                    chain.no_duplicates(),
                    forall|j: int| 0 <= j < chain.len() ==> #[trigger] chain_linked_at(start, hash, chain, j),
                ensures
                    k + 1 == p,
                    cursor == chain[k],
                    nodes@ == start,
                decreases p - k,
            {
                assert(chain_linked_at(start, hash, chain, k));
                assert(chain_linked_at(start, hash, chain, k + 1));
                let next: usize = node_ref(nodes, cursor).hash_next.unwrap();
                if next == index {
                    break;
                }
                cursor = next;
                proof {
                    k = k + 1;
                }
            }
            assert(chain_linked_at(start, hash, chain, p - 1));
            set_hash_next(nodes, cursor, hash_next);
            self.chains = Ghost(chains.insert(hash, after));
        }
        proof {
            assert forall|h: u64| #[trigger] self.chains@.contains_key(h) implies chain_linked(
                nodes@,
                h,
                self.chains@[h],
            ) && self.buckets@[h] == self.chains@[h][0] by {
                if h == hash {
                    assert forall|k: int| 0 <= k < after.len() implies #[trigger] chain_linked_at(nodes@, h, after, k) by {
                        if k < p {
                            assert(chain_linked_at(start, h, chain, k));
                        } else {
                            assert(chain_linked_at(start, h, chain, k + 1));
                        }
                    }
                    if p > 0 {
                        assert(chain_linked_at(start, hash, chain, p - 1));
                    }
                } else {
                    let other = chains[h];
                    assert(chains.contains_key(h));
                    assert forall|k: int| 0 <= k < other.len() implies #[trigger] chain_linked_at(nodes@, h, other, k) by {
                        assert(chain_linked_at(start, h, other, k));
                        if p > 0 {
                            assert(chain_linked_at(start, hash, chain, p - 1));
                        }
                    }
                }
            }
            assert(self.buckets@.dom() =~= self.chains@.dom());
        }
    }
}

// ---------------------------------------------------------------------------
// Model of a shard
// ---------------------------------------------------------------------------

/// One resident entry with its identity token and its charge.
#[verifier::ext_equal]
pub struct ItemModel {
    pub entry: EntryModel,
    pub revision: u64,
    pub charged_bytes: usize,
}

impl ItemModel {
    /// The bytes that leave the shard's charge when the item is removed.
    pub open spec fn payload(self) -> int {
        self.charged_bytes - MEMORY_ENTRY_OVERHEAD_BYTES
    }
}

/// Sum of `weight` over the items.
pub open spec fn total(items: Seq<ItemModel>, weight: spec_fn(ItemModel) -> int) -> int
    decreases items.len(),
{
    if items.len() == 0 {
        0
    } else {
        total(items.drop_last(), weight) + weight(items.last())
    }
}

pub open spec fn by_payload() -> spec_fn(ItemModel) -> int {
    |item: ItemModel| item.payload()
}

pub open spec fn by_charge() -> spec_fn(ItemModel) -> int {
    |item: ItemModel| item.charged_bytes as int
}

pub open spec fn by_dirty() -> spec_fn(ItemModel) -> int {
    |item: ItemModel| if item.entry.disk_clean { 0int } else { 1int }
}

pub open spec fn by_dirty_charge() -> spec_fn(ItemModel) -> int {
    |item: ItemModel| if item.entry.disk_clean { 0int } else { item.charged_bytes as int }
}

pub open spec fn by_live(now: u64) -> spec_fn(ItemModel) -> int {
    |item: ItemModel| if item.entry.expired_at(now) { 0int } else { 1int }
}

pub open spec fn by_live_charge(now: u64) -> spec_fn(ItemModel) -> int {
    |item: ItemModel| if item.entry.expired_at(now) { 0int } else { item.charged_bytes as int }
}

/// Bytes of key and value storage held by the items.
pub open spec fn payload_sum(items: Seq<ItemModel>) -> int {
    total(items, by_payload())
}

proof fn lemma_total_append(first: Seq<ItemModel>, second: Seq<ItemModel>, weight: spec_fn(ItemModel) -> int)
    ensures
        total(first + second, weight) == total(first, weight) + total(second, weight),
    decreases second.len(),
{
    if second.len() == 0 {
        assert(first + second =~= first);
    } else {
        assert((first + second).drop_last() =~= first + second.drop_last());
        lemma_total_append(first, second.drop_last(), weight);
    }
}

proof fn lemma_total_one(item: ItemModel, weight: spec_fn(ItemModel) -> int)
    ensures
        total(seq![item], weight) == weight(item),
{
    assert(seq![item].drop_last() =~= Seq::<ItemModel>::empty());
    assert(total(seq![item].drop_last(), weight) == 0);
}

proof fn lemma_total_remove(items: Seq<ItemModel>, position: int, weight: spec_fn(ItemModel) -> int)
    requires
        0 <= position < items.len(),
    ensures
        total(items.remove(position), weight) == total(items, weight) - weight(items[position]),
{
    let front = items.take(position);
    let back = items.skip(position + 1);
    assert(items =~= (front + seq![items[position]]) + back);
    assert(items.remove(position) =~= front + back);
    lemma_total_append(front + seq![items[position]], back, weight);
    lemma_total_append(front, seq![items[position]], weight);
    lemma_total_one(items[position], weight);
    lemma_total_append(front, back, weight);
}

proof fn lemma_total_update(items: Seq<ItemModel>, position: int, item: ItemModel, weight: spec_fn(ItemModel) -> int)
    requires
        0 <= position < items.len(),
    ensures
        total(items.update(position, item), weight) == total(items, weight) - weight(items[position]) + weight(item),
{
    lemma_total_remove(items, position, weight);
    lemma_total_remove(items.update(position, item), position, weight);
    assert(items.update(position, item).remove(position) =~= items.remove(position));
}

proof fn lemma_total_front(item: ItemModel, items: Seq<ItemModel>, weight: spec_fn(ItemModel) -> int)
    ensures
        total(seq![item] + items, weight) == weight(item) + total(items, weight),
{
    lemma_total_append(seq![item], items, weight);
    lemma_total_one(item, weight);
}

proof fn lemma_total_order(items: Seq<ItemModel>, low: spec_fn(ItemModel) -> int, high: spec_fn(ItemModel) -> int)
    requires
        forall|k: int| 0 <= k < items.len() ==> low(#[trigger] items[k]) <= high(items[k]),
    ensures
        total(items, low) <= total(items, high),
    decreases items.len(),
{
    if items.len() > 0 {
        let shorter = items.drop_last();
        assert forall|k: int| 0 <= k < shorter.len() implies low(#[trigger] shorter[k]) <= high(shorter[k]) by {
            assert(shorter[k] == items[k]);
        }
        lemma_total_order(shorter, low, high);
        assert(low(items[items.len() - 1]) <= high(items[items.len() - 1]));
    }
}

proof fn lemma_total_nonnegative(items: Seq<ItemModel>, weight: spec_fn(ItemModel) -> int)
    requires
        forall|k: int| 0 <= k < items.len() ==> 0 <= weight(#[trigger] items[k]),
    ensures
        0 <= total(items, weight),
    decreases items.len(),
{
    if items.len() > 0 {
        let shorter = items.drop_last();
        assert forall|k: int| 0 <= k < shorter.len() implies 0 <= weight(#[trigger] shorter[k]) by {
            assert(shorter[k] == items[k]);
        }
        lemma_total_nonnegative(shorter, weight);
        assert(0 <= weight(items[items.len() - 1]));
    }
}

proof fn lemma_charge_is_payload_and_overhead(items: Seq<ItemModel>)
    ensures
        total(items, by_charge()) == payload_sum(items) + items.len() * MEMORY_ENTRY_OVERHEAD_BYTES,
    decreases items.len(),
{
    if items.len() > 0 {
        lemma_charge_is_payload_and_overhead(items.drop_last());
    }
}

/// Counters of one shard, or of the whole engine.
#[derive(Clone, Copy, Debug, PartialEq, Eq, Structural)]
pub struct MemoryStats {
    pub capacity_bytes: usize,
    pub charged_bytes: usize,
    pub entries: usize,
    pub dirty_entries: usize,
    pub dirty_bytes: usize,
    pub hits: u64,
    pub misses: u64,
    pub puts: u64,
    pub rejected: u64,
    pub remove_requests: u64,
    pub removed: u64,
    pub evictions: u64,
    pub expirations: u64,
    pub clears: u64,
}

impl Default for MemoryStats {
    fn default() -> (stats: MemoryStats)
        ensures
            stats == MemoryStats::zero(),
    {
        MemoryStats {
            capacity_bytes: 0,
            charged_bytes: 0,
            entries: 0,
            dirty_entries: 0,
            dirty_bytes: 0,
            hits: 0,
            misses: 0,
            puts: 0,
            rejected: 0,
            remove_requests: 0,
            removed: 0,
            evictions: 0,
            expirations: 0,
            clears: 0,
        }
    }
}

impl MemoryStats {
    /// All counters at zero.
    pub open spec fn zero() -> MemoryStats {
        MemoryStats {
            capacity_bytes: 0,
            charged_bytes: 0,
            entries: 0,
            dirty_entries: 0,
            dirty_bytes: 0,
            hits: 0,
            misses: 0,
            puts: 0,
            rejected: 0,
            remove_requests: 0,
            removed: 0,
            evictions: 0,
            expirations: 0,
            clears: 0,
        }
    }
}

/// `count` events more on a counter that sticks at its maximum.
pub open spec fn counted(counter: u64, count: int) -> u64 {
    if counter + count > u64::MAX {
        u64::MAX
    } else {
        (counter + count) as u64
    }
}

/// No two items answer to the same key.
#[verifier::opaque]
pub open spec fn distinct_keys(items: Seq<ItemModel>) -> bool {
    forall|j: int, k: int|
        0 <= j < items.len() && 0 <= k < items.len() && j != k ==> !(#[trigger] items[j]).entry.is_for(
            (#[trigger] items[k]).entry.namespace,
            items[k].entry.key,
        )
}

proof fn lemma_distinct_keys_remove(items: Seq<ItemModel>, position: int)
    requires
        distinct_keys(items),
        0 <= position < items.len(),
    ensures
        distinct_keys(items.remove(position)),
{
    reveal(distinct_keys);
    let shorter = items.remove(position);
    assert forall|j: int, k: int|
        0 <= j < shorter.len() && 0 <= k < shorter.len() && j != k implies !(#[trigger] shorter[j]).entry.is_for(
        (#[trigger] shorter[k]).entry.namespace,
        shorter[k].entry.key,
    ) by {
        assert(shorter[j] == items[if j < position { j } else { j + 1 }]);
        assert(shorter[k] == items[if k < position { k } else { k + 1 }]);
    }
}

proof fn lemma_distinct_keys_front(item: ItemModel, items: Seq<ItemModel>)
    requires
        distinct_keys(items),
        forall|k: int| 0 <= k < items.len() ==> !(#[trigger] items[k]).entry.is_for(item.entry.namespace, item.entry.key),
    ensures
        distinct_keys(seq![item] + items),
{
    reveal(distinct_keys);
    let longer = seq![item] + items;
    assert forall|j: int, k: int|
        0 <= j < longer.len() && 0 <= k < longer.len() && j != k implies !(#[trigger] longer[j]).entry.is_for(
        (#[trigger] longer[k]).entry.namespace,
        longer[k].entry.key,
    ) by {
        if j > 0 {
            assert(longer[j] == items[j - 1]);
        }
        if k > 0 {
            assert(longer[k] == items[k - 1]);
        }
    }
}

/// What a shard holds: its items from the most to the least recently used.
#[verifier::ext_equal]
pub struct ShardModel {
    pub capacity_bytes: usize,
    pub retained_slots: usize,
    pub items: Seq<ItemModel>,
    pub next_revision: u64,
    pub stats: MemoryStats,
}

impl ShardModel {
    /// Logical charge: retained slot metadata plus resident payload.
    pub open spec fn charged_bytes(self) -> int {
        self.retained_slots * MEMORY_ENTRY_OVERHEAD_BYTES + payload_sum(self.items)
    }

    /// The charge stays within the capacity, every item has a slot and its
    /// overhead in its charge, no key occurs twice, and revisions were handed
    /// out by this shard.
    pub open spec fn valid(self) -> bool {
        &&& self.charged_bytes() <= self.capacity_bytes
        &&& self.items.len() <= self.retained_slots
        &&& forall|k: int| 0 <= k < self.items.len() ==> {
            &&& (#[trigger] self.items[k]).charged_bytes >= MEMORY_ENTRY_OVERHEAD_BYTES
            &&& self.items[k].revision < self.next_revision
        }
        &&& distinct_keys(self.items)
    }

    /// An empty shard retains no slots.
    pub open spec fn settled(self) -> bool {
        self.items.len() == 0 ==> self.retained_slots == 0
    }

    /// `position` is where the key's item stands in the recency order.
    pub open spec fn holds_at(self, namespace: u32, key: Seq<u8>, position: int) -> bool {
        0 <= position < self.items.len() && self.items[position].entry.is_for(namespace, key)
    }

    /// Where the key's item stands in the recency order.
    pub open spec fn find(self, namespace: u32, key: Seq<u8>) -> Option<int> {
        if exists|k: int| self.holds_at(namespace, key, k) {
            Some(choose|k: int| self.holds_at(namespace, key, k))
        } else {
            None
        }
    }

    /// The items but for the one under this key.
    pub open spec fn without(self, namespace: u32, key: Seq<u8>) -> Seq<ItemModel> {
        match self.find(namespace, key) {
            Some(k) => self.items.remove(k),
            None => self.items,
        }
    }

    /// The shard with the item at `position` made the most recent.
    pub open spec fn touched(self, position: int) -> ShardModel {
        ShardModel { items: seq![self.items[position]] + self.items.remove(position), ..self }
    }

    /// The shard with the item at `position` taken out; an empty shard gives
    /// its slots back.
    pub open spec fn removed(self, position: int) -> ShardModel {
        let items = self.items.remove(position);
        ShardModel { items, retained_slots: if items.len() == 0 { 0 } else { self.retained_slots }, ..self }
    }
}

/// A key stands at one place only, so that place is where it is found.
proof fn lemma_find_at(shard: ShardModel, namespace: u32, key: Seq<u8>, position: int)
    requires
        shard.valid(),
        shard.holds_at(namespace, key, position),
    ensures
        shard.find(namespace, key) == Some(position),
{
    reveal(distinct_keys);
    let found = choose|k: int| shard.holds_at(namespace, key, k);
    assert(shard.holds_at(namespace, key, found));
    if found != position {
        assert(!shard.items[found].entry.is_for(shard.items[position].entry.namespace, shard.items[position].entry.key));
    }
}

// ---------------------------------------------------------------------------
// Shard
// ---------------------------------------------------------------------------

/// Hash of a key: FNV-1a over the little-endian namespace and the key bytes.
pub open spec fn key_hash(namespace: u32, key: Seq<u8>) -> u64 {
    fnv1a(FNV_OFFSET_BASIS, le_bytes_u32(namespace) + key)
}

/// Hashes a namespaced key.
pub fn hash_key(namespace: u32, key: &[u8]) -> (hash: u64)
    ensures
        hash == key_hash(namespace, key@),
{
    let prefix = u32_le_bytes(namespace);
    proof {
        lemma_fnv1a_concat(FNV_OFFSET_BASIS, le_bytes_u32(namespace), key@);
    }
    fnv1a_update(fnv1a_update(FNV_OFFSET_BASIS, &prefix), key)
}

/// Whether an entry's lifetime is over at `now_unix_ms`.
pub fn is_expired(entry: &MemoryEntry, now_unix_ms: u64) -> (expired: bool)
    ensures
        expired == entry@.expired_at(now_unix_ms),
{
    match entry.expires_at_unix_ms {
        Some(expires_at) => expires_at <= now_unix_ms,
        None => false,
    }
}

spec fn item_of(node: Node) -> ItemModel {
    ItemModel { entry: node.entry@, revision: node.revision, charged_bytes: node.charged_bytes }
}

spec fn items_of(nodes: Seq<Option<Node>>, order: Seq<usize>) -> Seq<ItemModel> {
    Seq::new(order.len(), |k: int| item_of(nodes[order[k] as int]->0))
}

/// The free list names exactly the vacant slots, each once.
spec fn free_listed(nodes: Seq<Option<Node>>, free: Seq<usize>) -> bool {
    &&& free.no_duplicates()
    &&& forall|k: int| 0 <= k < free.len() ==> (#[trigger] free[k]) < nodes.len() && nodes[free[k] as int] is None
    &&& forall|i: int| 0 <= i < nodes.len() && (#[trigger] nodes[i]) is None ==> free.contains(i as usize)
}

/// Every resident node is in the recency order and in its hash chain.
spec fn reachable(nodes: Seq<Option<Node>>, lru: LruList, chains: HashChains) -> bool {
    forall|i: int| #[trigger]
        resident(nodes, i) ==> {
            let node = nodes[i]->0;
            &&& lru.order@.contains(i as usize)
            &&& node.hash == key_hash(node.entry.namespace, node.entry.key@)
            &&& chains.chain(node.hash).contains(i as usize)
        }
}

/// The arena, the lists and the buckets describe the same set of nodes.
#[verifier::opaque]
spec fn arena_linked(
    nodes: Seq<Option<Node>>,
    free: Seq<usize>,
    lru: LruList,
    chains: HashChains,
    retained_slots: usize,
) -> bool {
    &&& lru.linked(nodes)
    &&& chains.linked(nodes)
    &&& reachable(nodes, lru, chains)
    &&& free_listed(nodes, free)
    &&& lru.order@.len() + free.len() == nodes.len()
    &&& nodes.len() <= retained_slots
}

/// One shard: an arena of nodes under a byte budget, reachable by key through
/// hash chains and ordered by recency.
pub struct Shard {
    capacity_bytes: usize,
    retained_slots: usize,
    /// Retained-slot metadata plus resident key/value capacities.
    charged_bytes: usize,
    dirty_entries: usize,
    dirty_bytes: usize,
    chains: HashChains,
    nodes: Vec<Option<Node>>,
    free: Vec<usize>,
    lru: LruList,
    next_revision: u64,
    stats: MemoryStats,
}

impl View for Shard {
    type V = ShardModel;

    closed spec fn view(&self) -> ShardModel {
        ShardModel {
            capacity_bytes: self.capacity_bytes,
            retained_slots: self.retained_slots,
            items: items_of(self.nodes@, self.lru.order@),
            next_revision: self.next_revision,
            stats: self.stats,
        }
    }
}

impl Shard {
    spec fn linked(&self) -> bool {
        arena_linked(self.nodes@, self.free@, self.lru, self.chains, self.retained_slots)
    }

    /// The stored counters are the sums they stand for.
    spec fn accounted(&self) -> bool {
        &&& self.charged_bytes == self@.charged_bytes()
        &&& self.dirty_entries == total(self@.items, by_dirty())
        &&& self.dirty_bytes == total(self@.items, by_dirty_charge())
    }

    /// The shard's invariant.
    pub closed spec fn wf(&self) -> bool {
        &&& self.linked()
        &&& self.accounted()
        &&& self@.valid()
    }

    /// The shard's invariant implies what it promises of its contents.
    pub proof fn lemma_valid(&self)
        requires
            self.wf(),
        ensures
            self@.valid(),
    {
    }

    /// An empty shard of the given capacity.
    pub fn new(capacity_bytes: usize) -> (shard: Shard)
        ensures
            shard.wf(),
            shard@ == (ShardModel {
                capacity_bytes,
                retained_slots: 0,
                items: Seq::empty(),
                next_revision: 1,
                stats: MemoryStats::zero(),
            }),
    {
        proof {
            reveal(arena_linked);
        }
        let shard = Shard {
            capacity_bytes,
            retained_slots: 0,
            charged_bytes: 0,
            dirty_entries: 0,
            dirty_bytes: 0,
            chains: HashChains::empty(),
            nodes: Vec::new(),
            free: Vec::new(),
            lru: LruList::empty(),
            next_revision: 1,
            stats: MemoryStats::default(),
        };
        proof {
            reveal(distinct_keys);
            assert(shard@.items =~= Seq::<ItemModel>::empty());
        }
        shard
    }

    /// A resident slot stands somewhere in the order; so does its item.
    proof fn lemma_position(&self, index: usize) -> (position: int)
        requires
            self.linked(),
            resident(self.nodes@, index as int),
        ensures
            0 <= position < self.lru.order@.len(),
            self.lru.order@[position] == index,
            position == self.lru.order@.index_of(index),
            self@.items[position] == item_of(self.nodes@[index as int]->0),
    {
        reveal(arena_linked);
        let position = self.lru.order@.index_of(index);
        assert(self.lru.order@.contains(index));
        position
    }

    /// Finds the arena slot of a key.
    fn find(&self, hash: u64, namespace: u32, key: &[u8]) -> (found: Option<usize>)
        requires
            self.wf(),
            hash == key_hash(namespace, key@),
        ensures
            match found {
                Some(index) => {
                    &&& resident(self.nodes@, index as int)
                    &&& self.nodes@[index as int]->0.entry@.is_for(namespace, key@)
                    &&& self@.find(namespace, key@) == Some(self.lru.order@.index_of(index))
                },
                None => self@.find(namespace, key@) is None,
            },
    {
        proof {
            reveal(arena_linked);
        }
        let found = self.chains.find(&self.nodes, hash, namespace, key);
        proof {
            match found {
                Some(index) => {
                    let position = self.lemma_position(index);
                    lemma_find_at(self@, namespace, key@, position);
                },
                None => {
                    assert forall|k: int| !self@.holds_at(namespace, key@, k) by {
                        if self@.holds_at(namespace, key@, k) {
                            let index = self.lru.order@[k];
                            assert(lru_linked_at(self.nodes@, self.lru.order@, k));
                            assert(resident(self.nodes@, index as int));
                            let chain = self.chains.chain(hash);
                            assert(chain.contains(index));
                            let j = chain.index_of(index);
                            assert(chain[j] == index);
                        }
                    }
                },
            }
        }
        found
    }

    /// How many entries are resident.
    pub fn resident_entries(&self) -> (count: usize)
        requires
            self.wf(),
        ensures
            count == self@.items.len(),
    {
        proof {
            reveal(arena_linked);
        }
        self.nodes.len() - self.free.len()
    }

    /// The retained slot count that one more entry asks for, within
    /// `max_slots_for_entry`; `None` if a resident entry has to make room.
    fn next_slot_target(&self, max_slots_for_entry: usize) -> (target: Option<usize>)
        requires
            self.wf(),
        ensures
            match target {
                Some(t) => self@.slot_target(max_slots_for_entry as int) == Some(t as int),
                None => self@.slot_target(max_slots_for_entry as int) is None,
            },
    {
        proof {
            reveal(arena_linked);
        }
        proof {
            self.lemma_charge_bounds();
        }
        if self.free.len() > 0 || self.nodes.len() < self.retained_slots {
            return Some(self.retained_slots);
        }
        let max_retained_slots = self.capacity_bytes / MEMORY_ENTRY_OVERHEAD_BYTES;
        let limit = if max_retained_slots < max_slots_for_entry { max_retained_slots } else { max_slots_for_entry };
        if self.retained_slots >= limit {
            return None;
        }
        let doubled = if self.retained_slots == 0 { 1 } else { self.retained_slots * 2 };
        Some(if doubled < limit { doubled } else { limit })
    }

    proof fn lemma_charge_bounds(&self)
        requires
            self.wf(),
        ensures
            self.retained_slots * MEMORY_ENTRY_OVERHEAD_BYTES <= self.charged_bytes <= self.capacity_bytes,
            0 <= payload_sum(self@.items),
            total(self@.items, by_charge()) <= self.charged_bytes,
            0 <= total(self@.items, by_dirty()) <= self@.items.len(),
            0 <= total(self@.items, by_dirty_charge()) <= self.charged_bytes,
    {
        let items = self@.items;
        lemma_item_bounds(items);
        lemma_charge_is_payload_and_overhead(items);
    }
}

/// Sums over items whose charge covers their overhead.
proof fn lemma_item_bounds(items: Seq<ItemModel>)
    requires
        forall|k: int| 0 <= k < items.len() ==> (#[trigger] items[k]).charged_bytes >= MEMORY_ENTRY_OVERHEAD_BYTES,
    ensures
        0 <= payload_sum(items),
        0 <= total(items, by_charge()),
        0 <= total(items, by_dirty()) <= items.len(),
        0 <= total(items, by_dirty_charge()) <= total(items, by_charge()),
    decreases items.len(),
{
    if items.len() > 0 {
        let shorter = items.drop_last();
        assert forall|k: int| 0 <= k < shorter.len() implies (#[trigger] shorter[k]).charged_bytes >= MEMORY_ENTRY_OVERHEAD_BYTES by {
            assert(shorter[k] == items[k]);
        }
        lemma_item_bounds(shorter);
        assert(items[items.len() - 1].charged_bytes >= MEMORY_ENTRY_OVERHEAD_BYTES);
    }
}

impl ShardModel {
    /// The retained slot count that one more entry asks for when it may not
    /// use more than `slot_limit` slots; `None` if no slot can be added.
    pub open spec fn slot_target(self, slot_limit: int) -> Option<int> {
        let max_retained = self.capacity_bytes as int / MEMORY_ENTRY_OVERHEAD_BYTES as int;
        let limit = if max_retained < slot_limit { max_retained } else { slot_limit };
        let doubled = if self.retained_slots == 0 { 1 } else { 2 * self.retained_slots as int };
        if self.items.len() < self.retained_slots {
            Some(self.retained_slots as int)
        } else if self.retained_slots >= limit {
            None
        } else {
            Some(if doubled < limit { doubled } else { limit })
        }
    }
}

/// Removing one slot from a duplicate-free list keeps exactly the others.
proof fn lemma_list_remove(list: Seq<usize>, position: int)
    requires
        list.no_duplicates(),
        0 <= position < list.len(),
    ensures
        !list.remove(position).contains(list[position]),
        forall|x: usize| x != list[position] ==> (#[trigger] list.remove(position).contains(x) <==> list.contains(x)),
{
    let shorter = list.remove(position);
    assert forall|x: usize| x != list[position] implies (#[trigger] shorter.contains(x) <==> list.contains(x)) by {
        if shorter.contains(x) {
            let k = shorter.index_of(x);
            assert(shorter[k] == x);
            assert(list[if k < position { k } else { k + 1 }] == x);
        }
        if list.contains(x) {
            let k = list.index_of(x);
            assert(shorter[if k < position { k } else { k - 1 }] == x);
        }
    }
}

/// A list with one slot put in front holds that slot and the others.
proof fn lemma_list_front(slot: usize, list: Seq<usize>)
    ensures
        forall|x: usize| #[trigger] (seq![slot] + list).contains(x) <==> x == slot || list.contains(x),
{
    let longer = seq![slot] + list;
    assert forall|x: usize| #[trigger] longer.contains(x) <==> x == slot || list.contains(x) by {
        assert(longer[0] == slot);
        if list.contains(x) {
            let k = list.index_of(x);
            assert(longer[k + 1] == x);
        }
        if longer.contains(x) && x != slot {
            let k = longer.index_of(x);
            assert(list[k - 1] == x);
        }
    }
}

impl Shard {
    /// Makes a resident slot the most recently used.
    fn touch(&mut self, index: usize)
        requires
            old(self).wf(),
            resident(old(self).nodes@, index as int),
        ensures
            final(self).wf(),
            final(self)@ == old(self)@.touched(old(self).lru.order@.index_of(index)),
    {
        proof {
            reveal(arena_linked);
        }
        let ghost start = self.nodes@;
        let ghost order = self.lru.order@;
        let ghost position = self.lemma_position(index);
        let ghost items = self@.items;
        proof {
            lemma_total_remove(items, position, by_payload());
            lemma_total_remove(items, position, by_dirty());
            lemma_total_remove(items, position, by_dirty_charge());
            lemma_total_front(items[position], items.remove(position), by_payload());
            lemma_total_front(items[position], items.remove(position), by_dirty());
            lemma_total_front(items[position], items.remove(position), by_dirty_charge());
            lemma_distinct_keys_remove(items, position);
            assert forall|k: int| 0 <= k < items.remove(position).len() implies !(#[trigger] items.remove(position)[k]).entry.is_for(
                items[position].entry.namespace,
                items[position].entry.key,
            ) by {
                reveal(distinct_keys);
                assert(items.remove(position)[k] == items[if k < position { k } else { k + 1 }]);
            }
            lemma_distinct_keys_front(items[position], items.remove(position));
        }
        if self.lru.head == Some(index) {
            assert(order[0] == index);
            assert(seq![items[0]] + items.remove(0) =~= items);
            return;
        }
        self.lru.detach(&mut self.nodes, index);
        proof {
            lemma_list_remove(order, position);
        }
        let ghost middle = self.nodes@;
        self.lru.attach_head(&mut self.nodes, index);
        proof {
            lemma_list_front(index, order.remove(position));
            assert(same_but_lru(start, self.nodes@));
            lemma_hash_linked_frame(start, self.nodes@, self.chains.chains@, self.chains.buckets@);
            assert forall|k: int| 0 <= k < order.len() implies resident(start, order[k] as int) by {
                assert(lru_linked_at(start, order, k));
            }
            assert(self@.items =~= seq![items[position]] + items.remove(position));
            assert forall|i: int| #[trigger] resident(self.nodes@, i) implies self.lru.order@.contains(i as usize)
                && self.chains.chain(self.nodes@[i]->0.hash).contains(i as usize) by {
                assert(resident(start, i));
            }
            assert forall|i: int| 0 <= i < self.nodes@.len() && (#[trigger] self.nodes@[i]) is None implies self.free@.contains(
                i as usize,
            ) by {
                assert(start[i] is None);
            }
        }
    }

    /// Takes a resident node out of the arena.
    fn remove_index(&mut self, index: usize) -> (node: Node)
        requires
            old(self).wf(),
            resident(old(self).nodes@, index as int),
        ensures
            final(self).wf(),
            final(self)@ == (ShardModel {
                items: old(self)@.items.remove(old(self).lru.order@.index_of(index)),
                ..old(self)@
            }),
            item_of(node) == old(self)@.items[old(self).lru.order@.index_of(index)],
            node.entry == old(self).nodes@[index as int]->0.entry,
            final(self).lru.order@ == old(self).lru.order@.remove(old(self).lru.order@.index_of(index)),
            forall|i: int| i != index && resident(old(self).nodes@, i) ==> #[trigger] resident(final(self).nodes@, i),
    {
        proof {
            reveal(arena_linked);
        }
        let ghost start = self.nodes@;
        let ghost order = self.lru.order@;
        let ghost free = self.free@;
        let ghost position = self.lemma_position(index);
        let ghost items = self@.items;
        let ghost hash = start[index as int]->0.hash;
        let ghost chain = self.chains.chain(hash);
        proof {
            self.lemma_charge_bounds();
            lemma_total_remove(items, position, by_payload());
            lemma_total_remove(items, position, by_dirty());
            lemma_total_remove(items, position, by_dirty_charge());
            lemma_list_remove(order, position);
            lemma_distinct_keys_remove(items, position);
            assert(chain.contains(index));
            lemma_list_remove(chain, chain.index_of(index));
            assert(self@.items[position].charged_bytes >= MEMORY_ENTRY_OVERHEAD_BYTES);
            lemma_item_bounds(items.remove(position));
        }
        self.chains.detach(&mut self.nodes, index);
        let ghost unhashed = self.nodes@;
        proof {
            lemma_lru_linked_frame(start, unhashed, order, self.lru.head, self.lru.tail);
        }
        self.lru.detach(&mut self.nodes, index);
        let ghost unlinked = self.nodes@;
        proof {
            lemma_hash_linked_frame(unhashed, unlinked, self.chains.chains@, self.chains.buckets@);
        }
        let node = self.nodes[index].take().unwrap();
        if !node.entry.disk_clean {
            self.dirty_entries = self.dirty_entries - 1;
            self.dirty_bytes = self.dirty_bytes - node.charged_bytes;
        }
        self.free.push(index);
        self.charged_bytes = self.charged_bytes - (node.charged_bytes - MEMORY_ENTRY_OVERHEAD_BYTES);
        proof {
            let after = self.lru.order@;
            let nodes = self.nodes@;
            assert(nodes == unlinked.update(index as int, None));
            assert forall|k: int| 0 <= k < after.len() implies #[trigger] lru_linked_at(nodes, after, k) by {
                assert(lru_linked_at(unlinked, after, k));
                assert(after.contains(after[k]));
            }
            assert forall|h: u64| #[trigger] self.chains.chains@.contains_key(h) implies chain_linked(
                nodes,
                h,
                self.chains.chains@[h],
            ) by {
                let links = self.chains.chains@[h];
                assert(self.chains.chain(h) == links);
                assert forall|k: int| 0 <= k < links.len() implies #[trigger] chain_linked_at(nodes, h, links, k) by {
                    assert(chain_linked_at(unlinked, h, links, k));
                    assert(links.contains(links[k]));
                    if links[k] == index {
                        assert(h == hash);
                    }
                }
            }
            assert forall|i: int| #[trigger] resident(nodes, i) implies self.lru.order@.contains(i as usize)
                && nodes[i]->0.hash == key_hash(nodes[i]->0.entry.namespace, nodes[i]->0.entry.key@)
                && self.chains.chain(nodes[i]->0.hash).contains(i as usize) by {
                assert(unlinked[i] is Some);
                assert(unhashed[i] is Some);
                assert(resident(start, i));
            }
            assert forall|i: int| i != index && resident(start, i) implies #[trigger] resident(nodes, i) by {
                assert(unhashed[i] is Some);
                assert(unlinked[i] is Some);
            }
            assert forall|k: int| 0 <= k < self.free@.len() implies (#[trigger] self.free@[k]) < nodes.len()
                && nodes[self.free@[k] as int] is None by {
                if k < free.len() {
                    let slot = free[k] as int;
                    assert(start[slot] is None);
                    assert(unhashed[slot] is None);
                    assert(unlinked[slot] is None);
                }
            }
            assert(self.free@.no_duplicates()) by {
                assert(!free.contains(index)) by {
                    if free.contains(index) {
                        let k = free.index_of(index);
                        assert(start[free[k] as int] is None);
                    }
                }
            }
            assert forall|i: int| 0 <= i < nodes.len() && (#[trigger] nodes[i]) is None implies self.free@.contains(i as usize) by {
                if i == index {
                    assert(self.free@[free.len() as int] == index);
                } else {
                    assert(unlinked[i] is None);
                    assert(unhashed[i] is None);
                    assert(start[i] is None);
                    let k = free.index_of(i as usize);
                    assert(self.free@[k] == i as usize);
                }
            }
            assert forall|k: int| 0 <= k < after.len() implies self@.items[k] == items.remove(position)[k] by {
                let j = if k < position { k } else { k + 1 };
                assert(lru_linked_at(start, order, j));
                let slot = order[j] as int;
                assert(after[k] == order[j]);
                assert(after.contains(after[k]));
                assert(unhashed[slot] is Some);
                assert(unlinked[slot] is Some);
            }
            assert(self@.items =~= items.remove(position));
            assert(self@.valid());
        }
        node
    }

    /// Puts a node into a vacant slot of the arena.
    fn insert_node(&mut self, node: Node)
        requires
            old(self).wf(),
            old(self)@.items.len() < old(self).retained_slots,
            node.hash == key_hash(node.entry.namespace, node.entry.key@),
            node.charged_bytes >= MEMORY_ENTRY_OVERHEAD_BYTES,
            node.revision < old(self).next_revision,
            old(self)@.find(node.entry.namespace, node.entry.key@) is None,
            old(self).charged_bytes + node.charged_bytes - MEMORY_ENTRY_OVERHEAD_BYTES <= old(self).capacity_bytes,
        ensures
            final(self).wf(),
            final(self)@ == (ShardModel { items: seq![item_of(node)] + old(self)@.items, ..old(self)@ }),
    {
        proof {
            reveal(arena_linked);
        }
        let ghost start = self.nodes@;
        let ghost order = self.lru.order@;
        let ghost free = self.free@;
        let ghost before = self@;
        let ghost item = item_of(node);
        let hash = node.hash;
        let charged_bytes = node.charged_bytes;
        proof {
            self.lemma_charge_bounds();
            lemma_total_front(item, before.items, by_payload());
            lemma_total_front(item, before.items, by_dirty());
            lemma_total_front(item, before.items, by_dirty_charge());
            let items = seq![item] + before.items;
            assert forall|k: int| 0 <= k < items.len() implies (#[trigger] items[k]).charged_bytes >= MEMORY_ENTRY_OVERHEAD_BYTES by {
                if k > 0 {
                    assert(items[k] == before.items[k - 1]);
                }
            }
            lemma_item_bounds(items);
            lemma_charge_is_payload_and_overhead(items);
            assert forall|k: int| 0 <= k < order.len() implies resident(start, #[trigger] order[k] as int) by {
                assert(lru_linked_at(start, order, k));
            }
        }
        if !node.entry.disk_clean {
            self.dirty_entries = self.dirty_entries + 1;
            self.dirty_bytes = self.dirty_bytes + node.charged_bytes;
        }
        let index: usize = match self.free.pop() {
            Some(slot) => {
                assert(free[free.len() - 1] == slot);
                self.nodes[slot] = Some(node);
                slot
            },
            None => {
                let slot: usize = self.nodes.len();
                self.nodes.push(Some(node));
                slot
            },
        };
        let ghost placed = self.nodes@;
        proof {
            assert(forall|i: int| 0 <= i < start.len() && i != index ==> placed[i] == start[i]);
            assert(!resident(start, index as int));
            assert forall|k: int| 0 <= k < order.len() implies #[trigger] lru_linked_at(placed, order, k) by {
                assert(lru_linked_at(start, order, k));
            }
            assert forall|h: u64| #[trigger] self.chains.chains@.contains_key(h) implies chain_linked(
                placed,
                h,
                self.chains.chains@[h],
            ) by {
                let links = self.chains.chains@[h];
                assert forall|k: int| 0 <= k < links.len() implies #[trigger] chain_linked_at(placed, h, links, k) by {
                    assert(chain_linked_at(start, h, links, k));
                }
            }
            assert forall|h: u64| !(#[trigger] self.chains.chain(h)).contains(index) by {
                let links = self.chains.chain(h);
                if links.contains(index) {
                    let k = links.index_of(index);
                    assert(chain_linked_at(start, h, links, k));
                }
            }
            if order.contains(index) {
                let k = order.index_of(index);
                assert(lru_linked_at(start, order, k));
            }
        }
        self.chains.attach(&mut self.nodes, hash, index);
        let ghost hashed = self.nodes@;
        proof {
            lemma_lru_linked_frame(placed, hashed, order, self.lru.head, self.lru.tail);
        }
        self.lru.attach_head(&mut self.nodes, index);
        proof {
            lemma_hash_linked_frame(hashed, self.nodes@, self.chains.chains@, self.chains.buckets@);
        }
        self.charged_bytes = self.charged_bytes + (charged_bytes - MEMORY_ENTRY_OVERHEAD_BYTES);
        proof {
            let nodes = self.nodes@;
            let after = self.lru.order@;
            let items = seq![item] + before.items;
            lemma_list_front(index, order);
            lemma_list_front(index, old(self).chains.chain(hash));
            assert forall|i: int| #[trigger] resident(nodes, i) implies after.contains(i as usize)
                && nodes[i]->0.hash == key_hash(nodes[i]->0.entry.namespace, nodes[i]->0.entry.key@)
                && self.chains.chain(nodes[i]->0.hash).contains(i as usize) by {
                assert(hashed[i] is Some);
                assert(placed[i] is Some);
                if i != index {
                    assert(resident(start, i));
                }
            }
            assert forall|k: int| 0 <= k < self.free@.len() implies (#[trigger] self.free@[k]) < nodes.len()
                && nodes[self.free@[k] as int] is None by {
                let slot = free[k] as int;
                assert(self.free@[k] == free[k]);
                assert(start[slot] is None);
                assert(placed[slot] is None);
                assert(hashed[slot] is None);
            }
            assert forall|i: int| 0 <= i < nodes.len() && (#[trigger] nodes[i]) is None implies self.free@.contains(i as usize) by {
                assert(hashed[i] is None);
                assert(placed[i] is None);
                assert(start[i] is None);
                let k = free.index_of(i as usize);
                assert(self.free@[k] == i as usize);
            }
            assert forall|k: int| 0 <= k < after.len() implies self@.items[k] == items[k] by {
                let slot = after[k] as int;
                if k > 0 {
                    assert(after[k] == order[k - 1]);
                    assert(resident(start, order[k - 1] as int));
                }
                assert(placed[slot] is Some);
                assert(hashed[slot] is Some);
            }
            assert(self@.items =~= items);
            assert forall|k: int| 0 <= k < before.items.len() implies !(#[trigger] before.items[k]).entry.is_for(
                item.entry.namespace,
                item.entry.key,
            ) by {
                assert(!before.holds_at(item.entry.namespace, item.entry.key, k));
            }
            lemma_distinct_keys_front(item, before.items);
            assert forall|k: int| 0 <= k < items.len() implies (#[trigger] items[k]).revision < self.next_revision by {
                if k > 0 {
                    assert(items[k] == before.items[k - 1]);
                }
            }
        }
    }

    /// Drops every entry and every retained slot.
    fn reset_storage(&mut self)
        requires
            old(self).wf(),
        ensures
            final(self).wf(),
            final(self)@ == (ShardModel { items: Seq::empty(), retained_slots: 0, ..old(self)@ }),
    {
        proof {
            reveal(arena_linked);
        }
        self.charged_bytes = 0;
        self.dirty_entries = 0;
        self.dirty_bytes = 0;
        self.retained_slots = 0;
        self.chains = HashChains::empty();
        self.nodes = Vec::new();
        self.free = Vec::new();
        self.lru = LruList::empty();
        proof {
            reveal(distinct_keys);
            assert(self@.items =~= Seq::<ItemModel>::empty());
        }
    }

    /// Gives the retained slots back once nothing is resident.
    fn reset_storage_if_empty(&mut self)
        requires
            old(self).wf(),
        ensures
            final(self).wf(),
            final(self)@ == (ShardModel {
                retained_slots: if old(self)@.items.len() == 0 { 0 } else { old(self)@.retained_slots },
                ..old(self)@
            }),
    {
        if self.resident_entries() == 0 {
            assert(self@.items =~= Seq::<ItemModel>::empty());
            self.reset_storage();
        }
    }
}

// ---------------------------------------------------------------------------
// Admission
// ---------------------------------------------------------------------------

/// Why an entry was not admitted.
#[derive(Clone, Copy, Debug, PartialEq, Eq, Structural)]
pub enum MemoryRejectReason {
    TooLarge,
    AlreadyExpired,
    AllocationFailed,
    RevisionExhausted,
    /// A put without demotion never removes a dirty value. The coordinator may
    /// retry with demotion or persist the incoming value directly to L2.
    DirtyVictimBlocked,
    DemotionFailed,
}

/// What became of an entry offered for admission.
#[derive(Debug, PartialEq, Eq)]
pub enum MemoryPutResult {
    Stored {
        revision: u64,
        /// Live entries evicted after the coordinator either persisted each
        /// dirty value or transferred it to a bounded background owner.
        evicted_entries: usize,
        evicted_bytes: usize,
    },
    NotStored { entry: MemoryEntry, reason: MemoryRejectReason },
}

/// The least number of items, taken from the old end of `rest`, whose payload
/// covers `needed` bytes and, if a slot is wanted too, is not empty. `None` if
/// all of them together do not.
pub open spec fn victim_count(rest: Seq<ItemModel>, needed: int, wants_slot: bool) -> Option<int>
    decreases rest.len(),
{
    if needed <= 0 && !wants_slot {
        Some(0)
    } else if rest.len() == 0 {
        None
    } else {
        match victim_count(rest.drop_last(), needed - rest.last().payload(), false) {
            Some(count) => Some(count + 1),
            None => None,
        }
    }
}

/// How room is made for one entry.
pub struct PutPlanModel {
    /// How many of the oldest other items leave.
    pub victims: int,
    /// Everything leaves and the arena is rebuilt with one slot.
    pub rebuild: bool,
    /// Retained slots afterwards.
    pub retained_slots: int,
}

impl ShardModel {
    /// Why the entry is turned away before any room is made, if it is.
    pub open spec fn refusal(self, entry: EntryModel, charged: Option<usize>, now: u64) -> Option<MemoryRejectReason> {
        if charged is None {
            Some(MemoryRejectReason::TooLarge)
        } else if entry.expired_at(now) {
            Some(MemoryRejectReason::AlreadyExpired)
        } else if charged->0 > self.capacity_bytes {
            Some(MemoryRejectReason::TooLarge)
        } else if self.next_revision == u64::MAX {
            Some(MemoryRejectReason::RevisionExhausted)
        } else {
            None
        }
    }

    /// How room is made for an entry of `charged` bytes under this key.
    pub open spec fn put_plan(self, namespace: u32, key: Seq<u8>, charged: usize) -> PutPlanModel {
        let payload = charged - MEMORY_ENTRY_OVERHEAD_BYTES;
        let rest = self.without(namespace, key);
        let target = if self.find(namespace, key) is Some {
            Some(self.retained_slots as int)
        } else {
            self.slot_target((self.capacity_bytes - payload) / MEMORY_ENTRY_OVERHEAD_BYTES as int)
        };
        let slots = match target {
            Some(count) => count,
            None => self.retained_slots as int,
        };
        let needed = slots * MEMORY_ENTRY_OVERHEAD_BYTES + payload_sum(rest) + payload - self.capacity_bytes;
        match victim_count(rest, needed, target is None) {
            Some(victims) => PutPlanModel { victims, rebuild: false, retained_slots: slots },
            None => PutPlanModel { victims: rest.len() as int, rebuild: true, retained_slots: 1 },
        }
    }

    /// Some item has this hash.
    pub open spec fn has_hash(self, hash: u64) -> bool {
        exists|k: int|
            0 <= k < self.items.len() && key_hash((#[trigger] self.items[k]).entry.namespace, self.items[k].entry.key) == hash
    }

    /// Admitting an entry asks the allocator for something: for a new arena,
    /// for more slots, or for the bucket of a hash that no item has.
    pub open spec fn needs_allocation(self, namespace: u32, key: Seq<u8>, charged: usize) -> bool {
        let plan = self.put_plan(namespace, key, charged);
        plan.rebuild || plan.retained_slots != self.retained_slots || !self.has_hash(key_hash(namespace, key))
    }

    /// The items that leave under a plan, oldest last.
    pub open spec fn victims(self, namespace: u32, key: Seq<u8>, plan: PutPlanModel) -> Seq<ItemModel> {
        let rest = self.without(namespace, key);
        rest.skip(rest.len() - plan.victims)
    }

    /// Whether the item at `position` leaves under a plan.
    pub open spec fn is_victim(self, namespace: u32, key: Seq<u8>, plan: PutPlanModel, position: int) -> bool {
        let rest_len = self.without(namespace, key).len();
        match self.find(namespace, key) {
            Some(replaced) => position != replaced && (if position > replaced { position - 1 } else { position })
                >= rest_len - plan.victims,
            None => position >= rest_len - plan.victims,
        }
    }

    /// Whether some item that leaves under a plan has not been persisted.
    pub open spec fn has_dirty_victim(self, namespace: u32, key: Seq<u8>, plan: PutPlanModel) -> bool {
        exists|k: int|
            0 <= k < self.items.len() && self.is_victim(namespace, key, plan, k) && !(#[trigger] self.items[k]).entry.disk_clean
    }

    /// One more admission attempt on the counters.
    pub open spec fn attempted(self) -> ShardModel {
        ShardModel { stats: MemoryStats { puts: counted(self.stats.puts, 1), ..self.stats }, ..self }
    }

    /// One more rejection on the counters.
    pub open spec fn rejected(self) -> ShardModel {
        ShardModel { stats: MemoryStats { rejected: counted(self.stats.rejected, 1), ..self.stats }, ..self }
    }

    /// The shard after the entry has been admitted.
    pub open spec fn admitted(self, entry: EntryModel, charged: usize, now: u64) -> ShardModel {
        let plan = self.put_plan(entry.namespace, entry.key, charged);
        let rest = self.without(entry.namespace, entry.key);
        let victims = self.victims(entry.namespace, entry.key, plan);
        let live = total(victims, by_live(now));
        let item = ItemModel { entry, revision: self.next_revision, charged_bytes: charged };
        ShardModel {
            capacity_bytes: self.capacity_bytes,
            retained_slots: plan.retained_slots as usize,
            items: seq![item] + rest.take(rest.len() - plan.victims),
            next_revision: (self.next_revision + 1) as u64,
            stats: MemoryStats {
                evictions: counted(self.stats.evictions, live),
                expirations: counted(self.stats.expirations, victims.len() - live),
                ..self.stats
            },
        }
    }

    /// What an admission reports: the new revision, and count and charge of the
    /// live items that left.
    pub open spec fn reports_admission(self, entry: EntryModel, charged: usize, now: u64, result: MemoryPutResult) -> bool {
        let plan = self.put_plan(entry.namespace, entry.key, charged);
        let victims = self.victims(entry.namespace, entry.key, plan);
        match result {
            MemoryPutResult::Stored { revision, evicted_entries, evicted_bytes } => {
                &&& revision == self.next_revision
                &&& evicted_entries == total(victims, by_live(now))
                &&& evicted_bytes == total(victims, by_live_charge(now))
            },
            MemoryPutResult::NotStored { .. } => false,
        }
    }
}

/// A plan in terms of the arena.
struct PutPlan {
    replaced: Option<usize>,
    growth_target: Option<usize>,
    rebuild: bool,
    victims: usize,
}

proof fn lemma_victim_count_bounds(rest: Seq<ItemModel>, needed: int, wants_slot: bool)
    ensures
        match victim_count(rest, needed, wants_slot) {
            Some(count) => {
                &&& 0 <= count <= rest.len()
                &&& wants_slot ==> count >= 1
                &&& payload_sum(rest.skip(rest.len() - count)) >= needed
            },
            None => true,
        },
    decreases rest.len(),
{
    if needed <= 0 && !wants_slot {
        assert(rest.skip(rest.len() as int) =~= Seq::<ItemModel>::empty());
    } else if rest.len() > 0 {
        let shorter = rest.drop_last();
        lemma_victim_count_bounds(shorter, needed - rest.last().payload(), false);
        match victim_count(shorter, needed - rest.last().payload(), false) {
            Some(count) => {
                let tail = rest.skip(rest.len() - (count + 1));
                assert(tail.drop_last() =~= shorter.skip(shorter.len() - count));
            },
            None => {},
        }
    }
}

/// Asking for less than nothing is asking for nothing.
proof fn lemma_victim_count_floor(rest: Seq<ItemModel>, needed: int, wants_slot: bool)
    requires
        forall|k: int| 0 <= k < rest.len() ==> (#[trigger] rest[k]).charged_bytes >= MEMORY_ENTRY_OVERHEAD_BYTES,
    ensures
        needed <= 0 ==> victim_count(rest, needed, wants_slot) == victim_count(rest, 0, wants_slot),
{
    if needed <= 0 && wants_slot && rest.len() > 0 {
        assert(rest[rest.len() - 1].charged_bytes >= MEMORY_ENTRY_OVERHEAD_BYTES);
        assert(victim_count(rest.drop_last(), needed - rest.last().payload(), false) == Some(0int));
        assert(victim_count(rest.drop_last(), 0 - rest.last().payload(), false) == Some(0int));
    }
}

/// Counting one more victim moves the count along by one.
proof fn lemma_victim_count_step(rest: Seq<ItemModel>, taken: int, needed: int, wants_slot: bool)
    requires
        0 <= taken < rest.len(),
        forall|k: int| 0 <= k < rest.len() ==> (#[trigger] rest[k]).charged_bytes >= MEMORY_ENTRY_OVERHEAD_BYTES,
        needed > 0 || wants_slot,
    ensures
        ({
            let r = rest.len() - taken - 1;
            &&& payload_sum(rest.skip(r)) == payload_sum(rest.skip(r + 1)) + rest[r].payload()
            &&& payload_sum(rest.skip(r)) <= payload_sum(rest)
            &&& victim_count(rest.take(r + 1), needed, wants_slot) == (match victim_count(
                rest.take(r),
                needed - rest[r].payload(),
                false,
            ) {
                Some(count) => Some(count + 1),
                None => None,
            })
        }),
{
    let r = rest.len() - taken - 1;
    assert(rest.skip(r) =~= seq![rest[r]] + rest.skip(r + 1));
    lemma_total_front(rest[r], rest.skip(r + 1), by_payload());
    assert(rest =~= rest.take(r) + rest.skip(r));
    lemma_total_append(rest.take(r), rest.skip(r), by_payload());
    assert forall|k: int| 0 <= k < r implies (#[trigger] rest.take(r)[k]).charged_bytes >= MEMORY_ENTRY_OVERHEAD_BYTES by {
        assert(rest.take(r)[k] == rest[k]);
    }
    lemma_item_bounds(rest.take(r));
    assert(rest.take(r + 1).drop_last() =~= rest.take(r));
    assert(rest.take(r + 1).last() == rest[r]);
}

proof fn lemma_valid_remove(shard: ShardModel, position: int)
    requires
        shard.valid(),
        0 <= position < shard.items.len(),
    ensures
        forall|k: int| 0 <= k < shard.items.len() - 1 ==> (#[trigger] shard.items.remove(position)[k]).charged_bytes
            >= MEMORY_ENTRY_OVERHEAD_BYTES,
        payload_sum(shard.items.remove(position)) == payload_sum(shard.items) - shard.items[position].payload(),
        shard.items[position].payload() >= 0,
        payload_sum(shard.items.remove(position)) >= 0,
{
    lemma_total_remove(shard.items, position, by_payload());
    lemma_item_bounds(shard.items.remove(position));
}

impl Shard {
    /// Why an entry is turned away before any room is made, if it is.
    fn refusal(&self, entry: &MemoryEntry, charged_bytes: Option<usize>, now_unix_ms: u64) -> (reason: Option<MemoryRejectReason>)
        ensures
            reason == self@.refusal(entry@, charged_bytes, now_unix_ms),
    {
        match charged_bytes {
            None => Some(MemoryRejectReason::TooLarge),
            Some(charged) => if is_expired(entry, now_unix_ms) {
                Some(MemoryRejectReason::AlreadyExpired)
            } else if charged > self.capacity_bytes {
                Some(MemoryRejectReason::TooLarge)
            } else if self.next_revision == u64::MAX {
                Some(MemoryRejectReason::RevisionExhausted)
            } else {
                None
            },
        }
    }

    /// A plan of the arena carries out a plan of the model.
    spec fn plan_matches(&self, namespace: u32, key: Seq<u8>, plan: PutPlan, model: PutPlanModel) -> bool {
        &&& match plan.replaced {
            Some(index) => {
                &&& resident(self.nodes@, index as int)
                &&& self@.find(namespace, key) == Some(self.lru.order@.index_of(index))
            },
            None => self@.find(namespace, key) is None,
        }
        &&& plan.growth_target matches Some(target) ==> target > self.retained_slots
        &&& plan.victims == model.victims
        &&& plan.rebuild == model.rebuild
        &&& 0 <= model.victims <= self@.without(namespace, key).len()
        &&& !plan.rebuild ==> match plan.growth_target {
            Some(target) => target > self.retained_slots && target == model.retained_slots,
            None => self.retained_slots == model.retained_slots,
        }
        &&& plan.rebuild ==> model.retained_slots == 1 && model.victims == self@.without(namespace, key).len()
    }

    /// Counts the oldest items, but for the replaced one, that have to leave to
    /// free `bytes_needed` bytes of payload and, if wanted, a slot. Reports
    /// whether they suffice.
    #[verifier::rlimit(80)]
    #[verifier::spinoff_prover]
    fn scan_victims(
        &self,
        replaced: Option<usize>,
        bytes_needed: usize,
        wants_slot: bool,
        Ghost(skipped): Ghost<Option<int>>,
    ) -> (scan: (usize, bool))
        requires
            self.wf(),
            match replaced {
                Some(index) => skipped is Some && 0 <= skipped->0 < self@.items.len() && self.lru.order@[skipped->0] == index,
                None => skipped is None,
            },
        ensures
            ({
                let rest = match skipped {
                    Some(k) => self@.items.remove(k),
                    None => self@.items,
                };
                match victim_count(rest, bytes_needed as int, wants_slot) {
                    Some(count) => scan.1 && scan.0 == count,
                    None => !scan.1,
                }
            }),
    {
        let ghost items = self@.items;
        let ghost order = self.lru.order@;
        let ghost rest = match skipped {
            Some(k) => items.remove(k),
            None => items,
        };
        let ghost planned = victim_count(rest, bytes_needed as int, wants_slot);
        proof {
            reveal(arena_linked);
            self.lemma_charge_bounds();
        }
        let mut victims: usize = 0;
        let mut freed: usize = 0;
        let mut cursor = self.lru.tail;
        let ghost mut position: int = order.len() - 1;
        proof {
            match skipped {
                Some(k) => {
                    lemma_total_remove(items, k, by_payload());
                },
                None => {},
            }
            assert(rest.take(rest.len() as int) =~= rest);
            assert(rest.skip(rest.len() as int) =~= Seq::<ItemModel>::empty());
        }
        while freed < bytes_needed || (wants_slot && victims == 0)
            invariant
                cursor == slot_at(order, position),
                order == self.lru.order@,
                order.len() <= self.nodes.len(),
                self.lru.linked(self.nodes@),
                items == items_of(self.nodes@, order),
                items == self@.items,
                planned == victim_count(rest, bytes_needed as int, wants_slot),
                rest == (match skipped {
                    Some(k) => items.remove(k),
                    None => items,
                }),
                match replaced {
                    Some(index) => skipped is Some && 0 <= skipped->0 < items.len() && order[skipped->0] == index,
                    None => skipped is None,
                },
                -1 <= position < order.len(),
                victims == (order.len() - 1 - position) - (if skipped is Some && skipped->0 > position { 1int } else { 0int }),
                0 <= victims <= rest.len(),
                freed == payload_sum(rest.skip(rest.len() - victims)),
                payload_sum(rest) <= usize::MAX,
                forall|k: int| 0 <= k < rest.len() ==> (#[trigger] rest[k]).charged_bytes >= MEMORY_ENTRY_OVERHEAD_BYTES,
                planned == (match victim_count(
                    rest.take(rest.len() - victims),
                    bytes_needed - freed,
                    wants_slot && victims == 0,
                ) {
                    Some(count) => Some(count + victims),
                    None => None,
                }),
            decreases position + 1,
        {
            let index: usize = match cursor {
                Some(slot) => slot,
                None => {
                    assert(rest.take(rest.len() - victims).len() == 0);
                    return (victims, false);
                },
            };
            assert(lru_linked_at(self.nodes@, order, position));
            let node = node_ref(&self.nodes, index);
            cursor = node.lru_prev;
            let is_replaced = match replaced {
                Some(slot) => slot == index,
                None => false,
            };
            let ghost here = position;
            proof {
                position = position - 1;
            }
            if is_replaced {
                assert(skipped == Some(here));
            } else {
                proof {
                    assert(items[here] == item_of(*node));
                    assert(skipped != Some(here));
                    assert(rest[rest.len() - victims - 1] == items[here]);
                    lemma_victim_count_step(rest, victims as int, bytes_needed - freed, wants_slot && victims == 0);
                }
                victims = victims + 1;
                freed = freed + (node.charged_bytes - MEMORY_ENTRY_OVERHEAD_BYTES);
            }
        }
        (victims, true)
    }

    /// Plans against reclaimable payload bytes. Retained arena metadata does
    /// not disappear when one node is evicted; if the old high-water mark
    /// itself is incompatible with the incoming object, every victim is
    /// prepared and the empty shard is rebuilt at one slot.
    #[verifier::rlimit(60)]
    #[verifier::spinoff_prover]
    fn plan_put(&self, hash: u64, namespace: u32, key: &[u8], charged_bytes: usize) -> (plan: PutPlan)
        requires
            self.wf(),
            hash == key_hash(namespace, key@),
            MEMORY_ENTRY_OVERHEAD_BYTES <= charged_bytes <= self.capacity_bytes,
        ensures
            self.plan_matches(namespace, key@, plan, self@.put_plan(namespace, key@, charged_bytes)),
            ({
                let model = self@.put_plan(namespace, key@, charged_bytes);
                let rest = self@.without(namespace, key@);
                let kept = rest.take(rest.len() - model.victims);
                let payload = charged_bytes - MEMORY_ENTRY_OVERHEAD_BYTES;
                &&& !plan.rebuild ==> model.retained_slots * MEMORY_ENTRY_OVERHEAD_BYTES + payload_sum(kept) + payload
                    <= self.capacity_bytes
                &&& !plan.rebuild ==> kept.len() < model.retained_slots
            }),
    {
        let ghost items = self@.items;
        let ghost order = self.lru.order@;
        let ghost rest = self@.without(namespace, key@);
        proof {
            self.lemma_charge_bounds();
        }
        let incoming_payload_bytes = charged_bytes - MEMORY_ENTRY_OVERHEAD_BYTES;
        let max_slots_for_entry = (self.capacity_bytes - incoming_payload_bytes) / MEMORY_ENTRY_OVERHEAD_BYTES;
        let replaced = self.find(hash, namespace, key);
        let replaced_payload_bytes: usize = match replaced {
            Some(index) => {
                proof {
                    let position = self.lemma_position(index);
                    lemma_valid_remove(self@, position);
                }
                node_ref(&self.nodes, index).charged_bytes - MEMORY_ENTRY_OVERHEAD_BYTES
            },
            None => 0,
        };
        let ghost skipped: Option<int> = self@.find(namespace, key@);
        assert(payload_sum(rest) >= 0);
        let after_replacement = self.charged_bytes - replaced_payload_bytes;
        assert(after_replacement == self.retained_slots * MEMORY_ENTRY_OVERHEAD_BYTES + payload_sum(rest));
        let slot_target: Option<usize> = match replaced {
            Some(_) => Some(self.retained_slots),
            None => self.next_slot_target(max_slots_for_entry),
        };
        let growth_target: Option<usize> = match slot_target {
            Some(target) => if target > self.retained_slots {
                Some(target)
            } else {
                None
            },
            None => None,
        };
        let growth_bytes: usize = match growth_target {
            Some(target) => (target - self.retained_slots) * MEMORY_ENTRY_OVERHEAD_BYTES,
            None => 0,
        };
        let incoming_bytes = growth_bytes + incoming_payload_bytes;
        let free_bytes = self.capacity_bytes - after_replacement;
        let bytes_needed: usize = if incoming_bytes > free_bytes { incoming_bytes - free_bytes } else { 0 };
        let victim_must_supply_slot = slot_target.is_none();
        let ghost needed: int = incoming_bytes - free_bytes;

        proof {
            lemma_victim_count_floor(rest, needed, victim_must_supply_slot);
            match replaced {
                Some(index) => {
                    let position = self.lemma_position(index);
                },
                None => {},
            }
        }
        let (victims, enough) = self.scan_victims(replaced, bytes_needed, victim_must_supply_slot, Ghost(skipped));
        let rebuild_storage = !enough;
        let mut victims_needed: usize = victims;
        proof {
            lemma_victim_count_bounds(rest, needed, victim_must_supply_slot);
            if !rebuild_storage {
                let kept = rest.take(rest.len() - victims_needed);
                let gone = rest.skip(rest.len() - victims_needed);
                assert(rest =~= kept + gone);
                lemma_total_append(kept, gone, by_payload());
            }
        }
        if rebuild_storage {
            let others: usize = self.resident_entries() - (if replaced.is_some() { 1 } else { 0 });
            victims_needed = others;
        }
        PutPlan { replaced, growth_target, rebuild: rebuild_storage, victims: victims_needed }
    }
}

/// A demotion callback answered `receipt` when it was handed such an entry.
pub open spec fn answered<F: FnMut(&MemoryEntry) -> Option<u64>>(demote: F, entry: EntryModel, receipt: Option<u64>) -> bool {
    exists|handed: &MemoryEntry| handed@ == entry && #[trigger] demote.ensures((handed,), receipt)
}

/// An item once its victim has been prepared: a dirty one carries the receipt
/// that the callback gave, a clean one is as it was.
pub open spec fn prepared<F: FnMut(&MemoryEntry) -> Option<u64>>(demote: F, before: ItemModel, after: ItemModel) -> bool {
    if before.entry.disk_clean {
        after == before
    } else {
        exists|receipt: u64| #[trigger]
            answered(demote, before.entry, Some(receipt)) && after == (ItemModel {
                entry: before.entry.persisted(receipt),
                ..before
            })
    }
}

impl ShardModel {
    /// The victims older than `stop` have been prepared and nothing else has
    /// changed.
    pub open spec fn prepared_beyond<F: FnMut(&MemoryEntry) -> Option<u64>>(
        self,
        namespace: u32,
        key: Seq<u8>,
        plan: PutPlanModel,
        demote: F,
        stop: int,
        after: ShardModel,
    ) -> bool {
        &&& after.items.len() == self.items.len()
        &&& after == (ShardModel { items: after.items, ..self })
        &&& forall|k: int| 0 <= k < self.items.len() ==> if self.is_victim(namespace, key, plan, k) && k > stop {
            prepared(demote, self.items[k], #[trigger] after.items[k])
        } else {
            after.items[k] == self.items[k]
        }
    }
}

/// Items that differ in persistence state at most answer to the same keys.
proof fn lemma_find_same(before: ShardModel, after: ShardModel, namespace: u32, key: Seq<u8>)
    requires
        before.valid(),
        after.valid(),
        before.items.len() == after.items.len(),
        forall|k: int| 0 <= k < before.items.len() ==> (#[trigger] after.items[k]).entry.namespace
            == before.items[k].entry.namespace && after.items[k].entry.key == before.items[k].entry.key,
    ensures
        after.find(namespace, key) == before.find(namespace, key),
        after.without(namespace, key).len() == before.without(namespace, key).len(),
{
    if exists|k: int| before.holds_at(namespace, key, k) {
        let k = choose|k: int| before.holds_at(namespace, key, k);
        assert(after.holds_at(namespace, key, k));
        lemma_find_at(before, namespace, key, k);
        lemma_find_at(after, namespace, key, k);
    } else {
        assert forall|k: int| !after.holds_at(namespace, key, k) by {
            if after.holds_at(namespace, key, k) {
                assert(before.holds_at(namespace, key, k));
            }
        }
    }
}

impl Shard {
    /// Sets the persistence state of a resident entry.
    fn set_persistence(&mut self, index: usize, disk_clean: bool, pending_disk_bytes: u64)
        requires
            old(self).wf(),
            resident(old(self).nodes@, index as int),
        ensures
            final(self).wf(),
            final(self).lru == old(self).lru,
            final(self).nodes@.len() == old(self).nodes@.len(),
            ({
                let p = old(self).lru.order@.index_of(index);
                let item = old(self)@.items[p];
                &&& 0 <= p < old(self)@.items.len()
                &&& final(self)@ == (ShardModel {
                    items: old(self)@.items.update(
                        p,
                        ItemModel { entry: EntryModel { disk_clean, pending_disk_bytes, ..item.entry }, ..item },
                    ),
                    ..old(self)@
                })
            }),
            forall|i: int| #[trigger] resident(final(self).nodes@, i) <==> resident(old(self).nodes@, i),
            forall|i: int| #[trigger] resident(final(self).nodes@, i) && i != index ==> final(self).nodes@[i] == old(self).nodes@[i],
    {
        let ghost start = self.nodes@;
        let ghost items = self@.items;
        let ghost order = self.lru.order@;
        let ghost p = self.lemma_position(index);
        let ghost item = ItemModel {
            entry: EntryModel { disk_clean, pending_disk_bytes, ..items[p].entry },
            ..items[p]
        };
        let ghost updated = items.update(p, item);
        proof {
            self.lemma_charge_bounds();
            lemma_total_update(items, p, item, by_payload());
            lemma_total_update(items, p, item, by_dirty());
            lemma_total_update(items, p, item, by_dirty_charge());
            assert forall|k: int| 0 <= k < updated.len() implies (#[trigger] updated[k]).charged_bytes >= MEMORY_ENTRY_OVERHEAD_BYTES
                && updated[k].revision < self.next_revision by {
                assert(items[k].charged_bytes >= MEMORY_ENTRY_OVERHEAD_BYTES);
            }
            lemma_item_bounds(updated);
            lemma_charge_is_payload_and_overhead(updated);
            lemma_total_remove(items, p, by_dirty());
            lemma_total_remove(items, p, by_dirty_charge());
            assert(forall|k: int| 0 <= k < items.remove(p).len() ==> #[trigger] items.remove(p)[k] == items[if k < p { k } else { k + 1 }]);
            lemma_item_bounds(items.remove(p));
            assert(distinct_keys(updated)) by {
                reveal(distinct_keys);
                assert forall|j: int, k: int|
                    0 <= j < updated.len() && 0 <= k < updated.len() && j != k implies !(#[trigger] updated[j]).entry.is_for(
                    (#[trigger] updated[k]).entry.namespace,
                    updated[k].entry.key,
                ) by {
                    assert(!items[j].entry.is_for(items[k].entry.namespace, items[k].entry.key));
                }
            }
        }
        let node = node_ref(&self.nodes, index);
        let was_clean = node.entry.disk_clean;
        let charged_bytes = node.charged_bytes;
        if was_clean && !disk_clean {
            self.dirty_entries = self.dirty_entries + 1;
            self.dirty_bytes = self.dirty_bytes + charged_bytes;
        } else if !was_clean && disk_clean {
            self.dirty_entries = self.dirty_entries - 1;
            self.dirty_bytes = self.dirty_bytes - charged_bytes;
        }
        if let Some(node) = self.nodes[index].as_mut() {
            node.entry.disk_clean = disk_clean;
            node.entry.pending_disk_bytes = pending_disk_bytes;
        }
        proof {
            reveal(arena_linked);
            let nodes = self.nodes@;
            let node = nodes[index as int]->0;
            assert(nodes == start.update(index as int, Some(node)));
            assert forall|k: int| 0 <= k < order.len() implies #[trigger] lru_linked_at(nodes, order, k) by {
                assert(lru_linked_at(start, order, k));
            }
            assert forall|h: u64| #[trigger] self.chains.chains@.contains_key(h) implies chain_linked(
                nodes,
                h,
                self.chains.chains@[h],
            ) by {
                let links = self.chains.chains@[h];
                assert forall|k: int| 0 <= k < links.len() implies #[trigger] chain_linked_at(nodes, h, links, k) by {
                    assert(chain_linked_at(start, h, links, k));
                }
            }
            assert forall|i: int| #[trigger] resident(nodes, i) implies self.lru.order@.contains(i as usize)
                && nodes[i]->0.hash == key_hash(nodes[i]->0.entry.namespace, nodes[i]->0.entry.key@)
                && self.chains.chain(nodes[i]->0.hash).contains(i as usize) by {
                assert(resident(start, i));
            }
            assert forall|k: int| 0 <= k < order.len() implies self@.items[k] == updated[k] by {
                assert(lru_linked_at(start, order, k));
                if k != p {
                    assert(order[k] != index);
                }
            }
            assert(self@.items =~= updated);
        }
    }

    /// Whether a planned victim has not been persisted yet.
    fn has_dirty_victim(&self, plan: &PutPlan, Ghost(namespace): Ghost<u32>, Ghost(key): Ghost<Seq<u8>>, Ghost(model): Ghost<PutPlanModel>) -> (dirty: bool)
        requires
            self.wf(),
            self.plan_matches(namespace, key, *plan, model),
        ensures
            dirty == self@.has_dirty_victim(namespace, key, model),
    {
        let ghost order = self.lru.order@;
        let ghost items = self@.items;
        let ghost skipped = self@.find(namespace, key);
        let mut seen: usize = 0;
        let mut cursor = self.lru.tail;
        let ghost mut position: int = order.len() - 1;
        proof {
            reveal(arena_linked);
            match plan.replaced {
                Some(index) => {
                    let replaced_at = self.lemma_position(index);
                },
                None => {},
            }
        }
        while seen < plan.victims
            invariant
                cursor == slot_at(order, position),
                order == self.lru.order@,
                self.lru.linked(self.nodes@),
                items == items_of(self.nodes@, order),
                items == self@.items,
                skipped == self@.find(namespace, key),
                match plan.replaced {
                    Some(index) => skipped is Some && 0 <= skipped->0 < items.len() && order[skipped->0] == index,
                    None => skipped is None,
                },
                plan.victims == model.victims,
                model.victims <= self@.without(namespace, key).len(),
                -1 <= position < order.len(),
                seen == (order.len() - 1 - position) - (if skipped is Some && skipped->0 > position { 1int } else { 0int }),
                seen <= plan.victims,
                forall|k: int|
                    position < k < items.len() && self@.is_victim(namespace, key, model, k) ==> (#[trigger] items[k]).entry.disk_clean,
            decreases position + 1,
        {
            assert(position >= 0);
            let index: usize = cursor.unwrap();
            assert(lru_linked_at(self.nodes@, order, position));
            let node = node_ref(&self.nodes, index);
            cursor = node.lru_prev;
            let is_replaced = match plan.replaced {
                Some(slot) => slot == index,
                None => false,
            };
            let ghost here = position;
            proof {
                position = position - 1;
                assert(items[here] == item_of(*node));
            }
            if !is_replaced {
                assert(self@.is_victim(namespace, key, model, here));
                if !node.entry.disk_clean {
                    assert(!self@.items[here].entry.disk_clean);
                    return true;
                }
                seen = seen + 1;
            }
        }
        assert forall|k: int| 0 <= k < items.len() && self@.is_victim(namespace, key, model, k) implies (#[trigger] items[k]).entry.disk_clean by {
            assert(k > position);
        }
        false
    }

    /// Prepares every dirty victim before membership changes. A refusal by the
    /// callback stops the work; what was prepared until then stays prepared.
    #[verifier::rlimit(40)]
    fn prepare_victims<F: FnMut(&MemoryEntry) -> Option<u64>>(
        &mut self,
        plan: &PutPlan,
        demote: F,
        Ghost(namespace): Ghost<u32>,
        Ghost(key): Ghost<Seq<u8>>,
        Ghost(model): Ghost<PutPlanModel>,
    ) -> (done: (bool, Ghost<int>))
        requires
            old(self).wf(),
            old(self).plan_matches(namespace, key, *plan, model),
            forall|handed: &MemoryEntry| demote.requires((handed,)),
        ensures
            final(self).wf(),
            final(self).plan_matches(namespace, key, *plan, model),
            old(self)@.prepared_beyond(namespace, key, model, demote, done.1@, final(self)@),
            done.0 ==> done.1@ == -1,
            !done.0 ==> {
                &&& 0 <= done.1@ < old(self)@.items.len()
                &&& old(self)@.is_victim(namespace, key, model, done.1@)
                &&& !old(self)@.items[done.1@].entry.disk_clean
                &&& answered(demote, old(self)@.items[done.1@].entry, None)
            },
    {
        let ghost before = self@;
        let ghost order = self.lru.order@;
        let ghost skipped = self@.find(namespace, key);
        let mut callback = demote;
        let mut seen: usize = 0;
        let mut cursor = self.lru.tail;
        let ghost mut position: int = order.len() - 1;
        proof {
            reveal(arena_linked);
            match plan.replaced {
                Some(index) => {
                    let replaced_at = self.lemma_position(index);
                },
                None => {},
            }
        }
        while seen < plan.victims
            invariant
                before == old(self)@,
                callback == demote,
                forall|handed: &MemoryEntry| demote.requires((handed,)),
                cursor == slot_at(order, position),
                order == self.lru.order@,
                self.wf(),
                self.retained_slots == before.retained_slots,
                before.valid(),
                order.len() == before.items.len(),
                skipped == before.find(namespace, key),
                self.plan_matches(namespace, key, *plan, model),
                match plan.replaced {
                    Some(index) => skipped is Some && 0 <= skipped->0 < before.items.len() && order[skipped->0] == index,
                    None => skipped is None,
                },
                model.victims <= before.without(namespace, key).len(),
                -1 <= position < order.len(),
                seen == (order.len() - 1 - position) - (if skipped is Some && skipped->0 > position { 1int } else { 0int }),
                seen <= plan.victims,
                before.prepared_beyond(namespace, key, model, demote, position, self@),
            decreases position + 1,
        {
            assert(position >= 0);
            let index: usize = cursor.unwrap();
            proof {
                reveal(arena_linked);
                assert(lru_linked_at(self.nodes@, order, position));
            }
            let node = node_ref(&self.nodes, index);
            cursor = node.lru_prev;
            let is_replaced = match plan.replaced {
                Some(slot) => slot == index,
                None => false,
            };
            let is_dirty = !node.entry.disk_clean;
            let ghost here = position;
            let ghost current = self@;
            let ghost item = before.items[here];
            proof {
                let at = self.lemma_position(index);
                assert(at == here);
                assert(current.items[here] == item_of(*node));
                assert(current.items[here] == item);
            }
            if is_replaced {
                proof {
                    position = position - 1;
                }
                assert(!before.is_victim(namespace, key, model, here));
                assert(before.prepared_beyond(namespace, key, model, demote, position, self@));
            } else {
                assert(before.is_victim(namespace, key, model, here));
                if is_dirty {
                    let answer = callback(&node.entry);
                    assert(answered(demote, item.entry, answer)) by {
                        assert(demote.ensures((&node.entry,), answer));
                    }
                    match answer {
                        None => {
                            return (false, Ghost(here));
                        },
                        Some(disk_live_bytes) => {
                            self.set_persistence(index, true, disk_live_bytes);
                            proof {
                                lemma_find_same(current, self@, namespace, key);
                                assert(prepared(demote, item, self@.items[here]));
                            }
                        },
                    }
                }
                proof {
                    position = position - 1;
                    assert forall|k: int| 0 <= k < before.items.len() implies (if before.is_victim(namespace, key, model, k) && k > position {
                        prepared(demote, before.items[k], #[trigger] self@.items[k])
                    } else {
                        self@.items[k] == before.items[k]
                    }) by {
                        if k != here {
                            assert(self@.items[k] == current.items[k]);
                        }
                    }
                }
                seen = seen + 1;
            }
        }
        proof {
            assert forall|k: int| 0 <= k < before.items.len() implies (if before.is_victim(namespace, key, model, k) && k > -1 {
                prepared(demote, before.items[k], #[trigger] self@.items[k])
            } else {
                self@.items[k] == before.items[k]
            }) by {
                if k <= position {
                    assert(!before.is_victim(namespace, key, model, k));
                }
            }
        }
        (true, Ghost(-1))
    }
}

/// Live count and live charge of items are bounded by their number and charge.
proof fn lemma_live_bounds(items: Seq<ItemModel>, now: u64)
    ensures
        0 <= total(items, by_live(now)) <= items.len(),
        0 <= total(items, by_live_charge(now)) <= total(items, by_charge()),
    decreases items.len(),
{
    if items.len() > 0 {
        lemma_live_bounds(items.drop_last(), now);
    }
}

impl Shard {
    /// Allocates the containers of an arena of `retained_slots` slots; `None`
    /// if the allocator refuses.
    fn allocate_empty_storage(retained_slots: usize) -> (storage: Option<(HashChains, Vec<Option<Node>>, Vec<usize>)>)
        ensures
            match storage {
                Some(parts) => {
                    &&& forall|nodes: Seq<Option<Node>>| parts.0.linked(nodes)
                    &&& forall|h: u64| parts.0.chain(h) == Seq::<usize>::empty()
                    &&& parts.1@ == Seq::<Option<Node>>::empty()
                    &&& parts.2@ == Seq::<usize>::empty()
                },
                None => true,
            },
    {
        let mut chains = HashChains::empty();
        let ghost fresh = chains;
        if !map_try_reserve(&mut chains.buckets, 1) {
            return None;
        }
        let mut nodes: Vec<Option<Node>> = Vec::new();
        if !vec_try_reserve_exact(&mut nodes, retained_slots) {
            return None;
        }
        let mut free: Vec<usize> = Vec::new();
        if !vec_try_reserve_exact(&mut free, retained_slots) {
            return None;
        }
        proof {
            assert forall|arena: Seq<Option<Node>>| chains.linked(arena) by {
                assert(fresh.linked(arena));
            }
            assert forall|h: u64| chains.chain(h) == Seq::<usize>::empty() by {
                assert(fresh.chain(h) == Seq::<usize>::empty());
            }
        }
        Some((chains, nodes, free))
    }

    /// Replaces the storage of an empty shard.
    fn install_empty_storage(&mut self, storage: (HashChains, Vec<Option<Node>>, Vec<usize>), retained_slots: usize)
        requires
            old(self).wf(),
            old(self)@.items.len() == 0,
            retained_slots * MEMORY_ENTRY_OVERHEAD_BYTES <= old(self).capacity_bytes,
            forall|nodes: Seq<Option<Node>>| storage.0.linked(nodes),
            forall|h: u64| storage.0.chain(h) == Seq::<usize>::empty(),
            storage.1@ == Seq::<Option<Node>>::empty(),
            storage.2@ == Seq::<usize>::empty(),
        ensures
            final(self).wf(),
            final(self)@ == (ShardModel { retained_slots, ..old(self)@ }),
    {
        let ghost before = self@;
        let (chains, nodes, free) = storage;
        self.chains = chains;
        self.nodes = nodes;
        self.free = free;
        self.lru = LruList::empty();
        self.retained_slots = retained_slots;
        self.charged_bytes = retained_slots * MEMORY_ENTRY_OVERHEAD_BYTES;
        proof {
            reveal(arena_linked);
            reveal(distinct_keys);
            assert(self@.items =~= Seq::<ItemModel>::empty());
            assert(before.items =~= Seq::<ItemModel>::empty());
        }
    }

    /// How many more elements to ask for, so that a container of `length`
    /// elements and this capacity holds `target`; `None` if it can already.
    fn missing_slots(capacity: usize, length: usize, target: usize) -> (additional: Option<usize>)
        requires
            length <= target,
        ensures
            additional == (if capacity < target { Some((target - length) as usize) } else { None }),
    {
        if capacity < target {
            Some(target - length)
        } else {
            None
        }
    }

    /// Reserves the arena and removal free-list together; the retained slot
    /// count is committed only after every fallible allocation has succeeded.
    fn reserve_slot_capacity(&mut self, target: usize) -> (reserved: bool)
        requires
            old(self).wf(),
            target > old(self).retained_slots,
        ensures
            final(self).wf(),
            final(self)@ == old(self)@,
            final(self).lru == old(self).lru,
            final(self).nodes@ == old(self).nodes@,
    {
        proof {
            reveal(arena_linked);
        }
        let old_nodes_capacity = vec_capacity(&self.nodes);
        if let Some(additional) = Shard::missing_slots(old_nodes_capacity, self.nodes.len(), target) {
            if !vec_try_reserve_exact(&mut self.nodes, additional) {
                return false;
            }
        }
        if let Some(additional) = Shard::missing_slots(vec_capacity(&self.free), self.free.len(), target) {
            if !vec_try_reserve_exact(&mut self.free, additional) {
                vec_shrink_to(&mut self.nodes, old_nodes_capacity);
                return false;
            }
        }
        true
    }

    /// Gives reserved but uncommitted slot capacity back.
    fn rollback_slot_capacity(&mut self)
        requires
            old(self).wf(),
        ensures
            final(self).wf(),
            final(self)@ == old(self)@,
            final(self).lru == old(self).lru,
            final(self).nodes@ == old(self).nodes@,
    {
        proof {
            reveal(arena_linked);
        }
        let nodes_floor = if self.retained_slots > self.nodes.len() { self.retained_slots } else { self.nodes.len() };
        let free_floor = if self.retained_slots > self.free.len() { self.retained_slots } else { self.free.len() };
        vec_shrink_to(&mut self.nodes, nodes_floor);
        vec_shrink_to(&mut self.free, free_floor);
    }

    /// Charges the slots up to `target`.
    fn commit_slot_capacity(&mut self, target: usize)
        requires
            old(self).wf(),
            target >= old(self).retained_slots,
            target * MEMORY_ENTRY_OVERHEAD_BYTES + payload_sum(old(self)@.items) <= old(self).capacity_bytes,
        ensures
            final(self).wf(),
            final(self)@ == (ShardModel { retained_slots: target, ..old(self)@ }),
    {
        proof {
            reveal(arena_linked);
            self.lemma_charge_bounds();
        }
        let added_slots = target - self.retained_slots;
        self.charged_bytes = self.charged_bytes + added_slots * MEMORY_ENTRY_OVERHEAD_BYTES;
        self.retained_slots = target;
    }

    /// The hash of an item has a bucket.
    proof fn lemma_bucket_present(&self, hash: u64)
        requires
            self.wf(),
            self@.has_hash(hash),
        ensures
            self.chains.buckets@.contains_key(hash),
    {
        reveal(arena_linked);
        let k = choose|k: int|
            0 <= k < self@.items.len() && key_hash((#[trigger] self@.items[k]).entry.namespace, self@.items[k].entry.key)
                == hash;
        let index = self.lru.order@[k] as int;
        assert(lru_linked_at(self.nodes@, self.lru.order@, k));
        assert(resident(self.nodes@, index));
        assert(self@.items[k] == item_of(self.nodes@[index]->0));
        assert(self.chains.chain(hash).contains(index as usize));
    }

    /// Allocates what a planned admission needs: new containers for a rebuild,
    /// or room for grown slots and a new hash bucket.
    fn allocate_for_put(&mut self, plan: &PutPlan, hash: u64) -> (storage: Option<Option<(HashChains, Vec<Option<Node>>, Vec<usize>)>>)
        requires
            old(self).wf(),
            plan.growth_target matches Some(target) ==> target > old(self).retained_slots,
        ensures
            final(self).wf(),
            final(self)@ == old(self)@,
            final(self).lru == old(self).lru,
            final(self).nodes@ == old(self).nodes@,
            match storage {
                Some(Some(parts)) => {
                    &&& plan.rebuild
                    &&& forall|nodes: Seq<Option<Node>>| parts.0.linked(nodes)
                    &&& forall|h: u64| parts.0.chain(h) == Seq::<usize>::empty()
                    &&& parts.1@ == Seq::<Option<Node>>::empty()
                    &&& parts.2@ == Seq::<usize>::empty()
                },
                Some(None) => !plan.rebuild,
                None => plan.rebuild || plan.growth_target is Some || !old(self)@.has_hash(hash),
            },
    {
        proof {
            if old(self)@.has_hash(hash) {
                self.lemma_bucket_present(hash);
            }
        }
        if plan.rebuild {
            return match Shard::allocate_empty_storage(1) {
                Some(parts) => Some(Some(parts)),
                None => None,
            };
        }
        if let Some(target) = plan.growth_target {
            if !self.reserve_slot_capacity(target) {
                return None;
            }
        }
        let new_hash_bucket = !self.chains.buckets.contains_key(&hash);
        proof {
            reveal(arena_linked);
        }
        if new_hash_bucket && !map_try_reserve(&mut self.chains.buckets, 1) {
            if plan.growth_target.is_some() {
                self.rollback_slot_capacity();
            }
            return None;
        }
        Some(None)
    }

    /// Removes the `count` least recently used entries and reports how many of
    /// them were live and what those were charged.
    #[verifier::rlimit(60)]
    #[verifier::spinoff_prover]
    fn evict_oldest(&mut self, count: usize, now_unix_ms: u64) -> (evicted: (usize, usize))
        requires
            old(self).wf(),
            count <= old(self)@.items.len(),
        ensures
            final(self).wf(),
            ({
                let items = old(self)@.items;
                let gone = items.skip(items.len() - count);
                let live = total(gone, by_live(now_unix_ms));
                &&& evicted.0 == live
                &&& evicted.1 == total(gone, by_live_charge(now_unix_ms))
                &&& final(self)@ == (ShardModel {
                    items: items.take(items.len() - count),
                    stats: MemoryStats {
                        evictions: counted(old(self)@.stats.evictions, live),
                        expirations: counted(old(self)@.stats.expirations, count - live),
                        ..old(self)@.stats
                    },
                    ..old(self)@
                })
            }),
    {
        let ghost before = self@;
        let ghost items = before.items;
        let mut evicted_entries: usize = 0;
        let mut evicted_bytes: usize = 0;
        let mut done: usize = 0;
        proof {
            self.lemma_charge_bounds();
            assert(items.skip(items.len() as int) =~= Seq::<ItemModel>::empty());
            assert(items.take(items.len() as int) =~= items);
        }
        let ghost limit: int = self.charged_bytes as int;
        while done < count
            invariant
                before == old(self)@,
                items == before.items,
                before.valid(),
                done <= count <= items.len(),
                self.wf(),
                total(items, by_charge()) <= limit <= usize::MAX,
                evicted_entries == total(items.skip(items.len() - done), by_live(now_unix_ms)),
                evicted_bytes == total(items.skip(items.len() - done), by_live_charge(now_unix_ms)),
                evicted_entries <= done,
                self@ == (ShardModel {
                    items: items.take(items.len() - done),
                    stats: MemoryStats {
                        evictions: counted(before.stats.evictions, evicted_entries as int),
                        expirations: counted(before.stats.expirations, done - evicted_entries),
                        ..before.stats
                    },
                    ..before
                }),
            decreases count - done,
        {
            let ghost r = items.len() - done - 1;
            proof {
                reveal(arena_linked);
                assert(self@.items.len() == r + 1);
                assert(lru_linked_at(self.nodes@, self.lru.order@, r));
                assert(self.lru.order@.index_of(self.lru.order@[r]) == r);
                assert(self@.items[r] == items[r]);
                assert(items.skip(r) =~= seq![items[r]] + items.skip(r + 1));
                lemma_total_front(items[r], items.skip(r + 1), by_live(now_unix_ms));
                lemma_total_front(items[r], items.skip(r + 1), by_live_charge(now_unix_ms));
                lemma_live_bounds(items.skip(r), now_unix_ms);
                assert(items =~= items.take(r) + items.skip(r));
                lemma_total_append(items.take(r), items.skip(r), by_charge());
                lemma_total_nonnegative(items.take(r), by_charge());
                assert(items.take(r + 1).remove(r) =~= items.take(r));
            }
            let oldest: usize = self.lru.tail.unwrap();
            let victim = self.remove_index(oldest);
            if is_expired(&victim.entry, now_unix_ms) {
                self.stats.expirations = self.stats.expirations.saturating_add(1);
            } else {
                self.stats.evictions = self.stats.evictions.saturating_add(1);
                evicted_entries = evicted_entries + 1;
                evicted_bytes = evicted_bytes + victim.charged_bytes;
            }
            done = done + 1;
            proof {
                reveal(arena_linked);
            }
        }
        (evicted_entries, evicted_bytes)
    }

    /// A plan of the arena is one for this entry, and room suffices under it.
    spec fn plan_fits(&self, plan: PutPlan, hash: u64, entry: EntryModel, charged_bytes: usize) -> bool {
        let model = self@.put_plan(entry.namespace, entry.key, charged_bytes);
        let rest = self@.without(entry.namespace, entry.key);
        let kept = rest.take(rest.len() - model.victims);
        let payload = charged_bytes - MEMORY_ENTRY_OVERHEAD_BYTES;
        &&& hash == key_hash(entry.namespace, entry.key)
        &&& MEMORY_ENTRY_OVERHEAD_BYTES <= charged_bytes <= self.capacity_bytes
        &&& self.next_revision < u64::MAX
        &&& self.plan_matches(entry.namespace, entry.key, plan, model)
        &&& !plan.rebuild ==> model.retained_slots * MEMORY_ENTRY_OVERHEAD_BYTES + payload_sum(kept) + payload
            <= self.capacity_bytes
        &&& !plan.rebuild ==> kept.len() < model.retained_slots
    }

    /// Allocates for a prepared plan and carries it out. Only an allocation can
    /// fail, and then nothing has changed.
    fn commit_put(
        &mut self,
        plan: PutPlan,
        hash: u64,
        entry: MemoryEntry,
        charged_bytes: usize,
        now_unix_ms: u64,
    ) -> (result: MemoryPutResult)
        requires
            old(self).wf(),
            old(self).plan_fits(plan, hash, entry@, charged_bytes),
        ensures
            final(self).wf(),
            old(self)@.commit_outcome(entry, charged_bytes, now_unix_ms, final(self)@, result),
    {
        let storage = self.allocate_for_put(&plan, hash);
        self.carry_out_put(plan, hash, entry, charged_bytes, now_unix_ms, storage)
    }

    /// Carries out a prepared plan with what has been allocated for it: takes
    /// the replaced entry and the victims out and puts the new entry in front.
    /// Without the allocation nothing but a counter changes.
    #[verifier::rlimit(60)]
    #[verifier::spinoff_prover]
    fn carry_out_put(
        &mut self,
        plan: PutPlan,
        hash: u64,
        entry: MemoryEntry,
        charged_bytes: usize,
        now_unix_ms: u64,
        allocated: Option<Option<(HashChains, Vec<Option<Node>>, Vec<usize>)>>,
    ) -> (result: MemoryPutResult)
        requires
            old(self).wf(),
            old(self).plan_fits(plan, hash, entry@, charged_bytes),
            match allocated {
                Some(Some(parts)) => {
                    &&& plan.rebuild
                    &&& forall|nodes: Seq<Option<Node>>| parts.0.linked(nodes)
                    &&& forall|h: u64| parts.0.chain(h) == Seq::<usize>::empty()
                    &&& parts.1@ == Seq::<Option<Node>>::empty()
                    &&& parts.2@ == Seq::<usize>::empty()
                },
                Some(None) => !plan.rebuild,
                None => true,
            },
        ensures
            final(self).wf(),
            match allocated {
                Some(_) => {
                    &&& final(self)@ == old(self)@.admitted(entry@, charged_bytes, now_unix_ms)
                    &&& old(self)@.reports_admission(entry@, charged_bytes, now_unix_ms, result)
                },
                None => {
                    &&& final(self)@ == old(self)@.rejected()
                    &&& result == (MemoryPutResult::NotStored { entry, reason: MemoryRejectReason::AllocationFailed })
                },
            },
    {
        let ghost before = self@;
        let ghost namespace = entry.namespace;
        let ghost key = entry.key@;
        let ghost model = before.put_plan(namespace, key, charged_bytes);
        let ghost rest = before.without(namespace, key);
        let ghost kept = rest.take(rest.len() - model.victims);
        let storage = match allocated {
            Some(storage) => storage,
            None => {
                self.stats.rejected = self.stats.rejected.saturating_add(1);
                proof {
                    reveal(arena_linked);
                }
                return MemoryPutResult::NotStored { entry, reason: MemoryRejectReason::AllocationFailed };
            },
        };
        if let Some(index) = plan.replaced {
            let _stale = self.remove_index(index);
        }
        assert(self@ == (ShardModel { items: rest, ..before }));
        let (evicted_entries, evicted_bytes) = self.evict_oldest(plan.victims, now_unix_ms);
        assert(self@.items == kept);
        match storage {
            Some(parts) => {
                self.install_empty_storage(parts, 1);
            },
            None => {
                if let Some(target) = plan.growth_target {
                    self.commit_slot_capacity(target);
                }
            },
        }
        let revision = self.next_revision;
        proof {
            self.lemma_charge_bounds();
        }
        self.next_revision = self.next_revision + 1;
        proof {
            reveal(arena_linked);
            assert(self@.find(namespace, key) is None) by {
                assert forall|k: int| !self@.holds_at(namespace, key, k) by {
                    if self@.holds_at(namespace, key, k) {
                        assert(self@.items[k] == rest[k]);
                        match before.find(namespace, key) {
                            Some(p) => {
                                let j = if k < p { k } else { k + 1 };
                                assert(rest[k] == before.items[j]);
                                assert(before.holds_at(namespace, key, j));
                                lemma_find_at(before, namespace, key, j);
                            },
                            None => {
                                assert(before.holds_at(namespace, key, k));
                            },
                        }
                    }
                }
            }
        }
        self.insert_node(
            Node { entry, hash, hash_next: None, lru_prev: None, lru_next: None, revision, charged_bytes },
        );
        MemoryPutResult::Stored { revision, evicted_entries, evicted_bytes }
    }
}

// ---------------------------------------------------------------------------
// Shard operations
// ---------------------------------------------------------------------------

/// Why a lookup or the engine's construction failed.
#[derive(Clone, Debug, PartialEq, Eq)]
pub enum MemoryError {
    InvalidConfig(&'static str),
    AllocationFailed,
}

/// A shared hit plus an identity token for compare-and-mark after asynchronous
/// disk I/O. A disk completion must use the revision it originally observed;
/// otherwise an old completion could mark a newer value clean.
#[derive(Clone, Debug, PartialEq, Eq)]
pub struct MemoryHit {
    pub value: Arc<Vec<u8>>,
    pub version: HybridVersion,
    pub disk_clean: bool,
    pub revision: u64,
}

impl MemoryHit {
    /// The hit hands out this item.
    pub open spec fn shows(self, item: ItemModel) -> bool {
        &&& self.value@ == item.entry.value
        &&& self.version == item.entry.version
        &&& self.disk_clean == item.entry.disk_clean
        &&& self.revision == item.revision
    }
}

/// What a lookup found.
#[derive(Clone, Debug, PartialEq, Eq)]
pub enum MemoryLookup {
    Hit(MemoryHit),
    Miss,
    /// The expired value is removed from L1 and returned so the hybrid
    /// coordinator can prevent an older L2 version from becoming visible.
    Expired(MemoryEntry),
    /// The caller declined the destructive expiry transfer.
    ExpiryCommitRejected,
}

/// Accounting metadata of one resident entry.
#[derive(Clone, Copy, Debug, PartialEq, Eq, Structural)]
pub struct MemoryEntryUsage {
    pub disk_clean: bool,
    pub pending_disk_bytes: u64,
    pub expired: bool,
}

impl ShardModel {
    /// One more hit on the counters.
    pub open spec fn hit_counted(self) -> ShardModel {
        ShardModel { stats: MemoryStats { hits: counted(self.stats.hits, 1), ..self.stats }, ..self }
    }

    /// One more miss on the counters.
    pub open spec fn miss_counted(self) -> ShardModel {
        ShardModel { stats: MemoryStats { misses: counted(self.stats.misses, 1), ..self.stats }, ..self }
    }

    /// One more expiration on the counters.
    pub open spec fn expiration_counted(self) -> ShardModel {
        ShardModel { stats: MemoryStats { expirations: counted(self.stats.expirations, 1), ..self.stats }, ..self }
    }

    /// What a put without demotion may do: refuse for the stated reason, refuse
    /// because a dirty entry would have to leave, fail to allocate, or admit.
    pub open spec fn put_outcome(
        self,
        entry: MemoryEntry,
        charged: Option<usize>,
        now: u64,
        after: ShardModel,
        result: MemoryPutResult,
    ) -> bool {
        let before = self.attempted();
        match before.refusal(entry@, charged, now) {
            Some(reason) => result == (MemoryPutResult::NotStored { entry, reason }) && after == before.rejected(),
            None => {
                let plan = before.put_plan(entry.namespace, entry.key@, charged->0);
                if before.has_dirty_victim(entry.namespace, entry.key@, plan) {
                    &&& result == (MemoryPutResult::NotStored { entry, reason: MemoryRejectReason::DirtyVictimBlocked })
                    &&& after == before.rejected()
                } else {
                    before.commit_outcome(entry, charged->0, now, after, result)
                }
            },
        }
    }

    /// What carrying out a put may do: admit, or fail to allocate what it needs.
    pub open spec fn commit_outcome(
        self,
        entry: MemoryEntry,
        charged: usize,
        now: u64,
        after: ShardModel,
        result: MemoryPutResult,
    ) -> bool {
        ||| {
            &&& self.needs_allocation(entry.namespace, entry.key@, charged)
            &&& result == (MemoryPutResult::NotStored { entry, reason: MemoryRejectReason::AllocationFailed })
            &&& after == self.rejected()
        }
        ||| {
            &&& self.reports_admission(entry@, charged, now, result)
            &&& after == self.admitted(entry@, charged, now)
        }
    }

    /// What a put with demotion may do. Victims are prepared from the oldest
    /// on; a refusal by the callback keeps every entry resident, with the
    /// preparations made until then.
    pub open spec fn demoting_put_outcome<F: FnMut(&MemoryEntry) -> Option<u64>>(
        self,
        entry: MemoryEntry,
        charged: Option<usize>,
        now: u64,
        demote: F,
        after: ShardModel,
        result: MemoryPutResult,
    ) -> bool {
        let before = self.attempted();
        match before.refusal(entry@, charged, now) {
            Some(reason) => result == (MemoryPutResult::NotStored { entry, reason }) && after == before.rejected(),
            None => {
                let plan = before.put_plan(entry.namespace, entry.key@, charged->0);
                ||| exists|stop: int, middle: ShardModel|
                    {
                        &&& before.demotion_stopped_at(entry.namespace, entry.key@, plan, demote, stop)
                        &&& #[trigger] before.prepared_beyond(entry.namespace, entry.key@, plan, demote, stop, middle)
                        &&& result == (MemoryPutResult::NotStored { entry, reason: MemoryRejectReason::DemotionFailed })
                        &&& after == middle.rejected()
                    }
                ||| exists|middle: ShardModel|
                    {
                        &&& #[trigger] before.prepared_beyond(entry.namespace, entry.key@, plan, demote, -1, middle)
                        &&& middle.commit_outcome(entry, charged->0, now, after, result)
                    }
            },
        }
    }

    /// The callback refused the dirty victim at `stop`.
    pub open spec fn demotion_stopped_at<F: FnMut(&MemoryEntry) -> Option<u64>>(
        self,
        namespace: u32,
        key: Seq<u8>,
        plan: PutPlanModel,
        demote: F,
        stop: int,
    ) -> bool {
        &&& 0 <= stop < self.items.len()
        &&& self.is_victim(namespace, key, plan, stop)
        &&& !self.items[stop].entry.disk_clean
        &&& answered(demote, self.items[stop].entry, None)
    }

    /// What a lookup that may transfer an expired entry does. A live hit
    /// reserves the value's length, an expired one the entry's whole charge.
    pub open spec fn get_outcome<R: FnOnce(usize) -> bool, C: FnOnce() -> bool>(
        self,
        namespace: u32,
        key: Seq<u8>,
        now: u64,
        reserve: R,
        commit_expiry: C,
        after: ShardModel,
        result: Result<MemoryLookup, MemoryError>,
    ) -> bool {
        match self.find(namespace, key) {
            None => result == Ok::<MemoryLookup, MemoryError>(MemoryLookup::Miss) && after == self.miss_counted(),
            Some(position) => {
                let item = self.items[position];
                if item.entry.expired_at(now) {
                    ||| {
                        &&& reserve.ensures((item.charged_bytes,), false)
                        &&& result == Err::<MemoryLookup, MemoryError>(MemoryError::AllocationFailed)
                        &&& after == self
                    }
                    ||| {
                        &&& reserve.ensures((item.charged_bytes,), true)
                        &&& commit_expiry.ensures((), false)
                        &&& result == Ok::<MemoryLookup, MemoryError>(MemoryLookup::ExpiryCommitRejected)
                        &&& after == self
                    }
                    ||| {
                        &&& reserve.ensures((item.charged_bytes,), true)
                        &&& commit_expiry.ensures((), true)
                        &&& result matches Ok(MemoryLookup::Expired(entry)) && entry@ == item.entry
                        &&& after == self.removed(position).expiration_counted().miss_counted()
                    }
                } else {
                    ||| {
                        &&& reserve.ensures((item.entry.value.len() as usize,), false)
                        &&& result == Err::<MemoryLookup, MemoryError>(MemoryError::AllocationFailed)
                        &&& after == self
                    }
                    ||| {
                        &&& reserve.ensures((item.entry.value.len() as usize,), true)
                        &&& result matches Ok(MemoryLookup::Hit(hit)) && hit.shows(item)
                        &&& after == self.touched(position).hit_counted()
                    }
                }
            },
        }
    }

    /// What a lookup that leaves expired entries alone does.
    pub open spec fn get_live_outcome<R: FnOnce(usize) -> bool>(
        self,
        namespace: u32,
        key: Seq<u8>,
        now: u64,
        reserve: R,
        after: ShardModel,
        result: Result<Option<MemoryHit>, MemoryError>,
    ) -> bool {
        match self.find(namespace, key) {
            None => result == Ok::<Option<MemoryHit>, MemoryError>(None) && after == self,
            Some(position) => {
                let item = self.items[position];
                if item.entry.expired_at(now) {
                    result == Ok::<Option<MemoryHit>, MemoryError>(None) && after == self
                } else {
                    ||| {
                        &&& reserve.ensures((item.entry.value.len() as usize,), false)
                        &&& result == Err::<Option<MemoryHit>, MemoryError>(MemoryError::AllocationFailed)
                        &&& after == self
                    }
                    ||| {
                        &&& reserve.ensures((item.entry.value.len() as usize,), true)
                        &&& result matches Ok(Some(hit)) && hit.shows(item)
                        &&& after == self.touched(position).hit_counted()
                    }
                }
            },
        }
    }

    /// The shard after a removal request: the key's entry leaves.
    pub open spec fn remove_requested(self, namespace: u32, key: Seq<u8>, now: u64) -> ShardModel {
        let asked = ShardModel {
            stats: MemoryStats { remove_requests: counted(self.stats.remove_requests, 1), ..self.stats },
            ..self
        };
        match self.find(namespace, key) {
            None => asked,
            Some(position) => {
                let gone = asked.removed(position);
                let timed = if self.items[position].entry.expired_at(now) { gone.expiration_counted() } else { gone };
                ShardModel { stats: MemoryStats { removed: counted(timed.stats.removed, 1), ..timed.stats }, ..timed }
            },
        }
    }

    /// The shard with the persistence flag of the item at `position` set.
    pub open spec fn flagged(self, position: int, disk_clean: bool) -> ShardModel {
        let item = self.items[position];
        ShardModel {
            items: self.items.update(position, ItemModel { entry: EntryModel { disk_clean, ..item.entry }, ..item }),
            ..self
        }
    }
}

proof fn lemma_total_same(first: Seq<ItemModel>, second: Seq<ItemModel>, weight: spec_fn(ItemModel) -> int)
    requires
        first.len() == second.len(),
        forall|k: int| 0 <= k < first.len() ==> weight(#[trigger] first[k]) == weight(second[k]),
    ensures
        total(first, weight) == total(second, weight),
    decreases first.len(),
{
    if first.len() > 0 {
        let a = first.drop_last();
        let b = second.drop_last();
        assert forall|k: int| 0 <= k < a.len() implies weight(#[trigger] a[k]) == weight(b[k]) by {
            assert(a[k] == first[k]);
            assert(b[k] == second[k]);
        }
        lemma_total_same(a, b, weight);
        assert(weight(first[first.len() - 1]) == weight(second[first.len() - 1]));
    }
}

proof fn lemma_victim_count_same(first: Seq<ItemModel>, second: Seq<ItemModel>, needed: int, wants_slot: bool)
    requires
        first.len() == second.len(),
        forall|k: int| 0 <= k < first.len() ==> (#[trigger] first[k]).charged_bytes == second[k].charged_bytes,
    ensures
        victim_count(first, needed, wants_slot) == victim_count(second, needed, wants_slot),
    decreases first.len(),
{
    if first.len() > 0 && (needed > 0 || wants_slot) {
        let a = first.drop_last();
        let b = second.drop_last();
        assert forall|k: int| 0 <= k < a.len() implies (#[trigger] a[k]).charged_bytes == b[k].charged_bytes by {
            assert(a[k] == first[k]);
            assert(b[k] == second[k]);
        }
        assert(first[first.len() - 1].charged_bytes == second[first.len() - 1].charged_bytes);
        lemma_victim_count_same(a, b, needed - first.last().payload(), false);
    }
}

/// Persisting resident entries leaves plans as they are.
proof fn lemma_plan_same(before: ShardModel, after: ShardModel, namespace: u32, key: Seq<u8>, charged: usize)
    requires
        before.valid(),
        after.valid(),
        before.items.len() == after.items.len(),
        before.capacity_bytes == after.capacity_bytes,
        before.retained_slots == after.retained_slots,
        forall|k: int| 0 <= k < before.items.len() ==> {
            &&& (#[trigger] after.items[k]).entry.namespace == before.items[k].entry.namespace
            &&& after.items[k].entry.key == before.items[k].entry.key
            &&& after.items[k].charged_bytes == before.items[k].charged_bytes
        },
    ensures
        after.find(namespace, key) == before.find(namespace, key),
        after.put_plan(namespace, key, charged) == before.put_plan(namespace, key, charged),
        after.without(namespace, key).len() == before.without(namespace, key).len(),
        forall|count: int| 0 <= count <= before.without(namespace, key).len() ==> payload_sum(
            #[trigger] after.without(namespace, key).take(count),
        ) == payload_sum(before.without(namespace, key).take(count)),
{
    lemma_find_same(before, after, namespace, key);
    let first = before.without(namespace, key);
    let second = after.without(namespace, key);
    assert forall|k: int| 0 <= k < first.len() implies (#[trigger] first[k]).charged_bytes == second[k].charged_bytes by {
        match before.find(namespace, key) {
            Some(p) => {
                let j = if k < p { k } else { k + 1 };
                assert(first[k] == before.items[j]);
                assert(second[k] == after.items[j]);
            },
            None => {
                assert(second[k] == after.items[k]);
            },
        }
    }
    assert forall|count: int| 0 <= count <= first.len() implies payload_sum(#[trigger] second.take(count)) == payload_sum(
        first.take(count),
    ) by {
        assert forall|k: int| 0 <= k < count implies by_payload()(#[trigger] second.take(count)[k]) == by_payload()(
            first.take(count)[k],
        ) by {
            assert(first[k].charged_bytes == second[k].charged_bytes);
        }
        lemma_total_same(second.take(count), first.take(count), by_payload());
    }
    assert(first.take(first.len() as int) =~= first);
    assert(second.take(first.len() as int) =~= second);
    assert forall|needed: int, wants_slot: bool| victim_count(first, needed, wants_slot) == #[trigger] victim_count(
        second,
        needed,
        wants_slot,
    ) by {
        lemma_victim_count_same(first, second, needed, wants_slot);
    }
}

impl Shard {
    /// Offers an entry of the given charge to the shard. Dirty entries never
    /// leave.
    pub fn put_charged(&mut self, entry: MemoryEntry, charged_bytes: Option<usize>, now_unix_ms: u64) -> (result: MemoryPutResult)
        requires
            old(self).wf(),
            charged_bytes matches Some(charged) ==> charged >= MEMORY_ENTRY_OVERHEAD_BYTES,
        ensures
            final(self).wf(),
            final(self)@.capacity_bytes == old(self)@.capacity_bytes,
            old(self)@.put_outcome(entry, charged_bytes, now_unix_ms, final(self)@, result),
    {
        let hash = hash_key(entry.namespace, entry.key.as_slice());
        self.stats.puts = self.stats.puts.saturating_add(1);
        assert(self@ == old(self)@.attempted());
        if let Some(reason) = self.refusal(&entry, charged_bytes, now_unix_ms) {
            self.stats.rejected = self.stats.rejected.saturating_add(1);
            return MemoryPutResult::NotStored { entry, reason };
        }
        let charged = charged_bytes.unwrap();
        let plan = self.plan_put(hash, entry.namespace, entry.key.as_slice(), charged);
        let ghost model = self@.put_plan(entry.namespace, entry.key@, charged);
        if self.has_dirty_victim(&plan, Ghost(entry.namespace), Ghost(entry.key@), Ghost(model)) {
            self.stats.rejected = self.stats.rejected.saturating_add(1);
            return MemoryPutResult::NotStored { entry, reason: MemoryRejectReason::DirtyVictimBlocked };
        }
        self.commit_put(plan, hash, entry, charged, now_unix_ms)
    }
}

impl Shard {
    /// Offers an entry of the given charge to the shard, preparing dirty
    /// victims with `demote`. The callback must either persist the exact
    /// supplied entry or transfer it to a bounded background owner before
    /// returning. It returns the exact lower-tier live bytes for a completed
    /// persistence, or zero for an accepted disposable-cache handoff. A failed
    /// callback leaves the incoming entry out of L1 and keeps every victim
    /// resident. Earlier successful preparations remain committed, which is
    /// safe and avoids rollback I/O.
    pub fn put_charged_with_demote<F: FnMut(&MemoryEntry) -> Option<u64>>(
        &mut self,
        entry: MemoryEntry,
        charged_bytes: Option<usize>,
        now_unix_ms: u64,
        demote: F,
    ) -> (result: MemoryPutResult)
        requires
            old(self).wf(),
            charged_bytes matches Some(charged) ==> charged >= MEMORY_ENTRY_OVERHEAD_BYTES,
            forall|handed: &MemoryEntry| demote.requires((handed,)),
        ensures
            final(self).wf(),
            final(self)@.capacity_bytes == old(self)@.capacity_bytes,
            old(self)@.demoting_put_outcome(entry, charged_bytes, now_unix_ms, demote, final(self)@, result),
    {
        let hash = hash_key(entry.namespace, entry.key.as_slice());
        self.stats.puts = self.stats.puts.saturating_add(1);
        let ghost before = self@;
        assert(before == old(self)@.attempted());
        if let Some(reason) = self.refusal(&entry, charged_bytes, now_unix_ms) {
            self.stats.rejected = self.stats.rejected.saturating_add(1);
            return MemoryPutResult::NotStored { entry, reason };
        }
        let charged = charged_bytes.unwrap();
        let plan = self.plan_put(hash, entry.namespace, entry.key.as_slice(), charged);
        let ghost model = self@.put_plan(entry.namespace, entry.key@, charged);
        let (ready, Ghost(stop)) = self.prepare_victims(
            &plan,
            demote,
            Ghost(entry.namespace),
            Ghost(entry.key@),
            Ghost(model),
        );
        let ghost middle = self@;
        if !ready {
            self.stats.rejected = self.stats.rejected.saturating_add(1);
            assert(before.demotion_stopped_at(entry.namespace, entry.key@, model, demote, stop));
            return MemoryPutResult::NotStored { entry, reason: MemoryRejectReason::DemotionFailed };
        }
        proof {
            lemma_plan_same(before, middle, entry.namespace, entry.key@, charged);
        }
        let result = self.commit_put(plan, hash, entry, charged, now_unix_ms);
        assert(middle.commit_outcome(entry, charged, now_unix_ms, self@, result));
        result
    }

    /// Looks an entry up. A live hit becomes the most recent entry; an expired
    /// one is handed over once the caller has reserved its bytes and committed
    /// to the transfer.
    pub fn get_at_with_reservation<R: FnOnce(usize) -> bool, C: FnOnce() -> bool>(
        &mut self,
        namespace: u32,
        key: &[u8],
        now_unix_ms: u64,
        reserve: R,
        commit_expiry: C,
    ) -> (result: Result<MemoryLookup, MemoryError>)
        requires
            old(self).wf(),
            forall|bytes: usize| reserve.requires((bytes,)),
            commit_expiry.requires(()),
        ensures
            final(self).wf(),
            final(self)@.capacity_bytes == old(self)@.capacity_bytes,
            old(self)@.get_outcome(namespace, key@, now_unix_ms, reserve, commit_expiry, final(self)@, result),
    {
        let hash = hash_key(namespace, key);
        let index: usize = match self.find(hash, namespace, key) {
            Some(index) => index,
            None => {
                self.stats.misses = self.stats.misses.saturating_add(1);
                return Ok(MemoryLookup::Miss);
            },
        };
        let ghost position = self.lemma_position(index);
        let ghost item = self@.items[position];
        let node = node_ref(&self.nodes, index);
        let expired = is_expired(&node.entry, now_unix_ms);
        let temporary_bytes = if expired { node.charged_bytes } else { node.entry.value.len() };
        if !reserve(temporary_bytes) {
            return Err(MemoryError::AllocationFailed);
        }
        if expired {
            if !commit_expiry() {
                return Ok(MemoryLookup::ExpiryCommitRejected);
            }
            let node = self.remove_index(index);
            self.reset_storage_if_empty();
            self.stats.expirations = self.stats.expirations.saturating_add(1);
            self.stats.misses = self.stats.misses.saturating_add(1);
            return Ok(MemoryLookup::Expired(node.entry));
        }
        let hit = MemoryHit {
            value: Arc::clone(&node.entry.value),
            version: node.entry.version,
            disk_clean: node.entry.disk_clean,
            revision: node.revision,
        };
        self.touch(index);
        self.stats.hits = self.stats.hits.saturating_add(1);
        Ok(MemoryLookup::Hit(hit))
    }

    /// Looks a live entry up without transferring expired state.
    pub fn get_live_at_with_reservation<R: FnOnce(usize) -> bool>(
        &mut self,
        namespace: u32,
        key: &[u8],
        now_unix_ms: u64,
        reserve: R,
    ) -> (result: Result<Option<MemoryHit>, MemoryError>)
        requires
            old(self).wf(),
            forall|bytes: usize| reserve.requires((bytes,)),
        ensures
            final(self).wf(),
            final(self)@.capacity_bytes == old(self)@.capacity_bytes,
            old(self)@.get_live_outcome(namespace, key@, now_unix_ms, reserve, final(self)@, result),
    {
        let hash = hash_key(namespace, key);
        let index: usize = match self.find(hash, namespace, key) {
            Some(index) => index,
            None => {
                return Ok(None);
            },
        };
        let ghost position = self.lemma_position(index);
        let node = node_ref(&self.nodes, index);
        if is_expired(&node.entry, now_unix_ms) {
            return Ok(None);
        }
        if !reserve(node.entry.value.len()) {
            return Err(MemoryError::AllocationFailed);
        }
        let hit = MemoryHit {
            value: Arc::clone(&node.entry.value),
            version: node.entry.version,
            disk_clean: node.entry.disk_clean,
            revision: node.revision,
        };
        self.touch(index);
        self.stats.hits = self.stats.hits.saturating_add(1);
        Ok(Some(hit))
    }

    /// Accounting metadata of a resident entry, without touching recency or
    /// counters.
    pub fn entry_usage_at(&self, namespace: u32, key: &[u8], now_unix_ms: u64) -> (usage: Option<MemoryEntryUsage>)
        requires
            self.wf(),
        ensures
            usage == (match self@.find(namespace, key@) {
                Some(position) => {
                    let entry = self@.items[position].entry;
                    Some(
                        MemoryEntryUsage {
                            disk_clean: entry.disk_clean,
                            pending_disk_bytes: entry.pending_disk_bytes,
                            expired: entry.expired_at(now_unix_ms),
                        },
                    )
                },
                None => None,
            }),
    {
        let hash = hash_key(namespace, key);
        match self.find(hash, namespace, key) {
            Some(index) => {
                let ghost position = self.lemma_position(index);
                let entry = &node_ref(&self.nodes, index).entry;
                Some(
                    MemoryEntryUsage {
                        disk_clean: entry.disk_clean,
                        pending_disk_bytes: entry.pending_disk_bytes,
                        expired: is_expired(entry, now_unix_ms),
                    },
                )
            },
            None => None,
        }
    }

    /// Removes the entry under a key.
    pub fn remove_at(&mut self, namespace: u32, key: &[u8], now_unix_ms: u64) -> (removed: Option<MemoryEntry>)
        requires
            old(self).wf(),
        ensures
            final(self).wf(),
            final(self)@.capacity_bytes == old(self)@.capacity_bytes,
            final(self)@ == old(self)@.remove_requested(namespace, key@, now_unix_ms),
            match old(self)@.find(namespace, key@) {
                Some(position) => removed is Some && removed->0@ == old(self)@.items[position].entry,
                None => removed is None,
            },
    {
        let hash = hash_key(namespace, key);
        let ghost before = self@;
        let found = self.find(hash, namespace, key);
        self.stats.remove_requests = self.stats.remove_requests.saturating_add(1);
        let index: usize = match found {
            Some(index) => index,
            None => {
                return None;
            },
        };
        let ghost position = self.lemma_position(index);
        let node = self.remove_index(index);
        self.reset_storage_if_empty();
        if is_expired(&node.entry, now_unix_ms) {
            self.stats.expirations = self.stats.expirations.saturating_add(1);
        }
        self.stats.removed = self.stats.removed.saturating_add(1);
        Some(node.entry)
    }

    /// Sets the persistence flag of exactly the given revision of a key.
    pub fn set_disk_clean_if(&mut self, namespace: u32, key: &[u8], revision: u64, disk_clean: bool) -> (matched: bool)
        requires
            old(self).wf(),
        ensures
            final(self).wf(),
            final(self)@.capacity_bytes == old(self)@.capacity_bytes,
            match old(self)@.find(namespace, key@) {
                Some(position) => {
                    &&& matched == (old(self)@.items[position].revision == revision)
                    &&& final(self)@ == if matched { old(self)@.flagged(position, disk_clean) } else { old(self)@ }
                },
                None => !matched && final(self)@ == old(self)@,
            },
    {
        let hash = hash_key(namespace, key);
        let index: usize = match self.find(hash, namespace, key) {
            Some(index) => index,
            None => {
                return false;
            },
        };
        let ghost position = self.lemma_position(index);
        let ghost items = self@.items;
        let node = node_ref(&self.nodes, index);
        if node.revision != revision {
            return false;
        }
        if node.entry.disk_clean == disk_clean {
            assert(items.update(position, items[position]) =~= items);
            return true;
        }
        let pending_disk_bytes = node.entry.pending_disk_bytes;
        self.set_persistence(index, disk_clean, pending_disk_bytes);
        true
    }
}

// ---------------------------------------------------------------------------
// Checkpointing dirty entries
// ---------------------------------------------------------------------------

/// A persistence callback gave this answer when it was handed such an entry.
pub open spec fn persist_answered<F: Fn(&MemoryEntry) -> Result<u64, E>, E>(
    persist: F,
    entry: EntryModel,
    answer: Result<u64, E>,
) -> bool {
    exists|handed: &MemoryEntry| handed@ == entry && #[trigger] persist.ensures((handed,), answer)
}

/// An item once it has been persisted: a dirty one carries the receipt that the
/// callback gave, a clean one is as it was.
pub open spec fn persisted_item<F: Fn(&MemoryEntry) -> Result<u64, E>, E>(
    persist: F,
    before: ItemModel,
    after: ItemModel,
) -> bool {
    if before.entry.disk_clean {
        after == before
    } else {
        exists|receipt: u64| #[trigger]
            persist_answered(persist, before.entry, Ok(receipt)) && after == (ItemModel {
                entry: before.entry.persisted(receipt),
                ..before
            })
    }
}

impl ShardModel {
    /// Number of items that have not been persisted.
    pub open spec fn dirty_entries(self) -> int {
        total(self.items, by_dirty())
    }

    /// Charge of the items that have not been persisted.
    pub open spec fn dirty_bytes(self) -> int {
        total(self.items, by_dirty_charge())
    }

    /// Every item has been persisted.
    pub open spec fn all_persisted<F: Fn(&MemoryEntry) -> Result<u64, E>, E>(self, persist: F, after: ShardModel) -> bool {
        &&& after.items.len() == self.items.len()
        &&& after == (ShardModel { items: after.items, ..self })
        &&& forall|k: int|
            0 <= k < self.items.len() ==> persisted_item(persist, self.items[k], #[trigger] after.items[k])
    }

    /// Persistence broke off with `error`: the item it was given for is still
    /// dirty, and each other item is as it was or has been persisted.
    pub open spec fn persistence_failed<F: Fn(&MemoryEntry) -> Result<u64, E>, E>(
        self,
        persist: F,
        after: ShardModel,
        error: E,
    ) -> bool {
        &&& after.items.len() == self.items.len()
        &&& after == (ShardModel { items: after.items, ..self })
        &&& forall|k: int|
            0 <= k < self.items.len() ==> (#[trigger] after.items[k] == self.items[k] || persisted_item(
                persist,
                self.items[k],
                after.items[k],
            ))
        &&& exists|k: int|
            0 <= k < self.items.len() && !(#[trigger] self.items[k]).entry.disk_clean && after.items[k] == self.items[k]
                && persist_answered(persist, self.items[k].entry, Err(error))
    }
}

proof fn lemma_total_zero(items: Seq<ItemModel>, weight: spec_fn(ItemModel) -> int)
    requires
        forall|k: int| 0 <= k < items.len() ==> weight(#[trigger] items[k]) == 0,
    ensures
        total(items, weight) == 0,
    decreases items.len(),
{
    if items.len() > 0 {
        let shorter = items.drop_last();
        assert forall|k: int| 0 <= k < shorter.len() implies weight(#[trigger] shorter[k]) == 0 by {
            assert(shorter[k] == items[k]);
        }
        lemma_total_zero(shorter, weight);
        assert(weight(items[items.len() - 1]) == 0);
    }
}

impl Shard {
    /// Persists every dirty entry and marks it clean only after the callback
    /// succeeds. Reports how many entries and bytes that were; stops at the
    /// first failure.
    pub fn persist_all_dirty<F: Fn(&MemoryEntry) -> Result<u64, E>, E>(&mut self, persist: &F) -> (result: Result<(usize, usize), E>)
        requires
            old(self).wf(),
            forall|handed: &MemoryEntry| persist.requires((handed,)),
        ensures
            final(self).wf(),
            final(self)@.capacity_bytes == old(self)@.capacity_bytes,
            match result {
                Ok((entries, bytes)) => {
                    &&& old(self)@.all_persisted(*persist, final(self)@)
                    &&& entries == old(self)@.dirty_entries()
                    &&& bytes == old(self)@.dirty_bytes()
                    &&& final(self)@.dirty_entries() == 0
                },
                Err(error) => old(self)@.persistence_failed(*persist, final(self)@, error),
            },
    {
        let ghost before = self@;
        let ghost order = self.lru.order@;
        let ghost start = self.nodes@;
        let mut entries: usize = 0;
        let mut bytes: usize = 0;
        let mut index: usize = 0;
        proof {
            self.lemma_charge_bounds();
        }
        while index < self.nodes.len()
            invariant
                before == old(self)@,
                self.wf(),
                self.lru.order@ == order,
                self@ == (ShardModel { items: self@.items, ..before }),
                self@.items.len() == before.items.len(),
                order.len() == before.items.len(),
                index <= self.nodes@.len(),
                forall|handed: &MemoryEntry| persist.requires((handed,)),
                entries + self@.dirty_entries() == before.dirty_entries() <= usize::MAX,
                bytes + self@.dirty_bytes() == before.dirty_bytes() <= usize::MAX,
                forall|k: int| 0 <= k < before.items.len() ==> if order[k] < index {
                    persisted_item(*persist, before.items[k], #[trigger] self@.items[k])
                } else {
                    self@.items[k] == before.items[k]
                },
            decreases self.nodes@.len() - index,
        {
            let ghost current = self@;
            let dirty = match &self.nodes[index] {
                Some(node) => !node.entry.disk_clean,
                None => false,
            };
            proof {
                reveal(arena_linked);
                self.lemma_charge_bounds();
                if resident(self.nodes@, index as int) {
                    let p = self.lemma_position(index);
                }
                assert forall|k: int| 0 <= k < order.len() implies resident(self.nodes@, #[trigger] order[k] as int) by {
                    assert(lru_linked_at(self.nodes@, order, k));
                }
            }
            if dirty {
                let ghost p = self.lemma_position(index);
                let node = node_ref(&self.nodes, index);
                let charged_bytes = node.charged_bytes;
                let answer = persist(&node.entry);
                assert(persist_answered(*persist, before.items[p].entry, answer)) by {
                    assert(persist.ensures((&node.entry,), answer));
                }
                match answer {
                    Ok(disk_live_bytes) => {
                        proof {
                            let item = ItemModel {
                                entry: before.items[p].entry.persisted(disk_live_bytes),
                                ..before.items[p]
                            };
                            lemma_total_update(current.items, p, item, by_dirty());
                            lemma_total_update(current.items, p, item, by_dirty_charge());
                        }
                        self.set_persistence(index, true, disk_live_bytes);
                        proof {
                            self.lemma_charge_bounds();
                        }
                        entries = entries + 1;
                        bytes = bytes + charged_bytes;
                    },
                    Err(error) => {
                        return Err(error);
                    },
                }
            }
            index = index + 1;
            proof {
                assert forall|k: int| 0 <= k < before.items.len() implies (if order[k] < index {
                    persisted_item(*persist, before.items[k], #[trigger] self@.items[k])
                } else {
                    self@.items[k] == before.items[k]
                }) by {
                    if order[k] == index - 1 {
                        assert(order.index_of(order[k]) == k);
                    }
                    if order[k] != index - 1 {
                        assert(self@.items[k] == current.items[k]);
                    }
                }
            }
        }
        proof {
            reveal(arena_linked);
            assert forall|k: int| 0 <= k < before.items.len() implies persisted_item(*persist, before.items[k], #[trigger] self@.items[k])
                && self@.items[k].entry.disk_clean by {
                assert(lru_linked_at(self.nodes@, order, k));
            }
            lemma_total_zero(self@.items, by_dirty());
            lemma_total_zero(self@.items, by_dirty_charge());
        }
        Ok((entries, bytes))
    }

    /// Drops every entry and reports how many there were.
    pub fn clear(&mut self) -> (removed: usize)
        requires
            old(self).wf(),
        ensures
            final(self).wf(),
            removed == old(self)@.items.len(),
            final(self)@ == (ShardModel { items: Seq::empty(), retained_slots: 0, ..old(self)@ }),
    {
        let removed = self.resident_entries();
        self.reset_storage();
        removed
    }

    /// The shard's counters together with its gauges.
    pub fn snapshot(&self) -> (snapshot: MemoryStats)
        requires
            self.wf(),
        ensures
            snapshot == self@.snapshot(),
    {
        let mut snapshot = self.stats;
        snapshot.capacity_bytes = self.capacity_bytes;
        snapshot.charged_bytes = self.charged_bytes;
        snapshot.entries = self.resident_entries();
        snapshot.dirty_entries = self.dirty_entries;
        snapshot.dirty_bytes = self.dirty_bytes;
        snapshot
    }

    /// Slots charged to the shard.
    pub fn retained_slots(&self) -> (slots: usize)
        ensures
            slots == self@.retained_slots,
    {
        self.retained_slots
    }

    /// Room held by the hash buckets, the arena and the free list.
    pub fn container_capacities(&self) -> (capacities: (usize, usize, usize))
        requires
            self.wf(),
        ensures
            capacities.1 >= self@.items.len(),
    {
        proof {
            reveal(arena_linked);
        }
        (map_capacity(&self.chains.buckets), vec_capacity(&self.nodes), vec_capacity(&self.free))
    }
}

impl ShardModel {
    /// The counters together with the gauges.
    pub open spec fn snapshot(self) -> MemoryStats {
        MemoryStats {
            capacity_bytes: self.capacity_bytes,
            charged_bytes: self.charged_bytes() as usize,
            entries: self.items.len() as usize,
            dirty_entries: self.dirty_entries() as usize,
            dirty_bytes: self.dirty_bytes() as usize,
            ..self.stats
        }
    }
}

// ---------------------------------------------------------------------------
// Engine
// ---------------------------------------------------------------------------

/// Whether `value` is a power of two.
pub open spec fn power_of_two(value: int) -> bool
    decreases value,
{
    value == 1 || (value > 1 && value % 2 == 0 && power_of_two(value / 2))
}

pub fn is_power_of_two(value: usize) -> (answer: bool)
    ensures
        answer == power_of_two(value as int),
{
    let mut rest: usize = value;
    while rest > 1
        invariant
            power_of_two(value as int) == power_of_two(rest as int),
        decreases rest,
    {
        if rest % 2 != 0 {
            return false;
        }
        rest = rest / 2;
    }
    rest == 1
}

/// Sum of `weight` over the shards.
pub open spec fn shard_total(shards: Seq<ShardModel>, weight: spec_fn(ShardModel) -> int) -> int
    decreases shards.len(),
{
    if shards.len() == 0 {
        0
    } else {
        shard_total(shards.drop_last(), weight) + weight(shards.last())
    }
}

pub open spec fn by_capacity() -> spec_fn(ShardModel) -> int {
    |shard: ShardModel| shard.capacity_bytes as int
}

pub open spec fn by_charged_bytes() -> spec_fn(ShardModel) -> int {
    |shard: ShardModel| shard.charged_bytes()
}

pub open spec fn by_entries() -> spec_fn(ShardModel) -> int {
    |shard: ShardModel| shard.items.len() as int
}

pub open spec fn by_dirty_entries() -> spec_fn(ShardModel) -> int {
    |shard: ShardModel| shard.dirty_entries()
}

pub open spec fn by_dirty_bytes() -> spec_fn(ShardModel) -> int {
    |shard: ShardModel| shard.dirty_bytes()
}

pub open spec fn by_stat(counter: spec_fn(MemoryStats) -> u64) -> spec_fn(ShardModel) -> int {
    |shard: ShardModel| counter(shard.stats) as int
}

proof fn lemma_shard_total_order(shards: Seq<ShardModel>, low: spec_fn(ShardModel) -> int, high: spec_fn(ShardModel) -> int)
    requires
        forall|k: int| 0 <= k < shards.len() ==> low(#[trigger] shards[k]) <= high(shards[k]),
    ensures
        shard_total(shards, low) <= shard_total(shards, high),
    decreases shards.len(),
{
    if shards.len() > 0 {
        let shorter = shards.drop_last();
        assert forall|k: int| 0 <= k < shorter.len() implies low(#[trigger] shorter[k]) <= high(shorter[k]) by {
            assert(shorter[k] == shards[k]);
        }
        lemma_shard_total_order(shorter, low, high);
        assert(low(shards[shards.len() - 1]) <= high(shards[shards.len() - 1]));
    }
}

proof fn lemma_shard_total_same(first: Seq<ShardModel>, second: Seq<ShardModel>, weight: spec_fn(ShardModel) -> int)
    requires
        first.len() == second.len(),
        forall|k: int| 0 <= k < first.len() ==> weight(#[trigger] first[k]) == weight(second[k]),
    ensures
        shard_total(first, weight) == shard_total(second, weight),
    decreases first.len(),
{
    if first.len() > 0 {
        let a = first.drop_last();
        let b = second.drop_last();
        assert forall|k: int| 0 <= k < a.len() implies weight(#[trigger] a[k]) == weight(b[k]) by {
            assert(a[k] == first[k]);
        }
        lemma_shard_total_same(a, b, weight);
        assert(weight(first[first.len() - 1]) == weight(second[first.len() - 1]));
    }
}

proof fn lemma_shard_total_prefix(shards: Seq<ShardModel>, count: int, weight: spec_fn(ShardModel) -> int)
    requires
        0 <= count <= shards.len(),
        forall|k: int| 0 <= k < shards.len() ==> 0 <= weight(#[trigger] shards[k]),
    ensures
        0 <= shard_total(shards.take(count), weight) <= shard_total(shards, weight),
    decreases shards.len(),
{
    if count == shards.len() {
        assert(shards.take(count) =~= shards);
        if shards.len() > 0 {
            lemma_shard_total_prefix_at(shards, shards.len() - 1, weight);
            assert(0 <= weight(shards[shards.len() - 1]));
        }
    } else {
        lemma_shard_total_prefix_at(shards, count, weight);
    }
}

proof fn lemma_shard_total_prefix_at(shards: Seq<ShardModel>, count: int, weight: spec_fn(ShardModel) -> int)
    requires
        0 <= count < shards.len(),
        forall|k: int| 0 <= k < shards.len() ==> 0 <= weight(#[trigger] shards[k]),
    ensures
        0 <= shard_total(shards.take(count), weight) <= shard_total(shards.drop_last(), weight),
        shard_total(shards.drop_last(), weight) <= shard_total(shards, weight),
    decreases shards.len(),
{
    let shorter = shards.drop_last();
    assert forall|k: int| 0 <= k < shorter.len() implies 0 <= weight(#[trigger] shorter[k]) by {
        assert(shorter[k] == shards[k]);
    }
    assert(0 <= weight(shards[shards.len() - 1]));
    assert(shorter.take(count) =~= shards.take(count));
    if count < shorter.len() {
        lemma_shard_total_prefix_at(shorter, count, weight);
    } else {
        assert(shorter.take(count) =~= shorter);
        if shorter.len() > 0 {
            lemma_shard_total_prefix_at(shorter, shorter.len() - 1, weight);
            assert(0 <= weight(shorter[shorter.len() - 1]));
        }
    }
}

proof fn lemma_shard_total_step(shards: Seq<ShardModel>, count: int, weight: spec_fn(ShardModel) -> int)
    requires
        0 <= count < shards.len(),
    ensures
        shard_total(shards.take(count + 1), weight) == shard_total(shards.take(count), weight) + weight(shards[count]),
{
    assert(shards.take(count + 1).drop_last() =~= shards.take(count));
}

/// What the engine holds.
#[verifier::ext_equal]
pub struct EngineModel {
    pub capacity_bytes: usize,
    pub shards: Seq<ShardModel>,
    pub clears: u64,
}

impl EngineModel {
    /// Where a key belongs.
    pub open spec fn shard_of(self, namespace: u32, key: Seq<u8>) -> int {
        key_hash(namespace, key) as int % self.shards.len() as int
    }

    /// The engine with the shard of a key replaced.
    pub open spec fn with_shard(self, namespace: u32, key: Seq<u8>, shard: ShardModel) -> EngineModel {
        EngineModel { shards: self.shards.update(self.shard_of(namespace, key), shard), ..self }
    }

    /// The shard of a key.
    pub open spec fn shard(self, namespace: u32, key: Seq<u8>) -> ShardModel {
        self.shards[self.shard_of(namespace, key)]
    }

    /// The shards split the capacity among themselves and each keeps within
    /// its share.
    pub open spec fn valid(self) -> bool {
        &&& 1 <= self.shards.len() <= MAX_SHARDS
        &&& shard_total(self.shards, by_capacity()) == self.capacity_bytes
        &&& forall|k: int| 0 <= k < self.shards.len() ==> (#[trigger] self.shards[k]).valid() && self.shards[k].settled()
    }

    /// Engine-wide totals; event counters stick at their maximum.
    pub open spec fn stats(self) -> MemoryStats {
        MemoryStats {
            capacity_bytes: self.capacity_bytes,
            charged_bytes: shard_total(self.shards, by_charged_bytes()) as usize,
            entries: shard_total(self.shards, by_entries()) as usize,
            dirty_entries: shard_total(self.shards, by_dirty_entries()) as usize,
            dirty_bytes: shard_total(self.shards, by_dirty_bytes()) as usize,
            hits: counted(0, shard_total(self.shards, by_stat(|s: MemoryStats| s.hits))),
            misses: counted(0, shard_total(self.shards, by_stat(|s: MemoryStats| s.misses))),
            puts: counted(0, shard_total(self.shards, by_stat(|s: MemoryStats| s.puts))),
            rejected: counted(0, shard_total(self.shards, by_stat(|s: MemoryStats| s.rejected))),
            remove_requests: counted(0, shard_total(self.shards, by_stat(|s: MemoryStats| s.remove_requests))),
            removed: counted(0, shard_total(self.shards, by_stat(|s: MemoryStats| s.removed))),
            evictions: counted(0, shard_total(self.shards, by_stat(|s: MemoryStats| s.evictions))),
            expirations: counted(0, shard_total(self.shards, by_stat(|s: MemoryStats| s.expirations))),
            clears: self.clears,
        }
    }
}

/// The capacity of shard `index` when `capacity` is split over `count` shards.
pub open spec fn shard_capacity(capacity: int, count: int, index: int) -> int {
    capacity / count + if index < capacity % count { 1int } else { 0int }
}

/// What is wrong with a capacity and a number of shards, if anything is.
pub open spec fn config_fault(capacity: int, count: int) -> Option<Seq<char>> {
    if !power_of_two(count) {
        Some("shard_count must be a non-zero power of two"@)
    } else if count > MAX_SHARDS {
        Some("shard_count exceeds the hard limit of 4096"@)
    } else if capacity < count * MEMORY_ENTRY_OVERHEAD_BYTES {
        Some("capacity must allow at least one minimum-size entry per shard"@)
    } else {
        None
    }
}

/// Shards that can take the place of an engine's: as many, each sound and with
/// its predecessor's capacity.
pub open spec fn may_replace(before: Seq<ShardModel>, after: Seq<Shard>) -> bool {
    &&& after.len() == before.len()
    &&& forall|k: int| 0 <= k < after.len() ==> {
        &&& (#[trigger] after[k]).wf()
        &&& after[k]@.settled()
        &&& after[k]@.capacity_bytes == before[k].capacity_bytes
    }
}

/// Fixed-capacity, sharded LRU memory tier.
pub struct MemoryEngine {
    capacity_bytes: usize,
    shards: Vec<Shard>,
    clears: u64,
}

impl View for MemoryEngine {
    type V = EngineModel;

    closed spec fn view(&self) -> EngineModel {
        EngineModel {
            capacity_bytes: self.capacity_bytes,
            shards: Seq::new(self.shards@.len(), |k: int| self.shards@[k]@),
            clears: self.clears,
        }
    }
}

impl MemoryEngine {
    /// The engine's invariant.
    pub closed spec fn wf(&self) -> bool {
        &&& forall|k: int| 0 <= k < self.shards@.len() ==> (#[trigger] self.shards@[k]).wf()
        &&& self@.valid()
    }

    /// An empty engine whose capacity is split over the shards.
    pub open spec fn is_fresh(&self, capacity_bytes: usize, shard_count: usize) -> bool {
        &&& self.wf()
        &&& self@.capacity_bytes == capacity_bytes
        &&& self@.clears == 0
        &&& self@.shards.len() == shard_count
        &&& forall|k: int| 0 <= k < shard_count ==> #[trigger] self@.shards[k] == (ShardModel {
            capacity_bytes: shard_capacity(capacity_bytes as int, shard_count as int, k) as usize,
            retained_slots: 0,
            items: Seq::empty(),
            next_revision: 1,
            stats: MemoryStats::zero(),
        })
    }

    /// Splits a byte capacity over a power-of-two number of shards.
    pub fn new(capacity_bytes: usize, shard_count: usize) -> (result: Result<MemoryEngine, MemoryError>)
        ensures
            match result {
                Ok(engine) => {
                    &&& config_fault(capacity_bytes as int, shard_count as int) is None
                    &&& engine.is_fresh(capacity_bytes, shard_count)
                },
                Err(MemoryError::InvalidConfig(message)) => config_fault(capacity_bytes as int, shard_count as int) == Some(message@),
                Err(MemoryError::AllocationFailed) => config_fault(capacity_bytes as int, shard_count as int) is None,
            },
    {
        if shard_count == 0 || !is_power_of_two(shard_count) {
            return Err(MemoryError::InvalidConfig("shard_count must be a non-zero power of two"));
        }
        if shard_count > MAX_SHARDS {
            return Err(MemoryError::InvalidConfig("shard_count exceeds the hard limit of 4096"));
        }
        let minimum_capacity = shard_count * MEMORY_ENTRY_OVERHEAD_BYTES;
        if capacity_bytes < minimum_capacity {
            return Err(MemoryError::InvalidConfig("capacity must allow at least one minimum-size entry per shard"));
        }
        let mut room: Vec<Shard> = Vec::new();
        if !vec_try_reserve_exact(&mut room, shard_count) {
            return Err(MemoryError::AllocationFailed);
        }
        Ok(MemoryEngine::in_room(room, capacity_bytes, shard_count))
    }

    /// Splits a byte capacity over the shards of an engine, kept in an empty
    /// list.
    pub fn in_room(room: Vec<Shard>, capacity_bytes: usize, shard_count: usize) -> (engine: MemoryEngine)
        requires
            room@.len() == 0,
            config_fault(capacity_bytes as int, shard_count as int) is None,
        ensures
            engine.is_fresh(capacity_bytes, shard_count),
    {
        let mut shards = room;
        let base = capacity_bytes / shard_count;
        let remainder = capacity_bytes % shard_count;
        proof {
            assert(base * shard_count + remainder == capacity_bytes) by {
                vstd::arithmetic::div_mod::lemma_fundamental_div_mod(capacity_bytes as int, shard_count as int);
                vstd::arithmetic::mul::lemma_mul_is_commutative(base as int, shard_count as int);
            }
        }
        let mut index: usize = 0;
        let ghost mut models: Seq<ShardModel> = Seq::empty();
        while index < shard_count
            invariant
                0 < shard_count <= MAX_SHARDS,
                index <= shard_count,
                base == capacity_bytes / shard_count,
                remainder == capacity_bytes % shard_count,
                remainder < shard_count,
                base * shard_count + remainder == capacity_bytes,
                shards@.len() == index,
                models.len() == index,
                models == Seq::new(shards@.len(), |k: int| shards@[k]@),
                shard_total(models, by_capacity()) == base * index + (if index < remainder { index as int } else { remainder as int }),
                forall|k: int| 0 <= k < index ==> (#[trigger] shards@[k]).wf() && shards@[k]@ == (ShardModel {
                    capacity_bytes: shard_capacity(capacity_bytes as int, shard_count as int, k) as usize,
                    retained_slots: 0,
                    items: Seq::empty(),
                    next_revision: 1,
                    stats: MemoryStats::zero(),
                }),
            decreases shard_count - index,
        {
            proof {
                vstd::arithmetic::mul::lemma_mul_inequality(1, shard_count as int, base as int);
                vstd::arithmetic::mul::lemma_mul_is_commutative(base as int, shard_count as int);
                vstd::arithmetic::mul::lemma_mul_is_distributive_add(base as int, index as int, 1);
            }
            let share: usize = if index < remainder { base + 1 } else { base };
            let shard = Shard::new(share);
            proof {
                models = models.push(shard@);
                assert(models.drop_last() =~= Seq::new(shards@.len(), |k: int| shards@[k]@));
            }
            shards.push(shard);
            assert(models =~= Seq::new(shards@.len(), |k: int| shards@[k]@));
            index = index + 1;
        }
        let engine = MemoryEngine { capacity_bytes, shards, clears: 0 };
        proof {
            assert(engine@.shards =~= models);
            assert forall|k: int| 0 <= k < engine@.shards.len() implies (#[trigger] engine@.shards[k]).valid() && engine@.shards[k].settled() by {
                engine.shards@[k].lemma_valid();
            }
        }
        engine
    }
}

/// The charge of an entry whose buffers have these capacities, if it can be
/// counted.
pub open spec fn capacity_charge(key_capacity: int, value_capacity: int) -> Option<usize> {
    if MEMORY_ENTRY_OVERHEAD_BYTES + key_capacity + value_capacity <= usize::MAX {
        Some((MEMORY_ENTRY_OVERHEAD_BYTES + key_capacity + value_capacity) as usize)
    } else {
        None
    }
}

/// An entry is charged for buffers that hold at least its bytes.
pub open spec fn charge_covers(entry: EntryModel, charged: Option<usize>) -> bool {
    exists|key_capacity: usize, value_capacity: usize|
        {
            &&& entry.key.len() <= key_capacity
            &&& entry.value.len() <= value_capacity
            &&& charged == #[trigger] capacity_charge(key_capacity as int, value_capacity as int)
        }
}

/// Overhead plus the capacities of an entry's buffers; `None` if the sum does
/// not fit.
pub fn charge_of_capacities(key_capacity: usize, value_capacity: usize) -> (charged: Option<usize>)
    ensures
        charged == capacity_charge(key_capacity as int, value_capacity as int),
{
    let with_key = MEMORY_ENTRY_OVERHEAD_BYTES.checked_add(key_capacity)?;
    with_key.checked_add(value_capacity)
}

impl MemoryEntry {
    /// An entry without a pending disk charge.
    pub fn new_versioned(
        namespace: u32,
        key: Vec<u8>,
        value: Vec<u8>,
        expires_at_unix_ms: Option<u64>,
        version: HybridVersion,
        disk_clean: bool,
    ) -> (entry: MemoryEntry)
        ensures
            entry@ == (EntryModel {
                namespace,
                key: key@,
                value: value@,
                expires_at_unix_ms,
                version,
                disk_clean,
                pending_disk_bytes: 0,
            }),
    {
        MemoryEntry::new_versioned_with_pending_disk_bytes(
            namespace,
            key,
            value,
            expires_at_unix_ms,
            version,
            disk_clean,
            0,
        )
    }

    /// An entry of the version that precedes every published one.
    pub fn new(namespace: u32, key: Vec<u8>, value: Vec<u8>, expires_at_unix_ms: Option<u64>, disk_clean: bool) -> (entry: MemoryEntry)
        ensures
            entry@ == (EntryModel {
                namespace,
                key: key@,
                value: value@,
                expires_at_unix_ms,
                version: HybridVersion { epoch: 0, seqno: 0 },
                disk_clean,
                pending_disk_bytes: 0,
            }),
    {
        MemoryEntry::new_versioned(namespace, key, value, expires_at_unix_ms, HybridVersion::zero(), disk_clean)
    }

    /// An entry with the namespace charge of its version.
    pub fn new_versioned_with_pending_disk_bytes(
        namespace: u32,
        key: Vec<u8>,
        value: Vec<u8>,
        expires_at_unix_ms: Option<u64>,
        version: HybridVersion,
        disk_clean: bool,
        pending_disk_bytes: u64,
    ) -> (entry: MemoryEntry)
        ensures
            entry@ == (EntryModel {
                namespace,
                key: key@,
                value: value@,
                expires_at_unix_ms,
                version,
                disk_clean,
                pending_disk_bytes,
            }),
    {
        MemoryEntry {
            namespace,
            key,
            value: Arc::new(value),
            expires_at_unix_ms,
            version,
            disk_clean,
            pending_disk_bytes,
        }
    }

    /// Overhead plus the full capacities of the owned buffers, as
    /// [`charge_of_capacities`] adds them up. How far the capacities exceed the
    /// lengths is up to the allocator.
    pub fn charged_bytes(&self) -> (charged: Option<usize>)
        ensures
            charge_covers(self@, charged),
    {
        let key_capacity = vec_capacity(&self.key);
        let value_capacity = vec_capacity(&self.value);
        charge_of_capacities(key_capacity, value_capacity)
    }
}

impl MemoryEngine {
    /// The shard that a key belongs to.
    fn shard_index(&self, namespace: u32, key: &[u8]) -> (index: usize)
        requires
            self.wf(),
        ensures
            index == self@.shard_of(namespace, key@),
            index < self.shards@.len(),
    {
        let hash = hash_key(namespace, key);
        proof {
            assert(self@.shards.len() == self.shards@.len());
        }
        (hash % (self.shards.len() as u64)) as usize
    }

    /// Replacing one shard by a valid one of the same capacity keeps the
    /// engine valid.
    proof fn lemma_shard_replaced(before: &MemoryEngine, after: &MemoryEngine, index: int)
        requires
            before.wf(),
            0 <= index < before.shards@.len(),
            after.shards@ == before.shards@.update(index, after.shards@[index]),
            after.capacity_bytes == before.capacity_bytes,
            after.shards@[index].wf(),
            after.shards@[index]@.settled(),
            after.shards@[index]@.capacity_bytes == before.shards@[index]@.capacity_bytes,
        ensures
            after.wf(),
            after@.shards == before@.shards.update(index, after.shards@[index]@),
    {
        assert(after@.shards =~= before@.shards.update(index, after.shards@[index]@));
        assert forall|k: int| 0 <= k < after@.shards.len() implies (#[trigger] after@.shards[k]).valid() && after@.shards[k].settled() by {
            after.shards@[index].lemma_valid();
            if k != index {
                assert(before@.shards[k].valid());
            }
        }
        assert forall|k: int| 0 <= k < before@.shards.len() implies by_capacity()(#[trigger] after@.shards[k])
            == by_capacity()(before@.shards[k]) by {}
        lemma_shard_total_same(after@.shards, before@.shards, by_capacity());
        assert forall|k: int| 0 <= k < after.shards@.len() implies (#[trigger] after.shards@[k]).wf() by {
            if k != index {
                assert(before.shards@[k].wf());
            }
        }
    }

    proof fn lemma_shards_replaced(before: &MemoryEngine, after: &MemoryEngine)
        requires
            before.wf(),
            after.capacity_bytes == before.capacity_bytes,
            may_replace(before@.shards, after.shards@),
        ensures
            after.wf(),
    {
        assert forall|k: int| 0 <= k < after@.shards.len() implies (#[trigger] after@.shards[k]).valid() && after@.shards[k].settled() by {
            after.shards@[k].lemma_valid();
        }
        assert forall|k: int| 0 <= k < before@.shards.len() implies by_capacity()(#[trigger] after@.shards[k])
            == by_capacity()(before@.shards[k]) by {
            assert(after.shards@[k].wf());
        }
        lemma_shard_total_same(after@.shards, before@.shards, by_capacity());
    }

    /// The engine's invariant implies what it promises of its contents.
    pub proof fn lemma_valid(&self)
        requires
            self.wf(),
        ensures
            self@.valid(),
    {
    }

    /// Offers an entry of the given charge to the engine. Dirty entries never
    /// leave.
    pub fn put_charged_at(&mut self, entry: MemoryEntry, charged_bytes: Option<usize>, now_unix_ms: u64) -> (result: MemoryPutResult)
        requires
            old(self).wf(),
            charged_bytes matches Some(charged) ==> charged >= MEMORY_ENTRY_OVERHEAD_BYTES,
        ensures
            final(self).wf(),
            ({
                let after = final(self)@.shard(entry.namespace, entry.key@);
                &&& final(self)@ == old(self)@.with_shard(entry.namespace, entry.key@, after)
                &&& old(self)@.shard(entry.namespace, entry.key@).put_outcome(entry, charged_bytes, now_unix_ms, after, result)
            }),
    {
        let index = self.shard_index(entry.namespace, entry.key.as_slice());
        let shard = &mut self.shards[index];
        let result = shard.put_charged(entry, charged_bytes, now_unix_ms);
        proof {
            assert(old(self)@.shards[index as int].settled());
            MemoryEngine::lemma_shard_replaced(old(self), self, index as int);
        }
        result
    }

    /// Offers an entry to the engine at its own charge. Dirty entries never
    /// leave.
    pub fn put_at(&mut self, entry: MemoryEntry, now_unix_ms: u64) -> (result: MemoryPutResult)
        requires
            old(self).wf(),
        ensures
            final(self).wf(),
            ({
                let after = final(self)@.shard(entry.namespace, entry.key@);
                &&& final(self)@ == old(self)@.with_shard(entry.namespace, entry.key@, after)
                &&& exists|charged: Option<usize>|
                    charge_covers(entry@, charged) && #[trigger] old(self)@.shard(entry.namespace, entry.key@).put_outcome(
                        entry,
                        charged,
                        now_unix_ms,
                        after,
                        result,
                    )
            }),
    {
        let charged_bytes = entry.charged_bytes();
        self.put_charged_at(entry, charged_bytes, now_unix_ms)
    }

    /// Offers an entry of the given charge to the engine, preparing dirty
    /// victims with `demote`.
    pub fn put_charged_at_with_demote<F: FnMut(&MemoryEntry) -> Option<u64>>(
        &mut self,
        entry: MemoryEntry,
        charged_bytes: Option<usize>,
        now_unix_ms: u64,
        demote: F,
    ) -> (result: MemoryPutResult)
        requires
            old(self).wf(),
            charged_bytes matches Some(charged) ==> charged >= MEMORY_ENTRY_OVERHEAD_BYTES,
            forall|handed: &MemoryEntry| demote.requires((handed,)),
        ensures
            final(self).wf(),
            ({
                let after = final(self)@.shard(entry.namespace, entry.key@);
                &&& final(self)@ == old(self)@.with_shard(entry.namespace, entry.key@, after)
                &&& old(self)@.shard(entry.namespace, entry.key@).demoting_put_outcome(
                    entry,
                    charged_bytes,
                    now_unix_ms,
                    demote,
                    after,
                    result,
                )
            }),
    {
        let index = self.shard_index(entry.namespace, entry.key.as_slice());
        let shard = &mut self.shards[index];
        let result = shard.put_charged_with_demote(entry, charged_bytes, now_unix_ms, demote);
        proof {
            assert(old(self)@.shards[index as int].settled());
            MemoryEngine::lemma_shard_replaced(old(self), self, index as int);
        }
        result
    }

    /// Offers an entry to the engine at its own charge, preparing dirty victims
    /// with `demote`.
    pub fn put_at_with_demote<F: FnMut(&MemoryEntry) -> Option<u64>>(
        &mut self,
        entry: MemoryEntry,
        now_unix_ms: u64,
        demote: F,
    ) -> (result: MemoryPutResult)
        requires
            old(self).wf(),
            forall|handed: &MemoryEntry| demote.requires((handed,)),
        ensures
            final(self).wf(),
            ({
                let after = final(self)@.shard(entry.namespace, entry.key@);
                &&& final(self)@ == old(self)@.with_shard(entry.namespace, entry.key@, after)
                &&& exists|charged: Option<usize>|
                    charge_covers(entry@, charged) && #[trigger] old(self)@.shard(
                        entry.namespace,
                        entry.key@,
                    ).demoting_put_outcome(entry, charged, now_unix_ms, demote, after, result)
            }),
    {
        let charged_bytes = entry.charged_bytes();
        self.put_charged_at_with_demote(entry, charged_bytes, now_unix_ms, demote)
    }

    /// Looks an entry up; a hit or an expired entry leaves only after the
    /// caller has reserved the exact temporary bytes.
    pub fn get_at_with_reservation<R: FnOnce(usize) -> bool, C: FnOnce() -> bool>(
        &mut self,
        namespace: u32,
        key: &[u8],
        now_unix_ms: u64,
        reserve: R,
        commit_expiry: C,
    ) -> (result: Result<MemoryLookup, MemoryError>)
        requires
            old(self).wf(),
            forall|bytes: usize| reserve.requires((bytes,)),
            commit_expiry.requires(()),
        ensures
            final(self).wf(),
            ({
                let after = final(self)@.shard(namespace, key@);
                &&& final(self)@ == old(self)@.with_shard(namespace, key@, after)
                &&& old(self)@.shard(namespace, key@).get_outcome(
                    namespace,
                    key@,
                    now_unix_ms,
                    reserve,
                    commit_expiry,
                    after,
                    result,
                )
            }),
    {
        let index = self.shard_index(namespace, key);
        let shard = &mut self.shards[index];
        let result = shard.get_at_with_reservation(namespace, key, now_unix_ms, reserve, commit_expiry);
        proof {
            assert(old(self)@.shards[index as int].settled());
            MemoryEngine::lemma_shard_replaced(old(self), self, index as int);
        }
        result
    }

    /// Looks an entry up for a caller without a reservation budget.
    pub fn get_at(&mut self, namespace: u32, key: &[u8], now_unix_ms: u64) -> (result: Result<MemoryLookup, MemoryError>)
        requires
            old(self).wf(),
        ensures
            final(self).wf(),
            ({
                let before = old(self)@.shard(namespace, key@);
                let after = final(self)@.shard(namespace, key@);
                &&& final(self)@ == old(self)@.with_shard(namespace, key@, after)
                &&& match before.find(namespace, key@) {
                    None => result == Ok::<MemoryLookup, MemoryError>(MemoryLookup::Miss) && after == before.miss_counted(),
                    Some(position) => if before.items[position].entry.expired_at(now_unix_ms) {
                        &&& result matches Ok(MemoryLookup::Expired(entry)) && entry@ == before.items[position].entry
                        &&& after == before.removed(position).expiration_counted().miss_counted()
                    } else {
                        &&& result matches Ok(MemoryLookup::Hit(hit)) && hit.shows(before.items[position])
                        &&& after == before.touched(position).hit_counted()
                    },
                }
            }),
    {
        let reserve = |bytes: usize| -> (granted: bool)
            ensures
                granted,
            { true };
        let commit_expiry = || -> (granted: bool)
            ensures
                granted,
            { true };
        self.get_at_with_reservation(namespace, key, now_unix_ms, reserve, commit_expiry)
    }

    /// Looks a live entry up without transferring expired state. The hybrid
    /// coordinator uses this optimistic probe before taking its slower per-key
    /// disk-ordering lock; a miss or expired entry is rechecked under that lock.
    pub fn get_live_at_with_reservation<R: FnOnce(usize) -> bool>(
        &mut self,
        namespace: u32,
        key: &[u8],
        now_unix_ms: u64,
        reserve: R,
    ) -> (result: Result<Option<MemoryHit>, MemoryError>)
        requires
            old(self).wf(),
            forall|bytes: usize| reserve.requires((bytes,)),
        ensures
            final(self).wf(),
            ({
                let after = final(self)@.shard(namespace, key@);
                &&& final(self)@ == old(self)@.with_shard(namespace, key@, after)
                &&& old(self)@.shard(namespace, key@).get_live_outcome(namespace, key@, now_unix_ms, reserve, after, result)
            }),
    {
        let index = self.shard_index(namespace, key);
        let shard = &mut self.shards[index];
        let result = shard.get_live_at_with_reservation(namespace, key, now_unix_ms, reserve);
        proof {
            assert(old(self)@.shards[index as int].settled());
            MemoryEngine::lemma_shard_replaced(old(self), self, index as int);
        }
        result
    }

    /// Accounting metadata of a resident entry, without changing LRU order or
    /// hit/miss counters.
    pub fn entry_usage_at(&self, namespace: u32, key: &[u8], now_unix_ms: u64) -> (usage: Option<MemoryEntryUsage>)
        requires
            self.wf(),
        ensures
            ({
                let shard = self@.shard(namespace, key@);
                usage == match shard.find(namespace, key@) {
                    Some(position) => Some(
                        MemoryEntryUsage {
                            disk_clean: shard.items[position].entry.disk_clean,
                            pending_disk_bytes: shard.items[position].entry.pending_disk_bytes,
                            expired: shard.items[position].entry.expired_at(now_unix_ms),
                        },
                    ),
                    None => None,
                }
            }),
    {
        let index = self.shard_index(namespace, key);
        assert(self@.shards[index as int] == self.shards@[index as int]@);
        self.shards[index].entry_usage_at(namespace, key, now_unix_ms)
    }

    /// Removes the entry under a key.
    pub fn remove_at(&mut self, namespace: u32, key: &[u8], now_unix_ms: u64) -> (removed: Option<MemoryEntry>)
        requires
            old(self).wf(),
        ensures
            final(self).wf(),
            ({
                let before = old(self)@.shard(namespace, key@);
                &&& final(self)@ == old(self)@.with_shard(
                    namespace,
                    key@,
                    before.remove_requested(namespace, key@, now_unix_ms),
                )
                &&& match before.find(namespace, key@) {
                    Some(position) => removed is Some && removed->0@ == before.items[position].entry,
                    None => removed is None,
                }
            }),
    {
        let index = self.shard_index(namespace, key);
        let shard = &mut self.shards[index];
        let removed = shard.remove_at(namespace, key, now_unix_ms);
        proof {
            assert(old(self)@.shards[index as int].settled());
            MemoryEngine::lemma_shard_replaced(old(self), self, index as int);
        }
        removed
    }

    fn set_disk_clean_if(&mut self, namespace: u32, key: &[u8], revision: u64, disk_clean: bool) -> (matched: bool)
        requires
            old(self).wf(),
        ensures
            final(self).wf(),
            ({
                let before = old(self)@.shard(namespace, key@);
                match before.find(namespace, key@) {
                    Some(position) => {
                        &&& matched == (before.items[position].revision == revision)
                        &&& final(self)@ == if matched {
                            old(self)@.with_shard(namespace, key@, before.flagged(position, disk_clean))
                        } else {
                            old(self)@
                        }
                    },
                    None => !matched && final(self)@ == old(self)@,
                }
            }),
    {
        let index = self.shard_index(namespace, key);
        let shard = &mut self.shards[index];
        let matched = shard.set_disk_clean_if(namespace, key, revision, disk_clean);
        proof {
            assert(old(self)@.shards[index as int].settled());
            MemoryEngine::lemma_shard_replaced(old(self), self, index as int);
            let shards = old(self)@.shards;
            assert(shards.update(index as int, shards[index as int]) =~= shards);
        }
        matched
    }

    /// Marks exactly the revision completed by an asynchronous disk write.
    pub fn mark_disk_clean_if(&mut self, namespace: u32, key: &[u8], revision: u64) -> (matched: bool)
        requires
            old(self).wf(),
        ensures
            final(self).wf(),
            ({
                let before = old(self)@.shard(namespace, key@);
                match before.find(namespace, key@) {
                    Some(position) => {
                        &&& matched == (before.items[position].revision == revision)
                        &&& final(self)@ == if matched {
                            old(self)@.with_shard(namespace, key@, before.flagged(position, true))
                        } else {
                            old(self)@
                        }
                    },
                    None => !matched && final(self)@ == old(self)@,
                }
            }),
    {
        self.set_disk_clean_if(namespace, key, revision, true)
    }

    /// Marks exactly the given revision as not persisted.
    pub fn mark_disk_dirty_if(&mut self, namespace: u32, key: &[u8], revision: u64) -> (matched: bool)
        requires
            old(self).wf(),
        ensures
            final(self).wf(),
            ({
                let before = old(self)@.shard(namespace, key@);
                match before.find(namespace, key@) {
                    Some(position) => {
                        &&& matched == (before.items[position].revision == revision)
                        &&& final(self)@ == if matched {
                            old(self)@.with_shard(namespace, key@, before.flagged(position, false))
                        } else {
                            old(self)@
                        }
                    },
                    None => !matched && final(self)@ == old(self)@,
                }
            }),
    {
        self.set_disk_clean_if(namespace, key, revision, false)
    }
}

/// Clearing every shard drops its entries and slots and keeps the rest.
pub open spec fn cleared_shard(shard: ShardModel) -> ShardModel {
    ShardModel { items: Seq::empty(), retained_slots: 0, ..shard }
}

/// The engine after a clear.
pub open spec fn cleared(engine: EngineModel) -> EngineModel {
    EngineModel {
        capacity_bytes: engine.capacity_bytes,
        shards: engine.shards.map_values(|shard: ShardModel| cleared_shard(shard)),
        clears: counted(engine.clears, 1),
    }
}

impl EngineModel {
    /// The first `count` shards have been persisted in full, the others have
    /// not been touched.
    pub open spec fn persisted_up_to<F: Fn(&MemoryEntry) -> Result<u64, E>, E>(
        self,
        persist: F,
        count: int,
        after: EngineModel,
    ) -> bool {
        &&& after.shards.len() == self.shards.len()
        &&& after == (EngineModel { shards: after.shards, ..self })
        &&& forall|k: int| 0 <= k < count ==> #[trigger] self.shards[k].all_persisted(persist, after.shards[k])
        &&& forall|k: int| count <= k < self.shards.len() ==> #[trigger] after.shards[k] == self.shards[k]
    }
}

impl MemoryEngine {
    /// Bounds on the engine's totals.
    proof fn lemma_totals(&self)
        requires
            self.wf(),
        ensures
            forall|k: int| 0 <= k < self@.shards.len() ==> {
                &&& 0 <= (#[trigger] self@.shards[k]).charged_bytes() <= self@.shards[k].capacity_bytes
                &&& 0 <= self@.shards[k].items.len() <= self@.shards[k].charged_bytes()
                &&& 0 <= self@.shards[k].dirty_entries() <= self@.shards[k].charged_bytes()
                &&& 0 <= self@.shards[k].dirty_bytes() <= self@.shards[k].charged_bytes()
            },
            0 <= shard_total(self@.shards, by_entries()) <= shard_total(self@.shards, by_charged_bytes()),
            0 <= shard_total(self@.shards, by_dirty_entries()) <= shard_total(self@.shards, by_charged_bytes()),
            0 <= shard_total(self@.shards, by_dirty_bytes()) <= shard_total(self@.shards, by_charged_bytes()),
            0 <= shard_total(self@.shards, by_charged_bytes()) <= self@.capacity_bytes,
    {
        let shards = self@.shards;
        assert forall|k: int| 0 <= k < shards.len() implies {
            &&& 0 <= (#[trigger] shards[k]).charged_bytes() <= shards[k].capacity_bytes
            &&& 0 <= shards[k].items.len() <= shards[k].charged_bytes()
            &&& 0 <= shards[k].dirty_entries() <= shards[k].charged_bytes()
            &&& 0 <= shards[k].dirty_bytes() <= shards[k].charged_bytes()
        } by {
            self.shards@[k].lemma_charge_bounds();
        }
        lemma_shard_total_order(shards, by_entries(), by_charged_bytes());
        lemma_shard_total_order(shards, by_dirty_entries(), by_charged_bytes());
        lemma_shard_total_order(shards, by_dirty_bytes(), by_charged_bytes());
        lemma_shard_total_order(shards, by_charged_bytes(), by_capacity());
        lemma_shard_total_prefix(shards, 0, by_entries());
        lemma_shard_total_prefix(shards, 0, by_dirty_entries());
        lemma_shard_total_prefix(shards, 0, by_dirty_bytes());
        lemma_shard_total_prefix(shards, 0, by_charged_bytes());
    }

    /// Persists every dirty entry, shard by shard, and marks it clean only
    /// after the callback succeeds. Reports how many entries and bytes that
    /// were; stops at the first failure.
    pub fn persist_all_dirty<F: Fn(&MemoryEntry) -> Result<u64, E>, E>(&mut self, persist: &F) -> (result: Result<(usize, usize), E>)
        requires
            old(self).wf(),
            forall|handed: &MemoryEntry| persist.requires((handed,)),
        ensures
            final(self).wf(),
            match result {
                Ok((entries, bytes)) => {
                    &&& old(self)@.persisted_up_to(*persist, old(self)@.shards.len() as int, final(self)@)
                    &&& entries == shard_total(old(self)@.shards, by_dirty_entries())
                    &&& bytes == shard_total(old(self)@.shards, by_dirty_bytes())
                    &&& forall|k: int|
                        0 <= k < final(self)@.shards.len() ==> (#[trigger] final(self)@.shards[k]).dirty_entries() == 0
                },
                Err(error) => exists|k: int, middle: EngineModel|
                    {
                        &&& 0 <= k < old(self)@.shards.len()
                        &&& #[trigger] old(self)@.persisted_up_to(*persist, k, middle)
                        &&& old(self)@.shards[k].persistence_failed(*persist, final(self)@.shards[k], error)
                        &&& final(self)@ == (EngineModel {
                            shards: middle.shards.update(k, final(self)@.shards[k]),
                            ..middle
                        })
                    },
            },
    {
        let ghost before = self@;
        let mut entries: usize = 0;
        let mut bytes: usize = 0;
        let mut index: usize = 0;
        proof {
            self.lemma_totals();
        }
        while index < self.shards.len()
            invariant
                before == old(self)@,
                old(self).wf(),
                self.wf(),
                index <= self.shards@.len(),
                self@.shards.len() == before.shards.len() == self.shards@.len(),
                forall|handed: &MemoryEntry| persist.requires((handed,)),
                before.persisted_up_to(*persist, index as int, self@),
                entries == shard_total(before.shards.take(index as int), by_dirty_entries()),
                bytes == shard_total(before.shards.take(index as int), by_dirty_bytes()),
                forall|k: int| 0 <= k < index ==> (#[trigger] self@.shards[k]).dirty_entries() == 0,
            decreases self.shards@.len() - index,
        {
            let ghost current = self@;
            let ghost engine = *self;
            proof {
                old(self).lemma_totals();
                lemma_shard_total_step(before.shards, index as int, by_dirty_entries());
                lemma_shard_total_step(before.shards, index as int, by_dirty_bytes());
                lemma_shard_total_prefix(before.shards, index + 1, by_dirty_entries());
                lemma_shard_total_prefix(before.shards, index + 1, by_dirty_bytes());
                assert(current.shards[index as int] == before.shards[index as int]);
                assert(self.shards@[index as int]@ == current.shards[index as int]);
            }
            let shard = &mut self.shards[index];
            let step = shard.persist_all_dirty(persist);
            proof {
                MemoryEngine::lemma_shard_replaced(&engine, self, index as int);
            }
            match step {
                Ok((shard_entries, shard_bytes)) => {
                    entries = entries + shard_entries;
                    bytes = bytes + shard_bytes;
                },
                Err(error) => {
                    assert(before.persisted_up_to(*persist, index as int, current));
                    return Err(error);
                },
            }
            index = index + 1;
        }
        proof {
            assert(before.shards.take(before.shards.len() as int) =~= before.shards);
        }
        Ok((entries, bytes))
    }

    /// The shards, so that each can be worked on by a thread of its own. The
    /// engine stays sound if every shard comes back sound with its capacity.
    pub fn shards_mut(&mut self) -> (shards: &mut [Shard])
        requires
            old(self).wf(),
        ensures
            shards@.len() == old(self)@.shards.len(),
            forall|k: int| 0 <= k < shards@.len() ==> {
                &&& (#[trigger] shards@[k]).wf()
                &&& shards@[k]@ == old(self)@.shards[k]
            },
            final(self)@ == (EngineModel {
                shards: final(shards)@.map_values(|shard: Shard| shard@),
                ..old(self)@
            }),
            may_replace(old(self)@.shards, final(shards)@) ==> final(self).wf(),
    {
        proof {
            let before = *self;
            assert forall|after: MemoryEngine|
                after.capacity_bytes == before.capacity_bytes && may_replace(before@.shards, after.shards@) implies
                #[trigger] after.wf() by {
                MemoryEngine::lemma_shards_replaced(&before, &after);
            }
        }
        self.shards.as_mut_slice()
    }

    /// Discards all entries. Dirty values are intentionally not returned: a
    /// hybrid clear also invalidates the disk tier, so writing them back would
    /// be wrong.
    pub fn clear(&mut self) -> (removed: usize)
        requires
            old(self).wf(),
        ensures
            final(self).wf(),
            removed == shard_total(old(self)@.shards, by_entries()),
            final(self)@ == cleared(old(self)@),
    {
        let ghost before = self@;
        let mut removed: usize = 0;
        let mut index: usize = 0;
        while index < self.shards.len()
            invariant
                before == old(self)@,
                old(self).wf(),
                self.wf(),
                index <= self.shards@.len(),
                self@.shards.len() == before.shards.len() == self.shards@.len(),
                self@ == (EngineModel { shards: self@.shards, ..before }),
                forall|k: int| 0 <= k < index ==> #[trigger] self@.shards[k] == cleared_shard(before.shards[k]),
                forall|k: int| index <= k < before.shards.len() ==> #[trigger] self@.shards[k] == before.shards[k],
                removed == shard_total(before.shards.take(index as int), by_entries()),
            decreases self.shards@.len() - index,
        {
            let ghost engine = *self;
            proof {
                old(self).lemma_totals();
                lemma_shard_total_step(before.shards, index as int, by_entries());
                lemma_shard_total_prefix(before.shards, index + 1, by_entries());
                assert(self.shards@[index as int]@ == self@.shards[index as int]);
            }
            let shard = &mut self.shards[index];
            removed = removed + shard.clear();
            proof {
                MemoryEngine::lemma_shard_replaced(&engine, self, index as int);
            }
            index = index + 1;
        }
        self.clears = self.clears.saturating_add(1);
        proof {
            assert(before.shards.take(before.shards.len() as int) =~= before.shards);
            assert(self@.shards =~= before.shards.map_values(|shard: ShardModel| cleared_shard(shard)));
        }
        removed
    }

    /// Engine-wide operational stats.
    #[verifier::rlimit(60)]
    pub fn stats(&self) -> (stats: MemoryStats)
        requires
            self.wf(),
        ensures
            stats == self@.stats(),
    {
        let ghost shards = self@.shards;
        let mut total = MemoryStats::default();
        total.capacity_bytes = self.capacity_bytes;
        total.clears = self.clears;
        let mut index: usize = 0;
        while index < self.shards.len()
            invariant
                self.wf(),
                shards == self@.shards,
                shards.len() == self.shards@.len(),
                index <= self.shards@.len(),
                total == (EngineModel { shards: shards.take(index as int), ..self@ }).stats(),
            decreases self.shards@.len() - index,
        {
            proof {
                self.lemma_totals();
                lemma_shard_total_step(shards, index as int, by_charged_bytes());
                lemma_shard_total_step(shards, index as int, by_entries());
                lemma_shard_total_step(shards, index as int, by_dirty_entries());
                lemma_shard_total_step(shards, index as int, by_dirty_bytes());
                lemma_shard_total_prefix(shards, index as int, by_charged_bytes());
                lemma_shard_total_prefix(shards, index as int, by_entries());
                lemma_shard_total_prefix(shards, index as int, by_dirty_entries());
                lemma_shard_total_prefix(shards, index as int, by_dirty_bytes());
                lemma_shard_total_prefix(shards, index + 1, by_charged_bytes());
                lemma_shard_total_prefix(shards, index + 1, by_entries());
                lemma_shard_total_prefix(shards, index + 1, by_dirty_entries());
                lemma_shard_total_prefix(shards, index + 1, by_dirty_bytes());
                assert(self.shards@[index as int]@ == shards[index as int]);
            }
            let snapshot = self.shards[index].snapshot();
            total.charged_bytes = total.charged_bytes + snapshot.charged_bytes;
            total.entries = total.entries + snapshot.entries;
            total.dirty_entries = total.dirty_entries + snapshot.dirty_entries;
            total.dirty_bytes = total.dirty_bytes + snapshot.dirty_bytes;
            total.hits = total.hits.saturating_add(snapshot.hits);
            total.misses = total.misses.saturating_add(snapshot.misses);
            total.puts = total.puts.saturating_add(snapshot.puts);
            total.rejected = total.rejected.saturating_add(snapshot.rejected);
            total.remove_requests = total.remove_requests.saturating_add(snapshot.remove_requests);
            total.removed = total.removed.saturating_add(snapshot.removed);
            total.evictions = total.evictions.saturating_add(snapshot.evictions);
            total.expirations = total.expirations.saturating_add(snapshot.expirations);
            proof {
                lemma_stat_step(shards, index as int);
            }
            index = index + 1;
        }
        proof {
            assert(shards.take(shards.len() as int) =~= shards);
        }
        total
    }

    /// Number of shards.
    pub fn shard_count(&self) -> (count: usize)
        ensures
            count == self@.shards.len(),
    {
        self.shards.len()
    }

    /// One shard, for inspection.
    pub fn shard(&self, index: usize) -> (shard: &Shard)
        requires
            self.wf(),
            index < self@.shards.len(),
        ensures
            shard.wf(),
            shard@ == self@.shards[index as int],
    {
        &self.shards[index]
    }
}

proof fn lemma_stat_step(shards: Seq<ShardModel>, count: int)
    requires
        0 <= count < shards.len(),
    ensures
        forall|counter: spec_fn(MemoryStats) -> u64|
            shard_total(shards.take(count + 1), #[trigger] by_stat(counter)) == shard_total(
                shards.take(count),
                by_stat(counter),
            ) + counter(shards[count].stats),
        forall|counter: spec_fn(MemoryStats) -> u64| 0 <= shard_total(shards.take(count), #[trigger] by_stat(counter)),
{
    assert forall|counter: spec_fn(MemoryStats) -> u64|
        shard_total(shards.take(count + 1), #[trigger] by_stat(counter)) == shard_total(
            shards.take(count),
            by_stat(counter),
        ) + counter(shards[count].stats) by {
        lemma_shard_total_step(shards, count, by_stat(counter));
    }
    assert forall|counter: spec_fn(MemoryStats) -> u64| 0 <= shard_total(shards.take(count), #[trigger] by_stat(counter)) by {
        lemma_shard_total_prefix(shards, count, by_stat(counter));
    }
}

// ---------------------------------------------------------------------------
// Laws
// ---------------------------------------------------------------------------

/// An admitted entry is found at once, in front, exactly as it was put.
pub proof fn law_admitted_entry_is_found(before: ShardModel, entry: EntryModel, charged: usize, now: u64)
    requires
        before.valid(),
        before.admitted(entry, charged, now).valid(),
    ensures
        before.admitted(entry, charged, now).find(entry.namespace, entry.key) == Some(0int),
        before.admitted(entry, charged, now).items[0].entry == entry,
        before.admitted(entry, charged, now).items[0].revision == before.next_revision,
{
    let after = before.admitted(entry, charged, now);
    assert(after.holds_at(entry.namespace, entry.key, 0));
    lemma_find_at(after, entry.namespace, entry.key, 0);
}

/// A resident key takes a new value without asking the allocator, as long as
/// the value fits and no dirty entry would have to leave for it.
pub proof fn law_resident_key_takes_a_new_value(
    before: ShardModel,
    entry: MemoryEntry,
    charged: Option<usize>,
    now: u64,
    after: ShardModel,
    result: MemoryPutResult,
)
    requires
        before.valid(),
        before.put_outcome(entry, charged, now, after, result),
        before.find(entry.namespace, entry.key@) is Some,
        before.refusal(entry@, charged, now) is None,
        !before.put_plan(entry.namespace, entry.key@, charged->0).rebuild,
        !before.has_dirty_victim(entry.namespace, entry.key@, before.put_plan(entry.namespace, entry.key@, charged->0)),
    ensures
        result is Stored,
        after == before.attempted().admitted(entry@, charged->0, now),
{
    let attempted = before.attempted();
    let choice = choose|k: int| before.holds_at(entry.namespace, entry.key@, k);
    assert(before.holds_at(entry.namespace, entry.key@, choice));
    assert(attempted.holds_at(entry.namespace, entry.key@, choice));
    lemma_plan_same(before, attempted, entry.namespace, entry.key@, charged->0);
    assert(key_hash(attempted.items[choice].entry.namespace, attempted.items[choice].entry.key) == key_hash(
        entry.namespace,
        entry.key@,
    ));
    assert(!attempted.needs_allocation(entry.namespace, entry.key@, charged->0));
}

/// A refused put leaves every resident entry, its order and its charge alone.
pub proof fn law_refused_put_changes_no_entry(
    before: ShardModel,
    entry: MemoryEntry,
    charged: Option<usize>,
    now: u64,
    after: ShardModel,
    result: MemoryPutResult,
)
    requires
        before.put_outcome(entry, charged, now, after, result),
        result is NotStored,
    ensures
        result->NotStored_entry == entry,
        after.items == before.items,
        after.retained_slots == before.retained_slots,
        after.charged_bytes() == before.charged_bytes(),
        after.next_revision == before.next_revision,
{
}

/// A demotion that fails keeps every entry resident, in order and at its
/// charge; only persistence state may have advanced.
pub proof fn law_failed_demotion_keeps_entries<F: FnMut(&MemoryEntry) -> Option<u64>>(
    before: ShardModel,
    entry: MemoryEntry,
    charged: Option<usize>,
    now: u64,
    demote: F,
    after: ShardModel,
    result: MemoryPutResult,
)
    requires
        before.demoting_put_outcome(entry, charged, now, demote, after, result),
        result is NotStored,
    ensures
        after.items.len() == before.items.len(),
        forall|k: int| 0 <= k < before.items.len() ==> {
            let old_item = before.items[k];
            let new_item = #[trigger] after.items[k];
            &&& new_item.revision == old_item.revision
            &&& new_item.charged_bytes == old_item.charged_bytes
            &&& new_item.entry == old_item.entry || (!old_item.entry.disk_clean && new_item.entry
                == old_item.entry.persisted(new_item.entry.pending_disk_bytes))
        },
{
    let attempted = before.attempted();
    match attempted.refusal(entry@, charged, now) {
        Some(reason) => {},
        None => {
            let plan = attempted.put_plan(entry.namespace, entry.key@, charged->0);
            if exists|stop: int, middle: ShardModel|
                {
                    &&& attempted.demotion_stopped_at(entry.namespace, entry.key@, plan, demote, stop)
                    &&& #[trigger] attempted.prepared_beyond(entry.namespace, entry.key@, plan, demote, stop, middle)
                    &&& after == middle.rejected()
                } {
                let (stop, middle): (int, ShardModel) = choose|stop: int, middle: ShardModel|
                    {
                        &&& attempted.demotion_stopped_at(entry.namespace, entry.key@, plan, demote, stop)
                        &&& #[trigger] attempted.prepared_beyond(entry.namespace, entry.key@, plan, demote, stop, middle)
                        &&& after == middle.rejected()
                    };
                assert(after.items == middle.items);
            } else {
                let middle: ShardModel = choose|middle: ShardModel|
                    {
                        &&& #[trigger] attempted.prepared_beyond(entry.namespace, entry.key@, plan, demote, -1, middle)
                        &&& middle.commit_outcome(entry, charged->0, now, after, result)
                    };
                assert(after.items == middle.items);
            }
        },
    }
}

/// A removed key is gone and every other key is found as before.
pub proof fn law_removed_key_is_gone(before: ShardModel, namespace: u32, key: Seq<u8>, now: u64)
    requires
        before.valid(),
        before.remove_requested(namespace, key, now).valid(),
    ensures
        before.remove_requested(namespace, key, now).find(namespace, key) is None,
        forall|other_namespace: u32, other_key: Seq<u8>|
            (other_namespace != namespace || other_key != key) ==> {
                let after = before.remove_requested(namespace, key, now);
                match #[trigger] before.find(other_namespace, other_key) {
                    Some(position) => after.find(other_namespace, other_key) is Some && after.items[after.find(
                        other_namespace,
                        other_key,
                    )->0] == before.items[position],
                    None => after.find(other_namespace, other_key) is None,
                }
            },
{
    let after = before.remove_requested(namespace, key, now);
    match before.find(namespace, key) {
        None => {
            assert(after.items == before.items);
            assert forall|ns: u32, k: Seq<u8>| after.find(ns, k) == #[trigger] before.find(ns, k) by {
                lemma_find_same(before, after, ns, k);
            }
        },
        Some(p) => {
            let choice = choose|k: int| before.holds_at(namespace, key, k);
            assert(before.holds_at(namespace, key, p));
            assert forall|k: int| !after.holds_at(namespace, key, k) by {
                if after.holds_at(namespace, key, k) {
                    let j = if k < p { k } else { k + 1 };
                    assert(before.holds_at(namespace, key, j));
                    lemma_find_at(before, namespace, key, j);
                }
            }
            assert forall|ns: u32, other: Seq<u8>|
                (ns != namespace || other != key) implies (match #[trigger] before.find(ns, other) {
                Some(position) => after.find(ns, other) is Some && after.items[after.find(ns, other)->0]
                    == before.items[position],
                None => after.find(ns, other) is None,
            }) by {
                if before.find(ns, other) is Some {
                    let at = before.find(ns, other)->0;
                    assert(before.holds_at(ns, other, at));
                    let k = if at < p { at } else { at - 1 };
                    assert(after.items[k] == before.items[at]);
                    assert(after.holds_at(ns, other, k));
                    lemma_find_at(after, ns, other, k);
                } else {
                    assert forall|k: int| !after.holds_at(ns, other, k) by {
                        if after.holds_at(ns, other, k) {
                            let j = if k < p { k } else { k + 1 };
                            assert(before.holds_at(ns, other, j));
                        }
                    }
                }
            }
        },
    }
}

/// A revision handed out for an entry that has been replaced since matches
/// nothing: a stale disk completion cannot mark the newer value clean.
pub proof fn law_replacement_fences_old_revisions(before: ShardModel, entry: EntryModel, charged: usize, now: u64, revision: u64)
    requires
        before.valid(),
        before.admitted(entry, charged, now).valid(),
        revision < before.next_revision,
    ensures
        ({
            let after = before.admitted(entry, charged, now);
            after.items[after.find(entry.namespace, entry.key)->0].revision != revision
        }),
{
    law_admitted_entry_is_found(before, entry, charged, now);
}

/// Every item that an admission evicts was used less recently than every other
/// item that it keeps.
pub proof fn law_evicted_items_are_the_oldest(before: ShardModel, entry: EntryModel, charged: usize, now: u64)
    requires
        before.valid(),
        charged >= MEMORY_ENTRY_OVERHEAD_BYTES,
    ensures
        ({
            let plan = before.put_plan(entry.namespace, entry.key, charged);
            let rest = before.without(entry.namespace, entry.key);
            let after = before.admitted(entry, charged, now);
            &&& 0 <= plan.victims <= rest.len()
            &&& after.items.skip(1) + before.victims(entry.namespace, entry.key, plan) == rest
        }),
{
    let plan = before.put_plan(entry.namespace, entry.key, charged);
    let rest = before.without(entry.namespace, entry.key);
    let payload = charged - MEMORY_ENTRY_OVERHEAD_BYTES;
    let target = if before.find(entry.namespace, entry.key) is Some {
        Some(before.retained_slots as int)
    } else {
        before.slot_target((before.capacity_bytes - payload) / MEMORY_ENTRY_OVERHEAD_BYTES as int)
    };
    let slots = match target {
        Some(count) => count,
        None => before.retained_slots as int,
    };
    let needed = slots * MEMORY_ENTRY_OVERHEAD_BYTES + payload_sum(rest) + payload - before.capacity_bytes;
    lemma_victim_count_bounds(rest, needed, target is None);
    let after = before.admitted(entry, charged, now);
    assert(after.items.skip(1) =~= rest.take(rest.len() - plan.victims));
    assert(after.items.skip(1) + before.victims(entry.namespace, entry.key, plan) =~= rest);
}

/// Bytes that the residents of a shard are charged beyond their slots.
pub open spec fn by_payload_sum() -> spec_fn(ShardModel) -> int {
    |shard: ShardModel| payload_sum(shard.items)
}

proof fn lemma_item_sums(items: Seq<ItemModel>)
    requires
        forall|k: int| 0 <= k < items.len() ==> (#[trigger] items[k]).charged_bytes >= MEMORY_ENTRY_OVERHEAD_BYTES,
    ensures
        0 <= payload_sum(items),
        0 <= total(items, by_dirty()) <= items.len(),
        0 <= total(items, by_dirty_charge()) <= items.len() * MEMORY_ENTRY_OVERHEAD_BYTES + payload_sum(items),
    decreases items.len(),
{
    if items.len() > 0 {
        let shorter = items.drop_last();
        assert forall|k: int| 0 <= k < shorter.len() implies (#[trigger] shorter[k]).charged_bytes >= MEMORY_ENTRY_OVERHEAD_BYTES by {
            assert(shorter[k] == items[k]);
        }
        lemma_item_sums(shorter);
        assert(items[items.len() - 1].charged_bytes >= MEMORY_ENTRY_OVERHEAD_BYTES);
    }
}

proof fn lemma_shard_sums(shards: Seq<ShardModel>)
    requires
        forall|k: int| 0 <= k < shards.len() ==> (#[trigger] shards[k]).valid() && shards[k].settled(),
    ensures
        0 <= shard_total(shards, by_payload_sum()),
        0 <= shard_total(shards, by_entries()),
        MEMORY_ENTRY_OVERHEAD_BYTES * shard_total(shards, by_entries()) + shard_total(shards, by_payload_sum()) <= shard_total(
            shards,
            by_charged_bytes(),
        ),
        0 <= shard_total(shards, by_dirty_entries()) <= shard_total(shards, by_entries()),
        0 <= shard_total(shards, by_dirty_bytes()) <= shard_total(shards, by_charged_bytes()),
        shard_total(shards, by_entries()) == 0 ==> shard_total(shards, by_charged_bytes()) == 0,
    decreases shards.len(),
{
    if shards.len() > 0 {
        let shorter = shards.drop_last();
        assert forall|k: int| 0 <= k < shorter.len() implies (#[trigger] shorter[k]).valid() && shorter[k].settled() by {
            assert(shorter[k] == shards[k]);
        }
        lemma_shard_sums(shorter);
        let last = shards[shards.len() - 1];
        assert(last.valid() && last.settled());
        lemma_item_sums(last.items);
        if last.items.len() == 0 {
            assert(last.items =~= Seq::<ItemModel>::empty());
        }
    }
}

proof fn lemma_shard_total_zero(shards: Seq<ShardModel>, weight: spec_fn(ShardModel) -> int)
    requires
        forall|k: int| 0 <= k < shards.len() ==> weight(#[trigger] shards[k]) == 0,
    ensures
        shard_total(shards, weight) == 0,
    decreases shards.len(),
{
    if shards.len() > 0 {
        let fewer = shards.drop_last();
        assert forall|k: int| 0 <= k < fewer.len() implies weight(#[trigger] fewer[k]) == 0 by {
            assert(fewer[k] == shards[k]);
        }
        lemma_shard_total_zero(fewer, weight);
        assert(weight(shards[shards.len() - 1]) == 0);
    }
}

/// After a clear every key misses.
pub proof fn law_cleared_engine_misses_every_key(engine: EngineModel, namespace: u32, key: Seq<u8>)
    requires
        engine.valid(),
    ensures
        cleared(engine).shard(namespace, key).find(namespace, key) is None,
        cleared(engine).shard_of(namespace, key) == engine.shard_of(namespace, key),
{
    let after = cleared(engine);
    let index = after.shard_of(namespace, key);
    assert(0 <= index < after.shards.len()) by {
        vstd::arithmetic::div_mod::lemma_mod_bound(key_hash(namespace, key) as int, engine.shards.len() as int);
    }
    assert(after.shards[index] == cleared_shard(engine.shards[index]));
}

/// A clear leaves nothing charged and nothing dirty, counts itself, and keeps
/// every other counter.
pub proof fn law_clear_keeps_the_counters(engine: EngineModel)
    requires
        engine.valid(),
    ensures
        cleared(engine).stats() == (MemoryStats {
            charged_bytes: 0,
            entries: 0,
            dirty_entries: 0,
            dirty_bytes: 0,
            clears: counted(engine.clears, 1),
            ..engine.stats()
        }),
{
    let after = cleared(engine);
    assert forall|k: int| 0 <= k < after.shards.len() implies (#[trigger] after.shards[k]) == cleared_shard(engine.shards[k]) by {}
    lemma_shard_total_zero(after.shards, by_charged_bytes());
    lemma_shard_total_zero(after.shards, by_entries());
    lemma_shard_total_zero(after.shards, by_dirty_entries());
    lemma_shard_total_zero(after.shards, by_dirty_bytes());
    lemma_shard_total_same(after.shards, engine.shards, by_stat(|s: MemoryStats| s.hits));
    lemma_shard_total_same(after.shards, engine.shards, by_stat(|s: MemoryStats| s.misses));
    lemma_shard_total_same(after.shards, engine.shards, by_stat(|s: MemoryStats| s.puts));
    lemma_shard_total_same(after.shards, engine.shards, by_stat(|s: MemoryStats| s.rejected));
    lemma_shard_total_same(after.shards, engine.shards, by_stat(|s: MemoryStats| s.remove_requests));
    lemma_shard_total_same(after.shards, engine.shards, by_stat(|s: MemoryStats| s.removed));
    lemma_shard_total_same(after.shards, engine.shards, by_stat(|s: MemoryStats| s.evictions));
    lemma_shard_total_same(after.shards, engine.shards, by_stat(|s: MemoryStats| s.expirations));
}

/// A put that stores takes the shard's next revision; one that does not leaves
/// it for the next.
pub proof fn law_put_takes_the_next_revision(
    before: ShardModel,
    entry: MemoryEntry,
    charged: Option<usize>,
    now: u64,
    after: ShardModel,
    result: MemoryPutResult,
)
    requires
        before.put_outcome(entry, charged, now, after, result),
    ensures
        match result {
            MemoryPutResult::Stored { revision, .. } => revision == before.next_revision && after.next_revision == revision + 1,
            MemoryPutResult::NotStored { .. } => after.next_revision == before.next_revision,
        },
{
}

/// The same of a put with demotion.
pub proof fn law_demoting_put_takes_the_next_revision<F: FnMut(&MemoryEntry) -> Option<u64>>(
    before: ShardModel,
    entry: MemoryEntry,
    charged: Option<usize>,
    now: u64,
    demote: F,
    after: ShardModel,
    result: MemoryPutResult,
)
    requires
        before.demoting_put_outcome(entry, charged, now, demote, after, result),
    ensures
        match result {
            MemoryPutResult::Stored { revision, .. } => revision == before.next_revision && after.next_revision == revision + 1,
            MemoryPutResult::NotStored { .. } => after.next_revision == before.next_revision,
        },
{
}

/// A removal, a change of the persistence flag and a clear hand out no revision.
pub proof fn law_removal_and_clear_keep_the_next_revision(before: ShardModel, namespace: u32, key: Seq<u8>, now: u64, position: int, clean: bool)
    ensures
        before.remove_requested(namespace, key, now).next_revision == before.next_revision,
        before.flagged(position, clean).next_revision == before.next_revision,
        cleared_shard(before).next_revision == before.next_revision,
{
}

/// A lookup hands out no revision.
pub proof fn law_lookup_keeps_the_next_revision<R: FnOnce(usize) -> bool, C: FnOnce() -> bool>(
    before: ShardModel,
    namespace: u32,
    key: Seq<u8>,
    now: u64,
    reserve: R,
    commit_expiry: C,
    after: ShardModel,
    result: Result<MemoryLookup, MemoryError>,
)
    requires
        before.get_outcome(namespace, key, now, reserve, commit_expiry, after, result),
    ensures
        after.next_revision == before.next_revision,
{
}

/// A lookup of live values alone hands out no revision.
pub proof fn law_live_lookup_keeps_the_next_revision<R: FnOnce(usize) -> bool>(
    before: ShardModel,
    namespace: u32,
    key: Seq<u8>,
    now: u64,
    reserve: R,
    after: ShardModel,
    result: Result<Option<MemoryHit>, MemoryError>,
)
    requires
        before.get_live_outcome(namespace, key, now, reserve, after, result),
    ensures
        after.next_revision == before.next_revision,
{
}

/// Persistence hands out no revision, whether it succeeds or breaks off.
pub proof fn law_persistence_keeps_the_next_revision<F: Fn(&MemoryEntry) -> Result<u64, E>, E>(
    before: ShardModel,
    persist: F,
    after: ShardModel,
    error: E,
)
    requires
        before.all_persisted(persist, after) || before.persistence_failed(persist, after, error),
    ensures
        after.next_revision == before.next_revision,
{
}

/// A revision that a shard hands out after a clear, however much later, exceeds
/// every one that it handed out before, those of the cleared residents among
/// them.
pub proof fn law_revisions_outgrow_a_clear(
    before: ShardModel,
    earlier: u64,
    later: ShardModel,
    entry: MemoryEntry,
    charged: Option<usize>,
    now: u64,
    after: ShardModel,
    result: MemoryPutResult,
)
    requires
        before.valid(),
        earlier < before.next_revision || exists|k: int| 0 <= k < before.items.len() && (#[trigger] before.items[k]).revision == earlier,
        cleared_shard(before).next_revision <= later.next_revision,
        later.put_outcome(entry, charged, now, after, result),
    ensures
        result matches MemoryPutResult::Stored { revision, .. } ==> earlier < revision,
{
    law_put_takes_the_next_revision(later, entry, charged, now, after, result);
}

/// The same of a revision that a put with demotion hands out.
pub proof fn law_demoting_revisions_outgrow_a_clear<F: FnMut(&MemoryEntry) -> Option<u64>>(
    before: ShardModel,
    earlier: u64,
    later: ShardModel,
    entry: MemoryEntry,
    charged: Option<usize>,
    now: u64,
    demote: F,
    after: ShardModel,
    result: MemoryPutResult,
)
    requires
        before.valid(),
        earlier < before.next_revision || exists|k: int| 0 <= k < before.items.len() && (#[trigger] before.items[k]).revision == earlier,
        cleared_shard(before).next_revision <= later.next_revision,
        later.demoting_put_outcome(entry, charged, now, demote, after, result),
    ensures
        result matches MemoryPutResult::Stored { revision, .. } ==> earlier < revision,
{
    law_demoting_put_takes_the_next_revision(later, entry, charged, now, demote, after, result);
}

/// The statistics account for every resident within the capacity: each is
/// charged its slot and what its buffers hold, dirty residents are some of all,
/// and an empty engine is charged nothing.
pub proof fn law_stats_account_for_residents(engine: EngineModel)
    requires
        engine.valid(),
    ensures
        ({
            let stats = engine.stats();
            &&& stats.capacity_bytes == engine.capacity_bytes
            &&& stats.entries == shard_total(engine.shards, by_entries())
            &&& MEMORY_ENTRY_OVERHEAD_BYTES * stats.entries + shard_total(engine.shards, by_payload_sum()) <= stats.charged_bytes
            &&& stats.charged_bytes <= stats.capacity_bytes
            &&& stats.dirty_entries <= stats.entries
            &&& stats.dirty_bytes <= stats.charged_bytes
            &&& stats.entries == 0 ==> stats.charged_bytes == 0
        }),
{
    lemma_shard_sums(engine.shards);
    law_engine_charge_is_bounded(engine);
}

/// An entry is charged its slot and buffers that hold at least its bytes.
pub proof fn law_charge_covers_the_bytes(entry: EntryModel, charged: Option<usize>)
    requires
        charge_covers(entry, charged),
        charged is Some,
    ensures
        charged->0 >= MEMORY_ENTRY_OVERHEAD_BYTES + entry.key.len() + entry.value.len(),
{
}

/// The engine never holds more than its capacity.
pub proof fn law_engine_charge_is_bounded(engine: EngineModel)
    requires
        engine.valid(),
    ensures
        shard_total(engine.shards, by_charged_bytes()) <= engine.capacity_bytes,
{
    lemma_shard_total_order(engine.shards, by_charged_bytes(), by_capacity());
}

// ---------------------------------------------------------------------------
// What the operations are for
// ---------------------------------------------------------------------------

/// The items but for the one at `replaced`.
pub open spec fn other_items(items: Seq<ItemModel>, replaced: Option<int>) -> Seq<ItemModel> {
    match replaced {
        Some(position) => items.remove(position),
        None => items,
    }
}

/// `replaced` is where the key's item stands, if it has one.
pub open spec fn stands_at(items: Seq<ItemModel>, namespace: u32, key: Seq<u8>, replaced: Option<int>) -> bool {
    match replaced {
        Some(position) => 0 <= position < items.len() && items[position].entry.namespace == namespace && items[position].entry.key
            == key,
        None => forall|k: int|
            0 <= k < items.len() ==> !((#[trigger] items[k]).entry.namespace == namespace && items[k].entry.key == key),
    }
}

proof fn lemma_find_where_it_stands(shard: ShardModel, namespace: u32, key: Seq<u8>, replaced: Option<int>)
    requires
        shard.valid(),
        stands_at(shard.items, namespace, key, replaced),
    ensures
        shard.find(namespace, key) == replaced,
        shard.without(namespace, key) == other_items(shard.items, replaced),
{
    match replaced {
        Some(position) => {
            assert(shard.holds_at(namespace, key, position));
            lemma_find_at(shard, namespace, key, position);
        },
        None => {
            assert forall|k: int| !shard.holds_at(namespace, key, k) by {}
        },
    }
}

/// An entry's lifetime ends at its expiration and stays over; an entry without
/// one never expires.
pub proof fn law_expiry_is_for_good(entry: EntryModel, earlier: u64, later: u64)
    requires
        earlier <= later,
    ensures
        entry.expired_at(earlier) ==> entry.expired_at(later),
        entry.expires_at_unix_ms is None ==> !entry.expired_at(later),
        entry.expires_at_unix_ms matches Some(end) ==> {
            &&& end <= later ==> entry.expired_at(later)
            &&& later < end ==> !entry.expired_at(later)
        },
{
}

/// A lookup at or after an entry's expiration never hits: it takes the entry
/// out, unless the caller refuses, and hands it over as expired.
pub proof fn law_expired_entry_is_never_served<R: FnOnce(usize) -> bool, C: FnOnce() -> bool>(
    before: ShardModel,
    position: int,
    end: u64,
    now: u64,
    reserve: R,
    commit_expiry: C,
    after: ShardModel,
    result: Result<MemoryLookup, MemoryError>,
)
    requires
        before.valid(),
        0 <= position < before.items.len(),
        before.items[position].entry.expires_at_unix_ms == Some(end),
        end <= now,
        before.get_outcome(
            before.items[position].entry.namespace,
            before.items[position].entry.key,
            now,
            reserve,
            commit_expiry,
            after,
            result,
        ),
    ensures
        match result {
            Ok(MemoryLookup::Expired(entry)) => {
                &&& entry@ == before.items[position].entry
                &&& reserve.ensures((before.items[position].charged_bytes,), true)
                &&& commit_expiry.ensures((), true)
                &&& after.items == before.items.remove(position)
                &&& before.items.len() == 1 ==> after.charged_bytes() == 0
                &&& after.stats.hits == before.stats.hits
                &&& before.stats.misses < u64::MAX ==> after.stats.misses == before.stats.misses + 1
                &&& before.stats.expirations < u64::MAX ==> after.stats.expirations == before.stats.expirations + 1
            },
            Ok(MemoryLookup::ExpiryCommitRejected) => after == before && commit_expiry.ensures((), false),
            Ok(MemoryLookup::Hit(_)) => false,
            Ok(MemoryLookup::Miss) => false,
            Err(_) => after == before && reserve.ensures((before.items[position].charged_bytes,), false),
        },
{
    let entry = before.items[position].entry;
    lemma_find_where_it_stands(before, entry.namespace, entry.key, Some(position));
    if before.items.len() == 1 {
        assert(before.items.remove(position) =~= Seq::<ItemModel>::empty());
    }
}

/// A lookup before an entry's expiration hits, unless the caller refuses the
/// memory: it shows the entry as it was put and makes it the most recent one,
/// and the others keep their order.
pub proof fn law_live_entry_is_served<R: FnOnce(usize) -> bool, C: FnOnce() -> bool>(
    before: ShardModel,
    position: int,
    now: u64,
    reserve: R,
    commit_expiry: C,
    after: ShardModel,
    result: Result<MemoryLookup, MemoryError>,
)
    requires
        before.valid(),
        0 <= position < before.items.len(),
        before.items[position].entry.expires_at_unix_ms matches Some(end) ==> now < end,
        before.get_outcome(
            before.items[position].entry.namespace,
            before.items[position].entry.key,
            now,
            reserve,
            commit_expiry,
            after,
            result,
        ),
    ensures
        match result {
            Ok(MemoryLookup::Hit(hit)) => {
                &&& hit.value@ == before.items[position].entry.value
                &&& hit.version == before.items[position].entry.version
                &&& hit.disk_clean == before.items[position].entry.disk_clean
                &&& hit.revision == before.items[position].revision
                &&& reserve.ensures((before.items[position].entry.value.len() as usize,), true)
                &&& after.items == seq![before.items[position]] + before.items.remove(position)
                &&& after.retained_slots == before.retained_slots
                &&& after.stats.misses == before.stats.misses
                &&& before.stats.hits < u64::MAX ==> after.stats.hits == before.stats.hits + 1
            },
            Err(_) => after == before && reserve.ensures((before.items[position].entry.value.len() as usize,), false),
            _ => false,
        },
{
    let entry = before.items[position].entry;
    lemma_find_where_it_stands(before, entry.namespace, entry.key, Some(position));
}

/// A key without an entry misses, and the miss is all that is counted.
pub proof fn law_absent_key_misses<R: FnOnce(usize) -> bool, C: FnOnce() -> bool>(
    before: ShardModel,
    namespace: u32,
    key: Seq<u8>,
    now: u64,
    reserve: R,
    commit_expiry: C,
    after: ShardModel,
    result: Result<MemoryLookup, MemoryError>,
)
    requires
        before.valid(),
        stands_at(before.items, namespace, key, None),
        before.get_outcome(namespace, key, now, reserve, commit_expiry, after, result),
    ensures
        result == Ok::<MemoryLookup, MemoryError>(MemoryLookup::Miss),
        after.items == before.items,
        after.retained_slots == before.retained_slots,
        after.stats.hits == before.stats.hits,
        before.stats.misses < u64::MAX ==> after.stats.misses == before.stats.misses + 1,
{
    lemma_find_where_it_stands(before, namespace, key, None);
}

/// A lookup of live values alone shows an entry exactly if it is there and has
/// not expired, and takes nothing out.
pub proof fn law_live_lookup_shows_live_entries<R: FnOnce(usize) -> bool>(
    before: ShardModel,
    namespace: u32,
    key: Seq<u8>,
    place: Option<int>,
    now: u64,
    reserve: R,
    after: ShardModel,
    result: Result<Option<MemoryHit>, MemoryError>,
)
    requires
        before.valid(),
        stands_at(before.items, namespace, key, place),
        before.get_live_outcome(namespace, key, now, reserve, after, result),
    ensures
        ({
            let live = match place {
                Some(position) => match before.items[position].entry.expires_at_unix_ms {
                    Some(end) => now < end,
                    None => true,
                },
                None => false,
            };
            match result {
                Ok(Some(hit)) => {
                    &&& live
                    &&& hit.value@ == before.items[place->0].entry.value
                    &&& hit.revision == before.items[place->0].revision
                    &&& hit.version == before.items[place->0].entry.version
                    &&& hit.disk_clean == before.items[place->0].entry.disk_clean
                    &&& reserve.ensures((before.items[place->0].entry.value.len() as usize,), true)
                    &&& after.items == seq![before.items[place->0]] + before.items.remove(place->0)
                    &&& after.stats.misses == before.stats.misses
                    &&& before.stats.hits < u64::MAX ==> after.stats.hits == before.stats.hits + 1
                },
                Ok(None) => !live && after == before,
                Err(_) => live && after == before && reserve.ensures((before.items[place->0].entry.value.len() as usize,), false),
            }
        }),
{
    lemma_find_where_it_stands(before, namespace, key, place);
}

/// What a put is turned away for, as far as its entry and the limits decide: a
/// charge that cannot be counted or exceeds the capacity, a lifetime that is
/// over, and no revision left. Nothing of the shard changes then but the counts.
pub proof fn law_put_is_turned_away_for_a_reason(
    before: ShardModel,
    entry: MemoryEntry,
    charged: Option<usize>,
    now: u64,
    after: ShardModel,
    result: MemoryPutResult,
)
    requires
        before.put_outcome(entry, charged, now, after, result),
    ensures
        ({
            let over = entry.expires_at_unix_ms matches Some(end) && end <= now;
            let large = charged is None || charged->0 > before.capacity_bytes;
            let exhausted = before.next_revision == u64::MAX;
            match result {
                MemoryPutResult::Stored { .. } => !over && !large && !exhausted,
                MemoryPutResult::NotStored { entry: back, reason } => {
                    &&& back == entry
                    &&& after.items == before.items
                    &&& after.retained_slots == before.retained_slots
                    &&& reason is TooLarge ==> large
                    &&& reason is AlreadyExpired ==> over && charged is Some
                    &&& reason is RevisionExhausted ==> exhausted && !over && !large
                    &&& over || large || exhausted ==> reason is TooLarge || reason is AlreadyExpired || reason is RevisionExhausted
                    &&& reason is DirtyVictimBlocked ==> exists|k: int|
                        0 <= k < before.items.len() && !(#[trigger] before.items[k]).entry.disk_clean
                }
            }
        }),
        before.stats.puts < u64::MAX ==> after.stats.puts == before.stats.puts + 1,
        before.stats.rejected < u64::MAX ==> after.stats.rejected == before.stats.rejected + if result is NotStored {
            1int
        } else {
            0int
        },
{
    let attempted = before.attempted();
    if attempted.refusal(entry@, charged, now) is None {
        let plan = attempted.put_plan(entry.namespace, entry.key@, charged->0);
        if attempted.has_dirty_victim(entry.namespace, entry.key@, plan) {
            let k = choose|k: int|
                0 <= k < attempted.items.len() && attempted.is_victim(entry.namespace, entry.key@, plan, k)
                    && !(#[trigger] attempted.items[k]).entry.disk_clean;
            assert(!before.items[k].entry.disk_clean);
        }
    }
}

/// The same of a put with demotion: an expired entry or one beyond the capacity
/// never comes in.
pub proof fn law_demoting_put_takes_no_expired_entry<F: FnMut(&MemoryEntry) -> Option<u64>>(
    before: ShardModel,
    entry: MemoryEntry,
    charged: Option<usize>,
    now: u64,
    demote: F,
    after: ShardModel,
    result: MemoryPutResult,
)
    requires
        before.demoting_put_outcome(entry, charged, now, demote, after, result),
        (entry.expires_at_unix_ms matches Some(end) && end <= now) || charged is None || charged->0 > before.capacity_bytes
            || before.next_revision == u64::MAX,
    ensures
        result matches MemoryPutResult::NotStored { entry: back, .. } && back == entry,
        after.items == before.items,
{
}

proof fn lemma_victims_are_needed(rest: Seq<ItemModel>, needed: int, wants_slot: bool)
    requires
        forall|k: int| 0 <= k < rest.len() ==> (#[trigger] rest[k]).charged_bytes >= MEMORY_ENTRY_OVERHEAD_BYTES,
    ensures
        match victim_count(rest, needed, wants_slot) {
            Some(count) => {
                &&& 0 <= count <= rest.len()
                &&& count > 0 ==> payload_sum(rest.skip(rest.len() - count + 1)) < needed || (count == 1 && wants_slot)
                &&& payload_sum(rest.skip(rest.len() - count)) >= needed
                &&& wants_slot ==> count >= 1
            },
            None => payload_sum(rest) < needed || (rest.len() == 0 && wants_slot),
        },
    decreases rest.len(),
{
    lemma_victim_count_bounds(rest, needed, wants_slot);
    if needed <= 0 && !wants_slot {
    } else if rest.len() > 0 {
        let shorter = rest.drop_last();
        let last = rest.last();
        assert(rest[rest.len() - 1].charged_bytes >= MEMORY_ENTRY_OVERHEAD_BYTES);
        assert forall|k: int| 0 <= k < shorter.len() implies (#[trigger] shorter[k]).charged_bytes >= MEMORY_ENTRY_OVERHEAD_BYTES by {
            assert(shorter[k] == rest[k]);
        }
        lemma_victims_are_needed(shorter, needed - last.payload(), false);
        lemma_item_sums(shorter);
        match victim_count(shorter, needed - last.payload(), false) {
            Some(count) => {
                if count > 0 {
                    let tail = rest.skip(rest.len() - count);
                    assert(tail.drop_last() =~= shorter.skip(shorter.len() - count + 1));
                } else {
                    assert(rest.skip(rest.len() as int) =~= Seq::<ItemModel>::empty());
                }
            },
            None => {},
        }
    } else {
        assert(rest =~= Seq::<ItemModel>::empty());
    }
}

/// A stored entry stands in front with its charge and the next revision; behind
/// it stand the others in their order, but for the least recent ones, of which
/// none was dirty. No more of those left than had to: with one of them kept, the
/// charge would exceed the capacity or no slot would be free.
pub proof fn law_put_evicts_no_more_than_it_must(
    before: ShardModel,
    entry: MemoryEntry,
    charged: usize,
    now: u64,
    replaced: Option<int>,
    after: ShardModel,
    result: MemoryPutResult,
) -> (kept: int)
    requires
        before.valid(),
        charged >= 256,
        stands_at(before.items, entry.namespace, entry.key@, replaced),
        before.put_outcome(entry, Some(charged), now, after, result),
        result is Stored,
    ensures
        ({
            let rest = other_items(before.items, replaced);
            let lost = rest.skip(kept);
            &&& 0 <= kept <= rest.len()
            &&& after.items == seq![ItemModel { entry: entry@, revision: before.next_revision, charged_bytes: charged }] + rest.take(
                kept,
            )
            &&& forall|k: int| kept <= k < rest.len() ==> (#[trigger] rest[k]).entry.disk_clean
            &&& kept < rest.len() ==> {
                ||| after.retained_slots * 256 + payload_sum(rest.take(kept + 1)) + charged - 256 > before.capacity_bytes
                ||| kept + 2 > after.retained_slots
                ||| kept == 0 && after.retained_slots == 1
            }
            &&& result matches MemoryPutResult::Stored { revision, evicted_entries, evicted_bytes } && revision == before.next_revision
                && evicted_entries == total(lost, by_live(now)) && evicted_bytes == total(lost, by_live_charge(now))
            &&& after.capacity_bytes == before.capacity_bytes
            &&& after.next_revision == before.next_revision + 1
        }),
{
    let attempted = before.attempted();
    assert(attempted.items == before.items);
    assert(attempted.valid());
    lemma_find_where_it_stands(attempted, entry.namespace, entry.key@, replaced);
    let rest = other_items(before.items, replaced);
    let plan = attempted.put_plan(entry.namespace, entry.key@, charged);
    let payload = charged - MEMORY_ENTRY_OVERHEAD_BYTES;
    let target = if replaced is Some {
        Some(attempted.retained_slots as int)
    } else {
        attempted.slot_target((attempted.capacity_bytes - payload) / MEMORY_ENTRY_OVERHEAD_BYTES as int)
    };
    let slots = match target {
        Some(count) => count,
        None => attempted.retained_slots as int,
    };
    let needed = slots * MEMORY_ENTRY_OVERHEAD_BYTES + payload_sum(rest) + payload - attempted.capacity_bytes;
    assert forall|k: int| 0 <= k < rest.len() implies (#[trigger] rest[k]).charged_bytes >= MEMORY_ENTRY_OVERHEAD_BYTES by {
        match replaced {
            Some(position) => {
                let from = if k < position { k } else { k + 1 };
                assert(rest[k] == before.items[from]);
            },
            None => {},
        }
    }
    lemma_victims_are_needed(rest, needed, target is None);
    let kept = rest.len() - plan.victims;
    assert(0 <= kept <= rest.len());
    assert(attempted.victims(entry.namespace, entry.key@, plan) == rest.skip(kept));
    assert forall|k: int| kept <= k < rest.len() implies (#[trigger] rest[k]).entry.disk_clean by {
        let from = match replaced {
            Some(position) => if k < position { k } else { k + 1 },
            None => k,
        };
        assert(rest[k] == attempted.items[from]);
        assert(attempted.is_victim(entry.namespace, entry.key@, plan, from));
        if !attempted.items[from].entry.disk_clean {
            assert(attempted.has_dirty_victim(entry.namespace, entry.key@, plan));
        }
    }
    if kept < rest.len() && !plan.rebuild {
        assert(rest =~= rest.take(kept + 1) + rest.skip(kept + 1));
        lemma_total_append(rest.take(kept + 1), rest.skip(kept + 1), by_payload());
        assert(rest.skip(rest.len() - plan.victims + 1) == rest.skip(kept + 1));
        if !(payload_sum(rest.skip(kept + 1)) < needed) {
            assert(plan.victims == 1 && target is None);
            assert(before.items.len() >= before.retained_slots);
        }
    }
    kept
}

/// The slots that a shard retains after a put: as many as before while one was
/// free or the key had one, at most twice as many otherwise, and one alone if
/// everything had to go.
pub proof fn law_slots_grow_by_doubling(
    before: ShardModel,
    entry: MemoryEntry,
    charged: usize,
    now: u64,
    replaced: Option<int>,
    after: ShardModel,
    result: MemoryPutResult,
)
    requires
        before.valid(),
        charged >= 256,
        stands_at(before.items, entry.namespace, entry.key@, replaced),
        before.put_outcome(entry, Some(charged), now, after, result),
        result is Stored,
    ensures
        after.retained_slots == before.retained_slots || after.retained_slots == 1 || after.retained_slots <= 2 * before.retained_slots,
        after.retained_slots >= 1,
        (replaced is Some || before.items.len() < before.retained_slots) && after.retained_slots != before.retained_slots ==> {
            &&& after.retained_slots == 1
            &&& before.retained_slots * 256 + charged - 256 > before.capacity_bytes
        },
{
    let attempted = before.attempted();
    assert(attempted.items == before.items);
    assert(attempted.valid());
    lemma_find_where_it_stands(attempted, entry.namespace, entry.key@, replaced);
    let rest = other_items(before.items, replaced);
    let payload = charged - MEMORY_ENTRY_OVERHEAD_BYTES;
    let target = if replaced is Some {
        Some(attempted.retained_slots as int)
    } else {
        attempted.slot_target((attempted.capacity_bytes - payload) / MEMORY_ENTRY_OVERHEAD_BYTES as int)
    };
    let slots = match target {
        Some(count) => count,
        None => attempted.retained_slots as int,
    };
    let needed = slots * MEMORY_ENTRY_OVERHEAD_BYTES + payload_sum(rest) + payload - attempted.capacity_bytes;
    assert forall|k: int| 0 <= k < rest.len() implies (#[trigger] rest[k]).charged_bytes >= MEMORY_ENTRY_OVERHEAD_BYTES by {
        match replaced {
            Some(position) => {
                let from = if k < position { k } else { k + 1 };
                assert(rest[k] == before.items[from]);
            },
            None => {},
        }
    }
    lemma_victims_are_needed(rest, needed, target is None);
}

/// A removal takes out the key's entry and nothing else, counts itself, and
/// counts an entry whose lifetime was over as expired too.
pub proof fn law_removal_takes_out_one_entry(before: ShardModel, namespace: u32, key: Seq<u8>, place: Option<int>, now: u64)
    requires
        before.valid(),
        stands_at(before.items, namespace, key, place),
        before.stats.remove_requests < u64::MAX,
        before.stats.removed < u64::MAX,
        before.stats.expirations < u64::MAX,
    ensures
        ({
            let after = before.remove_requested(namespace, key, now);
            let over = place matches Some(position) && before.items[position].entry.expires_at_unix_ms matches Some(end) && end <= now;
            &&& after.items == other_items(before.items, place)
            &&& after.stats.remove_requests == before.stats.remove_requests + 1
            &&& after.stats.removed == before.stats.removed + if place is Some { 1int } else { 0int }
            &&& after.stats.expirations == before.stats.expirations + if over { 1int } else { 0int }
            &&& after.next_revision == before.next_revision
            &&& after.retained_slots == before.retained_slots || (after.items.len() == 0 && after.retained_slots == 0)
        }),
{
    lemma_find_where_it_stands(before, namespace, key, place);
}

/// Marking an entry changes its flag and nothing else.
pub proof fn law_marking_changes_the_flag_alone(before: ShardModel, position: int, disk_clean: bool, k: int)
    requires
        0 <= position < before.items.len(),
        0 <= k < before.items.len(),
    ensures
        ({
            let after = before.flagged(position, disk_clean);
            &&& after.items.len() == before.items.len()
            &&& k != position ==> after.items[k] == before.items[k]
            &&& after.items[position].entry.disk_clean == disk_clean
            &&& after.items[position].entry.key == before.items[position].entry.key
            &&& after.items[position].entry.namespace == before.items[position].entry.namespace
            &&& after.items[position].entry.value == before.items[position].entry.value
            &&& after.items[position].entry.version == before.items[position].entry.version
            &&& after.items[position].entry.expires_at_unix_ms == before.items[position].entry.expires_at_unix_ms
            &&& after.items[position].entry.pending_disk_bytes == before.items[position].entry.pending_disk_bytes
            &&& after.items[position].revision == before.items[position].revision
            &&& after.items[position].charged_bytes == before.items[position].charged_bytes
            &&& after.retained_slots == before.retained_slots
            &&& after.stats == before.stats
        }),
{
}

/// Once persistence has succeeded every entry is clean; a dirty one carries what
/// the callback reported for it, a clean one is untouched, and no key or value
/// has changed.
pub proof fn law_persistence_leaves_all_clean<F: Fn(&MemoryEntry) -> Result<u64, E>, E>(
    before: ShardModel,
    persist: F,
    after: ShardModel,
    k: int,
)
    requires
        before.all_persisted(persist, after),
        0 <= k < before.items.len(),
    ensures
        after.items.len() == before.items.len(),
        after.items[k].entry.disk_clean,
        before.items[k].entry.disk_clean ==> after.items[k] == before.items[k],
        !before.items[k].entry.disk_clean ==> persist_answered(
            persist,
            before.items[k].entry,
            Ok(after.items[k].entry.pending_disk_bytes),
        ),
        after.items[k].entry.key == before.items[k].entry.key,
        after.items[k].entry.namespace == before.items[k].entry.namespace,
        after.items[k].entry.value == before.items[k].entry.value,
        after.items[k].entry.version == before.items[k].entry.version,
        after.items[k].entry.expires_at_unix_ms == before.items[k].entry.expires_at_unix_ms,
        after.items[k].revision == before.items[k].revision,
        after.items[k].charged_bytes == before.items[k].charged_bytes,
{
    assert(persisted_item(persist, before.items[k], after.items[k]));
}

/// A put with demotion loses no dirty entry that the callback has not taken: a
/// dirty entry under another key is still there, or the callback gave a receipt
/// for it.
pub proof fn law_demotion_loses_nothing_unreported<F: FnMut(&MemoryEntry) -> Option<u64>>(
    before: ShardModel,
    entry: MemoryEntry,
    charged: usize,
    now: u64,
    demote: F,
    replaced: Option<int>,
    after: ShardModel,
    result: MemoryPutResult,
    k: int,
)
    requires
        before.valid(),
        charged >= 256,
        stands_at(before.items, entry.namespace, entry.key@, replaced),
        before.demoting_put_outcome(entry, Some(charged), now, demote, after, result),
        result is Stored,
        0 <= k < before.items.len(),
        replaced != Some(k),
        !before.items[k].entry.disk_clean,
    ensures
        after.items.contains(before.items[k]) || exists|receipt: u64| #[trigger] answered(demote, before.items[k].entry, Some(receipt)),
{
    let attempted = before.attempted();
    assert(attempted.items == before.items);
    assert(attempted.valid());
    let plan = attempted.put_plan(entry.namespace, entry.key@, charged);
    let middle = choose|middle: ShardModel|
        {
            &&& #[trigger] attempted.prepared_beyond(entry.namespace, entry.key@, plan, demote, -1, middle)
            &&& middle.commit_outcome(entry, charged, now, after, result)
        };
    if attempted.is_victim(entry.namespace, entry.key@, plan, k) {
        assert(prepared(demote, attempted.items[k], middle.items[k]));
    } else {
        assert(middle.items[k] == before.items[k]);
        lemma_find_where_it_stands(attempted, entry.namespace, entry.key@, replaced);
        assert(middle.valid()) by {
            assert forall|j: int| 0 <= j < middle.items.len() implies (#[trigger] middle.items[j]).charged_bytes
                >= MEMORY_ENTRY_OVERHEAD_BYTES && middle.items[j].revision < middle.next_revision && middle.items[j].payload()
                == attempted.items[j].payload() && middle.items[j].entry.namespace == attempted.items[j].entry.namespace
                && middle.items[j].entry.key == attempted.items[j].entry.key by {
                assert(attempted.items[j].charged_bytes >= MEMORY_ENTRY_OVERHEAD_BYTES);
            }
            lemma_total_same(middle.items, attempted.items, by_payload());
            assert(distinct_keys(middle.items)) by {
                reveal(distinct_keys);
                assert forall|i: int, j: int| 0 <= i < middle.items.len() && 0 <= j < middle.items.len() && i != j implies !(
                #[trigger] middle.items[i]).entry.is_for((#[trigger] middle.items[j]).entry.namespace, middle.items[j].entry.key) by {
                    assert(!attempted.items[i].entry.is_for(attempted.items[j].entry.namespace, attempted.items[j].entry.key));
                }
            }
        }
        assert(stands_at(middle.items, entry.namespace, entry.key@, replaced)) by {
            assert forall|j: int| 0 <= j < middle.items.len() implies (#[trigger] middle.items[j]).entry.namespace
                == before.items[j].entry.namespace && middle.items[j].entry.key == before.items[j].entry.key by {
                assert(attempted.items[j] == before.items[j]);
            }
        }
        lemma_find_where_it_stands(middle, entry.namespace, entry.key@, replaced);
        lemma_plan_same(attempted, middle, entry.namespace, entry.key@, charged);
        let rest = other_items(middle.items, replaced);
        let at = match replaced {
            Some(position) => if k < position { k } else { k - 1 },
            None => k,
        };
        assert(rest[at] == middle.items[k]);
        law_evicted_items_are_the_oldest(middle, entry@, charged, now);
        let kept = rest.len() - plan.victims;
        assert(at < kept);
        assert(rest.take(kept)[at] == before.items[k]);
        assert(after.items[at + 1] == before.items[k]);
    }
}

/// A key's hash is FNV-1a over its namespace, lowest byte first, and its bytes:
/// each byte is mixed in and the whole multiplied by the prime.
pub proof fn law_key_hash_grows_byte_by_byte(namespace: u32, key: Seq<u8>, byte: u8)
    ensures
        key_hash(namespace, key.push(byte)) == (key_hash(namespace, key) ^ (byte as u64)) * 0x100_0000_01b3
            % 0x1_0000_0000_0000_0000,
        key_hash(namespace, Seq::empty()) == fnv1a(
            0xcbf2_9ce4_8422_2325,
            seq![
                (namespace & 0xff) as u8,
                ((namespace >> 8) & 0xff) as u8,
                ((namespace >> 16) & 0xff) as u8,
                ((namespace >> 24) & 0xff) as u8,
            ],
        ),
{
    let prefix = le_bytes_u32(namespace);
    assert((prefix + key.push(byte)).drop_last() =~= prefix + key);
    assert(prefix + Seq::<u8>::empty() =~= prefix);
}

/// A key belongs to the shard that its hash names, and an operation on it leaves
/// every other shard alone.
pub proof fn law_keys_stay_in_their_shard(engine: EngineModel, namespace: u32, key: Seq<u8>, shard: ShardModel, other: int)
    requires
        engine.valid(),
        0 <= other < engine.shards.len(),
    ensures
        ({
            let index = key_hash(namespace, key) as int % engine.shards.len() as int;
            let after = engine.with_shard(namespace, key, shard);
            &&& engine.shard(namespace, key) == engine.shards[index]
            &&& after.shards.len() == engine.shards.len()
            &&& after.shards[other] == if other == index { shard } else { engine.shards[other] }
            &&& after.capacity_bytes == engine.capacity_bytes
            &&& after.clears == engine.clears
        }),
{
    vstd::arithmetic::div_mod::lemma_mod_bound(key_hash(namespace, key) as int, engine.shards.len() as int);
}

/// The capacity is split evenly: no two shards differ by more than a byte, none
/// has less than a minimum-size entry needs, and together they have it all.
pub proof fn law_capacity_is_split_evenly(capacity: int, count: int, first: int, second: int)
    requires
        config_fault(capacity, count) is None,
        0 <= first < count,
        0 <= second < count,
    ensures
        shard_capacity(capacity, count, first) <= shard_capacity(capacity, count, second) + 1,
        shard_capacity(capacity, count, first) >= 256,
        shard_capacity(capacity, count, first) * count <= capacity + count,
        first <= second ==> shard_capacity(capacity, count, first) >= shard_capacity(capacity, count, second),
{
    assert(capacity / count >= 256) by (nonlinear_arith)
        requires
            count > 0,
            capacity >= count * 256,
    ;
    let base = capacity / count;
    let rest = capacity % count;
    vstd::arithmetic::div_mod::lemma_fundamental_div_mod(capacity, count);
    assert(base * count <= capacity) by (nonlinear_arith)
        requires
            capacity == count * base + rest,
            rest >= 0,
    ;
    assert((base + 1) * count == base * count + count) by (nonlinear_arith);
    assert(0 <= rest) by {
        vstd::arithmetic::div_mod::lemma_mod_bound(capacity, count);
    }
}

proof fn lemma_powers_of_two(value: int)
    requires
        power_of_two(value),
    ensures
        exists|n: nat| value == #[trigger] vstd::arithmetic::power2::pow2(n),
    decreases value,
{
    if value == 1 {
        vstd::arithmetic::power2::lemma2_to64();
        assert(value == vstd::arithmetic::power2::pow2(0));
    } else {
        lemma_powers_of_two(value / 2);
        let n = choose|n: nat| value / 2 == #[trigger] vstd::arithmetic::power2::pow2(n);
        vstd::arithmetic::power2::lemma_pow2_unfold(n + 1);
        assert(value == vstd::arithmetic::power2::pow2(n + 1));
    }
}

proof fn lemma_is_power_of_two(n: nat)
    ensures
        power_of_two(vstd::arithmetic::power2::pow2(n) as int),
    decreases n,
{
    vstd::arithmetic::power2::lemma2_to64();
    if n > 0 {
        vstd::arithmetic::power2::lemma_pow2_unfold(n);
        lemma_is_power_of_two((n - 1) as nat);
        vstd::arithmetic::power2::lemma_pow2_pos((n - 1) as nat);
    }
}

/// An engine can be had exactly for a power of two of shards up to 4096, with at
/// least 256 bytes for each.
pub proof fn law_accepted_engine_sizes(capacity: int, count: int)
    ensures
        config_fault(capacity, count) is None <==> {
            &&& exists|n: nat| count == #[trigger] vstd::arithmetic::power2::pow2(n)
            &&& count <= 4096
            &&& capacity >= count * 256
        },
{
    if power_of_two(count) {
        lemma_powers_of_two(count);
    }
    if exists|n: nat| count == #[trigger] vstd::arithmetic::power2::pow2(n) {
        let n = choose|n: nat| count == #[trigger] vstd::arithmetic::power2::pow2(n);
        lemma_is_power_of_two(n);
    }
}

/// A shard is charged what its residents are charged, and an overhead for each
/// slot that it keeps beyond them.
pub proof fn law_charge_of_a_shard(shard: ShardModel)
    requires
        shard.valid(),
    ensures
        shard.charged_bytes() == total(shard.items, by_charge()) + (shard.retained_slots - shard.items.len()) * 256,
        shard.charged_bytes() <= shard.capacity_bytes,
{
    lemma_charge_is_payload_and_overhead(shard.items);
}

/// Adding an item to a sum adds its weight.
pub proof fn law_sums_add_up(items: Seq<ItemModel>, item: ItemModel, now: u64)
    ensures
        total(items.push(item), by_charge()) == total(items, by_charge()) + item.charged_bytes,
        total(items.push(item), by_dirty()) == total(items, by_dirty()) + if item.entry.disk_clean { 0int } else { 1int },
        total(items.push(item), by_dirty_charge()) == total(items, by_dirty_charge()) + if item.entry.disk_clean {
            0
        } else {
            item.charged_bytes as int
        },
        total(items.push(item), by_live(now)) == total(items, by_live(now)) + if (item.entry.expires_at_unix_ms matches Some(end) && end
            <= now) {
            0int
        } else {
            1int
        },
        total(items.push(item), by_live_charge(now)) == total(items, by_live_charge(now)) + if (
        item.entry.expires_at_unix_ms matches Some(end) && end <= now) {
            0
        } else {
            item.charged_bytes as int
        },
        payload_sum(items.push(item)) == payload_sum(items) + item.charged_bytes - 256,
        total(Seq::<ItemModel>::empty(), by_charge()) == 0,
        total(Seq::<ItemModel>::empty(), by_dirty()) == 0,
        total(Seq::<ItemModel>::empty(), by_live(now)) == 0,
        payload_sum(Seq::<ItemModel>::empty()) == 0,
{
    assert(items.push(item).drop_last() =~= items);
}

/// A put is counted once, and once more as rejected if it is turned away. One
/// that is stored counts the live entries that it evicts, which it reports, and
/// those that had expired; other counts stay.
pub proof fn law_puts_are_counted(
    before: ShardModel,
    entry: MemoryEntry,
    charged: Option<usize>,
    now: u64,
    after: ShardModel,
    result: MemoryPutResult,
)
    requires
        before.put_outcome(entry, charged, now, after, result),
        before.stats.puts < u64::MAX,
        before.stats.rejected < u64::MAX,
        charged is Some ==> ({
            let plan = before.attempted().put_plan(entry.namespace, entry.key@, charged->0);
            let victims = before.attempted().victims(entry.namespace, entry.key@, plan);
            before.stats.evictions + victims.len() <= u64::MAX && before.stats.expirations + victims.len() <= u64::MAX
        }),
    ensures
        after.stats.puts == before.stats.puts + 1,
        after.stats.hits == before.stats.hits,
        after.stats.misses == before.stats.misses,
        after.stats.remove_requests == before.stats.remove_requests,
        after.stats.removed == before.stats.removed,
        match result {
            MemoryPutResult::Stored { evicted_entries, .. } => {
                let plan = before.attempted().put_plan(entry.namespace, entry.key@, charged->0);
                let victims = before.attempted().victims(entry.namespace, entry.key@, plan);
                &&& after.stats.rejected == before.stats.rejected
                &&& after.stats.evictions == before.stats.evictions + evicted_entries
                &&& after.stats.evictions + after.stats.expirations == before.stats.evictions + before.stats.expirations + victims.len()
                &&& evicted_entries == total(victims, |item: ItemModel| if item.entry.expired_at(now) { 0int } else { 1int })
            },
            MemoryPutResult::NotStored { .. } => {
                &&& after.stats.rejected == before.stats.rejected + 1
                &&& after.stats.evictions == before.stats.evictions
                &&& after.stats.expirations == before.stats.expirations
                &&& after.items == before.items
            },
        },
{
    if charged is Some {
        let plan = before.attempted().put_plan(entry.namespace, entry.key@, charged->0);
        let victims = before.attempted().victims(entry.namespace, entry.key@, plan);
        lemma_live_bounds(victims, now);
        lemma_weights_agree(victims, by_live(now), |item: ItemModel| if item.entry.expired_at(now) { 0int } else { 1int });
    }
}

proof fn lemma_weights_agree(items: Seq<ItemModel>, first: spec_fn(ItemModel) -> int, second: spec_fn(ItemModel) -> int)
    requires
        forall|item: ItemModel| #[trigger] first(item) == second(item),
    ensures
        total(items, first) == total(items, second),
    decreases items.len(),
{
    if items.len() > 0 {
        lemma_weights_agree(items.drop_last(), first, second);
    }
}

proof fn lemma_shard_weights_agree(shards: Seq<ShardModel>, first: spec_fn(ShardModel) -> int, second: spec_fn(ShardModel) -> int)
    requires
        forall|shard: ShardModel| #[trigger] first(shard) == second(shard),
    ensures
        shard_total(shards, first) == shard_total(shards, second),
    decreases shards.len(),
{
    if shards.len() > 0 {
        lemma_shard_weights_agree(shards.drop_last(), first, second);
    }
}

/// The engine's counts are the sums of its shards', as far as they can be shown.
pub proof fn law_statistics_are_sums(engine: EngineModel)
    requires
        engine.valid(),
    ensures
        ({
            let stats = engine.stats();
            let hits = shard_total(engine.shards, |shard: ShardModel| shard.stats.hits as int);
            let misses = shard_total(engine.shards, |shard: ShardModel| shard.stats.misses as int);
            let puts = shard_total(engine.shards, |shard: ShardModel| shard.stats.puts as int);
            let rejected = shard_total(engine.shards, |shard: ShardModel| shard.stats.rejected as int);
            let requests = shard_total(engine.shards, |shard: ShardModel| shard.stats.remove_requests as int);
            let removed = shard_total(engine.shards, |shard: ShardModel| shard.stats.removed as int);
            let evictions = shard_total(engine.shards, |shard: ShardModel| shard.stats.evictions as int);
            let expirations = shard_total(engine.shards, |shard: ShardModel| shard.stats.expirations as int);
            &&& 0 <= hits <= u64::MAX ==> stats.hits == hits
            &&& 0 <= misses <= u64::MAX ==> stats.misses == misses
            &&& 0 <= puts <= u64::MAX ==> stats.puts == puts
            &&& 0 <= rejected <= u64::MAX ==> stats.rejected == rejected
            &&& 0 <= requests <= u64::MAX ==> stats.remove_requests == requests
            &&& 0 <= removed <= u64::MAX ==> stats.removed == removed
            &&& 0 <= evictions <= u64::MAX ==> stats.evictions == evictions
            &&& 0 <= expirations <= u64::MAX ==> stats.expirations == expirations
            &&& stats.clears == engine.clears
            &&& stats.entries == shard_total(engine.shards, |shard: ShardModel| shard.items.len() as int) as usize
            &&& stats.charged_bytes == shard_total(engine.shards, |shard: ShardModel| shard.charged_bytes()) as usize
            &&& stats.dirty_entries == shard_total(engine.shards, |shard: ShardModel| shard.dirty_entries()) as usize
            &&& stats.dirty_bytes == shard_total(engine.shards, |shard: ShardModel| shard.dirty_bytes()) as usize
        }),
{
    let shards = engine.shards;
    lemma_shard_weights_agree(shards, by_stat(|s: MemoryStats| s.hits), |shard: ShardModel| shard.stats.hits as int);
    lemma_shard_weights_agree(shards, by_stat(|s: MemoryStats| s.misses), |shard: ShardModel| shard.stats.misses as int);
    lemma_shard_weights_agree(shards, by_stat(|s: MemoryStats| s.puts), |shard: ShardModel| shard.stats.puts as int);
    lemma_shard_weights_agree(shards, by_stat(|s: MemoryStats| s.rejected), |shard: ShardModel| shard.stats.rejected as int);
    lemma_shard_weights_agree(
        shards,
        by_stat(|s: MemoryStats| s.remove_requests),
        |shard: ShardModel| shard.stats.remove_requests as int,
    );
    lemma_shard_weights_agree(shards, by_stat(|s: MemoryStats| s.removed), |shard: ShardModel| shard.stats.removed as int);
    lemma_shard_weights_agree(shards, by_stat(|s: MemoryStats| s.evictions), |shard: ShardModel| shard.stats.evictions as int);
    lemma_shard_weights_agree(shards, by_stat(|s: MemoryStats| s.expirations), |shard: ShardModel| shard.stats.expirations as int);
    lemma_shard_weights_agree(shards, by_entries(), |shard: ShardModel| shard.items.len() as int);
    lemma_shard_weights_agree(shards, by_charged_bytes(), |shard: ShardModel| shard.charged_bytes());
    lemma_shard_weights_agree(shards, by_dirty_entries(), |shard: ShardModel| shard.dirty_entries());
    lemma_shard_weights_agree(shards, by_dirty_bytes(), |shard: ShardModel| shard.dirty_bytes());
}

/// Sums over shards take in one shard after the other.
pub proof fn law_shard_sums_add_up(shards: Seq<ShardModel>, shard: ShardModel, weight: spec_fn(ShardModel) -> int)
    ensures
        shard_total(Seq::empty(), weight) == 0,
        shard_total(shards.push(shard), weight) == shard_total(shards, weight) + weight(shard),
{
    assert(shards.push(shard).drop_last() =~= shards);
}

/// A shard's snapshot shows its residents beside its counts.
pub proof fn law_shard_snapshots(shard: ShardModel)
    requires
        shard.valid(),
    ensures
        ({
            let shown = shard.snapshot();
            &&& shown.capacity_bytes == shard.capacity_bytes
            &&& shown.charged_bytes == shard.charged_bytes() as usize
            &&& shown.entries == shard.items.len() as usize
            &&& shown.dirty_entries == total(shard.items, |item: ItemModel| if item.entry.disk_clean { 0int } else { 1int }) as usize
            &&& shown.dirty_bytes == total(
                shard.items,
                |item: ItemModel| if item.entry.disk_clean { 0int } else { item.charged_bytes as int },
            ) as usize
            &&& shown.hits == shard.stats.hits && shown.misses == shard.stats.misses && shown.puts == shard.stats.puts
            &&& shown.rejected == shard.stats.rejected && shown.remove_requests == shard.stats.remove_requests
            &&& shown.removed == shard.stats.removed && shown.evictions == shard.stats.evictions
            &&& shown.expirations == shard.stats.expirations && shown.clears == shard.stats.clears
        }),
{
    lemma_weights_agree(shard.items, by_dirty(), |item: ItemModel| if item.entry.disk_clean { 0int } else { 1int });
    lemma_weights_agree(
        shard.items,
        by_dirty_charge(),
        |item: ItemModel| if item.entry.disk_clean { 0int } else { item.charged_bytes as int },
    );
}

/// A put needs memory exactly if it changes the number of slots or brings in a
/// hash that no resident has.
pub proof fn law_puts_that_need_memory(shard: ShardModel, namespace: u32, key: Seq<u8>, charged: usize)
    ensures
        ({
            let plan = shard.put_plan(namespace, key, charged);
            let known = exists|k: int|
                0 <= k < shard.items.len() && key_hash((#[trigger] shard.items[k]).entry.namespace, shard.items[k].entry.key) == key_hash(
                    namespace,
                    key,
                );
            shard.needs_allocation(namespace, key, charged) <==> plan.rebuild || plan.retained_slots != shard.retained_slots || !known
        }),
{
}

/// An entry that was persisted is clean and carries the receipt; nothing else of
/// it changes.
pub proof fn law_persisted_entries(entry: EntryModel, receipt: u64)
    ensures
        entry.persisted(receipt).disk_clean,
        entry.persisted(receipt).pending_disk_bytes == receipt,
        entry.persisted(receipt).key == entry.key && entry.persisted(receipt).value == entry.value,
        entry.persisted(receipt).namespace == entry.namespace && entry.persisted(receipt).version == entry.version,
        entry.persisted(receipt).expires_at_unix_ms == entry.expires_at_unix_ms,
{
}

/// Buffers are charged with 256 bytes beside what they can hold.
pub proof fn law_buffer_charges(key_capacity: int, value_capacity: int)
    requires
        key_capacity >= 0,
        value_capacity >= 0,
    ensures
        capacity_charge(key_capacity, value_capacity) is Some <==> key_capacity + value_capacity + 256 <= usize::MAX,
        capacity_charge(key_capacity, value_capacity) matches Some(charged) ==> charged == key_capacity + value_capacity + 256,
{
}

/// The victims of a put are the least recent entries but for the one that it
/// replaces.
pub proof fn law_victims_stand_last(shard: ShardModel, namespace: u32, key: Seq<u8>, plan: PutPlanModel, position: int)
    requires
        0 <= position < shard.items.len(),
        0 <= plan.victims <= shard.without(namespace, key).len(),
    ensures
        ({
            let count = shard.items.len() as int;
            match shard.find(namespace, key) {
                None => shard.is_victim(namespace, key, plan, position) <==> position >= count - plan.victims,
                Some(replaced) => 0 <= replaced < count ==> (shard.is_victim(namespace, key, plan, position) <==> position != replaced && (if position
                    > replaced {
                    position >= count - plan.victims
                } else {
                    position >= count - 1 - plan.victims
                })),
            }
        }),
{
}

/// What the first so many shards hold together.
pub open spec fn shares_up_to(capacity: int, count: int, index: int) -> int
    decreases index,
{
    if index <= 0 {
        0
    } else {
        shares_up_to(capacity, count, index - 1) + shard_capacity(capacity, count, index - 1)
    }
}

proof fn lemma_shares(capacity: int, count: int, index: int)
    requires
        capacity >= 0,
        count > 0,
        0 <= index <= count,
    ensures
        shares_up_to(capacity, count, index) == index * (capacity / count) + (if index < capacity % count {
            index
        } else {
            capacity % count
        }),
    decreases index,
{
    vstd::arithmetic::div_mod::lemma_mod_bound(capacity, count);
    if index > 0 {
        lemma_shares(capacity, count, index - 1);
        let share = capacity / count;
        assert(index * share == (index - 1) * share + share) by (nonlinear_arith);
    } else {
        assert(index * (capacity / count) == 0) by (nonlinear_arith)
            requires
                index == 0,
        ;
    }
}

/// The shards' capacities add up to the engine's, to the byte.
pub proof fn law_capacity_is_split_completely(capacity: int, count: int)
    requires
        capacity >= 0,
        count > 0,
    ensures
        shares_up_to(capacity, count, count) == capacity,
        shares_up_to(capacity, count, 0) == 0,
        forall|index: int|
            0 <= index ==> #[trigger] shares_up_to(capacity, count, index + 1) == shares_up_to(capacity, count, index) + shard_capacity(
                capacity,
                count,
                index,
            ),
{
    lemma_shares(capacity, count, count);
    vstd::arithmetic::div_mod::lemma_mod_bound(capacity, count);
    vstd::arithmetic::div_mod::lemma_fundamental_div_mod(capacity, count);
}

} // verus!
