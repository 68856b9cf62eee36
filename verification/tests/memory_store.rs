use hybrid_cache::eviction::EvictionPolicy;
use hybrid_cache::expiry::ExpiryClock;
use hybrid_cache::memory_arena::MemoryArena;
use hybrid_cache::memory::{
    MemoryLookup, MemoryStore, MemoryValue, MAX_EVICTIONS_PER_INSERT, MAX_SAME_HASH_ENTRIES,
    MEMORY_ENTRY_OVERHEAD_BYTES,
};

fn store(capacity_bytes: usize, shard_count: usize) -> MemoryStore {
    store_with_policy(capacity_bytes, shard_count, EvictionPolicy::Clock)
}

fn store_with_policy(
    capacity_bytes: usize,
    shard_count: usize,
    policy: EvictionPolicy,
) -> MemoryStore {
    MemoryStore::new(capacity_bytes, shard_count, policy, true).unwrap()
}

fn publish_clean(store: &mut MemoryStore, hash: u64, key: &[u8], seqno: u64) {
    assert!(store.publish(hash, 0, key, &[hash as u8], 0, seqno));
}

fn assert_hit(store: &mut MemoryStore, hash: u64, key: &[u8]) {
    assert!(matches!(
        store.lookup(hash, 0, key, ExpiryClock::Fixed(1)),
        MemoryLookup::Hit(_)
    ));
}

fn assert_miss(store: &mut MemoryStore, hash: u64, key: &[u8]) {
    assert!(matches!(
        store.lookup(hash, 0, key, ExpiryClock::Fixed(1)),
        MemoryLookup::Miss(_)
    ));
}

#[test]
fn published_value_is_visible_and_immediately_evictable() {
    let mut store = store(512, 1);
    assert!(store.publish(7, 0, b"a", b"value-a", 0, 1));
    assert!(matches!(
        store.lookup(7, 0, b"a", ExpiryClock::Fixed(1)),
        MemoryLookup::Hit(value) if value.value() == b"value-a"
    ));

    assert!(store.publish(8, 0, b"b", &[2; 300], 0, 2));
    assert!(matches!(
        store.lookup(8, 0, b"b", ExpiryClock::Fixed(1)),
        MemoryLookup::Hit(value) if value.value().len() == 300
    ));
}

#[test]
fn l1_contention_bypasses_and_allows_l2_fallback() {
    let mut store = store(1024, 1);
    assert!(store.publish(7, 0, b"key", b"old", 0, 1));

    store.set_held(0, true);
    assert!(matches!(
        store.lookup(7, 0, b"key", ExpiryClock::Fixed(1)),
        MemoryLookup::Miss(_)
    ));
    assert!(!store.publish(7, 0, b"key", b"new", 0, 2));
    store.set_held(0, false);

    assert!(matches!(
        store.lookup(7, 0, b"key", ExpiryClock::Fixed(1)),
        MemoryLookup::Hit(value) if value.value() == b"old"
    ));
}

#[test]
fn same_hash_chain_disambiguates_namespace_and_full_key() {
    for policy in EvictionPolicy::all() {
        let mut store = store_with_policy(2048, 1, policy);
        let collision_hash = 42;
        assert!(store.publish(collision_hash, 7, b"alpha", b"value-alpha-ns7", 0, 1,));
        assert!(store.publish(collision_hash, 7, b"beta", b"value-beta-ns7", 0, 2,));
        assert!(store.publish(collision_hash, 8, b"alpha", b"value-alpha-ns8", 0, 3,));
        assert!(store.publish(collision_hash, 7, b"beta", b"replacement-beta-ns7", 0, 4,));

        for (namespace, key, expected) in [
            (7, b"alpha".as_slice(), b"value-alpha-ns7".as_slice()),
            (7, b"beta".as_slice(), b"replacement-beta-ns7".as_slice()),
            (8, b"alpha".as_slice(), b"value-alpha-ns8".as_slice()),
        ] {
            assert!(matches!(
                store.lookup(collision_hash, namespace, key, ExpiryClock::Fixed(1)),
                MemoryLookup::Hit(value) if value.value() == expected
            ));
        }
        assert!(matches!(
            store.lookup(collision_hash, 7, b"foreign", ExpiryClock::Fixed(1)),
            MemoryLookup::Miss(_)
        ));
    }
}

#[test]
fn same_hash_chain_has_a_fixed_admission_limit() {
    let mut store = store(16 * 1024, 1);
    let collision_hash = 42;
    let keys = (0..=MAX_SAME_HASH_ENTRIES)
        .map(|ordinal| format!("collision-{ordinal}"))
        .collect::<Vec<_>>();

    for (ordinal, key) in keys.iter().take(MAX_SAME_HASH_ENTRIES).enumerate() {
        assert!(store.publish(
            collision_hash,
            0,
            key.as_bytes(),
            &[ordinal as u8],
            0,
            ordinal as u64 + 1,
        ));
    }
    assert!(!store.publish(
        collision_hash,
        0,
        keys[MAX_SAME_HASH_ENTRIES].as_bytes(),
        b"overflow",
        0,
        MAX_SAME_HASH_ENTRIES as u64 + 1,
    ));

    for (ordinal, key) in keys.iter().take(MAX_SAME_HASH_ENTRIES).enumerate() {
        assert!(matches!(
            store.lookup(collision_hash, 0, key.as_bytes(), ExpiryClock::Fixed(1)),
            MemoryLookup::Hit(value) if value.value() == [ordinal as u8]
        ));
    }
    assert_eq!(store.metrics_snapshot().bypasses, 1);
}

#[test]
fn existing_exact_key_blocks_disk_promotion() {
    let mut store = store(1024, 1);
    let MemoryLookup::Miss(token) = store.lookup(9, 0, b"key", ExpiryClock::Fixed(1)) else {
        panic!("empty memory tier must miss");
    };
    assert!(store.publish(9, 0, b"key", b"new", 0, 2));
    assert!(store.promote(token, 9, 0, b"key", b"old", 0, 1).is_none());
    assert!(matches!(
        store.lookup(9, 0, b"key", ExpiryClock::Fixed(1)),
        MemoryLookup::Hit(value) if value.value() == b"new"
    ));
}

#[test]
fn newer_exact_key_publication_suppresses_a_delayed_older_put() {
    let mut store = store(1024, 1);
    assert!(store.publish(11, 0, b"key", b"new", 0, 2));
    assert!(store.publish(11, 0, b"key", b"old", 0, 1));
    assert!(matches!(
        store.lookup(11, 0, b"key", ExpiryClock::Fixed(1)),
        MemoryLookup::Hit(value) if value.value() == b"new"
    ));
}

#[test]
fn newer_unrelated_publication_does_not_suppress_an_older_key() {
    let mut store = store(1024, 1);
    assert!(store.publish(12, 0, b"newer", b"newer", 0, 2));
    assert!(store.publish(11, 0, b"older", b"older", 0, 1));
    assert_hit(&mut store, 12, b"newer");
    assert_hit(&mut store, 11, b"older");
}

#[test]
fn failed_admission_preserves_a_retained_value_and_its_charge() {
    let mut store = store(512, 1);
    assert!(store.publish(21, 0, b"a", &[1; 300], 0, 1));
    let MemoryLookup::Hit(retained) = store.lookup(21, 0, b"a", ExpiryClock::Fixed(1)) else {
        panic!("published value must be visible");
    };

    assert!(!store.publish(22, 0, b"b", &[2; 300], 0, 2));
    assert_hit(&mut store, 21, b"a");
    assert_eq!(
        store.used_bytes(0),
        MEMORY_ENTRY_OVERHEAD_BYTES + 301
    );

    drop(retained);
    assert_eq!(
        store.used_bytes(0),
        MEMORY_ENTRY_OVERHEAD_BYTES + 301
    );
    assert!(store.publish(22, 0, b"b", &[2; 300], 0, 3));
}

#[test]
fn admission_requiring_seventeen_victims_bypasses_without_eviction() {
    const VICTIM_COUNT: usize = MAX_EVICTIONS_PER_INSERT + 1;
    const VICTIM_VALUE_BYTES: usize = 32;
    const VICTIM_BYTES: usize = MEMORY_ENTRY_OVERHEAD_BYTES + 1 + VICTIM_VALUE_BYTES;
    const CAPACITY: usize = VICTIM_COUNT * VICTIM_BYTES;

    for policy in EvictionPolicy::all() {
        let mut store = store_with_policy(CAPACITY, 1, policy);
        for hash in 1..=VICTIM_COUNT as u64 {
            assert!(store.publish(hash, 0, b"k", &[hash as u8; VICTIM_VALUE_BYTES], 0, hash,));
        }
        let candidate = vec![0xa5; CAPACITY - MEMORY_ENTRY_OVERHEAD_BYTES - 1];

        assert!(!store.publish(100, 0, b"c", &candidate, 0, 100));
        for hash in 1..=VICTIM_COUNT as u64 {
            assert_hit(&mut store, hash, b"k");
        }
        assert_eq!(
            store.used_bytes(0),
            CAPACITY
        );
        let metrics = store.metrics_snapshot();
        assert_eq!(metrics.evictions, 0, "policy={policy:?}");
        assert_eq!(metrics.bypasses, 1, "policy={policy:?}");
    }
}

#[test]
fn admission_requiring_sixteen_victims_commits_once_planned() {
    const VICTIM_COUNT: usize = MAX_EVICTIONS_PER_INSERT;
    const VICTIM_VALUE_BYTES: usize = 32;
    const VICTIM_BYTES: usize = MEMORY_ENTRY_OVERHEAD_BYTES + 1 + VICTIM_VALUE_BYTES;
    const CAPACITY: usize = VICTIM_COUNT * VICTIM_BYTES;

    for policy in EvictionPolicy::all() {
        if policy == EvictionPolicy::TinyLfu {
            continue;
        }
        let mut store = store_with_policy(CAPACITY, 1, policy);
        for hash in 1..=VICTIM_COUNT as u64 {
            assert!(store.publish(hash, 0, b"k", &[hash as u8; VICTIM_VALUE_BYTES], 0, hash,));
        }
        let candidate = vec![0xa5; CAPACITY - MEMORY_ENTRY_OVERHEAD_BYTES - 1];

        assert!(store.publish(100, 0, b"c", &candidate, 0, 100));
        assert_hit(&mut store, 100, b"c");
        assert_miss(&mut store, 1, b"k");
        assert_eq!(
            store.used_bytes(0),
            CAPACITY
        );
        assert_eq!(
            store.metrics_snapshot().evictions,
            VICTIM_COUNT as u64,
            "policy={policy:?}"
        );
    }
}

#[test]
fn failed_exact_key_expansion_preserves_the_old_value() {
    const ENTRY_COUNT: usize = MAX_EVICTIONS_PER_INSERT + 2;
    const VALUE_BYTES: usize = 32;
    const ENTRY_BYTES: usize = MEMORY_ENTRY_OVERHEAD_BYTES + 1 + VALUE_BYTES;
    const CAPACITY: usize = ENTRY_COUNT * ENTRY_BYTES;

    let mut store = store(CAPACITY, 1);
    for hash in 1..=ENTRY_COUNT as u64 {
        assert!(store.publish(hash, 0, b"k", &[hash as u8; VALUE_BYTES], 0, hash));
    }
    let replacement = vec![0xa5; CAPACITY - MEMORY_ENTRY_OVERHEAD_BYTES - 1];

    assert!(!store.publish(1, 0, b"k", &replacement, 0, 100));
    assert!(matches!(
        store.lookup(1, 0, b"k", ExpiryClock::Fixed(1)),
        MemoryLookup::Hit(value) if value.value() == [1; VALUE_BYTES]
    ));
    assert_eq!(
        store.used_bytes(0),
        CAPACITY
    );
    assert_eq!(store.metrics_snapshot().evictions, 0);
}

#[test]
fn retained_exact_key_replacement_keeps_the_old_value_until_reclaimable() {
    let mut store = store(512, 1);
    assert!(store.publish(21, 0, b"a", &[1; 300], 0, 1));
    let MemoryLookup::Hit(retained) = store.lookup(21, 0, b"a", ExpiryClock::Fixed(1)) else {
        panic!("expected retained value");
    };

    assert!(!store.publish(21, 0, b"a", &[2; 300], 0, 2));
    assert!(matches!(
        store.lookup(21, 0, b"a", ExpiryClock::Fixed(1)),
        MemoryLookup::Hit(value) if value.value() == [1; 300]
    ));

    drop(retained);
    assert!(store.publish(21, 0, b"a", &[2; 300], 0, 3));
    assert!(matches!(
        store.lookup(21, 0, b"a", ExpiryClock::Fixed(1)),
        MemoryLookup::Hit(value) if value.value() == [2; 300]
    ));
}

#[test]
fn skewed_shard_admission_cannot_consume_another_shards_budget() {
    let mut store = store(1024, 2);
    assert!(store.publish(2, 0, b"even-a", &[1; 300], 0, 1));
    assert!(store.publish(4, 0, b"even-b", &[2; 300], 0, 2));
    assert!(store.publish(3, 0, b"odd", &[3; 300], 0, 3));
    assert_miss(&mut store, 2, b"even-a");
    assert_hit(&mut store, 4, b"even-b");

    assert!(
        store.used_bytes(0) <= 512 && store.used_bytes(1) <= 512
    );
}

#[test]
fn lru_and_fifo_have_distinct_hit_ordering() {
    let mut lru = store_with_policy(2 * MEMORY_ENTRY_OVERHEAD_BYTES + 10, 1, EvictionPolicy::Lru);
    publish_clean(&mut lru, 1, b"a", 1);
    publish_clean(&mut lru, 2, b"b", 2);
    assert_hit(&mut lru, 1, b"a");
    publish_clean(&mut lru, 3, b"c", 3);
    assert_hit(&mut lru, 1, b"a");
    assert_miss(&mut lru, 2, b"b");

    let mut fifo = store_with_policy(
        2 * MEMORY_ENTRY_OVERHEAD_BYTES + 10,
        1,
        EvictionPolicy::Fifo,
    );
    publish_clean(&mut fifo, 1, b"a", 1);
    publish_clean(&mut fifo, 2, b"b", 2);
    assert_hit(&mut fifo, 1, b"a");
    publish_clean(&mut fifo, 3, b"c", 3);
    assert_miss(&mut fifo, 1, b"a");
    assert_hit(&mut fifo, 2, b"b");
}

#[test]
fn tinylfu_requires_a_candidate_to_outscore_the_lru_victim() {
    let mut store = store_with_policy(
        2 * MEMORY_ENTRY_OVERHEAD_BYTES + 10,
        1,
        EvictionPolicy::TinyLfu,
    );
    publish_clean(&mut store, 1, b"hot", 1);
    publish_clean(&mut store, 2, b"cold", 2);
    assert_hit(&mut store, 1, b"hot");

    assert!(!store.publish(3, 0, b"cand", b"c", 0, 3));
    assert!(store.publish(3, 0, b"cand", b"c", 0, 4));
    assert_miss(&mut store, 2, b"cold");
    assert_hit(&mut store, 3, b"cand");

    let metrics = store.metrics_snapshot();
    assert_eq!(metrics.admission_rejections, 1);
    assert_eq!(metrics.bypasses, 1);
    assert_eq!(metrics.evictions, 1);
}

#[test]
fn tinylfu_compares_a_candidate_with_the_complete_victim_plan() {
    const VICTIM_BYTES: usize = MEMORY_ENTRY_OVERHEAD_BYTES + 2;
    const CAPACITY: usize = 2 * VICTIM_BYTES;
    let mut store = store_with_policy(CAPACITY, 1, EvictionPolicy::TinyLfu);
    publish_clean(&mut store, 1, b"a", 1);
    publish_clean(&mut store, 2, b"b", 2);
    let candidate = vec![0xa5; CAPACITY - MEMORY_ENTRY_OVERHEAD_BYTES - 1];

    assert!(!store.publish(3, 0, b"c", &candidate, 0, 3));
    assert!(!store.publish(3, 0, b"c", &candidate, 0, 4));
    assert!(store.publish(3, 0, b"c", &candidate, 0, 5));
    assert_miss(&mut store, 1, b"a");
    assert_miss(&mut store, 2, b"b");
    assert_hit(&mut store, 3, b"c");

    let metrics = store.metrics_snapshot();
    assert_eq!(metrics.admission_rejections, 2);
    assert_eq!(metrics.evictions, 2);
}

#[test]
fn sieve_keeps_a_visited_old_entry_and_demotes_an_unvisited_newer_one() {
    let mut store = store_with_policy(
        2 * MEMORY_ENTRY_OVERHEAD_BYTES + 10,
        1,
        EvictionPolicy::Sieve,
    );
    publish_clean(&mut store, 1, b"a", 1);
    publish_clean(&mut store, 2, b"b", 2);
    assert_hit(&mut store, 1, b"a");
    publish_clean(&mut store, 3, b"c", 3);

    assert_hit(&mut store, 1, b"a");
    assert_miss(&mut store, 2, b"b");
    assert_hit(&mut store, 3, b"c");
}

#[test]
fn shared_handles_keep_the_resident_charge_intact() {
    let mut store = store(512, 1);
    assert!(store.publish(21, 0, b"a", &[1; 300], 0, 1));
    let MemoryLookup::Hit(retained) = store.lookup(21, 0, b"a", ExpiryClock::Fixed(1)) else {
        panic!("published value must be visible");
    };
    let handles = vec![retained.share(), retained.share(), retained.share()];
    assert!(!store.publish(22, 0, b"b", &[2; 300], 0, 2));
    drop(handles);
    drop(retained);
    assert_hit(&mut store, 21, b"a");
    assert_eq!(store.used_bytes(0), MEMORY_ENTRY_OVERHEAD_BYTES + 301);
    assert!(store.publish(22, 0, b"b", &[2; 300], 0, 3));
}

#[test]
fn expired_values_are_not_served_from_memory() {
    let mut store = store(1024, 1);
    assert!(store.publish(5, 0, b"key", b"value", 10, 1));
    assert!(matches!(
        store.lookup(5, 0, b"key", ExpiryClock::Fixed(9)),
        MemoryLookup::Hit(_)
    ));
    assert!(matches!(
        store.lookup(5, 0, b"key", ExpiryClock::Fixed(10)),
        MemoryLookup::Miss(_)
    ));
}

#[test]
fn a_miss_token_promotes_a_disk_value() {
    let mut store = store(1024, 1);
    let MemoryLookup::Miss(token) = store.lookup(9, 0, b"key", ExpiryClock::Fixed(1)) else {
        panic!("empty memory tier must miss");
    };
    let promoted = store.promote(token, 9, 0, b"key", b"disk", 0, 1).unwrap();
    assert_eq!(promoted.value(), b"disk");
    assert_eq!(promoted.key(), b"key");
    assert_hit(&mut store, 9, b"key");
}

#[test]
fn a_store_without_shards_is_refused() {
    assert!(MemoryStore::new(1024, 0, EvictionPolicy::Clock, true).is_err());
}

#[test]
fn a_value_keeps_key_and_value_apart() {
    let stored = MemoryValue::in_room(Vec::new(), b"key", b"value");
    assert_eq!(stored.key(), b"key");
    assert_eq!(stored.value(), b"value");
    assert_eq!(stored.charged_bytes(), MEMORY_ENTRY_OVERHEAD_BYTES + 8);
    let empty = MemoryValue::try_new(b"", b"").unwrap();
    assert_eq!(empty.charged_bytes(), MEMORY_ENTRY_OVERHEAD_BYTES);
}

#[test]
fn a_replaced_value_stays_charged_while_it_is_held() {
    let mut store = store(2048, 1);
    assert!(store.publish(21, 0, b"a", &[1; 300], 0, 1));
    let single = store.used_bytes(0);
    let MemoryLookup::Hit(held) = store.lookup(21, 0, b"a", ExpiryClock::Fixed(1)) else {
        panic!("expected a value");
    };
    assert!(store.publish(21, 0, b"a", &[2; 300], 0, 2));
    assert_eq!(store.used_bytes(0), 2 * single);
    assert_eq!(held.value(), [1; 300]);
    drop(held);
    assert_eq!(store.used_bytes(0), single);
}

#[test]
fn an_arena_copies_and_needs_nothing_for_an_empty_pair() {
    let mut arena = MemoryArena::new();
    let stored = arena.allocate(b"key", b"value", 300).ok().unwrap();
    assert_eq!((stored.key(), stored.value()), (&b"key"[..], &b"value"[..]));
    assert!(arena.allocate(b"", b"", MEMORY_ENTRY_OVERHEAD_BYTES).is_ok());
}
