use std::sync::Arc;

use hybrid_cache::memory_engine::{
    charge_of_capacities, MemoryEngine, MemoryEntry, MemoryError, MemoryHit, MemoryLookup, MemoryPutResult, MemoryRejectReason,
    MEMORY_ENTRY_OVERHEAD_BYTES,
};

fn entry(namespace: u32, key: &str, value_len: usize) -> MemoryEntry {
    MemoryEntry::new(
        namespace,
        key.as_bytes().to_vec(),
        vec![key.as_bytes()[0]; value_len],
        None,
        true,
    )
}

fn stored(result: MemoryPutResult) -> (u64, usize, usize) {
    match result {
        MemoryPutResult::Stored {
            revision,
            evicted_entries,
            evicted_bytes,
        } => (revision, evicted_entries, evicted_bytes),
        other => panic!("expected stored result, got {other:?}"),
    }
}

fn hit(result: Result<MemoryLookup, MemoryError>) -> MemoryHit {
    match result.unwrap() {
        MemoryLookup::Hit(hit) => hit,
        other => panic!("expected memory hit, got {other:?}"),
    }
}

#[test]
fn configuration_and_per_shard_capacity_are_hard_bounded() {
    assert!(matches!(
        MemoryEngine::new(1_024, 0),
        Err(MemoryError::InvalidConfig(_))
    ));
    assert!(matches!(
        MemoryEngine::new(1_024, 3),
        Err(MemoryError::InvalidConfig(_))
    ));
    assert!(matches!(
        MemoryEngine::new(1_024, 8),
        Err(MemoryError::InvalidConfig(_))
    ));

    let capacity = 4 * MEMORY_ENTRY_OVERHEAD_BYTES + 3;
    let mut engine = MemoryEngine::new(capacity, 4).unwrap();
    assert_eq!(engine.stats().capacity_bytes, capacity);

    let mut single_shard = MemoryEngine::new(MEMORY_ENTRY_OVERHEAD_BYTES + 16, 1).unwrap();
    let mut overallocated_key = Vec::with_capacity(32);
    overallocated_key.push(b'k');
    assert!(matches!(
        single_shard.put_at(MemoryEntry::new(
            0,
            overallocated_key,
            Vec::new(),
            None,
            true
        ), 0),
        MemoryPutResult::NotStored {
            reason: MemoryRejectReason::TooLarge,
            ..
        }
    ));
}

#[test]
fn lru_eviction_returns_oldest_live_victims_and_never_exceeds_capacity() {
    let item_bytes = MEMORY_ENTRY_OVERHEAD_BYTES + 1 + 16;
    let mut engine = MemoryEngine::new(item_bytes * 2, 1).unwrap();
    stored(engine.put_at(entry(0, "a", 16), 0));
    stored(engine.put_at(entry(0, "b", 16), 0));
    hit(engine.get_at(0, b"a", 10));

    let (_, evicted, evicted_bytes) = stored(engine.put_at(entry(0, "c", 16), 10));
    assert_eq!(evicted, 1);
    assert_eq!(evicted_bytes, item_bytes);
    hit(engine.get_at(0, b"a", 10));
    assert_eq!(engine.get_at(0, b"b", 10).unwrap(), MemoryLookup::Miss);
    hit(engine.get_at(0, b"c", 10));

    let stats = engine.stats();
    assert_eq!(stats.entries, 2);
    assert_eq!(stats.charged_bytes, stats.capacity_bytes);
    assert_eq!(stats.evictions, 1);
}

#[test]
fn rejection_is_non_destructive_and_expiry_releases_the_charge() {
    let capacity = MEMORY_ENTRY_OVERHEAD_BYTES + 3 + 8;
    let mut engine = MemoryEngine::new(capacity, 1).unwrap();
    stored(engine.put_at(
        MemoryEntry::new(7, b"key".to_vec(), b"original".to_vec(), None, true),
        100,
    ));

    let rejected = engine.put_at(
        MemoryEntry::new(7, b"key".to_vec(), vec![0; 9], None, false),
        100,
    );
    assert!(matches!(
        rejected,
        MemoryPutResult::NotStored {
            reason: MemoryRejectReason::TooLarge,
            ..
        }
    ));
    assert_eq!(
        hit(engine.get_at(7, b"key", 100)).value.as_slice(),
        b"original"
    );

    let expired_update = engine.put_at(
        MemoryEntry::new(7, b"key".to_vec(), b"new".to_vec(), Some(100), false),
        100,
    );
    assert!(matches!(
        expired_update,
        MemoryPutResult::NotStored {
            reason: MemoryRejectReason::AlreadyExpired,
            ..
        }
    ));
    hit(engine.get_at(7, b"key", 100));

    let (_, evicted, _) = stored(engine.put_at(
        MemoryEntry::new(9, b"x".to_vec(), b"v".to_vec(), Some(110), false),
        100,
    ));
    assert_eq!(evicted, 1);
    assert!(matches!(
        engine.get_at(9, b"x", 110).unwrap(),
        MemoryLookup::Expired(_)
    ));
    assert_eq!(engine.stats().charged_bytes, 0);
}

#[test]
fn revision_fences_stale_disk_completions() {
    let mut engine = MemoryEngine::new(4 * MEMORY_ENTRY_OVERHEAD_BYTES, 1).unwrap();
    let (first_revision, _, _) = stored(engine.put_at(entry(0, "a", 1), 0));
    let (second_revision, _, _) = stored(engine.put_at(entry(0, "a", 2), 0));
    assert_ne!(first_revision, second_revision);
    assert!(!engine.mark_disk_clean_if(0, b"a", first_revision));
    assert!(engine.mark_disk_clean_if(0, b"a", second_revision));
    assert!(hit(engine.get_at(0, b"a", 0)).disk_clean);
    assert!(engine.mark_disk_dirty_if(0, b"a", second_revision));
    assert!(!hit(engine.get_at(0, b"a", 0)).disk_clean);
}

#[test]
fn hits_share_the_admitted_value_allocation_and_preserve_its_charge() {
    let mut engine = MemoryEngine::new(MEMORY_ENTRY_OVERHEAD_BYTES + 64, 1).unwrap();
    let mut value = Vec::with_capacity(63);
    value.extend_from_slice(b"shared");
    let entry = MemoryEntry::new(0, b"k".to_vec(), value, None, true);
    let expected_charge = entry.charged_bytes().unwrap();
    let admitted_value = Arc::clone(&entry.value);

    stored(engine.put_at(entry, 0));
    let first = hit(engine.get_at(0, b"k", 0));
    let second = hit(engine.get_at(0, b"k", 0));

    assert!(Arc::ptr_eq(&admitted_value, &first.value));
    assert!(Arc::ptr_eq(&first.value, &second.value));
    assert_eq!(first.value.as_slice(), b"shared");
    assert_eq!(engine.stats().charged_bytes, expected_charge);
}

#[test]
fn namespace_remove_and_clear_have_unambiguous_semantics() {
    let mut engine = MemoryEngine::new(8 * MEMORY_ENTRY_OVERHEAD_BYTES, 1).unwrap();
    stored(engine.put_at(entry(1, "a", 1), 0));
    stored(engine.put_at(entry(2, "a", 1), 0));
    assert_eq!(engine.remove_at(1, b"a", 0).unwrap().namespace, 1);
    assert_eq!(engine.get_at(1, b"a", 0).unwrap(), MemoryLookup::Miss);
    hit(engine.get_at(2, b"a", 0));
    assert_eq!(engine.clear(), 1);
    assert_eq!(engine.get_at(2, b"a", 0).unwrap(), MemoryLookup::Miss);
    assert_eq!(engine.stats().entries, 0);
    assert_eq!(engine.stats().clears, 1);
}

#[test]
fn dirty_victim_requires_successful_synchronous_demotion() {
    let item_bytes = MEMORY_ENTRY_OVERHEAD_BYTES + 1 + 8;
    let mut engine = MemoryEngine::new(item_bytes, 1).unwrap();
    let mut dirty = entry(0, "a", 8);
    dirty.disk_clean = false;
    stored(engine.put_at(dirty, 0));

    let blocked = engine.put_at(entry(0, "b", 8), 0);
    assert!(matches!(
        blocked,
        MemoryPutResult::NotStored {
            reason: MemoryRejectReason::DirtyVictimBlocked,
            ..
        }
    ));
    assert!(!hit(engine.get_at(0, b"a", 0)).disk_clean);

    let failed = engine.put_at_with_demote(entry(0, "b", 8), 0, |_| None);
    assert!(matches!(
        failed,
        MemoryPutResult::NotStored {
            reason: MemoryRejectReason::DemotionFailed,
            ..
        }
    ));
    assert!(!hit(engine.get_at(0, b"a", 0)).disk_clean);

    let mut demoted = Vec::new();
    let (_, evicted, _) = stored(engine.put_at_with_demote(entry(0, "b", 8), 0, |victim| {
        demoted.push(victim.key.clone());
        Some(8)
    }));
    assert_eq!(demoted, [b"a".to_vec()]);
    assert_eq!(evicted, 1);
    assert_eq!(engine.get_at(0, b"a", 0).unwrap(), MemoryLookup::Miss);
    hit(engine.get_at(0, b"b", 0));
}

#[test]
fn successful_victim_before_later_demotion_failure_keeps_exact_receipt() {
    let item_bytes = MEMORY_ENTRY_OVERHEAD_BYTES + 1 + 8;
    let mut engine = MemoryEngine::new(item_bytes * 2, 1).unwrap();
    let mut first = entry(0, "a", 8);
    first.disk_clean = false;
    let mut second = entry(0, "b", 8);
    second.disk_clean = false;
    stored(engine.put_at(first, 0));
    stored(engine.put_at(second, 0));

    let mut attempts = 0;
    let failed = engine.put_at_with_demote(entry(0, "c", item_bytes), 0, |_| {
        attempts += 1;
        (attempts == 1).then_some(777)
    });
    assert!(matches!(
        failed,
        MemoryPutResult::NotStored {
            reason: MemoryRejectReason::DemotionFailed,
            ..
        }
    ));
    let first = engine.entry_usage_at(0, b"a", 0).unwrap();
    let second = engine.entry_usage_at(0, b"b", 0).unwrap();
    assert!(first.disk_clean);
    assert_eq!(first.pending_disk_bytes, 777);
    assert!(!second.disk_clean);
}

#[test]
fn churn_charge_is_bounded_and_clear_releases_retained_containers() {
    let capacity = 32 * (MEMORY_ENTRY_OVERHEAD_BYTES + 8);
    let mut engine = MemoryEngine::new(capacity, 1).unwrap();
    for round in 0..4 {
        for item in 0..64 {
            let key = format!("key-{round}-{item}");
            stored(engine.put_at(MemoryEntry::new(
                0,
                key.into_bytes(),
                vec![item as u8; 8],
                None,
                true,
            ), 0));
        }
    }

    {
        let shard = engine.shard(0);
        let snapshot = shard.snapshot();
        let (_, nodes, free) = shard.container_capacities();
        assert!(shard.retained_slots() > shard.resident_entries());
        assert!(shard.retained_slots() <= snapshot.capacity_bytes / MEMORY_ENTRY_OVERHEAD_BYTES);
        assert!(snapshot.charged_bytes <= snapshot.capacity_bytes);
        assert!(nodes >= shard.retained_slots());
        assert!(free >= shard.retained_slots());
    }

    assert!(engine.clear() != 0);
    let shard = engine.shard(0);
    assert_eq!(shard.retained_slots(), 0);
    assert_eq!(shard.snapshot().charged_bytes, 0);
    assert_eq!(shard.container_capacities(), (0, 0, 0));
}

#[test]
fn switching_between_small_and_large_objects_reclaims_old_slot_capacity() {
    let capacity = 8 * MEMORY_ENTRY_OVERHEAD_BYTES + 512;
    let mut engine = MemoryEngine::new(capacity, 1).unwrap();
    for key in b'a'..=b'h' {
        stored(engine.put_at(MemoryEntry::new(0, vec![key], Vec::new(), None, true), 0));
    }

    let large = MemoryEntry::new(0, b"large".to_vec(), vec![7; 2_000], None, true);
    let large_charge = large.charged_bytes().unwrap();
    let (_, evicted, _) = stored(engine.put_at(large, 0));
    assert_eq!(evicted, 8);
    assert_eq!(hit(engine.get_at(0, b"large", 0)).value.len(), 2_000);
    {
        let shard = engine.shard(0);
        assert_eq!(shard.retained_slots(), 1);
        assert_eq!(shard.snapshot().charged_bytes, large_charge);
    }

    stored(engine.put_at(MemoryEntry::new(0, b"x".to_vec(), Vec::new(), None, true), 0));
    let (_, evicted, evicted_bytes) =
        stored(engine.put_at(MemoryEntry::new(0, b"y".to_vec(), Vec::new(), None, true), 0));
    assert_eq!(evicted, 1);
    assert_eq!(evicted_bytes, large_charge);
    assert_eq!(engine.get_at(0, b"large", 0).unwrap(), MemoryLookup::Miss);
    hit(engine.get_at(0, b"x", 0));
    hit(engine.get_at(0, b"y", 0));
    assert!(engine.stats().charged_bytes <= capacity);
}


#[test]
fn persisting_visits_every_dirty_entry_once() {
    let mut engine = MemoryEngine::new(16 * MEMORY_ENTRY_OVERHEAD_BYTES, 4).unwrap();
    for key in 0_u8..4 {
        stored(engine.put_at(MemoryEntry::new(0, vec![key], Vec::new(), None, false), 0));
    }
    assert_eq!(engine.stats().dirty_entries, 4);
    let (entries, _) = engine
        .persist_all_dirty(&|_: &MemoryEntry| Ok::<u64, ()>(9))
        .unwrap();
    assert_eq!(entries, 4);
    assert_eq!(engine.stats().dirty_entries, 0);
    assert_eq!(engine.entry_usage_at(0, &[2], 0).unwrap().pending_disk_bytes, 9);
    assert!(engine.persist_all_dirty(&|_: &MemoryEntry| Err::<u64, ()>(())).is_ok());
}

#[test]
fn a_failed_persist_keeps_entries_dirty() {
    let mut engine = MemoryEngine::new(16 * MEMORY_ENTRY_OVERHEAD_BYTES, 1).unwrap();
    stored(engine.put_at(MemoryEntry::new(0, vec![1], Vec::new(), None, false), 0));
    assert!(engine.persist_all_dirty(&|_: &MemoryEntry| Err::<u64, ()>(())).is_err());
    assert_eq!(engine.stats().dirty_entries, 1);
}

#[test]
fn churn_over_shards_preserves_the_global_bound() {
    let capacity = 128 * (MEMORY_ENTRY_OVERHEAD_BYTES + 32);
    let mut engine = MemoryEngine::new(capacity, 8).unwrap();
    for item in 0..200 {
        for worker in 0..8_u32 {
            let key = format!("worker-{worker}-item-{item}");
            stored(engine.put_at(
                MemoryEntry::new(worker, key.as_bytes().to_vec(), vec![worker as u8; 32], None, true),
                0,
            ));
            if item % 3 == 0 {
                assert!(engine.remove_at(worker, key.as_bytes(), 0).is_some());
            }
        }
    }
    assert!(engine.stats().charged_bytes <= capacity);
}

#[test]
fn an_engine_is_made_in_given_room() {
    let engine = MemoryEngine::in_room(Vec::new(), 4 * MEMORY_ENTRY_OVERHEAD_BYTES + 2, 4);
    assert_eq!(engine.stats().capacity_bytes, 4 * MEMORY_ENTRY_OVERHEAD_BYTES + 2);
    assert_eq!(engine.stats().entries, 0);
    let message = |result: Result<MemoryEngine, MemoryError>| match result {
        Err(MemoryError::InvalidConfig(message)) => message,
        _ => "",
    };
    assert_eq!(message(MemoryEngine::new(1024, 3)), "shard_count must be a non-zero power of two");
    assert_eq!(message(MemoryEngine::new(1024, 8192)), "shard_count exceeds the hard limit of 4096");
    assert_eq!(
        message(MemoryEngine::new(1, 1)),
        "capacity must allow at least one minimum-size entry per shard"
    );
}

#[test]
fn an_entry_is_charged_for_the_capacity_of_its_buffers() {
    assert_eq!(charge_of_capacities(3, 5), Some(MEMORY_ENTRY_OVERHEAD_BYTES + 8));
    assert_eq!(charge_of_capacities(usize::MAX, 0), None);
    let mut value = Vec::with_capacity(100);
    value.push(1);
    let capacity = value.capacity();
    let key = b"key".to_vec();
    let key_capacity = key.capacity();
    let charged = MemoryEntry::new(0, key, value, None, true).charged_bytes();
    assert_eq!(charged, charge_of_capacities(key_capacity, capacity));
}

#[test]
fn statistics_account_for_what_is_resident() {
    let mut engine = MemoryEngine::new(16 * MEMORY_ENTRY_OVERHEAD_BYTES, 2).unwrap();
    stored(engine.put_at(MemoryEntry::new(0, vec![1], vec![1; 10], None, false), 0));
    stored(engine.put_at(MemoryEntry::new(0, vec![2], vec![2; 20], None, true), 0));
    let stats = engine.stats();
    assert_eq!((stats.entries, stats.dirty_entries), (2, 1));
    assert!(stats.charged_bytes >= 2 * MEMORY_ENTRY_OVERHEAD_BYTES + 32);
    assert!(stats.dirty_bytes >= MEMORY_ENTRY_OVERHEAD_BYTES + 11);
    assert!(stats.charged_bytes <= stats.capacity_bytes);
}

#[test]
fn shards_can_be_persisted_one_by_one() {
    let mut engine = MemoryEngine::new(16 * MEMORY_ENTRY_OVERHEAD_BYTES, 4).unwrap();
    for key in 0_u8..4 {
        stored(engine.put_at(MemoryEntry::new(0, vec![key], Vec::new(), None, false), 0));
    }
    let mut entries = 0;
    for shard in engine.shards_mut() {
        entries += shard.persist_all_dirty(&|_: &MemoryEntry| Ok::<u64, ()>(9)).unwrap().0;
    }
    assert_eq!(entries, 4);
    assert_eq!(engine.stats().dirty_entries, 0);
    assert_eq!(engine.stats().entries, 4);
}

#[test]
fn after_a_clear_every_key_misses_and_revisions_go_on() {
    let mut engine = MemoryEngine::new(16 * MEMORY_ENTRY_OVERHEAD_BYTES, 1).unwrap();
    let (first, _, _) = stored(engine.put_at(entry(0, "a", 4), 0));
    let (second, _, _) = stored(engine.put_at(entry(0, "b", 4), 0));
    assert!(matches!(engine.get_at(0, b"a", 0), Ok(MemoryLookup::Hit(_))));
    let before = engine.stats();
    assert_eq!(engine.clear(), 2);
    let after = engine.stats();
    assert_eq!((after.entries, after.charged_bytes, after.dirty_entries, after.dirty_bytes), (0, 0, 0, 0));
    assert_eq!((after.hits, after.misses, after.puts), (before.hits, before.misses, before.puts));
    assert_eq!(after.clears, before.clears + 1);
    assert!(matches!(engine.get_at(0, b"a", 0), Ok(MemoryLookup::Miss)));
    assert!(matches!(engine.get_at(0, b"b", 0), Ok(MemoryLookup::Miss)));
    let (third, _, _) = stored(engine.put_at(entry(0, "a", 4), 0));
    assert!(first < second && second < third);
}
