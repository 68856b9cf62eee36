use hybrid_cache::index::{IndexEntry, PackedLocation};
use hybrid_cache::index_storage::{CorruptPageReason, IndexPhysicalStats, IndexSlotStateV1, IndexStorageError, ShardedIndexStorage};
use hybrid_cache::index_v2::{
    IndexLookupV2, IndexMaskV2, IndexMutationAuthorityV2, IndexTransitionV2, IndexUpsertV2, RegionIndexV2,
};

fn entry(region_id: u32, offset: u32, seqno: u64) -> IndexEntry {
    IndexEntry {
        location: PackedLocation::new(region_id, offset, 32, false),
        seqno,
        namespace_id: region_id + 100,
        flags: 0,
    }
}

fn anonymous(slot_count: usize) -> RegionIndexV2 {
    RegionIndexV2::from_storage(ShardedIndexStorage::anonymous(slot_count).unwrap())
}

#[derive(Default)]
struct RecordingAuthority {
    min_visible_seqno: u64,
    invisible_region: Option<u32>,
    live_records: i64,
    transitions: Vec<IndexTransitionV2>,
}

impl RecordingAuthority {
    fn charge(&self, state: IndexSlotStateV1) -> i64 {
        match state {
            IndexSlotStateV1::Value { entry, .. } if self.is_visible(entry) => 1,
            _ => 0,
        }
    }
}

impl IndexMutationAuthorityV2 for RecordingAuthority {
    fn is_visible(&self, entry: IndexEntry) -> bool {
        entry.seqno >= self.min_visible_seqno
            && self.invisible_region != Some(entry.location.region_id)
    }

    fn commit(&mut self, transition: IndexTransitionV2) {
        self.live_records +=
            self.charge(transition.installed) - self.charge(transition.previous);
        self.transitions.push(transition);
    }
}

#[test]
fn authority_commits_only_applied_transitions_using_stable_visibility() {
    let mut index = anonymous(8);
    let hash = 3;
    let first = entry(1, 8, 10);
    let mut authority = RecordingAuthority::default();

    let outcome = index
        .upsert_with_authority(hash, first, &mut authority)
        .unwrap();
    let IndexUpsertV2::Applied { transition, .. } = outcome else {
        panic!("upsert must commit");
    };
    assert_eq!(authority.transitions, [transition]);
    assert_eq!(authority.live_records, 1);

    assert_eq!(
        index
            .upsert_with_authority(hash, entry(2, 16, 9), &mut authority)
            .unwrap(),
        IndexUpsertV2::Ignored {
            current: Some(first)
        }
    );
    assert_eq!(
        index
            .remove_if_with_authority(hash, entry(2, 16, 9), &mut authority)
            .unwrap(),
        None
    );
    assert_eq!(authority.transitions.len(), 1);
    assert_eq!(authority.live_records, 1);

    // Advancing the authority floor invalidates the old physical value in
    // O(1). Replacing it must add the new visible record without charging
    // a subtraction for the now-invisible predecessor.
    authority.min_visible_seqno = 11;
    authority.live_records = 0;
    let second = entry(2, 16, 11);
    assert!(matches!(
        index
            .upsert_with_authority(hash, second, &mut authority)
            .unwrap(),
        IndexUpsertV2::Applied { previous: None, .. }
    ));
    assert_eq!(authority.transitions.len(), 2);
    assert_eq!(authority.live_records, 1);

    assert!(matches!(
        index
            .mask_if_newer_with_authority(hash, 12, &mut authority)
            .unwrap(),
        IndexMaskV2::Applied { previous: Some(entry), .. } if entry == second
    ));
    assert_eq!(authority.transitions.len(), 3);
    assert_eq!(authority.live_records, 0);
}

#[test]
fn relocation_requires_both_record_locations_to_remain_visible() {
    let mut index = anonymous(8);
    let hash = 3;
    let source = entry(1, 4096, 10);
    let target = entry(2, 8192, 10);
    let mut authority = RecordingAuthority::default();
    index
        .upsert_with_authority(hash, source, &mut authority)
        .unwrap();
    authority.transitions.clear();

    authority.invisible_region = Some(source.location.region_id);
    assert_eq!(
        index
            .replace_if_with_authority(hash, source, target, &mut authority)
            .unwrap(),
        None
    );
    assert_eq!(index.lookup_raw(hash).unwrap(), IndexLookupV2::Hit(source));
    assert!(authority.transitions.is_empty());

    authority.invisible_region = Some(target.location.region_id);
    assert_eq!(
        index
            .replace_if_with_authority(hash, source, target, &mut authority)
            .unwrap(),
        None
    );
    assert_eq!(index.lookup_raw(hash).unwrap(), IndexLookupV2::Hit(source));
    assert!(authority.transitions.is_empty());
}

#[test]
fn newer_versions_win_and_conditional_changes_match_record_identity() {
    let mut index = anonymous(8);
    let hash = 7;
    let first = entry(1, 8, 10);
    let older = entry(2, 16, 9);
    let second = entry(3, 24, 11);
    let replacement = IndexEntry {
        location: PackedLocation::new(4, 32, 32, false),
        ..second
    };

    assert!(matches!(
        index.upsert(hash, first, 0).unwrap(),
        IndexUpsertV2::Applied {
            transition: IndexTransitionV2 {
                global_slot: 7,
                previous: IndexSlotStateV1::Empty,
                installed: IndexSlotStateV1::Value { hash: 7, entry },
            },
            previous: None,
        } if entry == first
    ));
    assert_eq!(
        index.upsert(hash, older, 0).unwrap(),
        IndexUpsertV2::Ignored {
            current: Some(first)
        }
    );
    assert!(matches!(
        index.upsert(hash, second, 0).unwrap(),
        IndexUpsertV2::Applied {
            transition: IndexTransitionV2 {
                global_slot: 7,
                previous: IndexSlotStateV1::Value { hash: 7, entry: old },
                installed: IndexSlotStateV1::Value { hash: 7, entry: new },
            },
            previous: Some(visible),
        } if old == first && new == second && visible == first
    ));
    assert_eq!(index.lookup_raw(hash).unwrap(), IndexLookupV2::Hit(second));

    assert_eq!(index.replace_if(hash, first, replacement).unwrap(), None);
    assert_eq!(
        index.replace_if(hash, second, entry(4, 32, 12)).unwrap(),
        None
    );
    let second_with_new_flags = IndexEntry { flags: 7, ..second };
    assert!(matches!(
        index
            .replace_if(hash, second_with_new_flags, replacement)
            .unwrap(),
        Some(IndexTransitionV2 {
            previous: IndexSlotStateV1::Value { entry: old, .. },
            installed: IndexSlotStateV1::Value { entry: new, .. },
            ..
        }) if old == second && new == replacement
    ));
    assert_eq!(index.remove_if(hash, second).unwrap(), None);
    let replacement_with_new_flags = IndexEntry {
        flags: 11,
        ..replacement
    };
    assert!(matches!(
        index
            .remove_if(hash, replacement_with_new_flags)
            .unwrap(),
        Some(IndexTransitionV2 {
            previous: IndexSlotStateV1::Value { entry: old, .. },
            installed: IndexSlotStateV1::Deleted,
            ..
        }) if old == replacement
    ));
    assert_eq!(index.lookup_raw(hash).unwrap(), IndexLookupV2::Miss);
}

#[test]
fn raw_lookup_and_exact_revalidate_need_no_visibility_callback() {
    let mut index = anonymous(8);
    let hash = 5;
    let current = entry(2, 16, 9);
    assert!(matches!(
        index.upsert(hash, current, 0).unwrap(),
        IndexUpsertV2::Applied { .. }
    ));

    assert_eq!(index.lookup_raw(hash).unwrap(), IndexLookupV2::Hit(current));
    assert!(index.revalidate_exact(hash, current).unwrap());
    assert!(
        index
            .revalidate_exact(
                hash,
                IndexEntry {
                    flags: 7,
                    ..current
                }
            )
            .unwrap()
    );
    assert!(!index.revalidate_exact(hash, entry(3, 24, 9)).unwrap());
    assert!(!index.revalidate_exact(hash, entry(2, 16, 10)).unwrap());

    assert!(matches!(
        index.mask_if_newer(hash, 10, 0).unwrap(),
        IndexMaskV2::Applied { .. }
    ));
    assert_eq!(
        index.lookup_raw(hash).unwrap(),
        IndexLookupV2::Masked { seqno: 10 }
    );
    assert!(!index.revalidate_exact(hash, current).unwrap());
}

#[test]
fn stale_foreign_value_is_reused_without_a_visible_predecessor() {
    let mut index = anonymous(8);
    let stale = entry(1, 8, 10);
    let supplied = entry(2, 16, 11);
    index.upsert(1, stale, 0).unwrap();

    assert!(matches!(
        index
            .upsert(9, supplied, 11)
            .unwrap(),
        IndexUpsertV2::Applied {
            transition: IndexTransitionV2 {
                global_slot: 1,
                previous: IndexSlotStateV1::Value { hash: 1, entry: old },
                installed: IndexSlotStateV1::Value { hash: 9, entry: new },
            },
            previous: None,
        } if old == stale && new == supplied
    ));
    assert_eq!(
        index.storage().physical_stats(),
        IndexPhysicalStats {
            value: 1,
            deleted: 0,
            masked: 0,
        }
    );
}

#[test]
fn a_full_foreign_mask_window_is_saturated_and_unchanged() {
    let mut storage = ShardedIndexStorage::anonymous(8).unwrap();
    {
        for slot in 0..storage.read_hash_shard(0).slot_count() {
            storage
                .replace(
                    0,
                    slot,
                    IndexSlotStateV1::Masked {
                        hash: 100 + slot as u64,
                        seqno: 10 + slot as u64,
                    },
                )
                .unwrap();
        }
    }
    let mut index = RegionIndexV2::from_storage(storage);
    let before = index.storage().shard_stats();
    let mut authority = RecordingAuthority::default();

    assert_eq!(
        index
            .upsert_with_authority(1, entry(1, 8, 20), &mut authority)
            .unwrap(),
        IndexUpsertV2::Saturated
    );
    assert_eq!(
        index
            .mask_if_newer_with_authority(1, 20, &mut authority)
            .unwrap(),
        IndexMaskV2::Saturated
    );
    assert!(authority.transitions.is_empty());
    assert_eq!(index.storage().shard_stats(), before);
    let shard = index.storage().read_hash_shard(0);
    for slot in 0..shard.slot_count() {
        assert_eq!(
            shard.read(slot).unwrap(),
            IndexSlotStateV1::Masked {
                hash: 100 + slot as u64,
                seqno: 10 + slot as u64,
            }
        );
    }
}

#[test]
fn same_hash_mask_orders_publish_and_normalization_updates_stats() {
    let storage = ShardedIndexStorage::anonymous(8).unwrap();
    let hash = 7;
    let local_slot = 7;
    let mut index = RegionIndexV2::from_storage(storage);
    let prior = entry(1, 8, 10);
    assert!(matches!(
        index.upsert(hash, prior, 0).unwrap(),
        IndexUpsertV2::Applied { .. }
    ));

    assert!(matches!(
        index.mask_if_newer(hash, 12, 0).unwrap(),
        IndexMaskV2::Applied {
            transition: IndexTransitionV2 {
                previous: IndexSlotStateV1::Value { hash: 7, entry },
                installed: IndexSlotStateV1::Masked { hash: 7, seqno: 12 },
                ..
            },
            previous: Some(visible),
        } if entry == prior && visible == prior
    ));
    assert_eq!(
        index.lookup_raw(hash).unwrap(),
        IndexLookupV2::Masked { seqno: 12 }
    );
    assert_eq!(
        index.mask_if_newer(hash, 11, 0).unwrap(),
        IndexMaskV2::Masked { seqno: 12 }
    );
    assert_eq!(
        index.upsert(hash, entry(1, 8, 11), 0).unwrap(),
        IndexUpsertV2::Masked { seqno: 12 }
    );
    assert!(matches!(
        index.mask_if_newer(hash, 13, 0).unwrap(),
        IndexMaskV2::Applied {
            transition: IndexTransitionV2 {
                previous: IndexSlotStateV1::Masked { hash: 7, seqno: 12 },
                installed: IndexSlotStateV1::Masked { hash: 7, seqno: 13 },
                ..
            },
            previous: None,
        }
    ));
    assert_eq!(index.normalize_mask_if(hash, 12).unwrap(), None);
    assert!(matches!(
        index.normalize_mask_if(hash, 13).unwrap(),
        Some(IndexTransitionV2 {
            previous: IndexSlotStateV1::Masked { hash: 7, seqno: 13 },
            installed: IndexSlotStateV1::Deleted,
            ..
        })
    ));
    assert_eq!(
        index.storage().physical_stats(),
        IndexPhysicalStats {
            value: 0,
            deleted: 1,
            masked: 0,
        }
    );

    let mut storage = index.into_storage();
    assert_eq!(
        storage
            .replace(hash, local_slot, IndexSlotStateV1::Masked { hash, seqno: 12 })
            .unwrap(),
        IndexSlotStateV1::Deleted
    );
    let mut index = RegionIndexV2::from_storage(storage);
    let newer = entry(2, 16, 13);
    assert!(matches!(
        index.upsert(hash, newer, 0).unwrap(),
        IndexUpsertV2::Applied {
            transition: IndexTransitionV2 {
                previous: IndexSlotStateV1::Masked { hash: 7, seqno: 12 },
                installed: IndexSlotStateV1::Value { hash: 7, entry },
                ..
            },
            previous: None,
        } if entry == newer
    ));
    assert_eq!(
        index.storage().physical_stats(),
        IndexPhysicalStats {
            value: 1,
            deleted: 0,
            masked: 0,
        }
    );
}

#[test]
fn a_probe_crossing_a_corrupt_page_returns_the_fault_without_mutation() {
    const SLOT_COUNT: usize = 133;
    const HASH: u64 = 124;

    let mut source = ShardedIndexStorage::anonymous(SLOT_COUNT).unwrap();
    source.replace(HASH, 124, IndexSlotStateV1::Deleted).unwrap();
    source.replace(HASH, 125, IndexSlotStateV1::Deleted).unwrap();
    source.mark_page_corrupt(1, CorruptPageReason::ChecksumMismatch { stored: 0x0102_0304, computed: 0x0102_0384 });
    let mut index = RegionIndexV2::from_storage(source);
    let before = index.storage().shard_stats();
    let mut authority = RecordingAuthority::default();

    assert!(matches!(
        index.upsert_with_authority(HASH, entry(3, 24, 20), &mut authority),
        Err(IndexStorageError::CorruptPage {
            page_index: 1,
            reason: CorruptPageReason::ChecksumMismatch { .. },
        })
    ));
    assert!(authority.transitions.is_empty());
    assert_eq!(index.storage().shard_stats(), before);
}

#[test]
fn a_hash_of_the_second_shard_is_served_from_it() {
    let mut source = anonymous(134);
    let value = entry(5, 40, 21);
    assert!(matches!(
        source.upsert(1, value, 0).unwrap(),
        IndexUpsertV2::Applied {
            transition: IndexTransitionV2 { global_slot: 127, .. },
            ..
        }
    ));
    assert_eq!(source.storage().shard_count(), 2);
    let recovered = RegionIndexV2::from_storage(source.into_storage());
    assert_eq!(recovered.lookup_raw(1).unwrap(), IndexLookupV2::Hit(value));
}

#[test]
fn zero_and_hidden_versions_are_ignored() {
    let mut index = anonymous(8);
    assert_eq!(
        index.upsert(1, entry(1, 8, 0), 0).unwrap(),
        IndexUpsertV2::Ignored { current: None }
    );
    assert_eq!(
        index.upsert(1, entry(1, 8, 4), 5).unwrap(),
        IndexUpsertV2::Ignored { current: None }
    );
    assert_eq!(
        index.mask_if_newer(1, 0, 0).unwrap(),
        IndexMaskV2::Ignored { current: None }
    );
    assert_eq!(index.lookup_raw(1).unwrap(), IndexLookupV2::Miss);
}

#[test]
fn a_removed_slot_does_not_end_a_probe() {
    let mut index = anonymous(8);
    let first = entry(1, 8, 10);
    let second = entry(2, 16, 11);
    index.upsert(1, first, 0).unwrap();
    index.upsert(9, second, 0).unwrap();
    assert!(index.remove_if(1, first).unwrap().is_some());
    assert_eq!(index.lookup_raw(9).unwrap(), IndexLookupV2::Hit(second));
    assert_eq!(index.lookup_raw(1).unwrap(), IndexLookupV2::Miss);
}
