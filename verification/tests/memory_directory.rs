use hybrid_cache::memory_directory::{hash_tag, DirectoryError, DirectoryUpsert, MemoryDirectory};

#[test]
fn insert_replace_remove_and_empty_reuse() {
    let mut directory = MemoryDirectory::new(8).unwrap();
    assert_eq!(
        directory.upsert(7, 1, |head| head == 1, |_| 7),
        DirectoryUpsert::Inserted
    );
    assert_eq!(directory.get(7, |head| head == 1), Some(1));
    assert_eq!(
        directory.upsert(7, 2, |head| head == 1, |_| 7),
        DirectoryUpsert::Replaced(1)
    );
    assert_eq!(directory.remove(7, |head| head == 2), Some(2));
    assert_eq!(directory.get(7, |_| true), None);
    assert_eq!(
        directory.upsert(7, 3, |_| false, |_| 7),
        DirectoryUpsert::Inserted
    );
    assert_eq!(directory.get(7, |head| head == 3), Some(3));
}

#[test]
fn full_hash_validation_disambiguates_equal_tags() {
    let mut directory = MemoryDirectory::new(8).unwrap();
    let first = 3_u64;
    let second = first | (1_u64 << 20);
    let hashes = [first, second];
    assert_eq!(hash_tag(first), hash_tag(second));
    assert_eq!(
        directory.upsert(first, 0, |_| false, |head| hashes[head as usize]),
        DirectoryUpsert::Inserted
    );
    assert_eq!(
        directory.upsert(second, 1, |_| false, |head| hashes[head as usize]),
        DirectoryUpsert::Inserted
    );
    assert_eq!(directory.get(first, |head| head == 0), Some(0));
    assert_eq!(directory.get(second, |head| head == 1), Some(1));
}

#[test]
fn directory_storage_is_five_bytes_per_bucket() {
    let directory = MemoryDirectory::new(7).unwrap();
    assert_eq!(directory.allocation_bytes(), 8 * 5);
}

#[test]
fn configured_load_remains_reachable_during_churn() {
    const ENTRIES: usize = 7 * 1024;
    let mut directory = MemoryDirectory::new(ENTRIES).unwrap();
    let mut hashes: Vec<_> = (0..ENTRIES).map(|ordinal| mix(ordinal as u64)).collect();
    for (ordinal, hash) in hashes.iter().copied().enumerate() {
        assert_eq!(
            directory.upsert(
                hash,
                ordinal as u32,
                |head| hashes[head as usize] == hash,
                |head| hashes[head as usize]
            ),
            DirectoryUpsert::Inserted,
            "directory exhausted at {ordinal}/{ENTRIES} entries"
        );
    }

    for operation in 0..ENTRIES * 2 {
        let index = operation % ENTRIES;
        let old_hash = hashes[index];
        assert_eq!(
            directory.remove(old_hash, |head| hashes[head as usize] == old_hash),
            Some(index as u32)
        );
        let new_hash = mix((ENTRIES + operation) as u64);
        hashes[index] = new_hash;
        assert_eq!(
            directory.upsert(
                new_hash,
                index as u32,
                |head| hashes[head as usize] == new_hash,
                |head| hashes[head as usize]
            ),
            DirectoryUpsert::Inserted
        );
    }
    for (ordinal, hash) in hashes.iter().copied().enumerate() {
        assert_eq!(
            directory.get(hash, |head| hashes[head as usize] == hash),
            Some(ordinal as u32)
        );
    }
}

fn mix(mut value: u64) -> u64 {
    value = (value ^ (value >> 30)).wrapping_mul(0xbf58_476d_1ce4_e5b9);
    value = (value ^ (value >> 27)).wrapping_mul(0x94d0_49bb_1331_11eb);
    value ^ (value >> 31)
}

#[test]
fn an_empty_directory_takes_nothing() {
    let mut directory = MemoryDirectory::new(0).unwrap();
    assert_eq!(directory.allocation_bytes(), 0);
    assert!(!directory.can_upsert(7, |_| false, |_| 7));
    assert_eq!(directory.upsert(7, 1, |_| false, |_| 7), DirectoryUpsert::Full);
    assert_eq!(directory.len(), 0);
}

#[test]
fn a_directory_is_made_in_given_room() {
    let directory = MemoryDirectory::in_rooms(Vec::new(), Vec::new(), 7).unwrap();
    assert_eq!(directory.allocation_bytes(), 8 * 5);
    assert_eq!(directory.get(7, |_| true), None);
    assert_eq!(
        MemoryDirectory::in_rooms(Vec::new(), Vec::new(), usize::MAX).err(),
        Some(DirectoryError::TooLarge)
    );
    assert_eq!(MemoryDirectory::new(usize::MAX).err(), Some(DirectoryError::TooLarge));
}

#[test]
fn directory_errors_have_words() {
    assert_eq!(DirectoryError::TooLarge.message(), "L1 directory is too large");
    assert_eq!(DirectoryError::ControlsAllocation.message(), "cannot allocate L1 directory controls");
    assert_eq!(DirectoryError::HeadsAllocation.message(), "cannot allocate L1 directory heads");
}

#[test]
fn a_possible_upsert_is_carried_out() {
    const ENTRIES: usize = 7 * 64;
    let mut directory = MemoryDirectory::new(ENTRIES).unwrap();
    let hashes: Vec<u64> = (0..ENTRIES as u64).map(mix).collect();
    for (ordinal, hash) in hashes.iter().copied().enumerate() {
        let possible = directory.can_upsert(hash, |_| false, |head| hashes[head as usize]);
        let outcome = directory.upsert(hash, ordinal as u32, |_| false, |head| hashes[head as usize]);
        assert_eq!(possible, outcome == DirectoryUpsert::Inserted);
    }
    assert!(directory.len() > ENTRIES / 2);
}
