use hybrid_cache::bucket_file::{BUCKET_DATA_OFFSET, BUCKET_PAGE_MAGIC, BUCKET_SUPERBLOCK_MAGIC};
use hybrid_cache::bytes::{fnv1a_update, write_u16, write_u32, write_u64, FNV_OFFSET_BASIS};
use hybrid_cache::checkpoint::{
    CheckpointDirectory, CheckpointIndexEntry, CheckpointRegionSnapshot, CheckpointSlotHeader, CHECKPOINT_LANE_VERSION,
    CHECKPOINT_REGION_SNAPSHOT_SIZE,
};
use hybrid_cache::checksum::{crc32c, seal};
use hybrid_cache::format::{
    RecordCodec, RecordHeader, RecordKind, RegionHeader, RegionState, Superblock, SuperblockProbe, FORMAT_VERSION,
    RECORD_HEADER_SIZE, REGION_HEADER_SIZE, SUPERBLOCK_AREA_SIZE, SUPERBLOCK_SIZE,
};
use hybrid_cache::hybrid_manifest::HYBRID_MANIFEST_MAGIC;
use hybrid_cache::index::{PackedLocation, MAX_REGION_ID};
use hybrid_cache::management::{
    CacheFileKind, CheckpointDirectoryState, ManagementError, ReopenDisposition, SuperblockState, VerifyComponent,
    VerifyReport, MAX_REPORTED_VERIFY_ISSUES,
};
use hybrid_cache::offline_file::FileImage;
use hybrid_cache::offline_verify::{
    inspect_cache_file, inspect_hybrid_cache_files, verify_cache_file, verify_hybrid_cache_files,
};
use hybrid_cache::region_file::checkpoint_matches_superblock;
use hybrid_cache::region_verify::SequenceRoom;

const TEST_REGION_SIZE: u64 = 64 * 1024;
const TEST_REGION_COUNT: u32 = 4;
const HASH_SEED: u64 = 7;
const SLOT_SIZE: u64 = 8192;

/// A cache file of four Regions with one stored value, closed cleanly.
struct TestCache {
    bytes: Vec<u8>,
    clean: Superblock,
    region: RegionHeader,
    record: Vec<u8>,
    directory: CheckpointDirectory,
}

fn put(bytes: &mut [u8], offset: u64, content: &[u8]) {
    bytes[offset as usize..offset as usize + content.len()].copy_from_slice(content);
}

fn record(key: &[u8], value: &[u8], epoch: u32, seqno: u64) -> (RecordHeader, Vec<u8>) {
    let payload: Vec<u8> = key.iter().chain(value).copied().collect();
    let record_len = (RECORD_HEADER_SIZE + payload.len()).div_ceil(8) * 8;
    let header = RecordHeader {
        kind: RecordKind::Value,
        codec: RecordCodec::Plain,
        record_len: record_len as u32,
        key_len: key.len() as u32,
        stored_len: value.len() as u32,
        epoch,
        seqno,
        region_incarnation: 1,
        key_hash: fnv1a_update(FNV_OFFSET_BASIS ^ HASH_SEED, key),
        expires_at_unix_ms: 0,
        payload_crc: crc32c(&payload),
    };
    let mut bytes = header.encode();
    bytes.extend_from_slice(&payload);
    bytes.resize(record_len, 0);
    (header, bytes)
}

impl TestCache {
    fn new() -> TestCache {
        TestCache::with_lanes(1)
    }

    fn with_lanes(lanes: u8) -> TestCache {
        let region_count = if lanes > 1 { u32::from(lanes) + 1 } else { TEST_REGION_COUNT };
        let data_file_len = SUPERBLOCK_AREA_SIZE + u64::from(region_count) * TEST_REGION_SIZE;
        let clean = Superblock {
            generation: 3,
            region_size: TEST_REGION_SIZE,
            region_count,
            epoch: 1,
            epoch_start_seqno: 1,
            next_seqno: 20,
            hash_seed: HASH_SEED,
            clean: true,
        };
        let directory = CheckpointDirectory {
            data_file_len,
            region_size: TEST_REGION_SIZE,
            region_count,
            slot_size: SLOT_SIZE,
        };
        let mut bytes = vec![0_u8; directory.total_file_len().unwrap() as usize];
        put(&mut bytes, 0, &clean.encode());
        put(
            &mut bytes,
            SUPERBLOCK_SIZE as u64,
            &Superblock {
                generation: 2,
                clean: false,
                next_seqno: 2,
                ..clean
            }
            .encode(),
        );

        let (header, record) = record(b"key", b"verified-value", 1, 19);
        let region = RegionHeader {
            region_id: 0,
            incarnation: 1,
            state: RegionState::Active,
            created_seqno: 2,
            used: REGION_HEADER_SIZE as u64 + record.len() as u64,
        };
        let mut payload = Vec::new();
        for region_id in 0..region_count {
            let current = if region_id == 0 {
                region
            } else if region_id < u32::from(lanes) {
                RegionHeader {
                    region_id,
                    created_seqno: 2 + u64::from(region_id),
                    used: REGION_HEADER_SIZE as u64,
                    ..region
                }
            } else {
                RegionHeader {
                    region_id,
                    incarnation: 0,
                    state: RegionState::Free,
                    created_seqno: 0,
                    used: REGION_HEADER_SIZE as u64,
                }
            };
            let offset = SUPERBLOCK_AREA_SIZE + u64::from(region_id) * TEST_REGION_SIZE;
            put(&mut bytes, offset, &current.encode());
            payload.extend_from_slice(
                &CheckpointRegionSnapshot {
                    incarnation: current.incarnation,
                    state: current.state,
                    created_seqno: current.created_seqno,
                    used: current.used,
                    max_seqno: if region_id == 0 { header.seqno } else { current.created_seqno },
                    lane_id: if current.state == RegionState::Active {
                        Some(region_id as u8)
                    } else {
                        None
                    },
                }
                .encode(),
            );
        }
        put(&mut bytes, SUPERBLOCK_AREA_SIZE + REGION_HEADER_SIZE as u64, &record);
        payload.extend_from_slice(
            &CheckpointIndexEntry {
                hash: header.key_hash,
                location: PackedLocation::new(0, REGION_HEADER_SIZE as u32, header.record_len, false),
                seqno: header.seqno,
                expires_at_unix_ms: 0,
            }
            .encode(),
        );
        put(&mut bytes, data_file_len, &directory.encode());
        let mut cache = TestCache {
            bytes,
            clean,
            region,
            record,
            directory,
        };
        cache.write_checkpoint(&payload);
        cache
    }

    fn slot_header(&self, payload: &[u8]) -> CheckpointSlotHeader {
        CheckpointSlotHeader {
            version: CHECKPOINT_LANE_VERSION,
            slot: 0,
            generation: self.clean.generation,
            payload_len: payload.len() as u64,
            region_count: self.clean.region_count,
            entry_count: 1,
            epoch: self.clean.epoch,
            epoch_start_seqno: self.clean.epoch_start_seqno,
            max_seqno: self.clean.next_seqno - 1,
            superblock_generation: self.clean.generation,
            hash_seed: HASH_SEED,
            payload_crc: crc32c(payload),
            index_slots: None,
            index_shards: None,
        }
    }

    fn write_checkpoint(&mut self, payload: &[u8]) {
        let header = self.slot_header(payload).encode(self.directory).unwrap();
        let offset = self.directory.slot_header_offset(0).unwrap();
        put(&mut self.bytes, offset, &header);
        let offset = self.directory.slot_payload_offset(0).unwrap();
        put(&mut self.bytes, offset, payload);
    }

    fn write_dirty(&mut self, generation: u64) {
        let dirty = Superblock {
            generation,
            clean: false,
            ..self.clean
        };
        put(&mut self.bytes, SUPERBLOCK_SIZE as u64, &dirty.encode());
    }

    fn write_tail(&mut self, seqno: u64) {
        let tail = record(b"key", b"verified-value", self.clean.epoch, seqno).1;
        let offset = SUPERBLOCK_AREA_SIZE + self.region.used;
        put(&mut self.bytes, offset, &tail);
    }

    fn image(&self) -> FileImage {
        FileImage::new(self.bytes.clone())
    }

    fn verify(&self) -> VerifyReport {
        verify_cache_file(&self.image()).unwrap()
    }
}

fn reports(report: &VerifyReport, component: VerifyComponent, message: &str) -> bool {
    report
        .issues
        .iter()
        .any(|issue| issue.component == component && issue.message.contains(message))
}

#[test]
fn inspect_and_verify_a_closed_cache_without_changing_any_bytes() {
    let cache = TestCache::new();
    let before = cache.bytes.clone();
    let inspected = inspect_cache_file(&cache.image()).unwrap();
    assert_eq!(inspected.kind, CacheFileKind::FormatV1);
    assert_eq!(inspected.regions.active, 1);
    assert_eq!(inspected.regions.invalid_headers, 0);
    assert_eq!(inspected.checkpoint.directory_state, CheckpointDirectoryState::Valid);
    assert_eq!(inspected.selected().unwrap().slot, 0);

    let verified = cache.verify();
    assert!(verified.valid, "{:?}", verified.issues);
    assert!(verified.safe_to_open);
    assert_eq!(verified.records_verified, 1);
    assert_eq!(verified.values_verified, 1);
    assert_eq!(verified.tombstones_verified, 0);
    assert!(verified.selected_verified_checkpoint.is_some());
    assert_eq!(cache.bytes, before);
}

#[test]
fn verify_accepts_every_runtime_append_lane_in_a_clean_checkpoint() {
    let verified = TestCache::with_lanes(8).verify();
    assert!(verified.valid, "{:?}", verified.issues);
    assert!(verified.safe_to_open);
    assert_eq!(verified.reopen_disposition, ReopenDisposition::CleanCheckpoint);
    assert!(verified.selected_verified_checkpoint.is_some());
}

#[test]
fn full_verify_detects_payload_corruption_and_remains_read_only() {
    let mut cache = TestCache::new();
    let key_offset = SUPERBLOCK_AREA_SIZE as usize + REGION_HEADER_SIZE + RECORD_HEADER_SIZE;
    cache.bytes[key_offset] ^= 0x80;

    let corrupted = cache.bytes.clone();

    assert!(inspect_cache_file(&cache.image()).is_ok());
    let report = cache.verify();
    assert!(!report.valid);
    assert!(report.safe_to_open);
    assert!(reports(&report, VerifyComponent::RecordPayload, "checksum"));
    assert_eq!(cache.bytes, corrupted);
}

#[test]
fn hostile_region_count_is_rejected_before_region_allocation_or_iteration() {
    let superblock = Superblock {
        generation: 1,
        region_size: TEST_REGION_SIZE,
        region_count: MAX_REGION_ID + 1,
        epoch: 1,
        epoch_start_seqno: 1,
        next_seqno: 2,
        hash_seed: 7,
        clean: true,
    };
    let mut bytes = superblock.encode();
    bytes.extend_from_slice(&superblock.encode());
    assert_eq!(bytes.len() as u64, SUPERBLOCK_AREA_SIZE);

    let inspected = inspect_cache_file(&FileImage::new(bytes.clone())).unwrap();
    assert_eq!(inspected.kind, CacheFileKind::CorruptV1);
    assert_eq!(inspected.regions.expected, MAX_REGION_ID + 1);
    assert_eq!(inspected.regions.valid_headers, 0);

    let verified = verify_cache_file(&FileImage::new(bytes)).unwrap();
    assert!(!verified.valid);
    assert!(!verified.safe_to_open);
    assert_eq!(verified.reopen_disposition, ReopenDisposition::Refused);
    assert_eq!(verified.regions_verified, 0);
}

#[test]
fn short_declared_data_extent_is_never_reported_as_data_valid() {
    let mut cache = TestCache::new();
    let data_file_len = inspect_cache_file(&cache.image()).unwrap().data_file_len.unwrap();
    cache.bytes.truncate(data_file_len as usize - 1);

    let report = cache.verify();
    assert!(!report.valid);
    assert!(report.safe_to_open);
    assert_eq!(report.reopen_disposition, ReopenDisposition::SafeEmpty);
    assert_eq!(report.regions_verified, 0);
    assert!(reports(
        &report,
        VerifyComponent::Layout,
        "shorter than its declared data extent"
    ));
}

#[test]
fn epoch_advanced_dirty_lineage_requires_two_superblock_generations() {
    let checkpoint = CheckpointSlotHeader {
        version: CHECKPOINT_LANE_VERSION,
        slot: 0,
        generation: 5,
        payload_len: 0,
        region_count: 1,
        entry_count: 0,
        epoch: 1,
        epoch_start_seqno: 1,
        max_seqno: 9,
        superblock_generation: 5,
        hash_seed: 7,
        payload_crc: 0,
        index_slots: None,
        index_shards: None,
    };
    let mut dirty = Superblock {
        generation: 6,
        region_size: TEST_REGION_SIZE,
        region_count: 1,
        epoch: 2,
        epoch_start_seqno: 10,
        next_seqno: 11,
        hash_seed: 7,
        clean: false,
    };

    assert!(!checkpoint_matches_superblock(checkpoint, dirty));
    dirty.generation = 7;
    assert!(checkpoint_matches_superblock(checkpoint, dirty));
}

#[test]
fn dirty_verify_refuses_superblock_generation_overflow() {
    let mut cache = TestCache::new();
    cache.write_dirty(u64::MAX);
    let report = cache.verify();
    assert!(!report.valid);
    assert!(!report.safe_to_open);
    assert_eq!(report.selected_verified_checkpoint, None);
    assert_eq!(report.reopen_disposition, ReopenDisposition::Refused);
    assert!(reports(
        &report,
        VerifyComponent::Superblock,
        "cannot publish a clean checkpoint"
    ));

    cache.write_dirty(u64::MAX - 1);
    let safe_empty_overflow = cache.verify();
    assert!(!safe_empty_overflow.valid);
    assert!(!safe_empty_overflow.safe_to_open);
    assert_eq!(safe_empty_overflow.selected_verified_checkpoint, None);
    assert_eq!(safe_empty_overflow.reopen_disposition, ReopenDisposition::Refused);
    assert!(reports(
        &safe_empty_overflow,
        VerifyComponent::Superblock,
        "cannot complete safe-empty formatting"
    ));
}

#[test]
fn clean_checkpoint_must_exactly_match_current_region_headers() {
    let mut cache = TestCache::new();
    let shorter = RegionHeader {
        used: REGION_HEADER_SIZE as u64,
        ..cache.region
    };
    put(&mut cache.bytes, SUPERBLOCK_AREA_SIZE, &shorter.encode());

    let report = cache.verify();
    assert!(!report.valid);
    assert_eq!(report.selected_verified_checkpoint, None);
    assert_eq!(report.reopen_disposition, ReopenDisposition::CleanFullScan);
    assert!(reports(&report, VerifyComponent::CheckpointPayload, "does not exactly match"));
}

#[test]
fn dirty_incremental_verifies_active_tail_beyond_persisted_cursor() {
    let mut cache = TestCache::new();
    cache.write_tail(cache.clean.next_seqno);
    cache.write_dirty(cache.clean.generation + 1);
    let report = cache.verify();
    assert!(report.valid, "{:?}", report.issues);
    assert_eq!(report.reopen_disposition, ReopenDisposition::DirtyIncremental);
    assert!(report.selected_verified_checkpoint.is_some());

    // A tail that leaves no next sequence number must not be promised an
    // incremental reopen.
    cache.write_tail(u64::MAX);
    let overflow = cache.verify();
    assert!(!overflow.valid);
    assert_eq!(overflow.selected_verified_checkpoint, None);
    assert_eq!(overflow.reopen_disposition, ReopenDisposition::SafeEmpty);
    assert!(reports(&overflow, VerifyComponent::RecordHeader, "generation or sequence"));

    cache.write_tail(cache.clean.next_seqno);
    let tail_offset = SUPERBLOCK_AREA_SIZE + cache.region.used;
    put(&mut cache.bytes, tail_offset, b"X");
    let torn = cache.verify();
    assert!(!torn.valid);
    assert_eq!(torn.selected_verified_checkpoint, None);
    assert_eq!(torn.reopen_disposition, ReopenDisposition::SafeEmpty);
    assert!(reports(
        &torn,
        VerifyComponent::CheckpointPayload,
        "non-zero incremental tail"
    ));
}

#[test]
fn dirty_verify_rejects_region_creation_sequence_overflow() {
    let mut cache = TestCache::new();
    let overflow_region = RegionHeader {
        region_id: 1,
        incarnation: 1,
        state: RegionState::Sealed,
        created_seqno: u64::MAX,
        used: REGION_HEADER_SIZE as u64,
    };
    put(
        &mut cache.bytes,
        SUPERBLOCK_AREA_SIZE + TEST_REGION_SIZE,
        &overflow_region.encode(),
    );
    cache.write_dirty(cache.clean.generation + 1);

    let report = cache.verify();
    assert!(!report.valid);
    assert_eq!(report.selected_verified_checkpoint, None);
    assert_eq!(report.reopen_disposition, ReopenDisposition::SafeEmpty);
    assert!(report
        .issues
        .iter()
        .any(|issue| issue.component == VerifyComponent::RegionHeader && issue.region_id == Some(1)));
}

#[test]
fn dirty_verify_checks_checkpoint_covered_record_payloads() {
    let mut cache = TestCache::new();
    cache.write_tail(cache.clean.next_seqno);
    cache.write_dirty(cache.clean.generation + 1);
    let old_payload = SUPERBLOCK_AREA_SIZE as usize + REGION_HEADER_SIZE + RECORD_HEADER_SIZE;
    assert_eq!(cache.bytes[old_payload], cache.record[RECORD_HEADER_SIZE]);
    cache.bytes[old_payload] ^= 0xff;

    let report = cache.verify();
    assert!(!report.valid);
    assert!(report.selected_verified_checkpoint.is_some());
    assert_eq!(report.reopen_disposition, ReopenDisposition::DirtyIncremental);
    assert!(reports(&report, VerifyComponent::RecordPayload, "checksum"));
}

#[test]
fn checkpoint_entry_with_out_of_range_region_is_structurally_invalid() {
    let mut cache = TestCache::new();
    let inspected = inspect_cache_file(&cache.image()).unwrap();
    let slot = inspected.checkpoint.selected_header_slot.unwrap();
    let payload_offset = cache.directory.slot_payload_offset(usize::from(slot)).unwrap() as usize;
    let entry_offset = cache.clean.region_count as usize * CHECKPOINT_REGION_SNAPSHOT_SIZE;
    let payload_len = cache.slot_header(&[]).region_count as usize * CHECKPOINT_REGION_SNAPSHOT_SIZE + 40;
    let mut payload = cache.bytes[payload_offset..payload_offset + payload_len].to_vec();
    let impossible_owner = CheckpointIndexEntry {
        hash: 1,
        location: PackedLocation::new(cache.clean.region_count, REGION_HEADER_SIZE as u32, 96, false),
        seqno: 19,
        expires_at_unix_ms: 0,
    };
    payload.truncate(entry_offset);
    payload.extend_from_slice(&impossible_owner.encode());
    cache.write_checkpoint(&payload);

    let report = cache.verify();
    assert!(!report.valid);
    assert_eq!(report.selected_verified_checkpoint, None);
    assert!(report.issues.iter().any(|issue| {
        issue.component == VerifyComponent::CheckpointPayload
            && issue.checkpoint_slot == Some(slot)
            && issue.message.contains("fields are invalid")
    }));
}

#[test]
fn an_empty_file_and_foreign_bytes_are_told_apart() {
    let empty = inspect_cache_file(&FileImage::new(Vec::new())).unwrap();
    assert_eq!(empty.kind, CacheFileKind::Empty);
    let zeroes = inspect_cache_file(&FileImage::new(vec![0; 8192])).unwrap();
    assert_eq!(zeroes.kind, CacheFileKind::InterruptedV1);
    let foreign = inspect_cache_file(&FileImage::new(vec![1; 8192])).unwrap();
    assert_eq!(foreign.kind, CacheFileKind::Unrecognized);
    assert_eq!(foreign.kind.as_str(), "unrecognized");
    assert!(!verify_cache_file(&FileImage::new(vec![1; 8192])).unwrap().safe_to_open);
}

#[test]
fn pages_read_back_what_was_written() {
    let cache = TestCache::new();
    let page = cache.clean.encode();
    assert_eq!(Superblock::decode(&page), Some(cache.clean));
    assert_eq!(Superblock::probe(&page), SuperblockProbe::ValidV1(cache.clean));
    let mut torn = page;
    torn[100] ^= 1;
    assert_eq!(Superblock::decode(&torn), None);
    assert_eq!(Superblock::probe(&torn), SuperblockProbe::CorruptV1);
    assert_eq!(RegionHeader::decode(&cache.region.encode()), Some(cache.region));
    let (header, bytes) = record(b"key", b"verified-value", 1, 19);
    assert_eq!(RecordHeader::decode(&bytes[..RECORD_HEADER_SIZE]), Some(header));
    assert_eq!(crc32c(b"123456789"), 0xe306_9283);
}

fn bucket_file(epoch: u64) -> Vec<u8> {
    let mut superblock = vec![0_u8; 4096];
    write_u64(&mut superblock, 0, BUCKET_SUPERBLOCK_MAGIC);
    write_u16(&mut superblock, 8, 1);
    write_u64(&mut superblock, 16, 5);
    write_u32(&mut superblock, 24, 4096);
    write_u64(&mut superblock, 32, 2);
    write_u64(&mut superblock, 48, epoch);
    superblock[56] = 1;
    seal(&mut superblock, 4092);
    let mut page = vec![0_u8; 4096];
    write_u64(&mut page, 0, BUCKET_PAGE_MAGIC);
    write_u16(&mut page, 8, 1);
    write_u64(&mut page, 24, epoch);
    write_u32(&mut page, 32, 1);
    write_u32(&mut page, 36, 64 + 48);
    write_u16(&mut page, 64 + 12, 5);
    write_u32(&mut page, 64 + 16, 5);
    write_u32(&mut page, 64 + 20, 48);
    seal(&mut page, 4092);
    let mut bytes = superblock;
    bytes.resize(8192, 0);
    bytes.extend_from_slice(&page);
    bytes.resize(8192 + 2 * 4096, 0);
    bytes
}

fn manifest_file() -> Vec<u8> {
    let mut page = vec![0_u8; 4096];
    write_u64(&mut page, 0, HYBRID_MANIFEST_MAGIC);
    write_u16(&mut page, 8, 1);
    write_u16(&mut page, 10, 120);
    write_u64(&mut page, 16, 9);
    page[24] = 42;
    write_u64(&mut page, 40, 1);
    write_u64(&mut page, 48, 8);
    write_u64(&mut page, 64, 1);
    write_u64(&mut page, 72, 65_536);
    page[112] = 1;
    seal(&mut page, 4092);
    page.resize(8192 + 65_536, 0);
    page
}

#[test]
fn hybrid_offline_verify_covers_all_three_files_and_bucket_pages() {
    let region = TestCache::new().image();
    let manifest = FileImage::new(manifest_file());
    let bucket = FileImage::new(bucket_file(3));

    let inspected = inspect_hybrid_cache_files(&bucket, &region, &manifest).unwrap();
    assert!(inspected.valid);
    let verified = verify_hybrid_cache_files(&bucket, &region, &manifest).unwrap();
    assert!(verified.valid);
    assert!(verified.safe_to_open);
    assert!(verified.bucket.entries_verified >= 1);
    assert!(verified.region.records_verified >= 1);

    let mut damaged = bucket_file(3);
    put(&mut damaged, BUCKET_DATA_OFFSET + 100, b"X");
    let damaged = verify_hybrid_cache_files(&FileImage::new(damaged), &region, &manifest).unwrap();
    assert!(!damaged.valid);
    assert_eq!(damaged.bucket.invalid_buckets, 1);

    let mut torn = manifest_file();
    torn[50] ^= 1;
    let refused = verify_hybrid_cache_files(&bucket, &region, &FileImage::new(torn)).unwrap();
    assert!(!refused.safe_to_open);
}

#[test]
fn management_errors_have_words() {
    assert_eq!(
        ManagementError::<()>::Locked.message(),
        "cache file is open by another instance"
    );
    assert_eq!(ManagementError::<()>::UnsupportedTarget("a directory").message(), "a directory");
}

#[test]
fn no_regions_need_no_room() {
    let room = SequenceRoom::try_new(0).unwrap();
    assert!(room.seqnos.is_empty());
}

#[test]
fn only_a_valid_superblock_copy_shows_its_version() {
    let cache = TestCache::new();
    let inspected = inspect_cache_file(&cache.image()).unwrap();
    assert_eq!(inspected.superblocks[0].state, SuperblockState::ValidV1);
    assert_eq!(inspected.superblocks[0].version, Some(FORMAT_VERSION));

    let mut corrupt = TestCache::new();
    corrupt.bytes[SUPERBLOCK_SIZE + 20] ^= 1;
    let inspected = inspect_cache_file(&corrupt.image()).unwrap();
    assert_eq!(inspected.superblocks[1].state, SuperblockState::CorruptV1);
    assert_eq!(inspected.superblocks[1].version, None);
    assert_eq!(inspected.superblocks[0].version, Some(FORMAT_VERSION));

    let mut later = TestCache::new();
    later.bytes[SUPERBLOCK_SIZE + 8] = 9;
    let inspected = inspect_cache_file(&later.image()).unwrap();
    assert_eq!(inspected.superblocks[1].state, SuperblockState::Unsupported);
    assert_eq!(inspected.superblocks[1].version, None);

    let zeroes = inspect_cache_file(&FileImage::new(vec![0; 8192])).unwrap();
    assert!(zeroes.superblocks.iter().all(|copy| copy.version.is_none()));
}

#[test]
fn a_report_counts_issues_and_keeps_the_first_ones() {
    let mut report = TestCache::new().verify();
    assert!(report.valid);
    for offset in 0..MAX_REPORTED_VERIFY_ISSUES as u64 + 3 {
        report.add_file_issue(VerifyComponent::Superblock, offset, "found");
    }
    assert!(!report.valid);
    assert_eq!(report.issues_total, MAX_REPORTED_VERIFY_ISSUES as u64 + 3);
    assert_eq!(report.issues.len(), MAX_REPORTED_VERIFY_ISSUES);
    for (place, issue) in report.issues.iter().enumerate() {
        assert_eq!(issue.offset, place as u64);
    }
    assert_eq!(report.records_verified, report.values_verified + report.tombstones_verified);
}

#[test]
fn each_repeated_creation_sequence_is_an_issue() {
    let mut cache = TestCache::with_lanes(8);
    for (region_id, created_seqno) in [(3_u32, 2_u64), (5, 4), (7, 2)] {
        let header = RegionHeader {
            region_id,
            created_seqno,
            used: REGION_HEADER_SIZE as u64,
            ..cache.region
        };
        let offset = SUPERBLOCK_AREA_SIZE + u64::from(region_id) * TEST_REGION_SIZE;
        put(&mut cache.bytes, offset, &header.encode());
    }
    let report = cache.verify();
    let repeated = report
        .issues
        .iter()
        .filter(|issue| issue.message == "Region creation sequence is duplicated" && issue.offset == SUPERBLOCK_AREA_SIZE)
        .count();
    assert_eq!(repeated, 3);
    assert!(!report.valid);
}
