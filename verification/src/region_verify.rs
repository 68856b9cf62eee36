//! Offline verification of the records in the Region file.

use vstd::prelude::*;

use crate::bytes::{all_zero, fnv1a, fnv1a_update, is_all_zero, lemma_fnv1a_concat, read_u32, u32_at, FNV_OFFSET_BASIS};
use crate::checksum::{crc32c_of, Crc32c};
use crate::containers::{sort_numbers, vec_try_reserve_exact};
use crate::format::{
    law_record_holds_its_payload, RecordCodec, RecordHeader, RecordKind, RegionHeader, RegionState, Superblock,
    RECORD_HEADER_SIZE, REGION_HEADER_SIZE, SUPERBLOCK_AREA_SIZE,
};
use crate::management::{
    file_issue, issue_added, law_issue_is_put_on_record, region_issue, tally, IssueModel, ManagementError, ReportModel, VerifyComponent, VerifyReport,
};
use crate::offline_file::{stream_payload, OfflineFile};
use crate::region_file::{data_end, lemma_region_bounds, one_more, probe_region, region_probe, supported_layout, RegionProbe};

verus! {

/// Bytes of the namespace in front of a namespaced key.
pub const NAMESPACE_KEY_PREFIX_SIZE: usize = 4;

// ---------------------------------------------------------------------------
// Record payloads
// ---------------------------------------------------------------------------

/// `cache-rs/ns/v1` with a closing zero: what is hashed in front of a
/// namespaced key.
pub open spec fn namespace_hash_domain() -> Seq<u8> {
    seq![99u8, 97u8, 99u8, 104u8, 101u8, 45u8, 114u8, 115u8, 47u8, 110u8, 115u8, 47u8, 118u8, 49u8, 0u8]
}

/// The hash of a record's stored key.
pub open spec fn record_key_hash(hash_seed: u64, codec: RecordCodec, key: Seq<u8>) -> u64 {
    fnv1a(
        FNV_OFFSET_BASIS ^ hash_seed,
        if codec.namespaced() {
            namespace_hash_domain() + key
        } else {
            key
        },
    )
}

/// What is wrong with a record's payload, if anything is.
pub open spec fn payload_fault(contents: Seq<u8>, hash_seed: u64, header: RecordHeader, payload_offset: int) -> Option<Seq<char>> {
    let key = contents.subrange(payload_offset, payload_offset + header.key_len);
    let payload = contents.subrange(payload_offset, payload_offset + header.key_len + header.stored_len);
    if header.codec.namespaced() && header.key_len < NAMESPACE_KEY_PREFIX_SIZE {
        Some("namespaced record key is shorter than its prefix"@)
    } else if header.codec.namespaced() && u32_at(key, 0) == 0 {
        Some("namespaced record uses namespace zero"@)
    } else if crc32c_of(payload) != header.payload_crc {
        Some("record payload checksum does not match"@)
    } else if record_key_hash(hash_seed, header.codec, key) != header.key_hash {
        Some("record key hash does not match"@)
    } else {
        None
    }
}

/// Streams a record's key into its checksum and hashes it; the key of a
/// namespaced record must start with a namespace other than zero.
#[verifier::spinoff_prover]
fn hash_record_key<F: OfflineFile>(
    file: &F,
    hash_seed: u64,
    header: RecordHeader,
    payload_offset: u64,
    checksum: &mut Crc32c,
) -> (result: Result<Result<u64, &'static str>, F::Error>)
    requires
        payload_offset + header.key_len <= file.contents().len(),
        old(checksum).bytes() == Seq::<u8>::empty(),
    ensures
        match result {
            Ok(Ok(hash)) => {
                let key = file.contents().subrange(payload_offset as int, payload_offset + header.key_len);
                &&& header.codec.namespaced() ==> header.key_len >= NAMESPACE_KEY_PREFIX_SIZE && u32_at(key, 0) != 0
                &&& final(checksum).bytes() == key
                &&& hash == record_key_hash(hash_seed, header.codec, key)
            },
            Ok(Err(message)) => {
                let key = file.contents().subrange(payload_offset as int, payload_offset + header.key_len);
                &&& header.codec.namespaced()
                &&& if header.key_len < NAMESPACE_KEY_PREFIX_SIZE {
                    message@ == "namespaced record key is shorter than its prefix"@
                } else {
                    u32_at(key, 0) == 0 && message@ == "namespaced record uses namespace zero"@
                }
            },
            Err(_) => !file.reliable(),
        },
{
    let file_len = file.len();
    let ghost key = file.contents().subrange(payload_offset as int, payload_offset + header.key_len);
    let start: u64 = FNV_OFFSET_BASIS ^ hash_seed;
    if !header.codec.is_namespaced() {
        return match stream_payload(file, payload_offset, header.key_len as u64, checksum, Some(start)) {
            Ok(updated) => {
                assert(checksum.bytes() =~= key);
                Ok(Ok(updated.unwrap()))
            },
            Err(error) => Err(error),
        };
    }
    if header.key_len < NAMESPACE_KEY_PREFIX_SIZE as u32 {
        return Ok(Err("namespaced record key is shorter than its prefix"));
    }
    let namespace = match file.read_exact_at(payload_offset, NAMESPACE_KEY_PREFIX_SIZE) {
        Ok(namespace) => namespace,
        Err(error) => {
            return Err(error);
        },
    };
    assert(namespace@ =~= key.take(4));
    assert(u32_at(namespace@, 0) == u32_at(key, 0));
    if read_u32(namespace.as_slice(), 0) == Some(0) {
        return Ok(Err("namespaced record uses namespace zero"));
    }
    checksum.update(namespace.as_slice());
    let domain: [u8; 15] = [99u8, 97u8, 99u8, 104u8, 101u8, 45u8, 114u8, 115u8, 47u8, 110u8, 115u8, 47u8, 118u8, 49u8, 0u8];
    assert(domain@ =~= namespace_hash_domain());
    let prefixed = fnv1a_update(fnv1a_update(start, domain.as_slice()), namespace.as_slice());
    match stream_payload(
        file,
        payload_offset + NAMESPACE_KEY_PREFIX_SIZE as u64,
        header.key_len as u64 - NAMESPACE_KEY_PREFIX_SIZE as u64,
        checksum,
        Some(prefixed),
    ) {
        Ok(updated) => {
            proof {
                let rest = key.skip(4);
                assert(file.contents().subrange(payload_offset + 4, payload_offset + header.key_len) =~= rest);
                assert(key.take(4) + rest =~= key);
                assert(checksum.bytes() =~= key);
                lemma_fnv1a_concat(start, namespace_hash_domain(), key.take(4));
                lemma_fnv1a_concat(start, namespace_hash_domain() + key.take(4), rest);
                assert(namespace_hash_domain() + key =~= namespace_hash_domain() + key.take(4) + rest);
            }
            Ok(Ok(updated.unwrap()))
        },
        Err(error) => Err(error),
    }
}

/// Checks a record's payload.
#[verifier::spinoff_prover]
pub fn verify_record_payload<F: OfflineFile>(file: &F, hash_seed: u64, header: RecordHeader, payload_offset: u64) -> (result: Result<
    Option<&'static str>,
    F::Error,
>)
    requires
        payload_offset + header.key_len + header.stored_len <= file.contents().len(),
    ensures
        match result {
            Ok(Some(message)) => payload_fault(file.contents(), hash_seed, header, payload_offset as int) == Some(message@),
            Ok(None) => payload_fault(file.contents(), hash_seed, header, payload_offset as int) is None,
            Err(_) => !file.reliable(),
        },
{
    let file_len = file.len();
    let ghost key = file.contents().subrange(payload_offset as int, payload_offset + header.key_len);
    let ghost payload = file.contents().subrange(
        payload_offset as int,
        payload_offset + header.key_len + header.stored_len,
    );
    let mut checksum = Crc32c::new();
    let hash: u64 = match hash_record_key(file, hash_seed, header, payload_offset, &mut checksum) {
        Ok(Ok(hash)) => hash,
        Ok(Err(message)) => {
            return Ok(Some(message));
        },
        Err(error) => {
            return Err(error);
        },
    };
    match stream_payload(file, payload_offset + header.key_len as u64, header.stored_len as u64, &mut checksum, None) {
        Ok(_) => {},
        Err(error) => {
            return Err(error);
        },
    }
    assert(checksum.bytes() =~= payload);
    if checksum.finish() != header.payload_crc {
        return Ok(Some("record payload checksum does not match"));
    }
    if hash != header.key_hash {
        return Ok(Some("record key hash does not match"));
    }
    Ok(None)
}

// ---------------------------------------------------------------------------
// Records of one Region
// ---------------------------------------------------------------------------

/// Active Region Headers are persisted at checkpoints and rotations, not after
/// every append. On a dirty file their `used` cursor can therefore lag complete
/// records already on disk, which are scanned until zeroes or bytes from an
/// older incarnation; sealed Regions still end exactly at `used`.
pub open spec fn scans_tail(superblock: Superblock, region: RegionHeader) -> bool {
    !superblock.clean && region.state is Active
}

/// A record's sequence number and epoch fit its Region and the Superblock.
pub open spec fn record_metadata_consistent(
    superblock: Superblock,
    region: RegionHeader,
    header: RecordHeader,
    last_seqno: Option<u64>,
) -> bool {
    &&& header.seqno != 0
    &&& header.seqno != u64::MAX
    &&& superblock.clean ==> header.seqno < superblock.next_seqno
    &&& header.seqno >= region.created_seqno
    &&& last_seqno matches Some(previous) ==> header.seqno > previous
    &&& header.epoch != 0
    &&& header.epoch <= superblock.epoch
    &&& header.epoch == superblock.epoch ==> header.seqno > superblock.epoch_start_seqno
    &&& header.epoch < superblock.epoch ==> header.seqno < superblock.epoch_start_seqno
}

/// Whether a record's sequence number and epoch fit its Region and the
/// Superblock.
fn record_metadata_valid(superblock: Superblock, region: RegionHeader, header: RecordHeader, last_seqno: Option<u64>) -> (valid: bool)
    ensures
        valid == record_metadata_consistent(superblock, region, header, last_seqno),
{
    let after_previous = match last_seqno {
        Some(previous) => header.seqno > previous,
        None => true,
    };
    header.seqno != 0 && header.seqno != u64::MAX && (!superblock.clean || header.seqno < superblock.next_seqno) && header.seqno
        >= region.created_seqno && after_previous && header.epoch != 0 && header.epoch <= superblock.epoch && (header.epoch
        != superblock.epoch || header.seqno > superblock.epoch_start_seqno) && (header.epoch >= superblock.epoch || header.seqno
        < superblock.epoch_start_seqno)
}

/// The report after one step of a scan, and where the scan goes on: at which
/// cursor and behind which sequence number.
pub struct RecordScan {
    pub report: ReportModel,
    pub next: Option<(int, Option<u64>)>,
}

/// The scan ends without a word.
pub open spec fn scan_ended(report: ReportModel) -> RecordScan {
    RecordScan { report, next: None }
}

/// The scan ends with an issue.
pub open spec fn scan_stopped(report: ReportModel, issue: IssueModel) -> RecordScan {
    RecordScan { report: report.with_issue(issue), next: None }
}

/// The scan ends, with an issue if the persisted extent was not reached.
pub open spec fn scan_cut(report: ReportModel, short: bool, issue: IssueModel) -> RecordScan {
    if short {
        scan_stopped(report, issue)
    } else {
        scan_ended(report)
    }
}

/// The report with a verified record counted.
pub open spec fn with_record(report: ReportModel, header: RecordHeader) -> ReportModel {
    let counted = ReportModel {
        records_verified: tally(report.records_verified, 1),
        record_bytes_verified: tally(report.record_bytes_verified, header.record_len as u64),
        ..report
    };
    match header.kind {
        RecordKind::Value => ReportModel { values_verified: tally(report.values_verified, 1), ..counted },
        RecordKind::Tombstone => ReportModel { tombstones_verified: tally(report.tombstones_verified, 1), ..counted },
    }
}

/// What a decoded record header of the Region's incarnation leads to.
pub open spec fn scan_record(
    contents: Seq<u8>,
    superblock: Superblock,
    region: RegionHeader,
    base: u64,
    cursor: int,
    last_seqno: Option<u64>,
    report: ReportModel,
    header: RecordHeader,
) -> RecordScan {
    let absolute = (base + cursor) as u64;
    let end = cursor + header.record_len;
    let id = region.region_id;
    if end > superblock.region_size || (cursor < region.used && end > region.used) {
        scan_stopped(
            report,
            region_issue(VerifyComponent::RecordHeader, absolute, id, "record crosses the persisted Region extent"@),
        )
    } else if !record_metadata_consistent(superblock, region, header, last_seqno) {
        RecordScan {
            report: report.with_issue(
                region_issue(
                    VerifyComponent::RecordHeader,
                    absolute,
                    id,
                    "record generation or sequence metadata is inconsistent"@,
                ),
            ),
            next: Some((end, last_seqno)),
        }
    } else {
        RecordScan {
            report: match payload_fault(contents, superblock.hash_seed, header, absolute + RECORD_HEADER_SIZE) {
                None => with_record(report, header),
                Some(message) => report.with_issue(
                    region_issue(
                        VerifyComponent::RecordPayload,
                        (absolute + RECORD_HEADER_SIZE) as u64,
                        id,
                        message,
                    ),
                ),
            },
            next: Some((end, Some(header.seqno))),
        }
    }
}

/// One step of a scan.
pub open spec fn scan_step(
    contents: Seq<u8>,
    superblock: Superblock,
    region: RegionHeader,
    base: u64,
    cursor: int,
    last_seqno: Option<u64>,
    report: ReportModel,
) -> RecordScan {
    let absolute = (base + cursor) as u64;
    let id = region.region_id;
    let short = cursor < region.used;
    if !scans_tail(superblock, region) && !short {
        scan_ended(report)
    } else if base + cursor > u64::MAX {
        scan_stopped(report, region_issue(VerifyComponent::RecordHeader, base, id, "record offset overflows"@))
    } else if cursor >= superblock.region_size {
        scan_cut(
            report,
            cursor > superblock.region_size,
            region_issue(VerifyComponent::RecordHeader, absolute, id, "record cursor exceeds the Region boundary"@),
        )
    } else if superblock.region_size - cursor < RECORD_HEADER_SIZE {
        scan_cut(
            report,
            short,
            region_issue(VerifyComponent::RecordHeader, absolute, id, "record does not fill the persisted Region extent"@),
        )
    } else {
        let bytes = contents.subrange(absolute as int, absolute + RECORD_HEADER_SIZE);
        if all_zero(bytes) {
            scan_cut(
                report,
                short,
                region_issue(
                    VerifyComponent::RecordHeader,
                    absolute,
                    id,
                    "zero record appears inside the persisted Region extent"@,
                ),
            )
        } else {
            match RecordHeader::held(bytes) {
                None => scan_stopped(
                    report,
                    region_issue(VerifyComponent::RecordHeader, absolute, id, "record header checksum or fields are invalid"@),
                ),
                Some(header) => if header.region_incarnation != region.incarnation {
                    scan_cut(
                        report,
                        short,
                        region_issue(
                            VerifyComponent::RecordHeader,
                            absolute,
                            id,
                            "persisted record has the wrong Region incarnation"@,
                        ),
                    )
                } else {
                    scan_record(contents, superblock, region, base, cursor, last_seqno, report, header)
                },
            }
        }
    }
}

/// The report once a Region's records from the cursor on have been scanned.
pub open spec fn records_scanned(
    contents: Seq<u8>,
    superblock: Superblock,
    region: RegionHeader,
    base: u64,
    cursor: int,
    last_seqno: Option<u64>,
    report: ReportModel,
) -> ReportModel
    decreases superblock.region_size - cursor,
{
    let scan = scan_step(contents, superblock, region, base, cursor, last_seqno, report);
    match scan.next {
        Some((next, last)) => if cursor < next <= superblock.region_size {
            records_scanned(contents, superblock, region, base, next, last, scan.report)
        } else {
            scan.report
        },
        None => scan.report,
    }
}

/// Where a scan goes on, as a model.
pub open spec fn next_model(next: Option<(u64, Option<u64>)>) -> Option<(int, Option<u64>)> {
    match next {
        Some((cursor, last)) => Some((cursor as int, last)),
        None => None,
    }
}

/// The Region lies in the file.
pub open spec fn region_in_file(contents: Seq<u8>, superblock: Superblock, base: u64) -> bool {
    base + superblock.region_size <= contents.len()
}

/// Takes in a decoded record header of the Region's incarnation.
fn verify_decoded_record<F: OfflineFile>(
    file: &F,
    superblock: Superblock,
    region: RegionHeader,
    base: u64,
    cursor: u64,
    last_seqno: Option<u64>,
    header: RecordHeader,
    report: &mut VerifyReport,
) -> (result: Result<Option<(u64, Option<u64>)>, F::Error>)
    requires
        region_in_file(file.contents(), superblock, base),
        cursor < superblock.region_size,
        header.well_formed(),
    ensures
        final(report).inspect == old(report).inspect,
        match result {
            Ok(next) => {
                let scan = scan_record(
                    file.contents(),
                    superblock,
                    region,
                    base,
                    cursor as int,
                    last_seqno,
                    old(report)@,
                    header,
                );
                &&& final(report)@ == scan.report
                &&& next_model(next) == scan.next
                &&& next matches Some((end, _)) ==> cursor < end <= superblock.region_size
            },
            Err(_) => !file.reliable(),
        },
{
    let file_len = file.len();
    let absolute = base + cursor;
    let id = region.region_id;
    if header.record_len as u64 > superblock.region_size - cursor {
        report.add_region_issue(VerifyComponent::RecordHeader, absolute, id, "record crosses the persisted Region extent");
        return Ok(None);
    }
    let end = cursor + header.record_len as u64;
    if cursor < region.used && end > region.used {
        report.add_region_issue(VerifyComponent::RecordHeader, absolute, id, "record crosses the persisted Region extent");
        return Ok(None);
    }
    if !record_metadata_valid(superblock, region, header, last_seqno) {
        report.add_region_issue(
            VerifyComponent::RecordHeader,
            absolute,
            id,
            "record generation or sequence metadata is inconsistent",
        );
        return Ok(Some((end, last_seqno)));
    }
    let payload_offset = absolute + RECORD_HEADER_SIZE as u64;
    match verify_record_payload(file, superblock.hash_seed, header, payload_offset) {
        Ok(None) => {
            report.records_verified = report.records_verified.saturating_add(1);
            report.record_bytes_verified = report.record_bytes_verified.saturating_add(header.record_len as u64);
            match header.kind {
                RecordKind::Value => {
                    report.values_verified = report.values_verified.saturating_add(1);
                },
                RecordKind::Tombstone => {
                    report.tombstones_verified = report.tombstones_verified.saturating_add(1);
                },
            }
            assert(report@ =~= with_record(old(report)@, header));
        },
        Ok(Some(message)) => {
            report.add_region_issue(VerifyComponent::RecordPayload, payload_offset, id, message);
        },
        Err(error) => {
            return Err(error);
        },
    }
    Ok(Some((end, Some(header.seqno))))
}

/// Takes in what stands at the cursor.
fn verify_record_at<F: OfflineFile>(
    file: &F,
    superblock: Superblock,
    region: RegionHeader,
    base: u64,
    cursor: u64,
    last_seqno: Option<u64>,
    report: &mut VerifyReport,
) -> (result: Result<Option<(u64, Option<u64>)>, F::Error>)
    requires
        region_in_file(file.contents(), superblock, base),
    ensures
        final(report).inspect == old(report).inspect,
        match result {
            Ok(next) => {
                let scan = scan_step(file.contents(), superblock, region, base, cursor as int, last_seqno, old(report)@);
                &&& final(report)@ == scan.report
                &&& next_model(next) == scan.next
                &&& next matches Some((end, _)) ==> cursor < end <= superblock.region_size
            },
            Err(_) => !file.reliable(),
        },
{
    let file_len = file.len();
    let id = region.region_id;
    let active = match region.state {
        RegionState::Active => true,
        _ => false,
    };
    let scan_active_tail = !superblock.clean && active;
    let short = cursor < region.used;
    if !scan_active_tail && !short {
        return Ok(None);
    }
    let absolute: u64 = match base.checked_add(cursor) {
        Some(absolute) => absolute,
        None => {
            report.add_region_issue(VerifyComponent::RecordHeader, base, id, "record offset overflows");
            return Ok(None);
        },
    };
    if cursor >= superblock.region_size {
        if cursor > superblock.region_size {
            report.add_region_issue(
                VerifyComponent::RecordHeader,
                absolute,
                id,
                "record cursor exceeds the Region boundary",
            );
        }
        return Ok(None);
    }
    if superblock.region_size - cursor < RECORD_HEADER_SIZE as u64 {
        if short {
            report.add_region_issue(
                VerifyComponent::RecordHeader,
                absolute,
                id,
                "record does not fill the persisted Region extent",
            );
        }
        return Ok(None);
    }
    let bytes = match file.read_exact_at(absolute, RECORD_HEADER_SIZE) {
        Ok(bytes) => bytes,
        Err(error) => {
            return Err(error);
        },
    };
    if is_all_zero(bytes.as_slice()) {
        if short {
            report.add_region_issue(
                VerifyComponent::RecordHeader,
                absolute,
                id,
                "zero record appears inside the persisted Region extent",
            );
        }
        return Ok(None);
    }
    let header = match RecordHeader::decode(bytes.as_slice()) {
        Some(header) => header,
        None => {
            report.add_region_issue(
                VerifyComponent::RecordHeader,
                absolute,
                id,
                "record header checksum or fields are invalid",
            );
            return Ok(None);
        },
    };
    if header.region_incarnation != region.incarnation {
        if short {
            report.add_region_issue(
                VerifyComponent::RecordHeader,
                absolute,
                id,
                "persisted record has the wrong Region incarnation",
            );
        }
        return Ok(None);
    }
    verify_decoded_record(file, superblock, region, base, cursor, last_seqno, header, report)
}

/// Scans a Region's records.
pub fn verify_region_records<F: OfflineFile>(
    file: &F,
    superblock: Superblock,
    region: RegionHeader,
    base: u64,
    report: &mut VerifyReport,
) -> (result: Result<(), F::Error>)
    requires
        region_in_file(file.contents(), superblock, base),
    ensures
        final(report).inspect == old(report).inspect,
        match result {
            Ok(_) => final(report)@ == records_scanned(
                file.contents(),
                superblock,
                region,
                base,
                REGION_HEADER_SIZE as int,
                None,
                old(report)@,
            ),
            Err(_) => !file.reliable(),
        },
{
    let ghost complete = records_scanned(
        file.contents(),
        superblock,
        region,
        base,
        REGION_HEADER_SIZE as int,
        None,
        old(report)@,
    );
    let mut cursor: u64 = REGION_HEADER_SIZE as u64;
    let mut last_seqno: Option<u64> = None;
    let mut scanning = true;
    while scanning
        invariant
            region_in_file(file.contents(), superblock, base),
            report.inspect == old(report).inspect,
            scanning ==> complete == records_scanned(
                file.contents(),
                superblock,
                region,
                base,
                cursor as int,
                last_seqno,
                report@,
            ),
            !scanning ==> complete == report@,
        decreases (if scanning { 1int } else { 0int }), (if cursor <= superblock.region_size {
            superblock.region_size - cursor
        } else {
            0int
        }),
    {
        match verify_record_at(file, superblock, region, base, cursor, last_seqno, report) {
            Ok(Some((end, last))) => {
                cursor = end;
                last_seqno = last;
            },
            Ok(None) => {
                scanning = false;
            },
            Err(error) => {
                return Err(error);
            },
        }
    }
    Ok(())
}

// ---------------------------------------------------------------------------
// All Regions
// ---------------------------------------------------------------------------

/// The Region with the lowest creation sequence number seen so far, the first
/// of equal ones.
pub open spec fn older(current: Option<(u64, u32)>, seqno: u64, region_id: u32) -> Option<(u64, u32)> {
    match current {
        None => Some((seqno, region_id)),
        Some(oldest) => if seqno < oldest.0 {
            Some((seqno, region_id))
        } else {
            current
        },
    }
}

/// Keeps the Region with the lower creation sequence number.
pub fn older_region(current: Option<(u64, u32)>, seqno: u64, region_id: u32) -> (oldest: Option<(u64, u32)>)
    ensures
        oldest == older(current, seqno, region_id),
{
    match current {
        None => Some((seqno, region_id)),
        Some(pair) => if seqno < pair.0 {
            Some((seqno, region_id))
        } else {
            current
        },
    }
}

/// What the Region Headers add up to.
#[verifier::ext_equal]
pub struct HeaderTally {
    pub report: ReportModel,
    pub allocated: u32,
    pub active: u32,
    pub oldest: Option<(u64, u32)>,
    pub seqnos: Seq<u64>,
}

/// The tally once a Region's header has been added.
pub open spec fn header_counted(before: HeaderTally, probe: RegionProbe, id: u32) -> HeaderTally {
    match probe {
        RegionProbe::Unplaced => HeaderTally {
            report: before.report.with_issue(
                region_issue(VerifyComponent::RegionHeader, u64::MAX, id, "Region offset overflows"@),
            ),
            ..before
        },
        RegionProbe::Truncated { offset } => HeaderTally {
            report: before.report.with_issue(
                region_issue(VerifyComponent::RegionHeader, offset, id, "Region Header is truncated"@),
            ),
            ..before
        },
        RegionProbe::Undecodable { offset } => HeaderTally {
            report: before.report.with_issue(
                region_issue(VerifyComponent::RegionHeader, offset, id, "Region Header checksum or fields are invalid"@),
            ),
            ..before
        },
        RegionProbe::Inconsistent { offset } => HeaderTally {
            report: before.report.with_issue(
                region_issue(VerifyComponent::RegionHeader, offset, id, "Region Header metadata is inconsistent"@),
            ),
            ..before
        },
        RegionProbe::Valid { offset, header } => {
            let report = ReportModel { regions_verified: tally(before.report.regions_verified, 1), ..before.report };
            match header.state {
                RegionState::Free => HeaderTally { report, ..before },
                _ => HeaderTally {
                    report,
                    allocated: one_more(before.allocated),
                    active: if header.state is Active {
                        one_more(before.active)
                    } else {
                        before.active
                    },
                    oldest: older(before.oldest, header.created_seqno, id),
                    seqnos: before.seqnos.push(header.created_seqno),
                },
            }
        },
    }
}

/// The first `count` Region Headers, added up.
pub open spec fn headers_tallied(contents: Seq<u8>, superblock: Superblock, report: ReportModel, count: nat) -> HeaderTally
    decreases count,
{
    if count == 0 {
        HeaderTally { report, allocated: 0, active: 0, oldest: None, seqnos: Seq::empty() }
    } else {
        header_counted(
            headers_tallied(contents, superblock, report, (count - 1) as nat),
            region_probe(contents, superblock, (count - 1) as u32),
            (count - 1) as u32,
        )
    }
}

/// The report with one issue for each of the first `count` numbers that has
/// come before.
pub open spec fn with_repeats(report: ReportModel, seqnos: Seq<u64>, count: nat) -> ReportModel
    decreases count,
{
    if count == 0 {
        report
    } else {
        let rest = with_repeats(report, seqnos, (count - 1) as nat);
        if seqnos.take(count - 1).contains(seqnos[count - 1]) {
            rest.with_issue(
                file_issue(VerifyComponent::RegionHeader, SUPERBLOCK_AREA_SIZE, "Region creation sequence is duplicated"@),
            )
        } else {
            rest
        }
    }
}

/// The report once the Regions have been looked at as a whole: their creation
/// sequence numbers differ, one is active, and a FIFO that has not come round
/// yet starts at Region zero.
pub open spec fn topology_reported(found: HeaderTally, superblock: Superblock) -> ReportModel {
    let distinct = with_repeats(found.report, found.seqnos, found.seqnos.len());
    let alive = if found.active == 0 {
        distinct.with_issue(file_issue(VerifyComponent::RegionHeader, SUPERBLOCK_AREA_SIZE, "cache has no Active Region"@))
    } else {
        distinct
    };
    match found.oldest {
        Some((_, id)) => if found.allocated < superblock.region_count && id != 0 {
            alive.with_issue(
                region_issue(
                    VerifyComponent::RegionHeader,
                    SUPERBLOCK_AREA_SIZE,
                    id,
                    "partially allocated FIFO does not start at Region zero"@,
                ),
            )
        } else {
            alive
        },
        None => alive,
    }
}

/// The report once the records of the first `count` Regions have been scanned.
pub open spec fn regions_scanned(contents: Seq<u8>, superblock: Superblock, report: ReportModel, count: nat) -> ReportModel
    decreases count,
{
    if count == 0 {
        report
    } else {
        let rest = regions_scanned(contents, superblock, report, (count - 1) as nat);
        match region_probe(contents, superblock, (count - 1) as u32) {
            RegionProbe::Valid { offset, header } => if header.state is Free {
                rest
            } else {
                records_scanned(contents, superblock, header, offset, REGION_HEADER_SIZE as int, None, rest)
            },
            _ => rest,
        }
    }
}

/// The report once all Regions have been verified, and whether that added no
/// issue.
pub open spec fn regions_verified(contents: Seq<u8>, superblock: Superblock, report: ReportModel) -> (ReportModel, bool) {
    if contents.len() < data_end(superblock) {
        (
            report.with_issue(
                file_issue(
                    VerifyComponent::Layout,
                    contents.len() as u64,
                    "cache file is shorter than its declared data extent"@,
                ),
            ),
            false,
        )
    } else {
        let count = superblock.region_count as nat;
        let headers = topology_reported(headers_tallied(contents, superblock, report, count), superblock);
        let complete = regions_scanned(contents, superblock, headers, count);
        (complete, complete.issues_total == report.issues_total)
    }
}

/// Where the creation sequence numbers of a row of Regions are noted.
pub struct SequenceRoom {
    pub seqnos: Vec<u64>,
}

impl SequenceRoom {
    /// Nothing has been noted.
    pub open spec fn is_empty(&self) -> bool {
        self.seqnos@.len() == 0
    }

    /// Room for the numbers of so many Regions; `None` if the allocator refuses,
    /// which is not asked for no Regions.
    pub fn try_new(region_count: usize) -> (room: Option<SequenceRoom>)
        ensures
            match room {
                Some(room) => room.is_empty(),
                None => region_count > 0,
            },
    {
        let mut seqnos: Vec<u64> = Vec::new();
        if !vec_try_reserve_exact(&mut seqnos, region_count) {
            return None;
        }
        Some(SequenceRoom { seqnos })
    }
}

/// How many of the first `count` numbers have come before.
spec fn repeats(seqnos: Seq<u64>, count: nat) -> nat
    decreases count,
{
    if count == 0 {
        0
    } else {
        repeats(seqnos, (count - 1) as nat) + if seqnos.take(count - 1).contains(seqnos[count - 1]) { 1nat } else { 0nat }
    }
}

/// Numbers that have not come before are as many as there are different ones.
proof fn lemma_repeats(seqnos: Seq<u64>, count: nat)
    requires
        count <= seqnos.len(),
    ensures
        repeats(seqnos, count) + seqnos.take(count as int).to_set().len() == count,
    decreases count,
{
    broadcast use vstd::seq_lib::seq_to_set_is_finite;

    if count == 0 {
        assert(seqnos.take(0).to_set() =~= Set::<u64>::empty());
    } else {
        let before = seqnos.take(count - 1);
        let last = seqnos[count - 1];
        let row = seqnos.take(count as int);
        lemma_repeats(seqnos, (count - 1) as nat);
        assert(row =~= before.push(last));
        assert(row.to_set() =~= before.to_set().insert(last)) by {
            assert forall|number: u64| row.to_set().contains(number) <==> before.to_set().insert(last).contains(number) by {
                if before.contains(number) {
                    assert(row[before.index_of(number)] == number);
                }
                if number == last {
                    assert(row[before.len() as int] == number);
                }
            }
        }
        if before.contains(last) {
            assert(before.to_set().insert(last) =~= before.to_set());
        }
    }
}

/// Rows of the same numbers, in whatever order, repeat as many of them.
proof fn lemma_repeats_in_any_order(first: Seq<u64>, second: Seq<u64>)
    requires
        first.to_multiset() == second.to_multiset(),
    ensures
        first.len() == second.len(),
        repeats(first, first.len()) == repeats(second, second.len()),
{
    vstd::seq_lib::to_multiset_len(first);
    vstd::seq_lib::to_multiset_len(second);
    assert(first.take(first.len() as int) =~= first);
    assert(second.take(second.len() as int) =~= second);
    assert(first.to_set() =~= second.to_set()) by {
        assert forall|number: u64| first.contains(number) == second.contains(number) by {
            vstd::seq_lib::to_multiset_contains(first, number);
            vstd::seq_lib::to_multiset_contains(second, number);
        }
    }
    lemma_repeats(first, first.len());
    lemma_repeats(second, second.len());
}

/// Which numbers repeat makes no difference to a report, only how many do.
proof fn lemma_with_repeats(report: ReportModel, first: Seq<u64>, count: nat, second: Seq<u64>, other: nat)
    requires
        repeats(first, count) == repeats(second, other),
    ensures
        with_repeats(report, first, count) == with_repeats(report, second, other),
    decreases count + other,
{
    if count > 0 && !first.take(count - 1).contains(first[count - 1]) {
        lemma_with_repeats(report, first, (count - 1) as nat, second, other);
    } else if other > 0 && !second.take(other - 1).contains(second[other - 1]) {
        lemma_with_repeats(report, first, count, second, (other - 1) as nat);
    } else if count > 0 && other > 0 {
        lemma_with_repeats(report, first, (count - 1) as nat, second, (other - 1) as nat);
    }
}

/// A number in an ascending row has come before exactly if it stands right
/// before.
proof fn lemma_ascending_repeats(seqnos: Seq<u64>, index: int)
    requires
        0 <= index < seqnos.len(),
        forall|i: int, j: int| 0 <= i <= j < seqnos.len() ==> seqnos[i] <= seqnos[j],
    ensures
        seqnos.take(index).contains(seqnos[index]) <==> index > 0 && seqnos[index - 1] == seqnos[index],
{
    let before = seqnos.take(index);
    if before.contains(seqnos[index]) {
        let at = before.index_of(seqnos[index]);
        assert(seqnos[at] <= seqnos[index - 1] <= seqnos[index]);
    }
    if index > 0 && seqnos[index - 1] == seqnos[index] {
        assert(before[index - 1] == seqnos[index]);
    }
}

/// Adds one issue for each number that has come before. The numbers are put in
/// order.
fn report_repeats(report: &mut VerifyReport, seqnos: &mut Vec<u64>)
    ensures
        final(report).inspect == old(report).inspect,
        final(report)@ == with_repeats(old(report)@, old(seqnos)@, old(seqnos)@.len()),
{
    sort_numbers(seqnos);
    let mut index: usize = 0;
    while index < seqnos.len()
        invariant
            index <= seqnos@.len(),
            report.inspect == old(report).inspect,
            report@ == with_repeats(old(report)@, seqnos@, index as nat),
            forall|i: int, j: int| 0 <= i <= j < seqnos@.len() ==> seqnos@[i] <= seqnos@[j],
        decreases seqnos@.len() - index,
    {
        proof {
            lemma_ascending_repeats(seqnos@, index as int);
        }
        if index > 0 && seqnos[index - 1] == seqnos[index] {
            report.add_file_issue(
                VerifyComponent::RegionHeader,
                SUPERBLOCK_AREA_SIZE,
                "Region creation sequence is duplicated",
            );
        }
        index = index + 1;
    }
    proof {
        lemma_repeats_in_any_order(old(seqnos)@, seqnos@);
        lemma_with_repeats(old(report)@, old(seqnos)@, old(seqnos)@.len(), seqnos@, seqnos@.len());
    }
}

/// Reads and adds up all Region Headers.
#[verifier::spinoff_prover]
fn tally_headers<F: OfflineFile>(file: &F, superblock: Superblock, seqnos: &mut Vec<u64>, report: &mut VerifyReport) -> (result: Result<
    (u32, u32, Option<(u64, u32)>),
    F::Error,
>)
    requires
        old(seqnos)@.len() == 0,
    ensures
        final(report).inspect == old(report).inspect,
        match result {
            Ok((allocated, active, oldest)) => headers_tallied(
                file.contents(),
                superblock,
                old(report)@,
                superblock.region_count as nat,
            ) == (HeaderTally { report: final(report)@, allocated, active, oldest, seqnos: final(seqnos)@ }),
            Err(_) => !file.reliable(),
        },
{
    let mut allocated: u32 = 0;
    let mut active: u32 = 0;
    let mut oldest: Option<(u64, u32)> = None;
    let mut region_id: u32 = 0;
    assert(seqnos@ =~= Seq::<u64>::empty());
    while region_id < superblock.region_count
        invariant
            region_id <= superblock.region_count,
            report.inspect == old(report).inspect,
            headers_tallied(file.contents(), superblock, old(report)@, region_id as nat) == (HeaderTally {
                report: report@,
                allocated,
                active,
                oldest,
                seqnos: seqnos@,
            }),
        decreases superblock.region_count - region_id,
    {
        match probe_region(file, superblock, region_id) {
            Ok(RegionProbe::Unplaced) => {
                report.add_region_issue(VerifyComponent::RegionHeader, u64::MAX, region_id, "Region offset overflows");
            },
            Ok(RegionProbe::Truncated { offset }) => {
                report.add_region_issue(VerifyComponent::RegionHeader, offset, region_id, "Region Header is truncated");
            },
            Ok(RegionProbe::Undecodable { offset }) => {
                report.add_region_issue(
                    VerifyComponent::RegionHeader,
                    offset,
                    region_id,
                    "Region Header checksum or fields are invalid",
                );
            },
            Ok(RegionProbe::Inconsistent { offset }) => {
                report.add_region_issue(
                    VerifyComponent::RegionHeader,
                    offset,
                    region_id,
                    "Region Header metadata is inconsistent",
                );
            },
            Ok(RegionProbe::Valid { offset: _, header }) => {
                report.regions_verified = report.regions_verified.saturating_add(1);
                match header.state {
                    RegionState::Free => {},
                    RegionState::Active => {
                        allocated = allocated.saturating_add(1);
                        active = active.saturating_add(1);
                        seqnos.push(header.created_seqno);
                        oldest = older_region(oldest, header.created_seqno, region_id);
                    },
                    RegionState::Sealed => {
                        allocated = allocated.saturating_add(1);
                        seqnos.push(header.created_seqno);
                        oldest = older_region(oldest, header.created_seqno, region_id);
                    },
                }
            },
            Err(error) => {
                return Err(error);
            },
        }
        region_id = region_id + 1;
    }
    Ok((allocated, active, oldest))
}

/// Scans the records of all Regions.
fn scan_regions<F: OfflineFile>(file: &F, superblock: Superblock, report: &mut VerifyReport) -> (result: Result<(), F::Error>)
    requires
        data_end(superblock) <= file.contents().len(),
    ensures
        final(report).inspect == old(report).inspect,
        match result {
            Ok(_) => final(report)@ == regions_scanned(
                file.contents(),
                superblock,
                old(report)@,
                superblock.region_count as nat,
            ),
            Err(_) => !file.reliable(),
        },
{
    let mut region_id: u32 = 0;
    while region_id < superblock.region_count
        invariant
            region_id <= superblock.region_count,
            data_end(superblock) <= file.contents().len(),
            report.inspect == old(report).inspect,
            report@ == regions_scanned(file.contents(), superblock, old(report)@, region_id as nat),
        decreases superblock.region_count - region_id,
    {
        proof {
            lemma_region_bounds(superblock, region_id as int);
        }
        match probe_region(file, superblock, region_id) {
            Ok(RegionProbe::Valid { offset, header }) => {
                match header.state {
                    RegionState::Free => {},
                    _ => {
                        match verify_region_records(file, superblock, header, offset, report) {
                            Ok(_) => {},
                            Err(error) => {
                                return Err(error);
                            },
                        }
                    },
                }
            },
            Ok(_) => {},
            Err(error) => {
                return Err(error);
            },
        }
        region_id = region_id + 1;
    }
    Ok(())
}

/// Verifies all Region Headers and records; whether that added no issue.
pub fn verify_regions_and_records<F: OfflineFile>(file: &F, superblock: Superblock, report: &mut VerifyReport) -> (result: Result<
    bool,
    ManagementError<F::Error>,
>)
    requires
        supported_layout(superblock),
    ensures
        final(report).inspect == old(report).inspect,
        match result {
            Ok(valid) => (final(report)@, valid) == regions_verified(file.contents(), superblock, old(report)@),
            Err(ManagementError::Io(_)) => !file.reliable(),
            Err(ManagementError::Allocation) => data_end(superblock) <= file.contents().len() && superblock.region_count > 0,
            Err(_) => false,
        },
{
    let file_len = file.len();
    let data_file_len = crate::region_file::data_file_len(superblock).unwrap();
    if file_len < data_file_len {
        report.add_file_issue(
            VerifyComponent::Layout,
            file_len,
            "cache file is shorter than its declared data extent",
        );
        return Ok(false);
    }
    let room = match SequenceRoom::try_new(superblock.region_count as usize) {
        Some(room) => room,
        None => {
            return Err(ManagementError::Allocation);
        },
    };
    match verify_regions_in(file, superblock, room, report) {
        Ok(valid) => Ok(valid),
        Err(error) => Err(ManagementError::Io(error)),
    }
}

/// Verifies all Region Headers and records of a file that holds its declared
/// data extent; whether that added no issue. The sequence numbers are noted in
/// `room`.
pub fn verify_regions_in<F: OfflineFile>(file: &F, superblock: Superblock, room: SequenceRoom, report: &mut VerifyReport) -> (result: Result<
    bool,
    F::Error,
>)
    requires
        supported_layout(superblock),
        data_end(superblock) <= file.contents().len(),
        room.is_empty(),
    ensures
        final(report).inspect == old(report).inspect,
        match result {
            Ok(valid) => (final(report)@, valid) == regions_verified(file.contents(), superblock, old(report)@),
            Err(_) => !file.reliable(),
        },
{
    let mut seqnos = room.seqnos;
    let issue_start = report.issues_total;
    let (allocated, active, oldest) = match tally_headers(file, superblock, &mut seqnos, report) {
        Ok(found) => found,
        Err(error) => {
            return Err(error);
        },
    };
    report_repeats(report, &mut seqnos);
    if active == 0 {
        report.add_file_issue(VerifyComponent::RegionHeader, SUPERBLOCK_AREA_SIZE, "cache has no Active Region");
    }
    if let Some((_, region_id)) = oldest {
        if allocated < superblock.region_count && region_id != 0 {
            report.add_region_issue(
                VerifyComponent::RegionHeader,
                SUPERBLOCK_AREA_SIZE,
                region_id,
                "partially allocated FIFO does not start at Region zero",
            );
        }
    }
    match scan_regions(file, superblock, report) {
        Ok(_) => Ok(report.issues_total == issue_start),
        Err(error) => Err(error),
    }
}

// ---------------------------------------------------------------------------
// What verification finds in a Region
// ---------------------------------------------------------------------------

/// The codecs whose keys start with a namespace.
pub open spec fn carries_namespace(codec: RecordCodec) -> bool {
    match codec {
        RecordCodec::Plain | RecordCodec::SecondChance => false,
        RecordCodec::NamespacedKey | RecordCodec::SecondChanceNamespacedKey => true,
    }
}

/// The hash that a record's key must have: of the key itself, or with a
/// namespace of the domain and the key.
pub open spec fn expected_key_hash(hash_seed: u64, codec: RecordCodec, domain: Seq<u8>, key: Seq<u8>) -> u64 {
    fnv1a(
        0xcbf2_9ce4_8422_2325u64 ^ hash_seed,
        if carries_namespace(codec) {
            domain + key
        } else {
            key
        },
    )
}

/// These are the bytes of `cache-rs/ns/v1` and a closing zero.
pub open spec fn spells_domain(domain: Seq<u8>) -> bool {
    &&& domain.len() == 15
    &&& domain[14] == 0
    &&& forall|k: int| 0 <= k < 14 ==> #[trigger] domain[k] as char == "cache-rs/ns/v1"@[k]
}

proof fn lemma_domain()
    ensures
        spells_domain(namespace_hash_domain()),
{
    reveal_strlit("cache-rs/ns/v1");
    let domain = namespace_hash_domain();
    let text = "cache-rs/ns/v1"@;
    assert(domain[0] as char == text[0] && domain[1] as char == text[1] && domain[2] as char == text[2]);
    assert(domain[3] as char == text[3] && domain[4] as char == text[4] && domain[5] as char == text[5]);
    assert(domain[6] as char == text[6] && domain[7] as char == text[7] && domain[8] as char == text[8]);
    assert(domain[9] as char == text[9] && domain[10] as char == text[10] && domain[11] as char == text[11]);
    assert(domain[12] as char == text[12] && domain[13] as char == text[13]);
}

proof fn lemma_one_domain(domain: Seq<u8>)
    requires
        spells_domain(domain),
    ensures
        domain == namespace_hash_domain(),
{
    lemma_domain();
    assert forall|k: int| 0 <= k < 15 implies domain[k] == namespace_hash_domain()[k] by {
        if k < 14 {
            assert(domain[k] as char == namespace_hash_domain()[k] as char);
        }
    }
    assert(domain =~= namespace_hash_domain());
}

/// Keys with a namespace are hashed behind the fifteen bytes of their domain,
/// others as they are; either way from the offset basis mixed with the seed.
pub proof fn law_namespaced_keys_are_hashed_in_their_domain(hash_seed: u64, codec: RecordCodec, domain: Seq<u8>, key: Seq<u8>)
    requires
        spells_domain(domain),
    ensures
        record_key_hash(hash_seed, codec, key) == expected_key_hash(hash_seed, codec, domain, key),
        codec is NamespacedKey || codec is SecondChanceNamespacedKey ==> record_key_hash(hash_seed, codec, key) == fnv1a(
            fnv1a(0xcbf2_9ce4_8422_2325u64 ^ hash_seed, domain),
            key,
        ),
        codec is Plain || codec is SecondChance ==> record_key_hash(hash_seed, codec, key) == fnv1a(
            0xcbf2_9ce4_8422_2325u64 ^ hash_seed,
            key,
        ),
{
    lemma_one_domain(domain);
    lemma_fnv1a_concat(0xcbf2_9ce4_8422_2325u64 ^ hash_seed, domain, key);
}

/// The payload is as the header says: its checksum and the key's hash match, and
/// a key with a namespace holds one that is not zero.
pub open spec fn payload_matches(contents: Seq<u8>, hash_seed: u64, header: RecordHeader, domain: Seq<u8>, offset: int) -> bool {
    &&& crc32c_of(contents.subrange(offset, offset + header.key_len + header.stored_len)) == header.payload_crc
    &&& expected_key_hash(hash_seed, header.codec, domain, contents.subrange(offset, offset + header.key_len)) == header.key_hash
    &&& carries_namespace(header.codec) ==> header.key_len >= 4 && !(contents[offset] == 0 && contents[offset + 1] == 0
        && contents[offset + 2] == 0 && contents[offset + 3] == 0)
}

/// A payload has a fault exactly if it is not as its header says, and the fault
/// says what is wrong.
pub proof fn law_payload_faults(contents: Seq<u8>, hash_seed: u64, header: RecordHeader, domain: Seq<u8>, offset: int)
    requires
        spells_domain(domain),
        0 <= offset,
        offset + header.key_len + header.stored_len <= contents.len(),
    ensures
        payload_fault(contents, hash_seed, header, offset) is None <==> payload_matches(contents, hash_seed, header, domain, offset),
        carries_namespace(header.codec) && header.key_len < 4 ==> payload_fault(contents, hash_seed, header, offset) == Some(
            "namespaced record key is shorter than its prefix"@,
        ),
        carries_namespace(header.codec) && header.key_len >= 4 && contents[offset] == 0 && contents[offset + 1] == 0
            && contents[offset + 2] == 0 && contents[offset + 3] == 0 ==> payload_fault(contents, hash_seed, header, offset) == Some(
            "namespaced record uses namespace zero"@,
        ),
        (carries_namespace(header.codec) ==> header.key_len >= 4 && !(contents[offset] == 0 && contents[offset + 1] == 0
            && contents[offset + 2] == 0 && contents[offset + 3] == 0)) ==> {
            let sums = crc32c_of(contents.subrange(offset, offset + header.key_len + header.stored_len)) == header.payload_crc;
            let hashes = expected_key_hash(hash_seed, header.codec, domain, contents.subrange(offset, offset + header.key_len))
                == header.key_hash;
            &&& !sums ==> payload_fault(contents, hash_seed, header, offset) == Some("record payload checksum does not match"@)
            &&& sums && !hashes ==> payload_fault(contents, hash_seed, header, offset) == Some("record key hash does not match"@)
        },
{
    lemma_one_domain(domain);
    let key = contents.subrange(offset, offset + header.key_len);
    if header.key_len >= 4 {
        assert(key[0] == contents[offset] && key[1] == contents[offset + 1] && key[2] == contents[offset + 2] && key[3]
            == contents[offset + 3]);
        assert(u32_at(key, 0) == 0 <==> key[0] == 0 && key[1] == 0 && key[2] == 0 && key[3] == 0);
    }
}

/// The report counts one more verified record with its bytes, as a value or as a
/// tombstone, and is otherwise as it was.
pub open spec fn record_counted(before: ReportModel, after: ReportModel, header: RecordHeader) -> bool {
    let room = before.records_verified < u64::MAX && before.values_verified < u64::MAX && before.tombstones_verified < u64::MAX
        && before.record_bytes_verified + header.record_len <= u64::MAX;
    &&& room ==> {
        &&& after.records_verified == before.records_verified + 1
        &&& after.record_bytes_verified == before.record_bytes_verified + header.record_len
        &&& after.values_verified == before.values_verified + if header.kind is Value { 1int } else { 0int }
        &&& after.tombstones_verified == before.tombstones_verified + if header.kind is Tombstone { 1int } else { 0int }
    }
    &&& after.valid == before.valid
    &&& after.issues_total == before.issues_total
    &&& after.issues == before.issues
    &&& after.regions_verified == before.regions_verified
    &&& after.checkpoint_slots_verified == before.checkpoint_slots_verified
    &&& after.safe_to_open == before.safe_to_open
    &&& after.reopen_disposition == before.reopen_disposition
    &&& after.selected_verified_checkpoint == before.selected_verified_checkpoint
}

/// A record's generation and version are in order: newer than the record before
/// it, no older than its Region, within the Superblock's bounds, and on the side
/// of the epoch's start that its epoch says.
pub open spec fn generation_in_order(superblock: Superblock, region: RegionHeader, header: RecordHeader, last_seqno: Option<u64>) -> bool {
    &&& 0 < header.seqno < u64::MAX
    &&& region.created_seqno <= header.seqno
    &&& match last_seqno {
        Some(previous) => previous < header.seqno,
        None => true,
    }
    &&& superblock.clean ==> header.seqno < superblock.next_seqno
    &&& 0 < header.epoch <= superblock.epoch
    &&& if header.epoch == superblock.epoch {
        superblock.epoch_start_seqno < header.seqno
    } else {
        header.seqno < superblock.epoch_start_seqno
    }
}

/// A record with a valid header stands at the cursor, within its Region.
pub open spec fn record_stands(
    contents: Seq<u8>,
    superblock: Superblock,
    region: RegionHeader,
    base: u64,
    cursor: int,
    header: RecordHeader,
) -> bool {
    &&& cursor + 64 <= superblock.region_size
    &&& RecordHeader::held(contents.subrange(base + cursor, base + cursor + 64)) == Some(header)
    &&& header.region_incarnation == region.incarnation
    &&& cursor + header.record_len <= superblock.region_size
    &&& cursor < region.used ==> cursor + header.record_len <= region.used
}

proof fn lemma_header_is_not_blank(bytes: Seq<u8>)
    ensures
        RecordHeader::held(bytes) is Some ==> !all_zero(bytes),
{
    if RecordHeader::held(bytes) is Some && all_zero(bytes) {
        assert(bytes[0] == 0 && bytes[1] == 0 && bytes[2] == 0 && bytes[3] == 0);
        assert(u32_at(bytes, 0) == 0);
    }
}

/// A record that stands where the scan has come to is counted exactly if its
/// generation is in order and its payload is as its header says; else one issue
/// says what is wrong with it. Either way the scan goes on behind it.
pub proof fn law_standing_record_is_judged(
    contents: Seq<u8>,
    superblock: Superblock,
    region: RegionHeader,
    base: u64,
    cursor: int,
    last_seqno: Option<u64>,
    report: ReportModel,
    header: RecordHeader,
    domain: Seq<u8>,
)
    requires
        spells_domain(domain),
        cursor >= 0,
        base + superblock.region_size <= contents.len() <= u64::MAX,
        cursor < region.used || (!superblock.clean && region.state is Active),
        record_stands(contents, superblock, region, base, cursor, header),
    ensures
        ({
            let step = scan_step(contents, superblock, region, base, cursor, last_seqno, report);
            let ordered = generation_in_order(superblock, region, header, last_seqno);
            let matching = payload_matches(contents, superblock.hash_seed, header, domain, base + cursor + 64);
            &&& ordered && matching ==> record_counted(report, step.report, header)
            &&& ordered && !matching ==> (payload_fault(contents, superblock.hash_seed, header, base + cursor + 64) matches Some(message)
                && issue_added(
                report,
                step.report,
                (IssueModel {
                    component: VerifyComponent::RecordPayload,
                    offset: (base + cursor + 64) as u64,
                    region_id: Some(region.region_id),
                    checkpoint_slot: None,
                    message,
                }),
            ))
            &&& !ordered ==> issue_added(
                report,
                step.report,
                (IssueModel {
                    component: VerifyComponent::RecordHeader,
                    offset: (base + cursor) as u64,
                    region_id: Some(region.region_id),
                    checkpoint_slot: None,
                    message: "record generation or sequence metadata is inconsistent"@,
                }),
            )
            &&& step.next == Some((
                cursor + header.record_len,
                if ordered {
                    Some(header.seqno)
                } else {
                    last_seqno
                },
            ))
        }),
{
    let bytes = contents.subrange(base + cursor, base + cursor + 64);
    lemma_header_is_not_blank(bytes);
    assert(64 + header.key_len + header.stored_len <= header.record_len) by {
        law_record_holds_its_payload(bytes);
    }
    law_payload_faults(contents, superblock.hash_seed, header, domain, base + cursor + 64);
    match payload_fault(contents, superblock.hash_seed, header, base + cursor + 64) {
        Some(message) => {
            law_issue_is_put_on_record(
                report,
                region_issue(VerifyComponent::RecordPayload, (base + cursor + 64) as u64, region.region_id, message),
            );
        },
        None => {},
    }
    law_issue_is_put_on_record(
        report,
        region_issue(
            VerifyComponent::RecordHeader,
            (base + cursor) as u64,
            region.region_id,
            "record generation or sequence metadata is inconsistent"@,
        ),
    );
}

/// Where no record stands the scan of a Region ends. Behind the persisted extent
/// it ends without an issue at the Region's end, where a header no longer fits,
/// at a blank header and at a record of another incarnation; within the extent
/// these are issues, and anything else is one everywhere. A Region that does not
/// take appends, or whose file is clean, is not read behind its extent.
pub proof fn law_scan_ends_where_no_record_stands(
    contents: Seq<u8>,
    superblock: Superblock,
    region: RegionHeader,
    base: u64,
    cursor: int,
    last_seqno: Option<u64>,
    report: ReportModel,
)
    requires
        cursor >= 0,
        base + superblock.region_size <= contents.len() <= u64::MAX,
        base + cursor <= u64::MAX,
        !(exists|header: RecordHeader| #[trigger] record_stands(contents, superblock, region, base, cursor, header)) || (cursor
            >= region.used && (superblock.clean || !(region.state is Active))),
    ensures
        ({
            let step = scan_step(contents, superblock, region, base, cursor, last_seqno, report);
            let head = contents.subrange(base + cursor, base + cursor + 64);
            let blank = forall|k: int| 0 <= k < 64 ==> #[trigger] contents[base + cursor + k] == 0;
            let issue = |message: Seq<char>|
                IssueModel {
                    component: VerifyComponent::RecordHeader,
                    offset: (base + cursor) as u64,
                    region_id: Some(region.region_id),
                    checkpoint_slot: None,
                    message,
                };
            let inside = cursor < region.used;
            let tail = !superblock.clean && region.state is Active;
            let fits = cursor + 64 <= superblock.region_size;
            &&& step.next is None
            &&& !inside && !tail ==> step.report == report
            &&& !inside && cursor == superblock.region_size ==> step.report == report
            &&& !inside && cursor <= superblock.region_size && !fits ==> step.report == report
            &&& !inside && fits && blank ==> step.report == report
            &&& !inside && fits && (RecordHeader::held(head) matches Some(header) && header.region_incarnation != region.incarnation)
                ==> step.report == report
            &&& (inside || tail) && cursor > superblock.region_size ==> issue_added(
                report,
                step.report,
                issue("record cursor exceeds the Region boundary"@),
            )
            &&& inside && cursor < superblock.region_size && !fits ==> issue_added(
                report,
                step.report,
                issue("record does not fill the persisted Region extent"@),
            )
            &&& inside && fits && blank ==> issue_added(
                report,
                step.report,
                issue("zero record appears inside the persisted Region extent"@),
            )
            &&& (inside || tail) && fits && !blank && RecordHeader::held(head) is None ==> issue_added(
                report,
                step.report,
                issue("record header checksum or fields are invalid"@),
            )
            &&& inside && fits && (RecordHeader::held(head) matches Some(header) && header.region_incarnation != region.incarnation)
                ==> issue_added(report, step.report, issue("persisted record has the wrong Region incarnation"@))
            &&& (inside || tail) && fits && (RecordHeader::held(head) matches Some(header) && header.region_incarnation
                == region.incarnation && (cursor + header.record_len > superblock.region_size || (inside && cursor
                + header.record_len > region.used))) ==> issue_added(
                report,
                step.report,
                issue("record crosses the persisted Region extent"@),
            )
        }),
{
    let head = contents.subrange(base + cursor, base + cursor + 64);
    let at = (base + cursor) as u64;
    let id = region.region_id;
    let component = VerifyComponent::RecordHeader;
    lemma_header_is_not_blank(head);
    if cursor + 64 <= superblock.region_size {
        assert(all_zero(head) <==> (forall|k: int| 0 <= k < 64 ==> #[trigger] contents[base + cursor + k] == 0)) by {
            if all_zero(head) {
                assert forall|k: int| 0 <= k < 64 implies #[trigger] contents[base + cursor + k] == 0 by {
                    assert(head[k] == contents[base + cursor + k]);
                }
            } else {
                let k = choose|k: int| 0 <= k < head.len() && #[trigger] head[k] != 0;
                assert(contents[base + cursor + k] != 0);
            }
        }
        if RecordHeader::held(head) is Some {
            let header = RecordHeader::held(head)->0;
            assert(record_stands(contents, superblock, region, base, cursor, header) || header.region_incarnation != region.incarnation
                || cursor + header.record_len > superblock.region_size || (cursor < region.used && cursor + header.record_len
                > region.used));
        }
    }
    law_issue_is_put_on_record(report, region_issue(component, at, id, "record cursor exceeds the Region boundary"@));
    law_issue_is_put_on_record(report, region_issue(component, at, id, "record does not fill the persisted Region extent"@));
    law_issue_is_put_on_record(report, region_issue(component, at, id, "zero record appears inside the persisted Region extent"@));
    law_issue_is_put_on_record(report, region_issue(component, at, id, "record header checksum or fields are invalid"@));
    law_issue_is_put_on_record(report, region_issue(component, at, id, "persisted record has the wrong Region incarnation"@));
    law_issue_is_put_on_record(report, region_issue(component, at, id, "record crosses the persisted Region extent"@));
}

/// A Region is scanned record by record: what follows a record is scanned with
/// what was found up to it.
pub proof fn law_records_are_scanned_in_turn(
    contents: Seq<u8>,
    superblock: Superblock,
    region: RegionHeader,
    base: u64,
    cursor: int,
    last_seqno: Option<u64>,
    report: ReportModel,
    header: RecordHeader,
)
    requires
        cursor >= 0,
        base + superblock.region_size <= contents.len() <= u64::MAX,
        cursor < region.used || (!superblock.clean && region.state is Active),
        record_stands(contents, superblock, region, base, cursor, header),
    ensures
        records_scanned(contents, superblock, region, base, cursor, last_seqno, report) == records_scanned(
            contents,
            superblock,
            region,
            base,
            cursor + header.record_len,
            if generation_in_order(superblock, region, header, last_seqno) {
                Some(header.seqno)
            } else {
                last_seqno
            },
            scan_step(contents, superblock, region, base, cursor, last_seqno, report).report,
        ),
{
    lemma_domain();
    law_standing_record_is_judged(
        contents,
        superblock,
        region,
        base,
        cursor,
        last_seqno,
        report,
        header,
        namespace_hash_domain(),
    );
    law_record_holds_its_payload(contents.subrange(base + cursor, base + cursor + 64));
}

/// The end of a scan is the end of the Region's report.
pub proof fn law_nothing_is_scanned_behind_the_end(
    contents: Seq<u8>,
    superblock: Superblock,
    region: RegionHeader,
    base: u64,
    cursor: int,
    last_seqno: Option<u64>,
    report: ReportModel,
)
    requires
        scan_step(contents, superblock, region, base, cursor, last_seqno, report).next is None,
    ensures
        records_scanned(contents, superblock, region, base, cursor, last_seqno, report) == scan_step(
            contents,
            superblock,
            region,
            base,
            cursor,
            last_seqno,
            report,
        ).report,
{
}

/// A usable header is counted as a verified Region, any other is an issue. An
/// allocated Region counts as such, as Active if it is, and with its creation
/// sequence, of which the smallest is remembered with its Region.
pub proof fn law_region_headers_are_tallied(before: HeaderTally, probe: RegionProbe, id: u32)
    requires
        before.allocated < u32::MAX,
        before.active < u32::MAX,
    ensures
        ({
            let after = header_counted(before, probe, id);
            match probe {
                RegionProbe::Valid { offset, header } => {
                    let allocated = !(header.state is Free);
                    &&& before.report.regions_verified < u64::MAX ==> after.report == (ReportModel {
                        regions_verified: (before.report.regions_verified + 1) as u64,
                        ..before.report
                    })
                    &&& after.allocated == before.allocated + if allocated { 1int } else { 0int }
                    &&& after.active == before.active + if header.state is Active { 1int } else { 0int }
                    &&& after.seqnos == before.seqnos + if allocated { seq![header.created_seqno] } else { Seq::<u64>::empty() }
                    &&& !allocated ==> after.oldest == before.oldest
                    &&& allocated ==> (after.oldest matches Some((seqno, owner)) && seqno <= header.created_seqno && match before.oldest {
                        Some(oldest) => seqno <= oldest.0 && (if header.created_seqno < oldest.0 {
                            (seqno, owner) == (header.created_seqno, id)
                        } else {
                            (seqno, owner) == oldest
                        }),
                        None => (seqno, owner) == (header.created_seqno, id),
                    })
                },
                _ => {
                    &&& after.allocated == before.allocated
                    &&& after.active == before.active
                    &&& after.oldest == before.oldest
                    &&& after.seqnos == before.seqnos
                    &&& issue_added(
                        before.report,
                        after.report,
                        (IssueModel {
                            component: VerifyComponent::RegionHeader,
                            offset: match probe {
                                RegionProbe::Truncated { offset } => offset,
                                RegionProbe::Undecodable { offset } => offset,
                                RegionProbe::Inconsistent { offset } => offset,
                                _ => u64::MAX,
                            },
                            region_id: Some(id),
                            checkpoint_slot: None,
                            message: match probe {
                                RegionProbe::Truncated { .. } => "Region Header is truncated"@,
                                RegionProbe::Undecodable { .. } => "Region Header checksum or fields are invalid"@,
                                RegionProbe::Inconsistent { .. } => "Region Header metadata is inconsistent"@,
                                _ => "Region offset overflows"@,
                            },
                        }),
                    )
                },
            }
        }),
{
    let after = header_counted(before, probe, id);
    match probe {
        RegionProbe::Valid { offset, header } => {
            assert(after.seqnos =~= before.seqnos + if !(header.state is Free) {
                seq![header.created_seqno]
            } else {
                Seq::<u64>::empty()
            });
        },
        RegionProbe::Unplaced => law_issue_is_put_on_record(
            before.report,
            region_issue(VerifyComponent::RegionHeader, u64::MAX, id, "Region offset overflows"@),
        ),
        RegionProbe::Truncated { offset } => law_issue_is_put_on_record(
            before.report,
            region_issue(VerifyComponent::RegionHeader, offset, id, "Region Header is truncated"@),
        ),
        RegionProbe::Undecodable { offset } => law_issue_is_put_on_record(
            before.report,
            region_issue(VerifyComponent::RegionHeader, offset, id, "Region Header checksum or fields are invalid"@),
        ),
        RegionProbe::Inconsistent { offset } => law_issue_is_put_on_record(
            before.report,
            region_issue(VerifyComponent::RegionHeader, offset, id, "Region Header metadata is inconsistent"@),
        ),
    }
}

/// Every header is tallied, in order, starting from nothing.
pub proof fn law_every_region_header_is_tallied(contents: Seq<u8>, superblock: Superblock, report: ReportModel, id: u32)
    ensures
        headers_tallied(contents, superblock, report, (id + 1) as nat) == header_counted(
            headers_tallied(contents, superblock, report, id as nat),
            region_probe(contents, superblock, id),
            id,
        ),
        ({
            let none = headers_tallied(contents, superblock, report, 0);
            none.report == report && none.allocated == 0 && none.active == 0 && none.oldest is None && none.seqnos.len() == 0
        }),
{
}

/// Each creation sequence that has occurred before is an issue.
pub proof fn law_repeated_creation_sequences(report: ReportModel, seqnos: Seq<u64>, k: int)
    requires
        0 <= k < seqnos.len(),
    ensures
        with_repeats(report, seqnos, 0) == report,
        (exists|j: int| 0 <= j < k && #[trigger] seqnos[j] == seqnos[k]) ==> issue_added(
            with_repeats(report, seqnos, k as nat),
            with_repeats(report, seqnos, (k + 1) as nat),
            (IssueModel {
                component: VerifyComponent::RegionHeader,
                offset: 8192,
                region_id: None,
                checkpoint_slot: None,
                message: "Region creation sequence is duplicated"@,
            }),
        ),
        !(exists|j: int| 0 <= j < k && #[trigger] seqnos[j] == seqnos[k]) ==> with_repeats(report, seqnos, (k + 1) as nat)
            == with_repeats(report, seqnos, k as nat),
{
    law_issue_is_put_on_record(
        with_repeats(report, seqnos, k as nat),
        file_issue(VerifyComponent::RegionHeader, SUPERBLOCK_AREA_SIZE, "Region creation sequence is duplicated"@),
    );
    let earlier = seqnos.take(k);
    if earlier.contains(seqnos[k]) {
        let j = choose|j: int| 0 <= j < earlier.len() && earlier[j] == seqnos[k];
        assert(seqnos[j] == seqnos[k]);
    } else {
        assert forall|j: int| 0 <= j < k implies #[trigger] seqnos[j] != seqnos[k] by {
            assert(earlier[j] == seqnos[j]);
        }
    }
}

/// Besides repeated creation sequences, the Regions together have two faults:
/// that none is Active, and that some are free while the oldest is not the
/// first.
pub proof fn law_topology_faults(found: HeaderTally, superblock: Superblock)
    ensures
        ({
            let distinct = with_repeats(found.report, found.seqnos, found.seqnos.len());
            let after = topology_reported(found, superblock);
            let displaced = found.allocated < superblock.region_count && found.oldest is Some && (found.oldest->0).1 != 0;
            let idle = IssueModel {
                component: VerifyComponent::RegionHeader,
                offset: 8192,
                region_id: None,
                checkpoint_slot: None,
                message: "cache has no Active Region"@,
            };
            let order = IssueModel {
                component: VerifyComponent::RegionHeader,
                offset: 8192,
                region_id: Some((found.oldest->0).1),
                checkpoint_slot: None,
                message: "partially allocated FIFO does not start at Region zero"@,
            };
            &&& found.active > 0 && !displaced ==> after == distinct
            &&& found.active == 0 && !displaced ==> issue_added(distinct, after, idle)
            &&& found.active > 0 && displaced ==> issue_added(distinct, after, order)
            &&& found.active == 0 && displaced ==> exists|between: ReportModel| #[trigger]
                issue_added(distinct, between, idle) && issue_added(between, after, order)
        }),
{
    let distinct = with_repeats(found.report, found.seqnos, found.seqnos.len());
    let idle = file_issue(VerifyComponent::RegionHeader, SUPERBLOCK_AREA_SIZE, "cache has no Active Region"@);
    law_issue_is_put_on_record(distinct, idle);
    if found.oldest is Some {
        let order = region_issue(
            VerifyComponent::RegionHeader,
            SUPERBLOCK_AREA_SIZE,
            (found.oldest->0).1,
            "partially allocated FIFO does not start at Region zero"@,
        );
        law_issue_is_put_on_record(distinct, order);
        law_issue_is_put_on_record(distinct.with_issue(idle), order);
    }
}

/// Every usable Region that is not free has its records scanned, from behind its
/// header of 4096 bytes and with no version before them; other Regions are
/// passed over.
pub proof fn law_every_allocated_region_is_scanned(contents: Seq<u8>, superblock: Superblock, report: ReportModel, id: u32)
    ensures
        regions_scanned(contents, superblock, report, 0) == report,
        ({
            let before = regions_scanned(contents, superblock, report, id as nat);
            let after = regions_scanned(contents, superblock, report, (id + 1) as nat);
            match region_probe(contents, superblock, id) {
                RegionProbe::Valid { offset, header } => {
                    &&& header.state is Free ==> after == before
                    &&& !(header.state is Free) ==> after == records_scanned(contents, superblock, header, offset, 4096, None, before)
                },
                _ => after == before,
            }
        }),
{
}

/// A file that is too short for its Regions is one issue and is not read
/// further. The data is valid exactly if no issue came up in the headers, the
/// topology and the records.
pub proof fn law_valid_data_has_no_issue(contents: Seq<u8>, superblock: Superblock, report: ReportModel)
    requires
        contents.len() <= u64::MAX,
    ensures
        ({
            let (after, valid) = regions_verified(contents, superblock, report);
            let count = superblock.region_count as nat;
            let short = contents.len() < 8192 + superblock.region_count * superblock.region_size;
            &&& short ==> !valid && issue_added(
                report,
                after,
                (IssueModel {
                    component: VerifyComponent::Layout,
                    offset: contents.len() as u64,
                    region_id: None,
                    checkpoint_slot: None,
                    message: "cache file is shorter than its declared data extent"@,
                }),
            )
            &&& !short ==> {
                &&& after == regions_scanned(
                    contents,
                    superblock,
                    topology_reported(headers_tallied(contents, superblock, report, count), superblock),
                    count,
                )
                &&& valid <==> after.issues_total == report.issues_total
            }
        }),
{
    law_issue_is_put_on_record(
        report,
        file_issue(VerifyComponent::Layout, contents.len() as u64, "cache file is shorter than its declared data extent"@),
    );
}

} // verus!
