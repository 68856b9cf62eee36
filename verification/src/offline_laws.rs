//! What holds of every verification report.

use vstd::prelude::*;

use crate::checkpoint::{CheckpointDirectory, CheckpointRegionSnapshot, CheckpointSlotHeader};
use crate::checkpoint_cross::{
    cross_region, cross_regions, cross_validated, current_region, CheckpointCrossValidation, CrossFaultModel,
};
use crate::checkpoint_verify::{slot_payload_fault, snapshot_at};
use crate::format::{RegionHeader, Superblock, REGION_HEADER_SIZE};
use crate::management::{tally, IssueModel, ReopenDisposition, ReportModel, MAX_REPORTED_VERIFY_ISSUES};
use crate::offline_verify::{checkpoints_verified, payloads_reported, replicas_reported, verified};
use crate::region_file::{data_end, inspected, lineage_matches, region_probe};
use crate::region_verify::{
    headers_tallied, records_scanned, regions_scanned, regions_verified, scan_step, topology_reported, with_repeats,
};

verus! {

/// The report is valid exactly if it counts no issue, and it keeps the details
/// of as many issues as it counts, up to the limit.
pub open spec fn sound(report: ReportModel) -> bool {
    &&& report.valid <==> report.issues_total == 0
    &&& report.issues.len() <= MAX_REPORTED_VERIFY_ISSUES
    &&& report.issues_total <= MAX_REPORTED_VERIFY_ISSUES ==> report.issues.len() == report.issues_total
    &&& report.issues_total > MAX_REPORTED_VERIFY_ISSUES ==> report.issues.len() == MAX_REPORTED_VERIFY_ISSUES
}

/// Every record that the report counts is counted as a value or as a tombstone.
pub open spec fn records_add_up(report: ReportModel) -> bool {
    report.records_verified == tally(report.values_verified, report.tombstones_verified)
}

/// A later report is sound if the earlier one is, its records add up if those
/// of the earlier one do, and verification has not changed its verdict in
/// between.
pub open spec fn carries_on(before: ReportModel, after: ReportModel) -> bool {
    &&& sound(before) ==> sound(after)
    &&& records_add_up(before) ==> records_add_up(after)
    &&& after.safe_to_open == before.safe_to_open
    &&& after.reopen_disposition == before.reopen_disposition
    &&& after.selected_verified_checkpoint == before.selected_verified_checkpoint
}

proof fn lemma_scan_step_carries_on(
    contents: Seq<u8>,
    superblock: Superblock,
    region: RegionHeader,
    base: u64,
    cursor: int,
    last_seqno: Option<u64>,
    report: ReportModel,
)
    ensures
        carries_on(report, scan_step(contents, superblock, region, base, cursor, last_seqno, report).report),
{
}

proof fn lemma_records_carry_on(
    contents: Seq<u8>,
    superblock: Superblock,
    region: RegionHeader,
    base: u64,
    cursor: int,
    last_seqno: Option<u64>,
    report: ReportModel,
)
    ensures
        carries_on(report, records_scanned(contents, superblock, region, base, cursor, last_seqno, report)),
        records_scanned(contents, superblock, region, base, cursor, last_seqno, report).records_verified
            <= report.records_verified + if cursor < superblock.region_size {
            superblock.region_size - cursor
        } else {
            0
        },
    decreases superblock.region_size - cursor,
{
    lemma_scan_step_carries_on(contents, superblock, region, base, cursor, last_seqno, report);
    let scan = scan_step(contents, superblock, region, base, cursor, last_seqno, report);
    match scan.next {
        Some((next, last)) => {
            if cursor < next <= superblock.region_size {
                lemma_records_carry_on(contents, superblock, region, base, next, last, scan.report);
            }
        },
        None => {},
    }
}

proof fn lemma_headers_carry_on(contents: Seq<u8>, superblock: Superblock, report: ReportModel, count: nat)
    ensures
        carries_on(report, headers_tallied(contents, superblock, report, count).report),
        headers_tallied(contents, superblock, report, count).report.records_verified == report.records_verified,
    decreases count,
{
    if count > 0 {
        lemma_headers_carry_on(contents, superblock, report, (count - 1) as nat);
    }
}

proof fn lemma_repeats_carry_on(report: ReportModel, seqnos: Seq<u64>, count: nat)
    ensures
        carries_on(report, with_repeats(report, seqnos, count)),
        with_repeats(report, seqnos, count).records_verified == report.records_verified,
    decreases count,
{
    if count > 0 {
        lemma_repeats_carry_on(report, seqnos, (count - 1) as nat);
    }
}

proof fn lemma_regions_scanned_carry_on(contents: Seq<u8>, superblock: Superblock, report: ReportModel, count: nat)
    ensures
        carries_on(report, regions_scanned(contents, superblock, report, count)),
        regions_scanned(contents, superblock, report, count).records_verified <= report.records_verified + count
            * superblock.region_size,
    decreases count,
{
    if count > 0 {
        assert(count * superblock.region_size == (count - 1) * superblock.region_size + superblock.region_size)
            by (nonlinear_arith)
            requires
                count > 0,
        ;
        lemma_regions_scanned_carry_on(contents, superblock, report, (count - 1) as nat);
        let rest = regions_scanned(contents, superblock, report, (count - 1) as nat);
        match region_probe(contents, superblock, (count - 1) as u32) {
            crate::region_file::RegionProbe::Valid { offset, header } => {
                lemma_records_carry_on(contents, superblock, header, offset, REGION_HEADER_SIZE as int, None, rest);
            },
            _ => {},
        }
    }
}

proof fn lemma_regions_carry_on(contents: Seq<u8>, superblock: Superblock, report: ReportModel)
    ensures
        carries_on(report, regions_verified(contents, superblock, report).0),
        regions_verified(contents, superblock, report).0.records_verified <= report.records_verified + if contents.len()
            < data_end(superblock) {
            0
        } else {
            superblock.region_count * superblock.region_size
        },
{
    let count = superblock.region_count as nat;
    let found = headers_tallied(contents, superblock, report, count);
    lemma_headers_carry_on(contents, superblock, report, count);
    lemma_repeats_carry_on(found.report, found.seqnos, found.seqnos.len());
    let headers = topology_reported(found, superblock);
    assert(carries_on(found.report, headers));
    lemma_regions_scanned_carry_on(contents, superblock, headers, count);
}

proof fn lemma_before_conclusion(contents: Seq<u8>)
    requires
        inspected(contents).selected is Some,
    ensures
        ({
            let found = inspected(contents);
            let opened = ReportModel { safe_to_open: true, ..ReportModel::fresh() };
            let replicas = replicas_reported(opened, found.report);
            let regions = regions_verified(contents, found.selected->0, replicas).0;
            let checkpoints = checkpoints_verified(regions, contents, found.selected->0, found).0;
            &&& carries_on(opened, checkpoints)
            &&& checkpoints.records_verified <= if contents.len() < data_end(found.selected->0) {
                0
            } else {
                found.selected->0.region_count * found.selected->0.region_size
            }
        }),
{
    let found = inspected(contents);
    let superblock = found.selected->0;
    let opened = ReportModel { safe_to_open: true, ..ReportModel::fresh() };
    let replicas = replicas_reported(opened, found.report);
    assert(carries_on(opened, replicas));
    let regions = regions_verified(contents, superblock, replicas).0;
    lemma_regions_carry_on(contents, superblock, replicas);
    let payloads = payloads_reported(regions, contents, found).0;
    assert(carries_on(regions, payloads));
    assert(carries_on(payloads, checkpoints_verified(regions, contents, superblock, found).0));
}

/// A report is valid exactly if verification found no issue, and lists the
/// first issues up to the limit.
pub proof fn law_valid_means_no_issue(contents: Seq<u8>)
    ensures
        sound(verified(contents)),
{
    if inspected(contents).selected is Some {
        lemma_before_conclusion(contents);
    }
}

/// The records that verification counts in a file are the values and the
/// tombstones that it counts. The counters hold them all: a record has at least
/// one byte, and a file's length is a `u64`.
pub proof fn law_records_are_values_and_tombstones(contents: Seq<u8>)
    requires
        contents.len() <= u64::MAX,
    ensures
        verified(contents).records_verified == verified(contents).values_verified + verified(contents).tombstones_verified,
{
    if inspected(contents).selected is Some {
        lemma_before_conclusion(contents);
    }
}

/// A file is unsafe to open exactly if opening it is refused.
pub proof fn law_unsafe_means_refused(contents: Seq<u8>)
    ensures
        !verified(contents).safe_to_open <==> verified(contents).reopen_disposition == ReopenDisposition::Refused,
{
    if inspected(contents).selected is Some {
        lemma_before_conclusion(contents);
    }
}

/// The checkpoint that a report names belongs to the Superblock's history, has
/// a faultless payload and fits the Regions as they are.
pub proof fn law_named_checkpoint_is_usable(contents: Seq<u8>)
    ensures
        verified(contents).selected_verified_checkpoint matches Some(slot) ==> {
            let found = inspected(contents);
            &&& slot < 2
            &&& found.selected is Some
            &&& found.directory is Some
            &&& found.headers[slot as int] is Some
            &&& lineage_matches(found.headers[slot as int]->0, found.selected->0)
            &&& slot_payload_fault(contents, found.directory->0, found.headers[slot as int]->0) is None
            &&& cross_validated(contents, found.selected->0, found.directory->0, found.headers[slot as int]->0) == Ok::<
                CheckpointCrossValidation,
                CrossFaultModel,
            >(CheckpointCrossValidation::Usable)
        },
{
    if inspected(contents).selected is Some {
        lemma_before_conclusion(contents);
    }
}

/// The runtime starts from a checkpoint exactly if the report names one.
pub proof fn law_checkpoint_dispositions(contents: Seq<u8>)
    ensures
        verified(contents).selected_verified_checkpoint is Some <==> verified(contents).reopen_disposition
            == ReopenDisposition::CleanCheckpoint || verified(contents).reopen_disposition == ReopenDisposition::DirtyIncremental,
{
    if inspected(contents).selected is Some {
        lemma_before_conclusion(contents);
    }
}

/// The Region and its snapshot are the same.
pub open spec fn same_as_snapshot(current: RegionHeader, prior: CheckpointRegionSnapshot) -> bool {
    &&& current.incarnation == prior.incarnation
    &&& current.state == prior.state
    &&& current.created_seqno == prior.created_seqno
    &&& current.used == prior.used
}

proof fn lemma_clean_regions_match(contents: Seq<u8>, superblock: Superblock, header: CheckpointSlotHeader, payload: int, count: nat)
    requires
        superblock.clean,
        count <= u32::MAX,
        cross_regions(contents, superblock, header, payload, count) is Ok,
    ensures
        forall|k: int|
            0 <= k < count ==> {
                &&& (#[trigger] current_region(contents, superblock, k as u32)) is Ok
                &&& snapshot_at(contents, payload, header.version, k) is Ok
                &&& same_as_snapshot(
                    current_region(contents, superblock, k as u32)->Ok_0,
                    snapshot_at(contents, payload, header.version, k)->Ok_0,
                )
            },
    decreases count,
{
    if count > 0 {
        lemma_clean_regions_match(contents, superblock, header, payload, (count - 1) as nat);
        let before = cross_regions(contents, superblock, header, payload, (count - 1) as nat)->Ok_0;
        assert(cross_region(contents, superblock, header, payload, before, (count - 1) as u32) is Ok);
    }
}

/// A checkpoint of a clean file that validation accepts describes every Region
/// exactly as it is.
pub proof fn law_clean_checkpoint_is_exact(
    contents: Seq<u8>,
    superblock: Superblock,
    directory: CheckpointDirectory,
    header: CheckpointSlotHeader,
    region: u32,
)
    requires
        superblock.clean,
        cross_validated(contents, superblock, directory, header) is Ok,
        region < header.region_count,
    ensures
        directory.payload_offset(header.slot as int) matches Ok(payload) && {
            &&& current_region(contents, superblock, region) is Ok
            &&& snapshot_at(contents, payload as int, header.version, region as int) is Ok
            &&& same_as_snapshot(
                current_region(contents, superblock, region)->Ok_0,
                snapshot_at(contents, payload as int, header.version, region as int)->Ok_0,
            )
        },
{
    let payload = directory.payload_offset(header.slot as int)->Ok_0;
    lemma_clean_regions_match(contents, superblock, header, payload as int, header.region_count as nat);
    assert(current_region(contents, superblock, (region as int) as u32) is Ok);
}

} // verus!
