//! Offline verification of a whole cache: the Region file alone, or the three
//! files of a Hybrid cache together.

use vstd::prelude::*;

use crate::bucket_file::{bucket_report, inspect_bucket_file, BucketFileReport};
use crate::checkpoint::{CheckpointCodecError, CheckpointDirectory, CheckpointSlotHeader};
use crate::checkpoint_cross::{
    cross_validate_checkpoint_regions, cross_validated, CheckpointCrossError, CheckpointCrossValidation, CrossFault,
    CrossFaultModel,
};
use crate::checkpoint_verify::{
    checkpoint_error_message, codec_message, payload_in_file, region_fault, regions_fault, slot_payload_fault,
    verify_one_checkpoint_payload, CheckpointVerifyError, PayloadFault,
};
use crate::format::{Superblock, REGION_HEADER_SIZE, SUPERBLOCK_AREA_SIZE, SUPERBLOCK_SIZE};
use crate::hybrid_manifest::{inspect_hybrid_manifest, manifest_report, HybridManifestFileReport};
use crate::management::{
    file_issue, issue_added, law_issue_is_put_on_record, slot_issue, tally, CheckpointDirectoryState, CheckpointSlotState,
    InspectReport, IssueModel, ManagementError, ReopenDisposition, ReportModel, SuperblockState, SuperblockSummary, VerifyComponent, VerifyReport,
};
use crate::offline_file::OfflineFile;
use crate::region_file::{
    checkpoint_matches_superblock, data_end, inspect_clean, inspect_locked, inspected, lineage_matches, region_inspect_valid,
    supported_layout, Inspected,
};
use crate::region_verify::{regions_verified, verify_regions_and_records};

verus! {

// ---------------------------------------------------------------------------
// Superblock copies
// ---------------------------------------------------------------------------

/// What a Superblock copy in such a state is blamed for.
pub open spec fn replica_message(state: SuperblockState) -> Seq<char> {
    match state {
        SuperblockState::Missing => "redundant Superblock is missing"@,
        SuperblockState::Empty => "redundant Superblock is empty"@,
        SuperblockState::InterruptedV1 => "interrupted Superblock marker"@,
        SuperblockState::CorruptV1 => "Superblock checksum or fields are invalid"@,
        SuperblockState::Unsupported => "unsupported Superblock version"@,
        SuperblockState::Unrecognized => "unrecognized Superblock bytes"@,
        SuperblockState::Truncated => "truncated Superblock page"@,
        SuperblockState::ValidV1 => ""@,
    }
}

/// Where a Superblock copy starts.
pub open spec fn replica_offset(slot: u8) -> u64 {
    (slot * SUPERBLOCK_SIZE) as u64
}

/// The report once a Superblock copy has been looked at.
pub open spec fn replica_reported(report: ReportModel, summary: SuperblockSummary, file_len: u64) -> ReportModel {
    if summary.state is ValidV1 || (file_len == 0 && (summary.state is Missing || summary.state is Empty)) {
        report
    } else {
        report.with_issue(
            file_issue(VerifyComponent::Superblock, replica_offset(summary.slot), replica_message(summary.state)),
        )
    }
}

/// A Superblock's epoch and sequence range make sense.
pub open spec fn sequence_bounds_valid(summary: SuperblockSummary) -> bool {
    &&& summary.epoch != Some(0u32)
    &&& summary.epoch_start_seqno != Some(0u64)
    &&& summary.epoch_start_seqno is Some
    &&& summary.next_seqno is Some
    &&& summary.epoch_start_seqno->0 < summary.next_seqno->0
}

/// The report once both Superblock copies have been looked at.
pub open spec fn replicas_reported(report: ReportModel, inspect: InspectReport) -> ReportModel {
    let first = replica_reported(report, inspect.superblocks[0], inspect.file_len);
    let second = replica_reported(first, inspect.superblocks[1], inspect.file_len);
    match inspect.selected_summary() {
        None => second,
        Some(selected) => if sequence_bounds_valid(selected) {
            second
        } else {
            second.with_issue(
                file_issue(
                    VerifyComponent::Superblock,
                    replica_offset(selected.slot),
                    "Superblock epoch or sequence bounds are invalid"@,
                ),
            )
        },
    }
}

/// Adds what is wrong with a Superblock copy.
fn report_replica(report: &mut VerifyReport, summary: SuperblockSummary)
    ensures
        final(report).inspect == old(report).inspect,
        final(report)@ == replica_reported(old(report)@, summary, old(report).inspect.file_len),
{
    let absent = report.inspect.file_len == 0;
    let message = match summary.state {
        SuperblockState::ValidV1 => {
            return;
        },
        SuperblockState::Missing => {
            if absent {
                return;
            }
            "redundant Superblock is missing"
        },
        SuperblockState::Empty => {
            if absent {
                return;
            }
            "redundant Superblock is empty"
        },
        SuperblockState::InterruptedV1 => "interrupted Superblock marker",
        SuperblockState::CorruptV1 => "Superblock checksum or fields are invalid",
        SuperblockState::Unsupported => "unsupported Superblock version",
        SuperblockState::Unrecognized => "unrecognized Superblock bytes",
        SuperblockState::Truncated => "truncated Superblock page",
    };
    report.add_file_issue(VerifyComponent::Superblock, summary.slot as u64 * (SUPERBLOCK_SIZE as u64), message);
}

/// Adds what is wrong with the Superblock copies.
pub fn verify_superblock_replicas(report: &mut VerifyReport)
    ensures
        final(report).inspect == old(report).inspect,
        final(report)@ == replicas_reported(old(report)@, old(report).inspect),
{
    let first = report.inspect.superblocks[0];
    let second = report.inspect.superblocks[1];
    report_replica(report, first);
    report_replica(report, second);
    let selected: SuperblockSummary = match report.inspect.selected() {
        Some(selected) => *selected,
        None => {
            return;
        },
    };
    let ordered = match (selected.epoch_start_seqno, selected.next_seqno) {
        (Some(start), Some(next)) => start < next,
        _ => false,
    };
    if selected.epoch == Some(0) || selected.epoch_start_seqno == Some(0) || !ordered {
        report.add_file_issue(
            VerifyComponent::Superblock,
            selected.slot as u64 * (SUPERBLOCK_SIZE as u64),
            "Superblock epoch or sequence bounds are invalid",
        );
    }
}

// ---------------------------------------------------------------------------
// Checkpoint payloads
// ---------------------------------------------------------------------------

/// An offset, or that of the checkpoint area where there is none.
pub open spec fn offset_or(offset: Result<u64, CheckpointCodecError>, otherwise: u64) -> u64 {
    match offset {
        Ok(found) => found,
        Err(_) => otherwise,
    }
}

/// The report once a slot's payload has been looked at, and whether the payload
/// is verified.
pub open spec fn slot_reported(
    report: ReportModel,
    contents: Seq<u8>,
    directory: CheckpointDirectory,
    state: CheckpointSlotState,
    header: Option<CheckpointSlotHeader>,
    slot: u8,
) -> (ReportModel, bool) {
    let header_offset = offset_or(directory.header_offset(slot as int), directory.data_file_len);
    let payload_offset = offset_or(directory.payload_offset(slot as int), directory.data_file_len);
    match state {
        CheckpointSlotState::Absent => (report, false),
        CheckpointSlotState::Invalid => (
            report.with_issue(
                slot_issue(
                    VerifyComponent::CheckpointHeader,
                    header_offset,
                    slot,
                    "checkpoint slot header checksum or fields are invalid"@,
                ),
            ),
            false,
        ),
        CheckpointSlotState::Truncated => (
            report.with_issue(
                slot_issue(VerifyComponent::CheckpointHeader, header_offset, slot, "checkpoint slot header is truncated"@),
            ),
            false,
        ),
        CheckpointSlotState::HeaderValid => match header {
            None => (report, false),
            Some(found) => match slot_payload_fault(contents, directory, found) {
                None => (
                    ReportModel { checkpoint_slots_verified: tally(report.checkpoint_slots_verified, 1), ..report },
                    true,
                ),
                Some(PayloadFault::Codec(error)) => (
                    report.with_issue(
                        slot_issue(VerifyComponent::CheckpointPayload, payload_offset, slot, codec_message(error)),
                    ),
                    false,
                ),
                Some(PayloadFault::Truncated) => (
                    report.with_issue(
                        slot_issue(
                            VerifyComponent::CheckpointPayload,
                            payload_offset,
                            slot,
                            "checkpoint payload is truncated"@,
                        ),
                    ),
                    false,
                ),
            },
        },
    }
}

/// What an unusable directory is blamed for.
pub open spec fn directory_message(state: CheckpointDirectoryState) -> Seq<char> {
    match state {
        CheckpointDirectoryState::Invalid => "checkpoint directory checksum or fields are invalid"@,
        CheckpointDirectoryState::LayoutMismatch => "checkpoint directory does not match the data layout"@,
        CheckpointDirectoryState::Truncated => "checkpoint directory is truncated"@,
        _ => ""@,
    }
}

/// The report once both slots' payloads have been looked at, and which of them
/// are verified.
pub open spec fn payloads_reported(report: ReportModel, contents: Seq<u8>, found: Inspected) -> (ReportModel, bool, bool) {
    let state = found.report.checkpoint.directory_state;
    match state {
        CheckpointDirectoryState::Absent => (report, false, false),
        CheckpointDirectoryState::Valid => match found.directory {
            None => (report, false, false),
            Some(directory) => {
                let slots = found.report.checkpoint.slots;
                let (first, first_verified) = slot_reported(
                    report,
                    contents,
                    directory,
                    slots[0].state,
                    found.headers[0],
                    0,
                );
                let (second, second_verified) = slot_reported(
                    first,
                    contents,
                    directory,
                    slots[1].state,
                    found.headers[1],
                    1,
                );
                (second, first_verified, second_verified)
            },
        },
        _ => (
            report.with_issue(
                file_issue(
                    VerifyComponent::CheckpointDirectory,
                    match found.report.data_file_len {
                        Some(length) => length,
                        None => SUPERBLOCK_AREA_SIZE,
                    },
                    directory_message(state),
                ),
            ),
            false,
            false,
        ),
    }
}

/// Looks at one slot's payload.
fn verify_slot_payload<F: OfflineFile>(
    file: &F,
    directory: CheckpointDirectory,
    state: CheckpointSlotState,
    header: Option<CheckpointSlotHeader>,
    slot: u8,
    report: &mut VerifyReport,
) -> (result: Result<bool, F::Error>)
    ensures
        final(report).inspect == old(report).inspect,
        match result {
            Ok(verified) => (final(report)@, verified) == slot_reported(
                old(report)@,
                file.contents(),
                directory,
                state,
                header,
                slot,
            ),
            Err(_) => !file.reliable(),
        },
{
    let header_offset: u64 = match directory.slot_header_offset(slot as usize) {
        Ok(offset) => offset,
        Err(_) => directory.data_file_len,
    };
    let payload_offset: u64 = match directory.slot_payload_offset(slot as usize) {
        Ok(offset) => offset,
        Err(_) => directory.data_file_len,
    };
    match state {
        CheckpointSlotState::Absent => {
            return Ok(false);
        },
        CheckpointSlotState::Invalid => {
            report.add_checkpoint_issue(
                VerifyComponent::CheckpointHeader,
                header_offset,
                slot,
                "checkpoint slot header checksum or fields are invalid",
            );
            return Ok(false);
        },
        CheckpointSlotState::Truncated => {
            report.add_checkpoint_issue(
                VerifyComponent::CheckpointHeader,
                header_offset,
                slot,
                "checkpoint slot header is truncated",
            );
            return Ok(false);
        },
        CheckpointSlotState::HeaderValid => {},
    }
    let found = match header {
        Some(found) => found,
        None => {
            return Ok(false);
        },
    };
    match verify_one_checkpoint_payload(file, directory, found) {
        Ok(_) => {
            report.checkpoint_slots_verified = report.checkpoint_slots_verified.saturating_add(1);
            assert(report@ =~= (ReportModel {
                checkpoint_slots_verified: tally(old(report)@.checkpoint_slots_verified, 1),
                ..old(report)@
            }));
            Ok(true)
        },
        Err(CheckpointVerifyError::Io(error)) => Err(error),
        Err(CheckpointVerifyError::Fault(PayloadFault::Codec(error))) => {
            report.add_checkpoint_issue(
                VerifyComponent::CheckpointPayload,
                payload_offset,
                slot,
                checkpoint_error_message(error),
            );
            Ok(false)
        },
        Err(CheckpointVerifyError::Fault(PayloadFault::Truncated)) => {
            report.add_checkpoint_issue(
                VerifyComponent::CheckpointPayload,
                payload_offset,
                slot,
                "checkpoint payload is truncated",
            );
            Ok(false)
        },
    }
}

/// Looks at the directory and both slots' payloads.
pub fn verify_checkpoint_payloads<F: OfflineFile>(file: &F, found: &Inspected, report: &mut VerifyReport) -> (result: Result<
    (bool, bool),
    F::Error,
>)
    ensures
        final(report).inspect == old(report).inspect,
        match result {
            Ok((first, second)) => (final(report)@, first, second) == payloads_reported(old(report)@, file.contents(), *found),
            Err(_) => !file.reliable(),
        },
{
    let message = match found.report.checkpoint.directory_state {
        CheckpointDirectoryState::Absent => {
            return Ok((false, false));
        },
        CheckpointDirectoryState::Valid => None,
        CheckpointDirectoryState::Invalid => Some("checkpoint directory checksum or fields are invalid"),
        CheckpointDirectoryState::LayoutMismatch => Some("checkpoint directory does not match the data layout"),
        CheckpointDirectoryState::Truncated => Some("checkpoint directory is truncated"),
    };
    if let Some(text) = message {
        let offset: u64 = match found.report.data_file_len {
            Some(length) => length,
            None => SUPERBLOCK_AREA_SIZE,
        };
        report.add_file_issue(VerifyComponent::CheckpointDirectory, offset, text);
        return Ok((false, false));
    }
    let directory = match found.directory {
        Some(directory) => directory,
        None => {
            return Ok((false, false));
        },
    };
    let slots = found.report.checkpoint.slots;
    let first = match verify_slot_payload(file, directory, slots[0].state, found.headers[0], 0, report) {
        Ok(verified) => verified,
        Err(error) => {
            return Err(error);
        },
    };
    let second = match verify_slot_payload(file, directory, slots[1].state, found.headers[1], 1, report) {
        Ok(verified) => verified,
        Err(error) => {
            return Err(error);
        },
    };
    Ok((first, second))
}

// ---------------------------------------------------------------------------
// Usable checkpoints
// ---------------------------------------------------------------------------

/// The report once a slot has been compared with the Regions, and whether the
/// runtime can start from it. Only a verified payload of the Superblock's
/// history is compared.
pub open spec fn slot_crossed(
    report: ReportModel,
    contents: Seq<u8>,
    superblock: Superblock,
    directory: CheckpointDirectory,
    header: Option<CheckpointSlotHeader>,
    verified: bool,
    slot: u8,
) -> (ReportModel, bool) {
    let offset = offset_or(directory.payload_offset(slot as int), directory.data_file_len);
    if header is None || !verified || !lineage_matches(header->0, superblock) {
        (report, false)
    } else {
        match cross_validated(contents, superblock, directory, header->0) {
            Ok(CheckpointCrossValidation::Usable) => (report, true),
            Ok(CheckpointCrossValidation::ConservativeFallback) => (report, false),
            Err(CrossFaultModel::Codec(error)) => (
                report.with_issue(slot_issue(VerifyComponent::CheckpointPayload, offset, slot, codec_message(error))),
                false,
            ),
            Err(CrossFaultModel::Invalid(message)) => (
                report.with_issue(slot_issue(VerifyComponent::CheckpointPayload, offset, slot, message)),
                false,
            ),
        }
    }
}

/// The newest of the slots that the runtime can start from, the second of two
/// equally new ones.
pub open spec fn newest_usable(
    first: Option<CheckpointSlotHeader>,
    first_usable: bool,
    second: Option<CheckpointSlotHeader>,
    second_usable: bool,
) -> Option<u8> {
    if second_usable && second is Some && (!(first_usable && first is Some) || second->0.generation >= first->0.generation) {
        Some(1u8)
    } else if first_usable && first is Some {
        Some(0u8)
    } else {
        None
    }
}

/// What the runtime does on open.
pub open spec fn disposition_of(superblock: Superblock, usable: Option<u8>, data_valid: bool) -> ReopenDisposition {
    if superblock.clean {
        if usable is Some {
            ReopenDisposition::CleanCheckpoint
        } else if data_valid {
            ReopenDisposition::CleanFullScan
        } else {
            ReopenDisposition::SafeEmpty
        }
    } else if usable is Some {
        ReopenDisposition::DirtyIncremental
    } else {
        ReopenDisposition::SafeEmpty
    }
}

/// Why the Superblock's generation rules that out, if it does.
pub open spec fn generation_fault(superblock: Superblock, disposition: ReopenDisposition) -> Option<Seq<char>> {
    if !superblock.clean && superblock.generation == u64::MAX {
        Some("dirty Superblock generation cannot publish a clean checkpoint"@)
    } else if disposition == ReopenDisposition::SafeEmpty && superblock.generation > u64::MAX - 2 {
        Some("Superblock generation cannot complete safe-empty formatting"@)
    } else {
        None
    }
}

/// The finished report.
pub open spec fn concluded(
    report: ReportModel,
    selected_superblock: Option<u8>,
    superblock: Superblock,
    usable: Option<u8>,
    data_valid: bool,
) -> ReportModel {
    let disposition = disposition_of(superblock, usable, data_valid);
    match generation_fault(superblock, disposition) {
        None => ReportModel {
            selected_verified_checkpoint: usable,
            reopen_disposition: disposition,
            ..report
        },
        Some(message) => {
            let issued = report.with_issue(
                file_issue(
                    VerifyComponent::Superblock,
                    match selected_superblock {
                        Some(slot) => replica_offset(slot),
                        None => 0,
                    },
                    message,
                ),
            );
            ReportModel {
                safe_to_open: false,
                selected_verified_checkpoint: None,
                reopen_disposition: ReopenDisposition::Refused,
                ..issued
            }
        },
    }
}

/// The report once the checkpoints have been verified and compared with the
/// Regions, and the slot that the runtime can start from.
pub open spec fn checkpoints_verified(report: ReportModel, contents: Seq<u8>, superblock: Superblock, found: Inspected) -> (
    ReportModel,
    Option<u8>,
) {
    let (payloads, first_verified, second_verified) = payloads_reported(report, contents, found);
    match found.directory {
        None => (payloads, None),
        Some(directory) => {
            let (first, first_usable) = slot_crossed(
                payloads,
                contents,
                superblock,
                directory,
                found.headers[0],
                first_verified,
                0,
            );
            let (second, second_usable) = slot_crossed(
                first,
                contents,
                superblock,
                directory,
                found.headers[1],
                second_verified,
                1,
            );
            (second, newest_usable(found.headers[0], first_usable, found.headers[1], second_usable))
        },
    }
}

/// What verification finds in a Region file.
pub open spec fn verified(contents: Seq<u8>) -> ReportModel {
    let found = inspected(contents);
    match found.selected {
        None => ReportModel::fresh().with_issue(
            file_issue(VerifyComponent::Superblock, 0, "no supported checksum-valid Superblock"@),
        ),
        Some(superblock) => {
            let opened = ReportModel { safe_to_open: true, ..ReportModel::fresh() };
            let replicas = replicas_reported(opened, found.report);
            let (regions, data_valid) = regions_verified(contents, superblock, replicas);
            let (checkpoints, usable) = checkpoints_verified(regions, contents, superblock, found);
            concluded(checkpoints, found.report.selected_superblock, superblock, usable, data_valid)
        },
    }
}

/// A slot of the directory lies in the file as verification needs it: its
/// header belongs to the Regions, and a verified payload shows that every
/// Region has room for its header.
proof fn lemma_verified_slot(contents: Seq<u8>, superblock: Superblock, directory: CheckpointDirectory, header: CheckpointSlotHeader)
    requires
        superblock.region_count > 0,
        directory.region_count == superblock.region_count,
        directory.region_size == superblock.region_size,
        slot_payload_fault(contents, directory, header) is None,
    ensures
        header.region_count == superblock.region_count,
        superblock.region_size >= REGION_HEADER_SIZE,
        directory.payload_offset(header.slot as int) matches Ok(payload) ==> payload_in_file(contents, payload, header),
{
    let payload = directory.payload_offset(header.slot as int)->Ok_0;
    lemma_no_region_fault(contents, payload as int, directory, header, header.region_count as nat);
    assert(region_fault(contents, payload as int, directory, header, 0) is None);
}

proof fn lemma_no_region_fault(contents: Seq<u8>, payload: int, directory: CheckpointDirectory, header: CheckpointSlotHeader, count: nat)
    requires
        regions_fault(contents, payload, directory, header, count) is None,
    ensures
        forall|k: int| 0 <= k < count ==> #[trigger] region_fault(contents, payload, directory, header, k) is None,
    decreases count,
{
    if count > 0 {
        lemma_no_region_fault(contents, payload, directory, header, (count - 1) as nat);
    }
}

/// Compares one slot with the Regions.
fn cross_slot<F: OfflineFile>(
    file: &F,
    superblock: Superblock,
    directory: CheckpointDirectory,
    header: Option<CheckpointSlotHeader>,
    verified: bool,
    slot: u8,
    report: &mut VerifyReport,
) -> (result: Result<bool, ManagementError<F::Error>>)
    requires
        supported_layout(superblock),
        data_end(superblock) <= file.contents().len(),
        directory.region_count == superblock.region_count,
        directory.region_size == superblock.region_size,
        verified ==> header is Some && slot_payload_fault(file.contents(), directory, header->0) is None,
    ensures
        final(report).inspect == old(report).inspect,
        match result {
            Ok(usable) => (final(report)@, usable) == slot_crossed(
                old(report)@,
                file.contents(),
                superblock,
                directory,
                header,
                verified,
                slot,
            ),
            Err(ManagementError::Io(_)) => !file.reliable(),
            Err(ManagementError::Allocation) => verified && lineage_matches(header->0, superblock),
            Err(_) => false,
        },
{
    let found = match header {
        Some(found) => found,
        None => {
            return Ok(false);
        },
    };
    if !verified || !checkpoint_matches_superblock(found, superblock) {
        return Ok(false);
    }
    proof {
        lemma_verified_slot(file.contents(), superblock, directory, found);
    }
    let offset: u64 = match directory.slot_payload_offset(slot as usize) {
        Ok(offset) => offset,
        Err(_) => directory.data_file_len,
    };
    match cross_validate_checkpoint_regions(file, superblock, directory, found) {
        Ok(CheckpointCrossValidation::Usable) => Ok(true),
        Ok(CheckpointCrossValidation::ConservativeFallback) => Ok(false),
        Err(CheckpointCrossError::Io(error)) => Err(ManagementError::Io(error)),
        Err(CheckpointCrossError::Allocation) => Err(ManagementError::Allocation),
        Err(CheckpointCrossError::Fault(CrossFault::Codec(error))) => {
            report.add_checkpoint_issue(VerifyComponent::CheckpointPayload, offset, slot, checkpoint_error_message(error));
            Ok(false)
        },
        Err(CheckpointCrossError::Fault(CrossFault::Invalid(message))) => {
            report.add_checkpoint_issue(VerifyComponent::CheckpointPayload, offset, slot, message);
            Ok(false)
        },
    }
}

/// Verifies the checkpoints and compares them with the Regions.
fn verify_checkpoints<F: OfflineFile>(file: &F, superblock: Superblock, found: &Inspected, report: &mut VerifyReport) -> (result: Result<
    Option<u8>,
    ManagementError<F::Error>,
>)
    requires
        *found == inspected(file.contents()),
        found.selected == Some(superblock),
    ensures
        final(report).inspect == old(report).inspect,
        match result {
            Ok(usable) => (final(report)@, usable) == checkpoints_verified(old(report)@, file.contents(), superblock, *found),
            Err(ManagementError::Io(_)) => !file.reliable(),
            Err(ManagementError::Allocation) => data_end(superblock) <= file.contents().len(),
            Err(_) => false,
        },
{
    let (first_verified, second_verified) = match verify_checkpoint_payloads(file, found, report) {
        Ok(pair) => pair,
        Err(error) => {
            return Err(ManagementError::Io(error));
        },
    };
    let directory = match found.directory {
        Some(directory) => directory,
        None => {
            return Ok(None);
        },
    };
    let first_header = found.headers[0];
    let second_header = found.headers[1];
    let first_usable = match cross_slot(file, superblock, directory, first_header, first_verified, 0, report) {
        Ok(usable) => usable,
        Err(error) => {
            return Err(error);
        },
    };
    let second_usable = match cross_slot(file, superblock, directory, second_header, second_verified, 1, report) {
        Ok(usable) => usable,
        Err(error) => {
            return Err(error);
        },
    };
    let mut selected: Option<u8> = None;
    let mut generation: u64 = 0;
    if let Some(header) = first_header {
        if first_usable {
            selected = Some(0);
            generation = header.generation;
        }
    }
    if let Some(header) = second_header {
        if second_usable && (selected.is_none() || header.generation >= generation) {
            selected = Some(1);
        }
    }
    Ok(selected)
}

/// Finishes the report.
fn conclude(report: &mut VerifyReport, superblock: Superblock, usable: Option<u8>, data_valid: bool)
    ensures
        final(report).inspect == old(report).inspect,
        final(report)@ == concluded(old(report)@, old(report).inspect.selected_superblock, superblock, usable, data_valid),
{
    let disposition = if superblock.clean {
        if usable.is_some() {
            ReopenDisposition::CleanCheckpoint
        } else if data_valid {
            ReopenDisposition::CleanFullScan
        } else {
            ReopenDisposition::SafeEmpty
        }
    } else if usable.is_some() {
        ReopenDisposition::DirtyIncremental
    } else {
        ReopenDisposition::SafeEmpty
    };
    let generation_error = if !superblock.clean && superblock.generation == u64::MAX {
        Some("dirty Superblock generation cannot publish a clean checkpoint")
    } else if disposition == ReopenDisposition::SafeEmpty && superblock.generation > u64::MAX - 2 {
        Some("Superblock generation cannot complete safe-empty formatting")
    } else {
        None
    };
    match generation_error {
        Some(message) => {
            let offset: u64 = match report.inspect.selected_superblock {
                Some(slot) => slot as u64 * (SUPERBLOCK_SIZE as u64),
                None => 0,
            };
            report.add_file_issue(VerifyComponent::Superblock, offset, message);
            report.safe_to_open = false;
            report.selected_verified_checkpoint = None;
            report.reopen_disposition = ReopenDisposition::Refused;
        },
        None => {
            report.selected_verified_checkpoint = usable;
            report.reopen_disposition = disposition;
        },
    }
    assert(report@ =~= concluded(old(report)@, old(report).inspect.selected_superblock, superblock, usable, data_valid));
}

/// The file has a usable Superblock and holds the data extent that it declares.
/// Only then does verification allocate.
pub open spec fn holds_data_extent(contents: Seq<u8>) -> bool {
    match inspected(contents).selected {
        Some(superblock) => data_end(superblock) <= contents.len(),
        None => false,
    }
}

/// Verifies an inspected Region file.
///
/// A dirty checkpoint limits what runtime recovery must replay, but it is not
/// the boundary of an offline integrity check: every record in the current
/// Region incarnations is verified as well as the checkpoint and its
/// incremental tails.
pub fn verify_locked<F: OfflineFile>(file: &F, found: Inspected) -> (result: Result<VerifyReport, ManagementError<F::Error>>)
    requires
        found == inspected(file.contents()),
    ensures
        match result {
            Ok(report) => report@ == verified(file.contents()) && report.inspect == found.report,
            Err(ManagementError::Io(_)) => !file.reliable(),
            Err(ManagementError::Allocation) => holds_data_extent(file.contents()),
            Err(_) => false,
        },
{
    let mut report = VerifyReport::new(found.report);
    let superblock = match found.selected {
        Some(superblock) => superblock,
        None => {
            report.add_file_issue(VerifyComponent::Superblock, 0, "no supported checksum-valid Superblock");
            return Ok(report);
        },
    };
    report.safe_to_open = true;
    assert(report@ =~= (ReportModel { safe_to_open: true, ..ReportModel::fresh() }));
    verify_superblock_replicas(&mut report);
    let data_valid = match verify_regions_and_records(file, superblock, &mut report) {
        Ok(data_valid) => data_valid,
        Err(error) => {
            return Err(error);
        },
    };
    let usable = match verify_checkpoints(file, superblock, &found, &mut report) {
        Ok(usable) => usable,
        Err(error) => {
            return Err(error);
        },
    };
    conclude(&mut report, superblock, usable, data_valid);
    Ok(report)
}

// ---------------------------------------------------------------------------
// Entry points
// ---------------------------------------------------------------------------

/// Inspects an offline cache without reading record payloads.
pub fn inspect_cache_file<F: OfflineFile>(file: &F) -> (result: Result<InspectReport, ManagementError<F::Error>>)
    ensures
        match result {
            Ok(report) => report == inspected(file.contents()).report,
            Err(ManagementError::Io(_)) => !file.reliable(),
            Err(_) => false,
        },
{
    match inspect_locked(file) {
        Ok(found) => Ok(found.report),
        Err(error) => Err(error),
    }
}

/// Streams all persisted records and checkpoint payloads in an offline cache.
///
/// The records are streamed with a fixed data buffer. The input-sized
/// allocations are creation sequence numbers, a few for each Region, bounded by
/// the Region limit.
pub fn verify_cache_file<F: OfflineFile>(file: &F) -> (result: Result<VerifyReport, ManagementError<F::Error>>)
    ensures
        match result {
            Ok(report) => report@ == verified(file.contents()) && report.inspect == inspected(file.contents()).report,
            Err(ManagementError::Io(_)) => !file.reliable(),
            Err(ManagementError::Allocation) => holds_data_extent(file.contents()),
            Err(_) => false,
        },
{
    match inspect_locked(file) {
        Ok(found) => verify_locked(file, found),
        Err(error) => Err(error),
    }
}

/// One coherent, locked offline view of all three Hybrid persistence files.
#[derive(Clone, Copy, Debug, PartialEq, Eq)]
pub struct HybridInspectReport {
    pub valid: bool,
    pub bucket: BucketFileReport,
    pub region: InspectReport,
    pub manifest: HybridManifestFileReport,
}

/// Full offline verification of Bucket pages, Region records/checkpoints, and
/// the Hybrid transition journal.
#[derive(Clone, Debug, PartialEq, Eq)]
pub struct HybridVerifyReport {
    pub valid: bool,
    /// All three files are structurally safe for the runtime to *attempt* to
    /// open. This does not promise that a supplied runtime configuration has
    /// the same layout fingerprint, nor that recovery will avoid a safe clear.
    pub safe_to_open: bool,
    pub bucket: BucketFileReport,
    pub region: VerifyReport,
    pub manifest: HybridManifestFileReport,
}

/// Inspects a closed Hybrid cache without writing recovery or format state.
///
/// The caller locks the three files in runtime order (manifest, Bucket, Region)
/// and keeps the locks until all three reports have been captured, which
/// prevents a mixed-generation sidecar view.
pub fn inspect_hybrid_cache_files<F: OfflineFile>(bucket: &F, region: &F, manifest: &F) -> (result: Result<
    HybridInspectReport,
    ManagementError<F::Error>,
>)
    ensures
        match result {
            Ok(report) => {
                &&& report.bucket == bucket_report(bucket.contents(), bucket.contents().len() as u64, false)
                &&& report.region == inspected(region.contents()).report
                &&& report.manifest == manifest_report(manifest.contents(), manifest.contents().len() as u64, false)
                &&& report.valid == (report.bucket.valid && report.manifest.valid && inspect_clean(report.region))
            },
            Err(ManagementError::Io(_)) => !(bucket.reliable() && region.reliable() && manifest.reliable()),
            Err(_) => false,
        },
{
    let manifest_found = match inspect_hybrid_manifest(manifest, false) {
        Ok(found) => found,
        Err(error) => {
            return Err(error);
        },
    };
    let bucket_found = match inspect_bucket_file(bucket, false) {
        Ok(found) => found,
        Err(error) => {
            return Err(error);
        },
    };
    let region_found = match inspect_locked(region) {
        Ok(found) => found.report,
        Err(error) => {
            return Err(error);
        },
    };
    let valid = bucket_found.valid && manifest_found.valid && region_inspect_valid(&region_found);
    Ok(HybridInspectReport { valid, bucket: bucket_found, region: region_found, manifest: manifest_found })
}

/// Verifies every persisted component of a closed Hybrid cache.
pub fn verify_hybrid_cache_files<F: OfflineFile>(bucket: &F, region: &F, manifest: &F) -> (result: Result<
    HybridVerifyReport,
    ManagementError<F::Error>,
>)
    ensures
        match result {
            Ok(report) => {
                &&& report.bucket == bucket_report(bucket.contents(), bucket.contents().len() as u64, true)
                &&& report.region@ == verified(region.contents())
                &&& report.region.inspect == inspected(region.contents()).report
                &&& report.manifest == manifest_report(manifest.contents(), manifest.contents().len() as u64, true)
                &&& report.valid == (report.bucket.valid && report.manifest.valid && report.region.valid)
                &&& report.safe_to_open == (report.valid && report.region.safe_to_open)
            },
            Err(ManagementError::Io(_)) => !(bucket.reliable() && region.reliable() && manifest.reliable()),
            Err(ManagementError::Allocation) => holds_data_extent(region.contents()),
            Err(_) => false,
        },
{
    let manifest_found = match inspect_hybrid_manifest(manifest, true) {
        Ok(found) => found,
        Err(error) => {
            return Err(error);
        },
    };
    let bucket_found = match inspect_bucket_file(bucket, true) {
        Ok(found) => found,
        Err(error) => {
            return Err(error);
        },
    };
    let region_found = match verify_cache_file(region) {
        Ok(found) => found,
        Err(error) => {
            return Err(error);
        },
    };
    let valid = bucket_found.valid && manifest_found.valid && region_found.valid;
    let safe_to_open = valid && region_found.safe_to_open;
    Ok(HybridVerifyReport { valid, safe_to_open, bucket: bucket_found, region: region_found, manifest: manifest_found })
}

// ---------------------------------------------------------------------------
// What a verification report says
// ---------------------------------------------------------------------------

/// A copy of the Superblock that is not valid is an issue at its place, which is
/// 0 or 4096; but an empty file lacks both without one.
pub proof fn law_invalid_copies_are_issues(report: ReportModel, summary: SuperblockSummary, file_len: u64)
    ensures
        ({
            let after = replica_reported(report, summary, file_len);
            let fine = summary.state is ValidV1 || (file_len == 0 && (summary.state is Missing || summary.state is Empty));
            &&& fine ==> after == report
            &&& !fine ==> issue_added(
                report,
                after,
                (IssueModel {
                    component: VerifyComponent::Superblock,
                    offset: (4096 * summary.slot) as u64,
                    region_id: None,
                    checkpoint_slot: None,
                    message: match summary.state {
                        SuperblockState::Missing => "redundant Superblock is missing"@,
                        SuperblockState::Empty => "redundant Superblock is empty"@,
                        SuperblockState::InterruptedV1 => "interrupted Superblock marker"@,
                        SuperblockState::CorruptV1 => "Superblock checksum or fields are invalid"@,
                        SuperblockState::Unsupported => "unsupported Superblock version"@,
                        SuperblockState::Unrecognized => "unrecognized Superblock bytes"@,
                        SuperblockState::Truncated => "truncated Superblock page"@,
                        SuperblockState::ValidV1 => ""@,
                    },
                }),
            )
        }),
{
    law_issue_is_put_on_record(
        report,
        file_issue(VerifyComponent::Superblock, replica_offset(summary.slot), replica_message(summary.state)),
    );
}

/// Both copies are reported, then the bounds of the one that counts: its epoch
/// and the epoch's start must be set, and the start come before the next version.
pub proof fn law_replicas_are_reported(report: ReportModel, inspect: InspectReport)
    ensures
        ({
            let both = replica_reported(
                replica_reported(report, inspect.superblocks[0], inspect.file_len),
                inspect.superblocks[1],
                inspect.file_len,
            );
            let after = replicas_reported(report, inspect);
            match inspect.selected_superblock {
                Some(slot) => slot < 2 ==> {
                    let counted = inspect.superblocks[slot as int];
                    let bounded = (match counted.epoch {
                        Some(epoch) => epoch > 0,
                        None => true,
                    }) && (counted.epoch_start_seqno matches Some(start) && counted.next_seqno matches Some(next) && 0 < start < next);
                    &&& bounded ==> after == both
                    &&& !bounded ==> issue_added(
                        both,
                        after,
                        (IssueModel {
                            component: VerifyComponent::Superblock,
                            offset: (4096 * counted.slot) as u64,
                            region_id: None,
                            checkpoint_slot: None,
                            message: "Superblock epoch or sequence bounds are invalid"@,
                        }),
                    )
                },
                None => after == both,
            }
        }),
{
    if inspect.selected_summary() is Some {
        law_issue_is_put_on_record(
            replica_reported(replica_reported(report, inspect.superblocks[0], inspect.file_len), inspect.superblocks[1], inspect.file_len),
            file_issue(
                VerifyComponent::Superblock,
                replica_offset(inspect.selected_summary()->0.slot),
                "Superblock epoch or sequence bounds are invalid"@,
            ),
        );
    }
}

/// A slot is verified, and counted, exactly if its header is valid and its
/// payload has no fault. An absent slot is no issue; anything else is one, of
/// the header or of the payload.
pub proof fn law_slots_are_reported(
    report: ReportModel,
    contents: Seq<u8>,
    directory: CheckpointDirectory,
    state: CheckpointSlotState,
    header: Option<CheckpointSlotHeader>,
    slot: u8,
)
    requires
        state is HeaderValid ==> header is Some,
        report.checkpoint_slots_verified < u64::MAX,
    ensures
        ({
            let (after, verified) = slot_reported(report, contents, directory, state, header, slot);
            &&& verified <==> state is HeaderValid && slot_payload_fault(contents, directory, header->0) is None
            &&& verified ==> after == (ReportModel {
                checkpoint_slots_verified: (report.checkpoint_slots_verified + 1) as u64,
                ..report
            })
            &&& state is Absent ==> after == report
            &&& state is Invalid || state is Truncated ==> issue_added(
                report,
                after,
                (IssueModel {
                    component: VerifyComponent::CheckpointHeader,
                    offset: match directory.header_offset(slot as int) {
                        Ok(place) => place,
                        Err(_) => directory.data_file_len,
                    },
                    region_id: None,
                    checkpoint_slot: Some(slot),
                    message: if state is Invalid {
                        "checkpoint slot header checksum or fields are invalid"@
                    } else {
                        "checkpoint slot header is truncated"@
                    },
                }),
            )
            &&& state is HeaderValid && !verified ==> issue_added(
                report,
                after,
                (IssueModel {
                    component: VerifyComponent::CheckpointPayload,
                    offset: match directory.payload_offset(slot as int) {
                        Ok(place) => place,
                        Err(_) => directory.data_file_len,
                    },
                    region_id: None,
                    checkpoint_slot: Some(slot),
                    message: match slot_payload_fault(contents, directory, header->0)->0 {
                        PayloadFault::Codec(error) => codec_message(error),
                        PayloadFault::Truncated => "checkpoint payload is truncated"@,
                    },
                }),
            )
        }),
{
    let header_offset = offset_or(directory.header_offset(slot as int), directory.data_file_len);
    let payload_offset = offset_or(directory.payload_offset(slot as int), directory.data_file_len);
    law_issue_is_put_on_record(
        report,
        slot_issue(
            VerifyComponent::CheckpointHeader,
            header_offset,
            slot,
            "checkpoint slot header checksum or fields are invalid"@,
        ),
    );
    law_issue_is_put_on_record(
        report,
        slot_issue(VerifyComponent::CheckpointHeader, header_offset, slot, "checkpoint slot header is truncated"@),
    );
    if state is HeaderValid && slot_payload_fault(contents, directory, header->0) is Some {
        law_issue_is_put_on_record(
            report,
            slot_issue(
                VerifyComponent::CheckpointPayload,
                payload_offset,
                slot,
                match slot_payload_fault(contents, directory, header->0)->0 {
                    PayloadFault::Codec(error) => codec_message(error),
                    PayloadFault::Truncated => "checkpoint payload is truncated"@,
                },
            ),
        );
    }
}

/// An absent directory is no issue and a damaged one is; of a valid one both
/// slots are reported, the first before the second.
pub proof fn law_directories_are_reported(report: ReportModel, contents: Seq<u8>, found: Inspected)
    ensures
        ({
            let state = found.report.checkpoint.directory_state;
            let (after, first, second) = payloads_reported(report, contents, found);
            &&& state is Absent ==> after == report && !first && !second
            &&& state is Invalid || state is LayoutMismatch || state is Truncated ==> !first && !second && issue_added(
                report,
                after,
                (IssueModel {
                    component: VerifyComponent::CheckpointDirectory,
                    offset: match found.report.data_file_len {
                        Some(length) => length,
                        None => 8192,
                    },
                    region_id: None,
                    checkpoint_slot: None,
                    message: match state {
                        CheckpointDirectoryState::Invalid => "checkpoint directory checksum or fields are invalid"@,
                        CheckpointDirectoryState::LayoutMismatch => "checkpoint directory does not match the data layout"@,
                        _ => "checkpoint directory is truncated"@,
                    },
                }),
            )
            &&& state is Valid && found.directory is Some ==> {
                let slots = found.report.checkpoint.slots;
                let one = slot_reported(report, contents, found.directory->0, slots[0].state, found.headers[0], 0);
                let two = slot_reported(one.0, contents, found.directory->0, slots[1].state, found.headers[1], 1);
                after == two.0 && first == one.1 && second == two.1
            }
        }),
{
    law_issue_is_put_on_record(
        report,
        file_issue(
            VerifyComponent::CheckpointDirectory,
            match found.report.data_file_len {
                Some(length) => length,
                None => SUPERBLOCK_AREA_SIZE,
            },
            directory_message(found.report.checkpoint.directory_state),
        ),
    );
}

/// A slot can be started from exactly if it was verified, belongs to the file and
/// fits its Regions without anything inferred. If it belongs to the file and
/// does not fit, that is an issue.
pub proof fn law_slots_are_crossed(
    report: ReportModel,
    contents: Seq<u8>,
    superblock: Superblock,
    directory: CheckpointDirectory,
    header: Option<CheckpointSlotHeader>,
    verified: bool,
    slot: u8,
)
    ensures
        ({
            let (after, usable) = slot_crossed(report, contents, superblock, directory, header, verified, slot);
            let asked = verified && (header matches Some(found) && lineage_matches(found, superblock));
            let verdict = cross_validated(contents, superblock, directory, header->0);
            &&& usable <==> asked && (verdict matches Ok(CheckpointCrossValidation::Usable))
            &&& !asked || verdict is Ok ==> after == report
            &&& asked && verdict is Err ==> issue_added(
                report,
                after,
                (IssueModel {
                    component: VerifyComponent::CheckpointPayload,
                    offset: match directory.payload_offset(slot as int) {
                        Ok(place) => place,
                        Err(_) => directory.data_file_len,
                    },
                    region_id: None,
                    checkpoint_slot: Some(slot),
                    message: match verdict->Err_0 {
                        CrossFaultModel::Codec(error) => codec_message(error),
                        CrossFaultModel::Invalid(message) => message,
                    },
                }),
            )
        }),
{
    let verdict = cross_validated(contents, superblock, directory, header->0);
    if verdict is Err {
        law_issue_is_put_on_record(
            report,
            slot_issue(
                VerifyComponent::CheckpointPayload,
                offset_or(directory.payload_offset(slot as int), directory.data_file_len),
                slot,
                match verdict->Err_0 {
                    CrossFaultModel::Codec(error) => codec_message(error),
                    CrossFaultModel::Invalid(message) => message,
                },
            ),
        );
    }
}

/// The checkpoint that is named can be started from and none of those that can
/// is newer; of two equal ones it is the second.
pub proof fn law_newest_usable_slot(
    first: CheckpointSlotHeader,
    first_usable: bool,
    second: CheckpointSlotHeader,
    second_usable: bool,
)
    ensures
        newest_usable(Some(first), first_usable, Some(second), second_usable) is None <==> !first_usable && !second_usable,
        newest_usable(Some(first), first_usable, Some(second), second_usable) == Some(0u8) <==> first_usable && (second_usable
            ==> first.generation > second.generation),
        newest_usable(Some(first), first_usable, Some(second), second_usable) == Some(1u8) <==> second_usable && (first_usable
            ==> second.generation >= first.generation),
        newest_usable(Some(first), first_usable, None, second_usable) == if first_usable {
            Some(0u8)
        } else {
            None
        },
        newest_usable(None, first_usable, Some(second), second_usable) == if second_usable {
            Some(1u8)
        } else {
            None
        },
        newest_usable(None, first_usable, None, second_usable) is None,
{
}

/// What the runtime will do: start from a checkpoint if one can be started from;
/// else scan everything if the file is clean and its data valid; else start
/// empty. It refuses a file whose generations would run out on the way.
pub proof fn law_conclusions(
    report: ReportModel,
    selected_superblock: Option<u8>,
    superblock: Superblock,
    usable: Option<u8>,
    data_valid: bool,
)
    requires
        report.safe_to_open,
    ensures
        ({
            let after = concluded(report, selected_superblock, superblock, usable, data_valid);
            let empty = usable is None && !(superblock.clean && data_valid);
            let exhausted = !superblock.clean && superblock.generation == u64::MAX;
            let refused = exhausted || (empty && superblock.generation >= u64::MAX - 1);
            &&& after.safe_to_open <==> !refused
            &&& after.reopen_disposition is Refused <==> refused
            &&& refused ==> after.selected_verified_checkpoint is None && !after.valid && (report.issues_total < u64::MAX
                ==> after.issues_total == report.issues_total + 1)
            &&& refused && report.issues.len() < 32 ==> after.issues == report.issues + seq![
                IssueModel {
                    component: VerifyComponent::Superblock,
                    offset: match selected_superblock {
                        Some(slot) => (4096 * slot) as u64,
                        None => 0,
                    },
                    region_id: None,
                    checkpoint_slot: None,
                    message: if exhausted {
                        "dirty Superblock generation cannot publish a clean checkpoint"@
                    } else {
                        "Superblock generation cannot complete safe-empty formatting"@
                    },
                },
            ]
            &&& !refused ==> {
                &&& after.selected_verified_checkpoint == usable
                &&& after.reopen_disposition is CleanCheckpoint <==> superblock.clean && usable is Some
                &&& after.reopen_disposition is DirtyIncremental <==> !superblock.clean && usable is Some
                &&& after.reopen_disposition is CleanFullScan <==> superblock.clean && usable is None && data_valid
                &&& after.reopen_disposition is SafeEmpty <==> empty
                &&& after.issues == report.issues && after.issues_total == report.issues_total && after.valid == report.valid
            }
            &&& after.regions_verified == report.regions_verified && after.records_verified == report.records_verified
            &&& after.values_verified == report.values_verified && after.tombstones_verified == report.tombstones_verified
            &&& after.record_bytes_verified == report.record_bytes_verified
            &&& after.checkpoint_slots_verified == report.checkpoint_slots_verified
        }),
{
    match generation_fault(superblock, disposition_of(superblock, usable, data_valid)) {
        Some(message) => law_issue_is_put_on_record(
            report,
            file_issue(
                VerifyComponent::Superblock,
                match selected_superblock {
                    Some(slot) => replica_offset(slot),
                    None => 0,
                },
                message,
            ),
        ),
        None => {},
    }
}

/// Checkpoints are verified before they are held against the Regions, and the
/// newest of those that can be started from is named.
pub proof fn law_checkpoints_are_verified(report: ReportModel, contents: Seq<u8>, superblock: Superblock, found: Inspected)
    ensures
        ({
            let (after, usable) = checkpoints_verified(report, contents, superblock, found);
            let (payloads, first, second) = payloads_reported(report, contents, found);
            &&& found.directory is None ==> after == payloads && usable is None
            &&& found.directory matches Some(directory) ==> {
                let one = slot_crossed(payloads, contents, superblock, directory, found.headers[0], first, 0);
                let two = slot_crossed(one.0, contents, superblock, directory, found.headers[1], second, 1);
                after == two.0 && usable == newest_usable(found.headers[0], one.1, found.headers[1], two.1)
            }
        }),
{
}

/// A file without a Superblock that counts is refused with one issue. Any other
/// is reported copy by copy, Region by Region and checkpoint by checkpoint, and
/// then judged.
pub proof fn law_files_are_verified_in_order(contents: Seq<u8>)
    ensures
        ({
            let found = inspected(contents);
            let report = verified(contents);
            &&& found.selected is None ==> {
                &&& !report.safe_to_open && !report.valid && report.reopen_disposition is Refused && report.issues_total == 1
                &&& report.issues == seq![
                    IssueModel {
                        component: VerifyComponent::Superblock,
                        offset: 0,
                        region_id: None,
                        checkpoint_slot: None,
                        message: "no supported checksum-valid Superblock"@,
                    },
                ]
                &&& report.records_verified == 0 && report.regions_verified == 0 && report.selected_verified_checkpoint is None
            }
            &&& found.selected matches Some(superblock) ==> exists|start: ReportModel| #![trigger replicas_reported(start, found.report)] {
                let (regions, valid) = regions_verified(contents, superblock, replicas_reported(start, found.report));
                let (checkpoints, usable) = checkpoints_verified(regions, contents, superblock, found);
                &&& start.valid && start.safe_to_open && start.issues_total == 0 && start.issues.len() == 0
                &&& start.records_verified == 0 && start.values_verified == 0 && start.tombstones_verified == 0
                &&& start.regions_verified == 0 && start.record_bytes_verified == 0 && start.checkpoint_slots_verified == 0
                &&& report == concluded(checkpoints, found.report.selected_superblock, superblock, usable, valid)
            }
        }),
{
    let found = inspected(contents);
    law_issue_is_put_on_record(
        ReportModel::fresh(),
        file_issue(VerifyComponent::Superblock, 0, "no supported checksum-valid Superblock"@),
    );
    match found.selected {
        None => {
            assert(verified(contents).issues =~= seq![
                IssueModel {
                    component: VerifyComponent::Superblock,
                    offset: 0,
                    region_id: None,
                    checkpoint_slot: None,
                    message: "no supported checksum-valid Superblock"@,
                },
            ]);
        },
        Some(superblock) => {
            let start = ReportModel { safe_to_open: true, ..ReportModel::fresh() };
            assert(replicas_reported(start, found.report) == replicas_reported(start, found.report));
        },
    }
}

} // verus!
