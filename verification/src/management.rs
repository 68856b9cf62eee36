//! Read-only inspection and verification for an offline cache file.
//!
//! Management reads hold the same exclusive file lock as a writer and never
//! issue a write or durability operation. This module holds the reports; the
//! checks themselves are in the modules of the three files.

use vstd::prelude::*;

use crate::checkpoint::CHECKPOINT_SLOT_COUNT;
use crate::format::{Superblock, FORMAT_VERSION};

verus! {

/// Maximum number of detailed verification issues retained in a report.
///
/// `issues_total` continues increasing after this bound is reached.
pub const MAX_REPORTED_VERIFY_ISSUES: usize = 32;

/// Failure to access an offline cache file.
#[non_exhaustive]
#[derive(Debug)]
pub enum ManagementError<E> {
    Io(E),
    Locked,
    UnsupportedTarget(&'static str),
    Allocation,
}

impl<E> ManagementError<E> {
    /// The error in words; the cause of an I/O error speaks for itself.
    pub fn message(&self) -> (message: &'static str)
        ensures
            message@ == (match *self {
                ManagementError::Io(_) => "cache management I/O error"@,
                ManagementError::Locked => "cache file is open by another instance"@,
                ManagementError::UnsupportedTarget(message) => message@,
                ManagementError::Allocation => "verification metadata cannot be allocated"@,
            }),
    {
        match self {
            ManagementError::Io(_) => "cache management I/O error",
            ManagementError::Locked => "cache file is open by another instance",
            ManagementError::UnsupportedTarget(message) => *message,
            ManagementError::Allocation => "verification metadata cannot be allocated",
        }
    }
}

/// Classification of the bytes at the cache path.
#[non_exhaustive]
#[derive(Clone, Copy, Debug, PartialEq, Eq, Structural)]
pub enum CacheFileKind {
    Empty,
    InterruptedV1,
    FormatV1,
    CorruptV1,
    Unsupported(u16),
    Unrecognized,
}

impl CacheFileKind {
    /// The kind's name.
    pub fn as_str(self) -> (name: &'static str)
        ensures
            name@ == (match self {
                CacheFileKind::Empty => "empty"@,
                CacheFileKind::InterruptedV1 => "interrupted_v1"@,
                CacheFileKind::FormatV1 => "format_v1"@,
                CacheFileKind::CorruptV1 => "corrupt_v1"@,
                CacheFileKind::Unsupported(_) => "unsupported"@,
                CacheFileKind::Unrecognized => "unrecognized"@,
            }),
    {
        match self {
            CacheFileKind::Empty => "empty",
            CacheFileKind::InterruptedV1 => "interrupted_v1",
            CacheFileKind::FormatV1 => "format_v1",
            CacheFileKind::CorruptV1 => "corrupt_v1",
            CacheFileKind::Unsupported(_) => "unsupported",
            CacheFileKind::Unrecognized => "unrecognized",
        }
    }
}

/// Result of probing one redundant Superblock page.
#[non_exhaustive]
#[derive(Clone, Copy, Debug, PartialEq, Eq, Structural)]
pub enum SuperblockState {
    Missing,
    Empty,
    InterruptedV1,
    ValidV1,
    CorruptV1,
    Unsupported,
    Unrecognized,
    Truncated,
}

impl SuperblockState {
    /// The state's name.
    pub fn as_str(self) -> (name: &'static str)
        ensures
            name@ == (match self {
                SuperblockState::Missing => "missing"@,
                SuperblockState::Empty => "empty"@,
                SuperblockState::InterruptedV1 => "interrupted_v1"@,
                SuperblockState::ValidV1 => "valid_v1"@,
                SuperblockState::CorruptV1 => "corrupt_v1"@,
                SuperblockState::Unsupported => "unsupported"@,
                SuperblockState::Unrecognized => "unrecognized"@,
                SuperblockState::Truncated => "truncated"@,
            }),
    {
        match self {
            SuperblockState::Missing => "missing",
            SuperblockState::Empty => "empty",
            SuperblockState::InterruptedV1 => "interrupted_v1",
            SuperblockState::ValidV1 => "valid_v1",
            SuperblockState::CorruptV1 => "corrupt_v1",
            SuperblockState::Unsupported => "unsupported",
            SuperblockState::Unrecognized => "unrecognized",
            SuperblockState::Truncated => "truncated",
        }
    }
}

/// Public fields from one Superblock copy. Values are populated only for a
/// checksum-valid Format V1 page.
#[derive(Clone, Copy, Debug, PartialEq, Eq, Structural)]
pub struct SuperblockSummary {
    pub slot: u8,
    pub state: SuperblockState,
    pub version: Option<u16>,
    pub generation: Option<u64>,
    pub clean: Option<bool>,
    pub region_size: Option<u64>,
    pub region_count: Option<u32>,
    pub epoch: Option<u32>,
    pub epoch_start_seqno: Option<u64>,
    pub next_seqno: Option<u64>,
    pub hash_seed: Option<u64>,
}

impl SuperblockSummary {
    /// A copy of which nothing but its state is known.
    pub open spec fn bare_of(slot: u8, state: SuperblockState) -> SuperblockSummary {
        SuperblockSummary {
            slot,
            state,
            version: None,
            generation: None,
            clean: None,
            region_size: None,
            region_count: None,
            epoch: None,
            epoch_start_seqno: None,
            next_seqno: None,
            hash_seed: None,
        }
    }

    /// A valid copy.
    pub open spec fn valid_of(slot: u8, superblock: Superblock) -> SuperblockSummary {
        SuperblockSummary {
            slot,
            state: SuperblockState::ValidV1,
            version: Some(FORMAT_VERSION),
            generation: Some(superblock.generation),
            clean: Some(superblock.clean),
            region_size: Some(superblock.region_size),
            region_count: Some(superblock.region_count),
            epoch: Some(superblock.epoch),
            epoch_start_seqno: Some(superblock.epoch_start_seqno),
            next_seqno: Some(superblock.next_seqno),
            hash_seed: Some(superblock.hash_seed),
        }
    }

    /// A copy of which nothing but its state is known.
    pub fn bare(slot: u8, state: SuperblockState) -> (summary: SuperblockSummary)
        ensures
            summary == SuperblockSummary::bare_of(slot, state),
    {
        SuperblockSummary {
            slot,
            state,
            version: None,
            generation: None,
            clean: None,
            region_size: None,
            region_count: None,
            epoch: None,
            epoch_start_seqno: None,
            next_seqno: None,
            hash_seed: None,
        }
    }

    /// A valid copy.
    pub fn valid(slot: u8, superblock: Superblock) -> (summary: SuperblockSummary)
        ensures
            summary == SuperblockSummary::valid_of(slot, superblock),
    {
        SuperblockSummary {
            slot,
            state: SuperblockState::ValidV1,
            version: Some(FORMAT_VERSION),
            generation: Some(superblock.generation),
            clean: Some(superblock.clean),
            region_size: Some(superblock.region_size),
            region_count: Some(superblock.region_count),
            epoch: Some(superblock.epoch),
            epoch_start_seqno: Some(superblock.epoch_start_seqno),
            next_seqno: Some(superblock.next_seqno),
            hash_seed: Some(superblock.hash_seed),
        }
    }
}

/// Aggregate Region Header information. `record_extent_bytes` is the sum of
/// persisted `used - header_size` cursors; it does not imply record CRCs have
/// been checked.
#[derive(Clone, Copy, Debug, PartialEq, Eq, Structural)]
pub struct RegionSummary {
    pub expected: u32,
    pub valid_headers: u32,
    pub invalid_headers: u32,
    pub truncated_headers: u32,
    pub free: u32,
    pub active: u32,
    pub sealed: u32,
    pub record_extent_bytes: u64,
}

impl RegionSummary {
    /// No header has been looked at.
    pub open spec fn empty(expected: u32) -> RegionSummary {
        RegionSummary {
            expected,
            valid_headers: 0,
            invalid_headers: 0,
            truncated_headers: 0,
            free: 0,
            active: 0,
            sealed: 0,
            record_extent_bytes: 0,
        }
    }
}

impl Default for RegionSummary {
    fn default() -> (summary: RegionSummary)
        ensures
            summary == RegionSummary::empty(0),
    {
        RegionSummary {
            expected: 0,
            valid_headers: 0,
            invalid_headers: 0,
            truncated_headers: 0,
            free: 0,
            active: 0,
            sealed: 0,
            record_extent_bytes: 0,
        }
    }
}

/// State of the optional checkpoint directory page.
#[non_exhaustive]
#[derive(Clone, Copy, Debug, PartialEq, Eq, Structural)]
pub enum CheckpointDirectoryState {
    Absent,
    Valid,
    Invalid,
    LayoutMismatch,
    Truncated,
}

impl CheckpointDirectoryState {
    /// The state's name.
    pub fn as_str(self) -> (name: &'static str)
        ensures
            name@ == (match self {
                CheckpointDirectoryState::Absent => "absent"@,
                CheckpointDirectoryState::Valid => "valid"@,
                CheckpointDirectoryState::Invalid => "invalid"@,
                CheckpointDirectoryState::LayoutMismatch => "layout_mismatch"@,
                CheckpointDirectoryState::Truncated => "truncated"@,
            }),
    {
        match self {
            CheckpointDirectoryState::Absent => "absent",
            CheckpointDirectoryState::Valid => "valid",
            CheckpointDirectoryState::Invalid => "invalid",
            CheckpointDirectoryState::LayoutMismatch => "layout_mismatch",
            CheckpointDirectoryState::Truncated => "truncated",
        }
    }
}

/// State of one checkpoint commit-header page. A valid header is not reported
/// as a verified payload until verification has streamed its payload.
#[non_exhaustive]
#[derive(Clone, Copy, Debug, PartialEq, Eq, Structural)]
pub enum CheckpointSlotState {
    Absent,
    HeaderValid,
    Invalid,
    Truncated,
}

impl CheckpointSlotState {
    /// The state's name.
    pub fn as_str(self) -> (name: &'static str)
        ensures
            name@ == (match self {
                CheckpointSlotState::Absent => "absent"@,
                CheckpointSlotState::HeaderValid => "header_valid"@,
                CheckpointSlotState::Invalid => "invalid"@,
                CheckpointSlotState::Truncated => "truncated"@,
            }),
    {
        match self {
            CheckpointSlotState::Absent => "absent",
            CheckpointSlotState::HeaderValid => "header_valid",
            CheckpointSlotState::Invalid => "invalid",
            CheckpointSlotState::Truncated => "truncated",
        }
    }
}

/// One checkpoint slot's header.
#[derive(Clone, Copy, Debug, PartialEq, Eq, Structural)]
pub struct CheckpointSlotSummary {
    pub slot: u8,
    pub state: CheckpointSlotState,
    pub version: Option<u16>,
    pub generation: Option<u64>,
    pub superblock_generation: Option<u64>,
    pub entry_count: Option<u32>,
    pub payload_len: Option<u64>,
    pub matches_selected_superblock: bool,
}

impl CheckpointSlotSummary {
    /// A slot of which nothing but its state is known.
    pub open spec fn bare_of(slot: u8, state: CheckpointSlotState) -> CheckpointSlotSummary {
        CheckpointSlotSummary {
            slot,
            state,
            version: None,
            generation: None,
            superblock_generation: None,
            entry_count: None,
            payload_len: None,
            matches_selected_superblock: false,
        }
    }

    /// A slot of which nothing but its state is known.
    pub fn bare(slot: u8, state: CheckpointSlotState) -> (summary: CheckpointSlotSummary)
        ensures
            summary == CheckpointSlotSummary::bare_of(slot, state),
    {
        CheckpointSlotSummary {
            slot,
            state,
            version: None,
            generation: None,
            superblock_generation: None,
            entry_count: None,
            payload_len: None,
            matches_selected_superblock: false,
        }
    }
}

/// The checkpoint area.
#[derive(Clone, Copy, Debug, PartialEq, Eq)]
pub struct CheckpointSummary {
    pub directory_state: CheckpointDirectoryState,
    pub slot_size: Option<u64>,
    pub expected_file_len: Option<u64>,
    /// Newest header whose lineage matches the selected Superblock. Inspect
    /// does not claim that this slot's payload checksum is valid.
    pub selected_header_slot: Option<u8>,
    pub slots: [CheckpointSlotSummary; CHECKPOINT_SLOT_COUNT],
}

impl CheckpointSummary {
    /// An area without readable slots.
    pub open spec fn without_slots(directory_state: CheckpointDirectoryState) -> CheckpointSummary {
        CheckpointSummary {
            directory_state,
            slot_size: None,
            expected_file_len: None,
            selected_header_slot: None,
            slots: [
                CheckpointSlotSummary::bare_of(0, CheckpointSlotState::Absent),
                CheckpointSlotSummary::bare_of(1, CheckpointSlotState::Absent),
            ],
        }
    }

    /// An area without readable slots.
    pub fn bare(directory_state: CheckpointDirectoryState) -> (summary: CheckpointSummary)
        ensures
            summary == CheckpointSummary::without_slots(directory_state),
    {
        let slots = [
            CheckpointSlotSummary::bare(0, CheckpointSlotState::Absent),
            CheckpointSlotSummary::bare(1, CheckpointSlotState::Absent),
        ];
        CheckpointSummary { directory_state, slot_size: None, expected_file_len: None, selected_header_slot: None, slots }
    }
}

impl Default for CheckpointSummary {
    fn default() -> (summary: CheckpointSummary)
        ensures
            summary == CheckpointSummary::without_slots(CheckpointDirectoryState::Absent),
    {
        CheckpointSummary::bare(CheckpointDirectoryState::Absent)
    }
}

/// Read-only metadata report. No record payload checksum is read by inspect.
#[derive(Clone, Copy, Debug, PartialEq, Eq)]
pub struct InspectReport {
    pub file_len: u64,
    pub kind: CacheFileKind,
    pub selected_superblock: Option<u8>,
    pub data_file_len: Option<u64>,
    pub superblocks: [SuperblockSummary; 2],
    pub regions: RegionSummary,
    pub checkpoint: CheckpointSummary,
}

impl InspectReport {
    /// The selected Superblock copy, if one is.
    pub open spec fn selected_summary(&self) -> Option<SuperblockSummary> {
        match self.selected_superblock {
            Some(slot) => if slot < 2 {
                Some(self.superblocks[slot as int])
            } else {
                None
            },
            None => None,
        }
    }

    /// The selected Superblock copy, if one is.
    pub fn selected(&self) -> (summary: Option<&SuperblockSummary>)
        ensures
            match summary {
                Some(found) => self.selected_summary() == Some(*found),
                None => self.selected_summary() is None,
            },
    {
        let slot = self.selected_superblock? as usize;
        if slot < 2 {
            Some(&self.superblocks[slot])
        } else {
            None
        }
    }
}

/// Verification subsystem associated with an issue.
#[non_exhaustive]
#[derive(Clone, Copy, Debug, PartialEq, Eq, Structural)]
pub enum VerifyComponent {
    Superblock,
    Layout,
    RegionHeader,
    RecordHeader,
    RecordPayload,
    CheckpointDirectory,
    CheckpointHeader,
    CheckpointPayload,
}

impl VerifyComponent {
    /// The component's name.
    pub fn as_str(self) -> (name: &'static str)
        ensures
            name@ == (match self {
                VerifyComponent::Superblock => "superblock"@,
                VerifyComponent::Layout => "layout"@,
                VerifyComponent::RegionHeader => "region_header"@,
                VerifyComponent::RecordHeader => "record_header"@,
                VerifyComponent::RecordPayload => "record_payload"@,
                VerifyComponent::CheckpointDirectory => "checkpoint_directory"@,
                VerifyComponent::CheckpointHeader => "checkpoint_header"@,
                VerifyComponent::CheckpointPayload => "checkpoint_payload"@,
            }),
    {
        match self {
            VerifyComponent::Superblock => "superblock",
            VerifyComponent::Layout => "layout",
            VerifyComponent::RegionHeader => "region_header",
            VerifyComponent::RecordHeader => "record_header",
            VerifyComponent::RecordPayload => "record_payload",
            VerifyComponent::CheckpointDirectory => "checkpoint_directory",
            VerifyComponent::CheckpointHeader => "checkpoint_header",
            VerifyComponent::CheckpointPayload => "checkpoint_payload",
        }
    }
}

/// One bounded, structured verification diagnostic.
#[derive(Clone, Copy, Debug, PartialEq, Eq)]
pub struct VerifyIssue {
    pub component: VerifyComponent,
    pub offset: u64,
    pub region_id: Option<u32>,
    pub checkpoint_slot: Option<u8>,
    pub message: &'static str,
}

/// A diagnostic with its message as text.
pub struct IssueModel {
    pub component: VerifyComponent,
    pub offset: u64,
    pub region_id: Option<u32>,
    pub checkpoint_slot: Option<u8>,
    pub message: Seq<char>,
}

impl View for VerifyIssue {
    type V = IssueModel;

    open spec fn view(&self) -> IssueModel {
        IssueModel {
            component: self.component,
            offset: self.offset,
            region_id: self.region_id,
            checkpoint_slot: self.checkpoint_slot,
            message: self.message@,
        }
    }
}

/// Expected action of the current runtime open protocol. This is diagnostic;
/// verify itself never performs the action.
#[non_exhaustive]
#[derive(Clone, Copy, Debug, PartialEq, Eq, Structural)]
pub enum ReopenDisposition {
    Refused,
    CleanCheckpoint,
    CleanFullScan,
    DirtyIncremental,
    SafeEmpty,
}

impl ReopenDisposition {
    /// The disposition's name.
    pub fn as_str(self) -> (name: &'static str)
        ensures
            name@ == (match self {
                ReopenDisposition::Refused => "refused"@,
                ReopenDisposition::CleanCheckpoint => "clean_checkpoint"@,
                ReopenDisposition::CleanFullScan => "clean_full_scan"@,
                ReopenDisposition::DirtyIncremental => "dirty_incremental"@,
                ReopenDisposition::SafeEmpty => "safe_empty"@,
            }),
    {
        match self {
            ReopenDisposition::Refused => "refused",
            ReopenDisposition::CleanCheckpoint => "clean_checkpoint",
            ReopenDisposition::CleanFullScan => "clean_full_scan",
            ReopenDisposition::DirtyIncremental => "dirty_incremental",
            ReopenDisposition::SafeEmpty => "safe_empty",
        }
    }
}

/// Full read-only verification report.
#[derive(Clone, Debug, PartialEq, Eq)]
pub struct VerifyReport {
    pub inspect: InspectReport,
    /// True only when every present structure and record passed verification.
    pub valid: bool,
    /// True when the current runtime protocol can open the file without ever
    /// returning an unverified value. This may be true with `SafeEmpty`.
    pub safe_to_open: bool,
    pub reopen_disposition: ReopenDisposition,
    pub regions_verified: u64,
    pub records_verified: u64,
    pub values_verified: u64,
    pub tombstones_verified: u64,
    pub record_bytes_verified: u64,
    pub checkpoint_slots_verified: u64,
    pub selected_verified_checkpoint: Option<u8>,
    pub issues_total: u64,
    pub issues: Vec<VerifyIssue>,
}

/// The report's findings, with the messages as text.
#[verifier::ext_equal]
pub struct ReportModel {
    pub valid: bool,
    pub safe_to_open: bool,
    pub reopen_disposition: ReopenDisposition,
    pub regions_verified: u64,
    pub records_verified: u64,
    pub values_verified: u64,
    pub tombstones_verified: u64,
    pub record_bytes_verified: u64,
    pub checkpoint_slots_verified: u64,
    pub selected_verified_checkpoint: Option<u8>,
    pub issues_total: u64,
    pub issues: Seq<IssueModel>,
}

/// `counter + amount`, sticking at the maximum.
pub open spec fn tally(counter: u64, amount: u64) -> u64 {
    if counter + amount <= u64::MAX {
        (counter + amount) as u64
    } else {
        u64::MAX
    }
}

impl ReportModel {
    /// Nothing has been found yet.
    pub open spec fn fresh() -> ReportModel {
        ReportModel {
            valid: true,
            safe_to_open: false,
            reopen_disposition: ReopenDisposition::Refused,
            regions_verified: 0,
            records_verified: 0,
            values_verified: 0,
            tombstones_verified: 0,
            record_bytes_verified: 0,
            checkpoint_slots_verified: 0,
            selected_verified_checkpoint: None,
            issues_total: 0,
            issues: Seq::empty(),
        }
    }

    /// One more issue; its details are kept while there is room.
    pub open spec fn with_issue(self, issue: IssueModel) -> ReportModel {
        ReportModel {
            valid: false,
            issues_total: tally(self.issues_total, 1),
            issues: if self.issues.len() < MAX_REPORTED_VERIFY_ISSUES {
                self.issues.push(issue)
            } else {
                self.issues
            },
            ..self
        }
    }

    /// The issues, one after another.
    pub open spec fn with_issues(self, issues: Seq<IssueModel>) -> ReportModel
        decreases issues.len(),
    {
        if issues.len() == 0 {
            self
        } else {
            self.with_issues(issues.drop_last()).with_issue(issues.last())
        }
    }
}

impl View for VerifyReport {
    type V = ReportModel;

    open spec fn view(&self) -> ReportModel {
        ReportModel {
            valid: self.valid,
            safe_to_open: self.safe_to_open,
            reopen_disposition: self.reopen_disposition,
            regions_verified: self.regions_verified,
            records_verified: self.records_verified,
            values_verified: self.values_verified,
            tombstones_verified: self.tombstones_verified,
            record_bytes_verified: self.record_bytes_verified,
            checkpoint_slots_verified: self.checkpoint_slots_verified,
            selected_verified_checkpoint: self.selected_verified_checkpoint,
            issues_total: self.issues_total,
            issues: self.issues@.map_values(|issue: VerifyIssue| issue@),
        }
    }
}

/// An issue about a Region.
pub open spec fn region_issue(component: VerifyComponent, offset: u64, region_id: u32, message: Seq<char>) -> IssueModel {
    IssueModel { component, offset, region_id: Some(region_id), checkpoint_slot: None, message }
}

/// An issue about a checkpoint slot.
pub open spec fn slot_issue(component: VerifyComponent, offset: u64, slot: u8, message: Seq<char>) -> IssueModel {
    IssueModel { component, offset, region_id: None, checkpoint_slot: Some(slot), message }
}

/// An issue about the file as a whole.
pub open spec fn file_issue(component: VerifyComponent, offset: u64, message: Seq<char>) -> IssueModel {
    IssueModel { component, offset, region_id: None, checkpoint_slot: None, message }
}

impl VerifyReport {
    /// A report without findings.
    pub fn new(inspect: InspectReport) -> (report: VerifyReport)
        ensures
            report.inspect == inspect,
            report@ == ReportModel::fresh(),
    {
        let report = VerifyReport {
            inspect,
            valid: true,
            safe_to_open: false,
            reopen_disposition: ReopenDisposition::Refused,
            regions_verified: 0,
            records_verified: 0,
            values_verified: 0,
            tombstones_verified: 0,
            record_bytes_verified: 0,
            checkpoint_slots_verified: 0,
            selected_verified_checkpoint: None,
            issues_total: 0,
            issues: Vec::new(),
        };
        assert(report@ =~= ReportModel::fresh());
        report
    }

    /// Adds an issue.
    pub fn issue(&mut self, issue: VerifyIssue)
        ensures
            final(self).inspect == old(self).inspect,
            final(self)@ == old(self)@.with_issue(issue@),
    {
        self.valid = false;
        self.issues_total = self.issues_total.saturating_add(1);
        if self.issues.len() < MAX_REPORTED_VERIFY_ISSUES {
            self.issues.push(issue);
        }
        assert(self@ =~= old(self)@.with_issue(issue@));
    }

    /// Adds an issue about a Region.
    pub fn add_region_issue(&mut self, component: VerifyComponent, offset: u64, region_id: u32, message: &'static str)
        ensures
            final(self).inspect == old(self).inspect,
            final(self)@ == old(self)@.with_issue(region_issue(component, offset, region_id, message@)),
    {
        self.issue(VerifyIssue { component, offset, region_id: Some(region_id), checkpoint_slot: None, message });
    }

    /// Adds an issue about a checkpoint slot.
    pub fn add_checkpoint_issue(&mut self, component: VerifyComponent, offset: u64, slot: u8, message: &'static str)
        ensures
            final(self).inspect == old(self).inspect,
            final(self)@ == old(self)@.with_issue(slot_issue(component, offset, slot, message@)),
    {
        self.issue(VerifyIssue { component, offset, region_id: None, checkpoint_slot: Some(slot), message });
    }

    /// Adds an issue about the file as a whole.
    pub fn add_file_issue(&mut self, component: VerifyComponent, offset: u64, message: &'static str)
        ensures
            final(self).inspect == old(self).inspect,
            final(self)@ == old(self)@.with_issue(file_issue(component, offset, message@)),
    {
        self.issue(VerifyIssue { component, offset, region_id: None, checkpoint_slot: None, message });
    }
}

/// A report stays valid exactly as long as no issue is added, and never keeps
/// the details of more than the allowed number.
pub proof fn law_issues_invalidate_and_stay_bounded(report: ReportModel, issue: IssueModel)
    requires
        report.issues.len() <= MAX_REPORTED_VERIFY_ISSUES,
    ensures
        !report.with_issue(issue).valid,
        report.with_issue(issue).issues.len() <= MAX_REPORTED_VERIFY_ISSUES,
        report.with_issue(issue).issues_total == tally(report.issues_total, 1),
{
}

/// A new report that takes in issues counts each of them, keeps the details of
/// the first ones in their order, is valid exactly if there was none, and is
/// otherwise as it was.
pub proof fn law_a_report_counts_its_issues(issues: Seq<IssueModel>)
    ensures
        ReportModel::fresh().with_issues(issues) == (ReportModel {
            valid: issues.len() == 0,
            issues_total: if issues.len() <= u64::MAX {
                issues.len() as u64
            } else {
                u64::MAX
            },
            issues: if issues.len() <= MAX_REPORTED_VERIFY_ISSUES {
                issues
            } else {
                issues.take(MAX_REPORTED_VERIFY_ISSUES as int)
            },
            ..ReportModel::fresh()
        }),
    decreases issues.len(),
{
    if issues.len() == 0 {
        assert(issues =~= Seq::<IssueModel>::empty());
    } else {
        let earlier = issues.drop_last();
        law_a_report_counts_its_issues(earlier);
        assert(earlier.push(issues.last()) =~= issues);
        if earlier.len() == MAX_REPORTED_VERIFY_ISSUES {
            assert(issues.take(MAX_REPORTED_VERIFY_ISSUES as int) =~= earlier);
        } else if earlier.len() > MAX_REPORTED_VERIFY_ISSUES {
            assert(issues.take(MAX_REPORTED_VERIFY_ISSUES as int) =~= earlier.take(MAX_REPORTED_VERIFY_ISSUES as int));
        }
    }
}

/// An issue was put on record: the report is no longer valid and counts one
/// more, keeps the issue itself if fewer than 32 are kept, and is otherwise as
/// it was.
pub open spec fn issue_added(before: ReportModel, after: ReportModel, issue: IssueModel) -> bool {
    &&& !after.valid
    &&& after.issues_total == before.issues_total + 1 || (after.issues_total == before.issues_total && before.issues_total == u64::MAX)
    &&& before.issues.len() < 32 ==> after.issues == before.issues + seq![issue]
    &&& before.issues.len() >= 32 ==> after.issues == before.issues
    &&& after.safe_to_open == before.safe_to_open
    &&& after.reopen_disposition == before.reopen_disposition
    &&& after.regions_verified == before.regions_verified
    &&& after.records_verified == before.records_verified
    &&& after.values_verified == before.values_verified
    &&& after.tombstones_verified == before.tombstones_verified
    &&& after.record_bytes_verified == before.record_bytes_verified
    &&& after.checkpoint_slots_verified == before.checkpoint_slots_verified
    &&& after.selected_verified_checkpoint == before.selected_verified_checkpoint
}

/// An issue changes nothing but the verdict, the count and the list.
pub proof fn law_issue_is_put_on_record(report: ReportModel, issue: IssueModel)
    ensures
        issue_added(report, report.with_issue(issue), issue),
{
    assert(report.issues.push(issue) =~= report.issues + seq![issue]);
}

/// Counters add up and stop at the largest number.
pub proof fn law_counters_add_up(counter: u64, amount: u64)
    ensures
        tally(counter, amount) >= counter,
        tally(counter, amount) == counter + amount || tally(counter, amount) == u64::MAX,
        counter + amount <= u64::MAX ==> tally(counter, amount) == counter + amount,
        tally(counter, amount) == tally(amount, counter),
{
}

/// Issues name the Region or the checkpoint slot that they concern, if any.
pub proof fn law_issues_name_their_subject(component: VerifyComponent, offset: u64, region_id: u32, slot: u8, message: Seq<char>)
    ensures
        ({
            let of_region = region_issue(component, offset, region_id, message);
            let of_slot = slot_issue(component, offset, slot, message);
            let of_file = file_issue(component, offset, message);
            &&& of_region.region_id == Some(region_id) && of_region.checkpoint_slot is None
            &&& of_slot.region_id is None && of_slot.checkpoint_slot == Some(slot)
            &&& of_file.region_id is None && of_file.checkpoint_slot is None
            &&& of_region.component == component && of_slot.component == component && of_file.component == component
            &&& of_region.offset == offset && of_slot.offset == offset && of_file.offset == offset
            &&& of_region.message == message && of_slot.message == message && of_file.message == message
        }),
{
}

/// A summary shows what a valid Superblock holds, and nothing of others.
pub proof fn law_summaries_show_what_is_held(slot: u8, superblock: Superblock, state: SuperblockState)
    ensures
        ({
            let shown = SuperblockSummary::valid_of(slot, superblock);
            &&& shown.slot == slot && shown.state is ValidV1
            &&& shown.version == Some(1u16)
            &&& shown.generation == Some(superblock.generation)
            &&& shown.clean == Some(superblock.clean)
            &&& shown.region_size == Some(superblock.region_size)
            &&& shown.region_count == Some(superblock.region_count)
            &&& shown.epoch == Some(superblock.epoch)
            &&& shown.epoch_start_seqno == Some(superblock.epoch_start_seqno)
            &&& shown.next_seqno == Some(superblock.next_seqno)
            &&& shown.hash_seed == Some(superblock.hash_seed)
        }),
        ({
            let bare = SuperblockSummary::bare_of(slot, state);
            &&& bare.slot == slot && bare.state == state
            &&& bare.version is None && bare.generation is None && bare.clean is None && bare.region_size is None
            &&& bare.region_count is None && bare.epoch is None && bare.epoch_start_seqno is None && bare.next_seqno is None
            &&& bare.hash_seed is None
        }),
{
}

} // verus!
