//! Offline checks of the Hybrid manifest and its transition journal.

use vstd::prelude::*;
use vstd::slice::slice_subrange;

use crate::bytes::{all_zero, is_all_zero, read_u16, read_u32, read_u64, u16_at, u32_at, u64_at, zeroed_at};
use crate::checksum::{checksum_matches, checksum_matches_range, sealed, Crc32c};
use crate::format::decode_flag;
use crate::management::{tally, ManagementError};
use crate::offline_file::{stream_payload, OfflineFile};

verus! {

/// Bytes of one manifest page.
pub const HYBRID_MANIFEST_SLOT_SIZE: usize = 4096;

/// Where the journal starts.
pub const HYBRID_JOURNAL_OFFSET: u64 = 8192;

/// `CRHYBM01`, read as a number.
pub const HYBRID_MANIFEST_MAGIC: u64 = 0x3130_4d42_5948_5243;

/// `CRHYJR01`, read as a number.
pub const HYBRID_JOURNAL_MAGIC: u64 = 0x3130_524a_5948_5243;

/// Version of the manifest and the journal.
pub const HYBRID_MANIFEST_VERSION: u16 = 1;

/// Header size that a manifest page names.
pub const HYBRID_MANIFEST_HEADER_SIZE: u16 = 120;

/// Where the usage extension of a manifest page starts.
pub const HYBRID_USAGE_OFFSET: usize = 128;

/// `CRHYUS01`, read as a number.
pub const HYBRID_USAGE_MAGIC: u64 = 0x3130_5355_5948_5243;

/// Header size that a usage extension names.
pub const HYBRID_USAGE_HEADER_SIZE: u16 = 24;

/// Where the usage entries start.
pub const HYBRID_USAGE_ENTRIES_OFFSET: usize = 152;

/// Bytes of one usage entry.
pub const HYBRID_USAGE_ENTRY_SIZE: usize = 16;

/// Most usage entries of a page.
pub const HYBRID_USAGE_MAX_ENTRIES: usize = 240;

/// Bytes of one journal record in front of its key.
pub const HYBRID_JOURNAL_HEADER_SIZE: usize = 80;

/// Journal records start and end at multiples of this.
pub const HYBRID_JOURNAL_ALIGNMENT: usize = 32;

/// Where a manifest page keeps its CRC, and where its usage extension ends.
pub const HYBRID_PAGE_END: usize = 4092;

/// Where a journal record keeps its CRC.
pub const HYBRID_JOURNAL_CHECKSUM_OFFSET: usize = 72;

/// Smallest journal.
pub const MIN_JOURNAL_CAPACITY: u64 = 65_536;

/// Largest journal.
pub const MAX_JOURNAL_CAPACITY: u64 = 4_294_967_296;

/// Offline summary of the global Hybrid identity/version journal.
#[derive(Clone, Copy, Debug, PartialEq, Eq)]
pub struct HybridManifestFileReport {
    pub file_len: u64,
    pub valid: bool,
    pub selected_slot: Option<u8>,
    pub generation: Option<u64>,
    /// Global identity embedded in every managed Hybrid value envelope.
    pub cache_id: Option<[u8; 16]>,
    /// Persisted fingerprint checked against the runtime disk-pair layout.
    pub layout_fingerprint: Option<u64>,
    pub clean: Option<bool>,
    pub version_epoch: Option<u64>,
    pub next_seqno: Option<u64>,
    pub journal_generation: Option<u64>,
    pub journal_capacity_bytes: Option<u64>,
    pub journal_valid_bytes: u64,
    pub journal_records: u64,
    pub journal_torn_tail: bool,
    pub recovery_required: bool,
}

impl HybridManifestFileReport {
    /// Nothing is known but the file's length.
    pub open spec fn unread(file_len: u64) -> HybridManifestFileReport {
        HybridManifestFileReport {
            file_len,
            valid: false,
            selected_slot: None,
            generation: None,
            cache_id: None,
            layout_fingerprint: None,
            clean: None,
            version_epoch: None,
            next_seqno: None,
            journal_generation: None,
            journal_capacity_bytes: None,
            journal_valid_bytes: 0,
            journal_records: 0,
            journal_torn_tail: false,
            recovery_required: false,
        }
    }

    /// A report of a file of which nothing is known but its length.
    pub fn of_length(file_len: u64) -> (report: HybridManifestFileReport)
        ensures
            report == HybridManifestFileReport::unread(file_len),
    {
        HybridManifestFileReport {
            file_len,
            valid: false,
            selected_slot: None,
            generation: None,
            cache_id: None,
            layout_fingerprint: None,
            clean: None,
            version_epoch: None,
            next_seqno: None,
            journal_generation: None,
            journal_capacity_bytes: None,
            journal_valid_bytes: 0,
            journal_records: 0,
            journal_torn_tail: false,
            recovery_required: false,
        }
    }
}

impl Default for HybridManifestFileReport {
    fn default() -> (report: HybridManifestFileReport)
        ensures
            report == HybridManifestFileReport::unread(0),
    {
        HybridManifestFileReport::of_length(0)
    }
}

/// Identity, version range and journal of a Hybrid cache.
#[derive(Clone, Copy, Debug)]
pub struct OfflineHybridManifest {
    pub generation: u64,
    pub cache_id: [u8; 16],
    pub version_epoch: u64,
    pub next_seqno: u64,
    pub layout_fingerprint: u64,
    pub journal_generation: u64,
    pub journal_capacity: u64,
    pub checkpoint_epoch: u64,
    pub checkpoint_seqno: u64,
    pub clear_floor_epoch: u64,
    pub clear_floor_seqno: u64,
    pub clean: bool,
}

// ---------------------------------------------------------------------------
// Manifest page
// ---------------------------------------------------------------------------

/// Namespace of a page's usage entry.
pub open spec fn usage_namespace(page: Seq<u8>, index: int) -> u32 {
    u32_at(page, HYBRID_USAGE_ENTRIES_OFFSET + index * HYBRID_USAGE_ENTRY_SIZE)
}

/// Reserved number of a page's usage entry.
pub open spec fn usage_reserved(page: Seq<u8>, index: int) -> u32 {
    u32_at(page, HYBRID_USAGE_ENTRIES_OFFSET + index * HYBRID_USAGE_ENTRY_SIZE + 4)
}

/// The first `count` usage entries are ordered by namespace and hold nothing
/// in their reserved fields.
pub open spec fn usage_entries_ordered(page: Seq<u8>, count: int) -> bool {
    &&& forall|k: int| 0 <= k < count ==> #[trigger] usage_reserved(page, k) == 0
    &&& forall|j: int, k: int| 0 <= j < k < count ==> #[trigger] usage_namespace(page, j) < #[trigger] usage_namespace(page, k)
}

/// The page has no usage extension, or a well-formed one.
pub open spec fn usage_extension(page: Seq<u8>) -> bool {
    let extension = page.subrange(HYBRID_USAGE_OFFSET as int, HYBRID_PAGE_END as int);
    let count = u16_at(page, HYBRID_USAGE_OFFSET + 12);
    let used_end = HYBRID_USAGE_ENTRIES_OFFSET + count * HYBRID_USAGE_ENTRY_SIZE;
    all_zero(extension) || {
        &&& u64_at(page, HYBRID_USAGE_OFFSET as int) == HYBRID_USAGE_MAGIC
        &&& u16_at(page, HYBRID_USAGE_OFFSET + 8) == 1
        &&& u16_at(page, HYBRID_USAGE_OFFSET + 10) == HYBRID_USAGE_HEADER_SIZE
        &&& u16_at(page, HYBRID_USAGE_OFFSET + 14) == HYBRID_USAGE_ENTRY_SIZE
        &&& count <= HYBRID_USAGE_MAX_ENTRIES
        &&& all_zero(page.subrange(used_end, HYBRID_PAGE_END as int))
        &&& sealed(extension, 16)
        &&& usage_entries_ordered(page, count as int)
    }
}

/// The cache identity of a page.
pub open spec fn cache_id_in(page: Seq<u8>) -> [u8; 16] {
    [
        page[24],
        page[25],
        page[26],
        page[27],
        page[28],
        page[29],
        page[30],
        page[31],
        page[32],
        page[33],
        page[34],
        page[35],
        page[36],
        page[37],
        page[38],
        page[39],
    ]
}

impl OfflineHybridManifest {
    /// The manifest that a page holds, if it is a valid one.
    pub open spec fn held(page: Seq<u8>) -> Option<OfflineHybridManifest> {
        if page.len() == HYBRID_MANIFEST_SLOT_SIZE && u64_at(page, 0) == HYBRID_MANIFEST_MAGIC && u16_at(page, 8)
            == HYBRID_MANIFEST_VERSION && u16_at(page, 10) == HYBRID_MANIFEST_HEADER_SIZE && sealed(page, HYBRID_PAGE_END as int)
            && usage_extension(page) && !all_zero(page.subrange(24, 40)) && page[112] <= 1 {
            Some(
                OfflineHybridManifest {
                    generation: u64_at(page, 16),
                    cache_id: cache_id_in(page),
                    version_epoch: u64_at(page, 40),
                    next_seqno: u64_at(page, 48),
                    layout_fingerprint: u64_at(page, 56),
                    journal_generation: u64_at(page, 64),
                    journal_capacity: u64_at(page, 72),
                    checkpoint_epoch: u64_at(page, 80),
                    checkpoint_seqno: u64_at(page, 88),
                    clear_floor_epoch: u64_at(page, 96),
                    clear_floor_seqno: u64_at(page, 104),
                    clean: page[112] == 1,
                },
            )
        } else {
            None
        }
    }

    /// The manifest's numbers fit together and the file has the length that
    /// its journal calls for.
    pub open spec fn fits(self, file_len: u64) -> bool {
        &&& self.generation != 0
        &&& self.version_epoch != 0
        &&& self.next_seqno != 0
        &&& self.journal_generation != 0
        &&& version_precedes(self.checkpoint_epoch, self.checkpoint_seqno, self.version_epoch, self.next_seqno)
        &&& version_precedes(self.clear_floor_epoch, self.clear_floor_seqno, self.version_epoch, self.next_seqno)
        &&& MIN_JOURNAL_CAPACITY <= self.journal_capacity <= MAX_JOURNAL_CAPACITY
        &&& self.journal_capacity % (HYBRID_MANIFEST_SLOT_SIZE as u64) == 0
        &&& HYBRID_JOURNAL_OFFSET + self.journal_capacity == file_len
    }
}

/// A version is the zero one or comes before the next one to be assigned.
pub open spec fn version_precedes(epoch: u64, seqno: u64, current_epoch: u64, next_seqno: u64) -> bool {
    ||| epoch == 0 && seqno == 0
    ||| epoch < current_epoch
    ||| epoch == current_epoch && seqno < next_seqno
}

/// Whether a version is the zero one or comes before the next one.
pub fn version_precedes_manifest_next(epoch: u64, seqno: u64, current_epoch: u64, next_seqno: u64) -> (precedes: bool)
    ensures
        precedes == version_precedes(epoch, seqno, current_epoch, next_seqno),
{
    (epoch == 0 && seqno == 0) || epoch < current_epoch || (epoch == current_epoch && seqno < next_seqno)
}

/// Whether the first `count` usage entries are ordered.
fn usage_entries_valid(page: &[u8], count: usize) -> (valid: bool)
    requires
        page@.len() >= HYBRID_PAGE_END,
        count <= HYBRID_USAGE_MAX_ENTRIES,
    ensures
        valid == usage_entries_ordered(page@, count as int),
{
    let mut previous: Option<u32> = None;
    let mut index: usize = 0;
    while index < count
        invariant
            page@.len() >= HYBRID_PAGE_END,
            index <= count <= HYBRID_USAGE_MAX_ENTRIES,
            usage_entries_ordered(page@, index as int),
            previous == (if index == 0 {
                None
            } else {
                Some(usage_namespace(page@, index - 1))
            }),
        decreases count - index,
    {
        let offset = HYBRID_USAGE_ENTRIES_OFFSET + index * HYBRID_USAGE_ENTRY_SIZE;
        let namespace = read_u32(page, offset).unwrap();
        let reserved = read_u32(page, offset + 4).unwrap();
        assert(namespace == usage_namespace(page@, index as int));
        assert(reserved == usage_reserved(page@, index as int));
        if reserved != 0 {
            return false;
        }
        if let Some(earlier) = previous {
            if earlier >= namespace {
                assert(usage_namespace(page@, index - 1) >= usage_namespace(page@, index as int));
                return false;
            }
        }
        assert forall|j: int, k: int| 0 <= j < k < index + 1 implies #[trigger] usage_namespace(page@, j) < #[trigger] usage_namespace(
            page@,
            k,
        ) by {
            if k == index && j < index - 1 {
                assert(usage_namespace(page@, j) < usage_namespace(page@, index - 1));
            }
        }
        previous = Some(namespace);
        index = index + 1;
    }
    true
}

/// Whether the page has no usage extension, or a well-formed one.
pub fn hybrid_usage_extension_valid(page: &[u8]) -> (valid: bool)
    ensures
        valid == (page@.len() >= HYBRID_PAGE_END && usage_extension(page@)),
{
    if page.len() < HYBRID_PAGE_END {
        return false;
    }
    if is_all_zero(slice_subrange(page, HYBRID_USAGE_OFFSET, HYBRID_PAGE_END)) {
        return true;
    }
    let count = read_u16(page, HYBRID_USAGE_OFFSET + 12).unwrap() as usize;
    if read_u64(page, HYBRID_USAGE_OFFSET) != Some(HYBRID_USAGE_MAGIC) || read_u16(page, HYBRID_USAGE_OFFSET + 8) != Some(1)
        || read_u16(page, HYBRID_USAGE_OFFSET + 10) != Some(HYBRID_USAGE_HEADER_SIZE) || read_u16(page, HYBRID_USAGE_OFFSET + 14)
        != Some(HYBRID_USAGE_ENTRY_SIZE as u16) || count > HYBRID_USAGE_MAX_ENTRIES {
        return false;
    }
    let used_end = HYBRID_USAGE_ENTRIES_OFFSET + count * HYBRID_USAGE_ENTRY_SIZE;
    if !is_all_zero(slice_subrange(page, used_end, HYBRID_PAGE_END)) {
        return false;
    }
    if !checksum_matches_range(page, HYBRID_USAGE_OFFSET, HYBRID_PAGE_END, HYBRID_USAGE_OFFSET + 16) {
        return false;
    }
    usage_entries_valid(page, count)
}

/// The cache identity of a page.
fn read_cache_id(page: &[u8]) -> (id: [u8; 16])
    requires
        page@.len() == HYBRID_MANIFEST_SLOT_SIZE,
    ensures
        id == cache_id_in(page@),
{
    [
        page[24],
        page[25],
        page[26],
        page[27],
        page[28],
        page[29],
        page[30],
        page[31],
        page[32],
        page[33],
        page[34],
        page[35],
        page[36],
        page[37],
        page[38],
        page[39],
    ]
}

/// Reads a manifest page.
pub fn decode_hybrid_manifest(page: &[u8]) -> (manifest: Option<OfflineHybridManifest>)
    ensures
        manifest == OfflineHybridManifest::held(page@),
{
    if page.len() != HYBRID_MANIFEST_SLOT_SIZE || read_u64(page, 0) != Some(HYBRID_MANIFEST_MAGIC) || read_u16(page, 8) != Some(
        HYBRID_MANIFEST_VERSION,
    ) || read_u16(page, 10) != Some(HYBRID_MANIFEST_HEADER_SIZE) || !checksum_matches(page, HYBRID_PAGE_END)
        || !hybrid_usage_extension_valid(page) {
        return None;
    }
    if is_all_zero(slice_subrange(page, 24, 40)) {
        return None;
    }
    let cache_id = read_cache_id(page);
    let clean = decode_flag(page[112])?;
    Some(
        OfflineHybridManifest {
            generation: read_u64(page, 16)?,
            cache_id,
            version_epoch: read_u64(page, 40)?,
            next_seqno: read_u64(page, 48)?,
            layout_fingerprint: read_u64(page, 56)?,
            journal_generation: read_u64(page, 64)?,
            journal_capacity: read_u64(page, 72)?,
            checkpoint_epoch: read_u64(page, 80)?,
            checkpoint_seqno: read_u64(page, 88)?,
            clear_floor_epoch: read_u64(page, 96)?,
            clear_floor_seqno: read_u64(page, 104)?,
            clean,
        },
    )
}

// ---------------------------------------------------------------------------
// Journal
// ---------------------------------------------------------------------------

/// What stands at a place in the journal.
#[derive(Clone, Copy, Debug, PartialEq, Eq, Structural)]
pub enum JournalStep {
    /// Zeroes: the journal ends here.
    End,
    /// Bytes that are no record of this journal generation.
    Torn,
    /// A record whose fields or checksum are wrong.
    Damaged,
    /// A valid record.
    Record { length: u64, epoch: u64, seqno: u64 },
}

/// The header in front of `relative` bytes of journal.
pub open spec fn journal_header(contents: Seq<u8>, relative: int) -> Seq<u8> {
    contents.subrange(HYBRID_JOURNAL_OFFSET + relative, HYBRID_JOURNAL_OFFSET + relative + HYBRID_JOURNAL_HEADER_SIZE)
}

/// The header belongs to a record of this journal that ends in the journal.
pub open spec fn journal_header_placed(header: Seq<u8>, manifest: OfflineHybridManifest, relative: int) -> bool {
    let length = u32_at(header, 12);
    &&& u64_at(header, 0) == HYBRID_JOURNAL_MAGIC
    &&& u16_at(header, 8) == HYBRID_MANIFEST_VERSION
    &&& u16_at(header, 10) == HYBRID_JOURNAL_HEADER_SIZE
    &&& u64_at(header, 24) == manifest.journal_generation
    &&& length >= HYBRID_JOURNAL_HEADER_SIZE
    &&& length % (HYBRID_JOURNAL_ALIGNMENT as u32) == 0
    &&& relative + length <= manifest.journal_capacity
}

/// Version order: by epoch, then by sequence number.
pub open spec fn version_after(epoch: u64, seqno: u64, previous: (u64, u64)) -> bool {
    epoch > previous.0 || (epoch == previous.0 && seqno > previous.1)
}

/// A placed record's fields fit together and it comes after the one before.
pub open spec fn journal_header_consistent(header: Seq<u8>, manifest: OfflineHybridManifest, previous: (u64, u64)) -> bool {
    let key_len = u32_at(header, 52);
    let kind = header[16];
    let flags = header[17];
    &&& u32_at(header, 12) == (HYBRID_JOURNAL_HEADER_SIZE + key_len + (HYBRID_JOURNAL_ALIGNMENT - 1)) / (
    HYBRID_JOURNAL_ALIGNMENT as int) * HYBRID_JOURNAL_ALIGNMENT
    &&& 1 <= kind <= 4
    &&& flags <= 1
    &&& u64_at(header, 32) != 0
    &&& u64_at(header, 40) != 0
    &&& version_after(u64_at(header, 32), u64_at(header, 40), previous)
    &&& u64_at(header, 32) <= manifest.version_epoch
    &&& kind == 1 ==> flags == 1
    &&& kind == 4 ==> key_len == 0 && flags == 0
}

/// What stands `relative` bytes into the journal, behind a record of version
/// `previous`.
pub open spec fn journal_step(
    contents: Seq<u8>,
    manifest: OfflineHybridManifest,
    relative: int,
    previous: (u64, u64),
) -> JournalStep {
    let header = journal_header(contents, relative);
    let start = HYBRID_JOURNAL_OFFSET + relative;
    if all_zero(header) {
        JournalStep::End
    } else if !journal_header_placed(header, manifest, relative) {
        JournalStep::Torn
    } else if !journal_header_consistent(header, manifest, previous) || !sealed(
        contents.subrange(start, start + u32_at(header, 12)),
        HYBRID_JOURNAL_CHECKSUM_OFFSET as int,
    ) {
        JournalStep::Damaged
    } else {
        JournalStep::Record {
            length: u32_at(header, 12) as u64,
            epoch: u64_at(header, 32),
            seqno: u64_at(header, 40),
        }
    }
}

/// The report once the journal has been read up to `relative` and no further.
pub open spec fn journal_ended(report: HybridManifestFileReport, relative: int) -> HybridManifestFileReport {
    HybridManifestFileReport {
        journal_valid_bytes: relative as u64,
        recovery_required: report.recovery_required || report.journal_records != 0 || report.journal_torn_tail,
        ..report
    }
}

/// The report once the journal from `relative` on has been read.
pub open spec fn journal_read(
    report: HybridManifestFileReport,
    contents: Seq<u8>,
    manifest: OfflineHybridManifest,
    relative: int,
    previous: (u64, u64),
) -> HybridManifestFileReport
    decreases manifest.journal_capacity - relative,
{
    if relative + HYBRID_JOURNAL_HEADER_SIZE > manifest.journal_capacity {
        journal_ended(report, relative)
    } else {
        match journal_step(contents, manifest, relative, previous) {
            JournalStep::End => journal_ended(report, relative),
            JournalStep::Torn => journal_ended(
                HybridManifestFileReport { journal_torn_tail: true, ..report },
                relative,
            ),
            JournalStep::Damaged => journal_ended(
                HybridManifestFileReport { valid: false, journal_torn_tail: true, ..report },
                relative,
            ),
            JournalStep::Record { length, epoch, seqno } => if length > 0 {
                journal_read(
                    HybridManifestFileReport { journal_records: tally(report.journal_records, 1), ..report },
                    contents,
                    manifest,
                    relative + length,
                    (epoch, seqno),
                )
            } else {
                report
            },
        }
    }
}

/// Whether a record carries its own checksum.
fn journal_checksum_matches<F: OfflineFile>(file: &F, offset: u64, record_len: u64, header: &Vec<u8>) -> (result: Result<
    bool,
    F::Error,
>)
    requires
        header@.len() == HYBRID_JOURNAL_HEADER_SIZE,
        record_len >= HYBRID_JOURNAL_HEADER_SIZE,
        offset + record_len <= file.contents().len(),
        header@ == file.contents().subrange(offset as int, offset + HYBRID_JOURNAL_HEADER_SIZE),
    ensures
        match result {
            Ok(matches) => matches == sealed(
                file.contents().subrange(offset as int, offset + record_len),
                HYBRID_JOURNAL_CHECKSUM_OFFSET as int,
            ),
            Err(_) => !file.reliable(),
        },
{
    let ghost record = file.contents().subrange(offset as int, offset + record_len);
    let file_len = file.len();
    let stored = read_u32(header.as_slice(), HYBRID_JOURNAL_CHECKSUM_OFFSET).unwrap();
    let zeroes: [u8; 4] = [0u8, 0u8, 0u8, 0u8];
    let mut checksum = Crc32c::new();
    checksum.update(slice_subrange(header.as_slice(), 0, HYBRID_JOURNAL_CHECKSUM_OFFSET));
    checksum.update(zeroes.as_slice());
    checksum.update(
        slice_subrange(header.as_slice(), HYBRID_JOURNAL_CHECKSUM_OFFSET + 4, HYBRID_JOURNAL_HEADER_SIZE),
    );
    match stream_payload(
        file,
        offset + HYBRID_JOURNAL_HEADER_SIZE as u64,
        record_len - HYBRID_JOURNAL_HEADER_SIZE as u64,
        &mut checksum,
        None,
    ) {
        Ok(_) => {},
        Err(error) => {
            return Err(error);
        },
    }
    proof {
        assert(forall|k: int| 0 <= k < HYBRID_JOURNAL_HEADER_SIZE ==> #[trigger] header@[k] == record[k]);
        assert(zeroes@ =~= seq![0u8, 0u8, 0u8, 0u8]);
        assert(checksum.bytes() =~= zeroed_at(record, HYBRID_JOURNAL_CHECKSUM_OFFSET as int));
    }
    Ok(checksum.finish() == stored)
}

/// Tells what stands at a place in the journal.
#[verifier::rlimit(40)]
fn read_journal_step<F: OfflineFile>(
    file: &F,
    manifest: OfflineHybridManifest,
    relative: u64,
    previous: (u64, u64),
) -> (result: Result<JournalStep, F::Error>)
    requires
        relative + HYBRID_JOURNAL_HEADER_SIZE <= manifest.journal_capacity,
        manifest.journal_capacity <= MAX_JOURNAL_CAPACITY,
        HYBRID_JOURNAL_OFFSET + manifest.journal_capacity == file.contents().len(),
    ensures
        match result {
            Ok(step) => {
                &&& step == journal_step(file.contents(), manifest, relative as int, previous)
                &&& step matches JournalStep::Record { length, .. } ==> length > 0 && relative + length
                    <= manifest.journal_capacity
            },
            Err(_) => !file.reliable(),
        },
{
    let offset = HYBRID_JOURNAL_OFFSET + relative;
    let header = match file.read_exact_at(offset, HYBRID_JOURNAL_HEADER_SIZE) {
        Ok(header) => header,
        Err(error) => {
            return Err(error);
        },
    };
    assert(header@ == journal_header(file.contents(), relative as int));
    let bytes = header.as_slice();
    if is_all_zero(bytes) {
        return Ok(JournalStep::End);
    }
    let record_len = read_u32(bytes, 12).unwrap();
    if read_u64(bytes, 0) != Some(HYBRID_JOURNAL_MAGIC) || read_u16(bytes, 8) != Some(HYBRID_MANIFEST_VERSION) || read_u16(bytes, 10)
        != Some(HYBRID_JOURNAL_HEADER_SIZE as u16) || read_u64(bytes, 24) != Some(manifest.journal_generation) || record_len
        < HYBRID_JOURNAL_HEADER_SIZE as u32 || record_len % (HYBRID_JOURNAL_ALIGNMENT as u32) != 0 || relative + record_len as u64
        > manifest.journal_capacity {
        return Ok(JournalStep::Torn);
    }
    let key_len = read_u32(bytes, 52).unwrap();
    let needed: u64 = HYBRID_JOURNAL_HEADER_SIZE as u64 + key_len as u64 + (HYBRID_JOURNAL_ALIGNMENT as u64 - 1);
    let expected_len = needed / (HYBRID_JOURNAL_ALIGNMENT as u64) * (HYBRID_JOURNAL_ALIGNMENT as u64);
    let kind = header[16];
    let flags = header[17];
    let epoch = read_u64(bytes, 32).unwrap();
    let seqno = read_u64(bytes, 40).unwrap();
    if expected_len != record_len as u64 || kind < 1 || kind > 4 || flags > 1 || epoch == 0 || seqno == 0 || !(epoch > previous.0 || (
    epoch == previous.0 && seqno > previous.1)) || epoch > manifest.version_epoch || (kind == 1 && flags == 0) || (kind == 4 && (key_len
        != 0 || flags != 0)) {
        assert(!journal_header_consistent(header@, manifest, previous));
        return Ok(JournalStep::Damaged);
    }
    assert(journal_header_consistent(header@, manifest, previous));
    match journal_checksum_matches(file, offset, record_len as u64, &header) {
        Ok(matches) => if matches {
            Ok(JournalStep::Record { length: record_len as u64, epoch, seqno })
        } else {
            Ok(JournalStep::Damaged)
        },
        Err(error) => Err(error),
    }
}

/// Reads the journal and adds what it holds to the report.
fn verify_hybrid_journal<F: OfflineFile>(
    file: &F,
    manifest: OfflineHybridManifest,
    report: &mut HybridManifestFileReport,
) -> (result: Result<(), F::Error>)
    requires
        manifest.journal_capacity <= MAX_JOURNAL_CAPACITY,
        HYBRID_JOURNAL_OFFSET + manifest.journal_capacity == file.contents().len(),
    ensures
        match result {
            Ok(_) => *final(report) == journal_read(*old(report), file.contents(), manifest, 0, (0u64, 0u64)),
            Err(_) => !file.reliable(),
        },
{
    let ghost complete = journal_read(*old(report), file.contents(), manifest, 0, (0u64, 0u64));
    let mut relative: u64 = 0;
    let mut previous: (u64, u64) = (0, 0);
    while relative + HYBRID_JOURNAL_HEADER_SIZE as u64 <= manifest.journal_capacity
        invariant_except_break
            relative <= manifest.journal_capacity <= MAX_JOURNAL_CAPACITY,
            HYBRID_JOURNAL_OFFSET + manifest.journal_capacity == file.contents().len(),
            complete == journal_read(*report, file.contents(), manifest, relative as int, previous),
        ensures
            complete == journal_ended(*report, relative as int),
        decreases manifest.journal_capacity - relative,
    {
        match read_journal_step(file, manifest, relative, previous) {
            Ok(JournalStep::End) => {
                break;
            },
            Ok(JournalStep::Torn) => {
                report.journal_torn_tail = true;
                break;
            },
            Ok(JournalStep::Damaged) => {
                report.valid = false;
                report.journal_torn_tail = true;
                break;
            },
            Ok(JournalStep::Record { length, epoch, seqno }) => {
                previous = (epoch, seqno);
                relative = relative + length;
                report.journal_records = report.journal_records.saturating_add(1);
            },
            Err(error) => {
                return Err(error);
            },
        }
    }
    report.journal_valid_bytes = relative;
    report.recovery_required = report.recovery_required || report.journal_records != 0 || report.journal_torn_tail;
    Ok(())
}

// ---------------------------------------------------------------------------
// The whole file
// ---------------------------------------------------------------------------

/// A manifest copy of the file.
pub open spec fn manifest_copy(contents: Seq<u8>, slot: int) -> Option<OfflineHybridManifest> {
    OfflineHybridManifest::held(
        contents.subrange(slot * HYBRID_MANIFEST_SLOT_SIZE, slot * HYBRID_MANIFEST_SLOT_SIZE + HYBRID_MANIFEST_SLOT_SIZE),
    )
}

/// The copy in effect: the one of the higher generation, the first of two
/// equal ones.
pub open spec fn selected_manifest(contents: Seq<u8>) -> Option<(u8, OfflineHybridManifest)> {
    match (manifest_copy(contents, 0), manifest_copy(contents, 1)) {
        (Some(first), Some(second)) => if second.generation > first.generation {
            Some((1u8, second))
        } else {
            Some((0u8, first))
        },
        (Some(first), None) => Some((0u8, first)),
        (None, Some(second)) => Some((1u8, second)),
        (None, None) => None,
    }
}

/// What there is to say about a manifest file, without its journal or with it.
pub open spec fn manifest_report(contents: Seq<u8>, file_len: u64, verify_journal: bool) -> HybridManifestFileReport {
    let unread = HybridManifestFileReport::unread(file_len);
    if file_len < HYBRID_JOURNAL_OFFSET {
        unread
    } else {
        match selected_manifest(contents) {
            None => unread,
            Some((slot, manifest)) => {
                let report = HybridManifestFileReport {
                    valid: manifest.fits(file_len),
                    selected_slot: Some(slot),
                    generation: Some(manifest.generation),
                    cache_id: Some(manifest.cache_id),
                    layout_fingerprint: Some(manifest.layout_fingerprint),
                    clean: Some(manifest.clean),
                    version_epoch: Some(manifest.version_epoch),
                    next_seqno: Some(manifest.next_seqno),
                    journal_generation: Some(manifest.journal_generation),
                    journal_capacity_bytes: Some(manifest.journal_capacity),
                    recovery_required: !manifest.clean,
                    ..unread
                };
                if manifest.fits(file_len) && verify_journal {
                    journal_read(report, contents, manifest, 0, (0u64, 0u64))
                } else {
                    report
                }
            },
        }
    }
}

/// Inspects the manifest file, and verifies its journal on request.
#[verifier::rlimit(30)]
pub fn inspect_hybrid_manifest<F: OfflineFile>(file: &F, verify_journal: bool) -> (result: Result<
    HybridManifestFileReport,
    ManagementError<F::Error>,
>)
    ensures
        match result {
            Ok(report) => report == manifest_report(file.contents(), file.contents().len() as u64, verify_journal),
            Err(ManagementError::Io(_)) => !file.reliable(),
            Err(_) => false,
        },
{
    let file_len = file.len();
    let mut report = HybridManifestFileReport::of_length(file_len);
    if file_len < HYBRID_JOURNAL_OFFSET {
        return Ok(report);
    }
    let first_page = match file.read_exact_at(0, HYBRID_MANIFEST_SLOT_SIZE) {
        Ok(page) => page,
        Err(error) => {
            return Err(ManagementError::Io(error));
        },
    };
    let second_page = match file.read_exact_at(HYBRID_MANIFEST_SLOT_SIZE as u64, HYBRID_MANIFEST_SLOT_SIZE) {
        Ok(page) => page,
        Err(error) => {
            return Err(ManagementError::Io(error));
        },
    };
    let first = decode_hybrid_manifest(first_page.as_slice());
    let second = decode_hybrid_manifest(second_page.as_slice());
    let selected: Option<(u8, OfflineHybridManifest)> = match (first, second) {
        (Some(earlier), Some(later)) => if later.generation > earlier.generation {
            Some((1u8, later))
        } else {
            Some((0u8, earlier))
        },
        (Some(earlier), None) => Some((0u8, earlier)),
        (None, Some(later)) => Some((1u8, later)),
        (None, None) => None,
    };
    assert(selected == selected_manifest(file.contents()));
    let (slot, manifest) = match selected {
        Some(pair) => pair,
        None => {
            return Ok(report);
        },
    };
    let capacity_valid = MIN_JOURNAL_CAPACITY <= manifest.journal_capacity && manifest.journal_capacity <= MAX_JOURNAL_CAPACITY;
    let valid = manifest.generation != 0 && manifest.version_epoch != 0 && manifest.next_seqno != 0 && manifest.journal_generation != 0
        && version_precedes_manifest_next(
        manifest.checkpoint_epoch,
        manifest.checkpoint_seqno,
        manifest.version_epoch,
        manifest.next_seqno,
    ) && version_precedes_manifest_next(
        manifest.clear_floor_epoch,
        manifest.clear_floor_seqno,
        manifest.version_epoch,
        manifest.next_seqno,
    ) && capacity_valid && manifest.journal_capacity % (HYBRID_MANIFEST_SLOT_SIZE as u64) == 0 && HYBRID_JOURNAL_OFFSET
        + manifest.journal_capacity == file_len;
    report.selected_slot = Some(slot);
    report.generation = Some(manifest.generation);
    report.cache_id = Some(manifest.cache_id);
    report.layout_fingerprint = Some(manifest.layout_fingerprint);
    report.clean = Some(manifest.clean);
    report.version_epoch = Some(manifest.version_epoch);
    report.next_seqno = Some(manifest.next_seqno);
    report.journal_generation = Some(manifest.journal_generation);
    report.journal_capacity_bytes = Some(manifest.journal_capacity);
    report.recovery_required = !manifest.clean;
    report.valid = valid;
    assert(valid == manifest.fits(file_len));
    if !valid || !verify_journal {
        return Ok(report);
    }
    match verify_hybrid_journal(file, manifest, &mut report) {
        Ok(_) => Ok(report),
        Err(error) => Err(ManagementError::Io(error)),
    }
}

// ---------------------------------------------------------------------------
// What manifest inspection finds
// ---------------------------------------------------------------------------

/// A version comes before the next one exactly if it is unset, or of an earlier
/// epoch, or of this epoch with a smaller sequence.
pub proof fn law_versions_are_ordered(epoch: u64, seqno: u64, current_epoch: u64, next_seqno: u64)
    ensures
        version_precedes(0, 0, current_epoch, next_seqno),
        epoch > current_epoch ==> !version_precedes(epoch, seqno, current_epoch, next_seqno),
        epoch < current_epoch ==> version_precedes(epoch, seqno, current_epoch, next_seqno),
        epoch == current_epoch && epoch > 0 ==> (version_precedes(epoch, seqno, current_epoch, next_seqno) <==> seqno < next_seqno),
        version_after(epoch, seqno, (current_epoch, next_seqno)) <==> (epoch > current_epoch || (epoch == current_epoch && seqno
            > next_seqno)),
{
}

/// A manifest fits its file exactly if generation, version and journal are set,
/// the checkpoint and the clear floor come before the next version, and the file
/// holds two pages and then the journal, which takes whole pages: at least 64
/// KiB and at most 4 GiB.
pub proof fn law_fitting_manifests(manifest: OfflineHybridManifest, file_len: u64)
    ensures
        manifest.fits(file_len) <==> {
            &&& manifest.generation > 0 && manifest.version_epoch > 0 && manifest.next_seqno > 0 && manifest.journal_generation > 0
            &&& version_precedes(manifest.checkpoint_epoch, manifest.checkpoint_seqno, manifest.version_epoch, manifest.next_seqno)
            &&& version_precedes(manifest.clear_floor_epoch, manifest.clear_floor_seqno, manifest.version_epoch, manifest.next_seqno)
            &&& 0x1_0000 <= manifest.journal_capacity <= 0x1_0000_0000
            &&& manifest.journal_capacity as int % 4096 == 0
            &&& file_len == manifest.journal_capacity + 8192
        },
{
}

/// A manifest's page is accepted exactly if its length, magic, version, header
/// size, checksum, usage table and clean flag are right and its cache has an
/// identity.
pub proof fn law_manifest_pages(page: Seq<u8>)
    ensures
        ({
            let found = OfflineHybridManifest::held(page);
            &&& found is Some <==> {
                &&& page.len() == 4096
                &&& u64_at(page, 0) == 0x3130_4d42_5948_5243
                &&& u16_at(page, 8) == 1 && u16_at(page, 10) == 120
                &&& sealed(page, 4092)
                &&& usage_extension(page)
                &&& exists|k: int| 24 <= k < 40 && #[trigger] page[k] != 0
                &&& page[112] < 2
            }
            &&& found matches Some(manifest) ==> {
                &&& manifest.generation == u64_at(page, 16)
                &&& forall|k: int| 0 <= k < 16 ==> #[trigger] manifest.cache_id[k] == page[24 + k]
                &&& manifest.version_epoch == u64_at(page, 40) && manifest.next_seqno == u64_at(page, 48)
                &&& manifest.layout_fingerprint == u64_at(page, 56) && manifest.journal_generation == u64_at(page, 64)
                &&& manifest.journal_capacity == u64_at(page, 72)
                &&& manifest.checkpoint_epoch == u64_at(page, 80) && manifest.checkpoint_seqno == u64_at(page, 88)
                &&& manifest.clear_floor_epoch == u64_at(page, 96) && manifest.clear_floor_seqno == u64_at(page, 104)
                &&& manifest.clean <==> page[112] == 1
            }
        }),
{
    if page.len() == 4096 {
        let id = page.subrange(24, 40);
        if all_zero(id) {
            assert forall|k: int| 24 <= k < 40 implies #[trigger] page[k] == 0 by {
                assert(id[k - 24] == page[k]);
            }
        } else {
            let k = choose|k: int| 0 <= k < id.len() && #[trigger] id[k] != 0;
            assert(page[k + 24] != 0);
        }
    }
}

/// The usage table is in order exactly if it is blank, or if its header is right,
/// it counts at most 240 namespaces, each with a blank reserved field and after
/// a smaller one, and nothing follows the last.
pub proof fn law_usage_tables(page: Seq<u8>)
    requires
        page.len() == 4096,
    ensures
        ({
            let count = u16_at(page, 140) as int;
            usage_extension(page) <==> (forall|k: int| 128 <= k < 4092 ==> #[trigger] page[k] == 0) || {
                &&& u64_at(page, 128) == 0x3130_5355_5948_5243
                &&& u16_at(page, 136) == 1 && u16_at(page, 138) == 24 && u16_at(page, 142) == 16
                &&& count <= 240
                &&& forall|k: int| 152 + 16 * count <= k < 4092 ==> #[trigger] page[k] == 0
                &&& sealed(page.subrange(128, 4092), 16)
                &&& forall|k: int| 0 <= k < count ==> u32_at(page, #[trigger] (156 + 16 * k)) == 0
                &&& forall|k: int| 0 < k < count ==> u32_at(page, 136 + 16 * k) < u32_at(page, #[trigger] (152 + 16 * k))
            }
        }),
{
    let count = u16_at(page, 140) as int;
    let extension = page.subrange(128, 4092);
    assert(all_zero(extension) <==> forall|k: int| 128 <= k < 4092 ==> #[trigger] page[k] == 0) by {
        if all_zero(extension) {
            assert forall|k: int| 128 <= k < 4092 implies #[trigger] page[k] == 0 by {
                assert(extension[k - 128] == page[k]);
            }
        }
    }
    let used_end = 152 + 16 * count;
    if count <= 240 {
        let rest = page.subrange(used_end, 4092);
        assert(all_zero(rest) <==> forall|k: int| used_end <= k < 4092 ==> #[trigger] page[k] == 0) by {
            if all_zero(rest) {
                assert forall|k: int| used_end <= k < 4092 implies #[trigger] page[k] == 0 by {
                    assert(rest[k - used_end] == page[k]);
                }
            }
        }
        if usage_entries_ordered(page, count) {
            assert forall|k: int| 0 <= k < count implies u32_at(page, #[trigger] (156 + 16 * k)) == 0 by {
                assert(usage_reserved(page, k) == 0);
            }
            assert forall|k: int| 0 < k < count implies u32_at(page, 136 + 16 * k) < u32_at(page, #[trigger] (152 + 16 * k)) by {
                assert(usage_namespace(page, k - 1) < usage_namespace(page, k));
            }
        }
        if (forall|k: int| 0 <= k < count ==> u32_at(page, #[trigger] (156 + 16 * k)) == 0) && (forall|k: int|
            0 < k < count ==> u32_at(page, 136 + 16 * k) < u32_at(page, #[trigger] (152 + 16 * k))) {
            lemma_usage_ordered(page, count);
        }
    }
}

proof fn lemma_usage_ordered(page: Seq<u8>, count: int)
    requires
        forall|k: int| 0 <= k < count ==> u32_at(page, #[trigger] (156 + 16 * k)) == 0,
        forall|k: int| 0 < k < count ==> u32_at(page, 136 + 16 * k) < u32_at(page, #[trigger] (152 + 16 * k)),
    ensures
        usage_entries_ordered(page, count),
{
    assert forall|k: int| 0 <= k < count implies #[trigger] usage_reserved(page, k) == 0 by {
        assert(u32_at(page, 156 + 16 * k) == 0);
    }
    assert forall|j: int, k: int| 0 <= j < k < count implies #[trigger] usage_namespace(page, j) < #[trigger] usage_namespace(
        page,
        k,
    ) by {
        lemma_usage_ascends(page, count, j, k);
    }
}

proof fn lemma_usage_ascends(page: Seq<u8>, count: int, j: int, k: int)
    requires
        forall|k: int| 0 < k < count ==> u32_at(page, 136 + 16 * k) < u32_at(page, #[trigger] (152 + 16 * k)),
        0 <= j < k < count,
    ensures
        usage_namespace(page, j) < usage_namespace(page, k),
    decreases k - j,
{
    assert(u32_at(page, 136 + 16 * k) < u32_at(page, 152 + 16 * k));
    assert(usage_namespace(page, k) == u32_at(page, 152 + 16 * k));
    assert(usage_namespace(page, k - 1) == u32_at(page, 136 + 16 * k));
    if j < k - 1 {
        lemma_usage_ascends(page, count, j, k - 1);
    }
}

/// The manifest that counts is a valid one with the highest generation; of two
/// equal ones it is the first.
pub proof fn law_newest_manifest(contents: Seq<u8>)
    requires
        contents.len() >= 8192,
    ensures
        ({
            let first = OfflineHybridManifest::held(contents.subrange(0, 4096));
            let second = OfflineHybridManifest::held(contents.subrange(4096, 8192));
            let chosen = selected_manifest(contents);
            &&& chosen is None <==> first is None && second is None
            &&& chosen matches Some((slot, manifest)) ==> {
                &&& slot == 0 ==> first == Some(manifest) && (second matches Some(other) ==> other.generation <= manifest.generation)
                &&& slot == 1 ==> second == Some(manifest) && (first matches Some(other) ==> other.generation < manifest.generation)
                &&& slot < 2
            }
        }),
{
}

/// The journal goes on behind a record exactly if a header of this journal stands
/// there whose length is right for its key and stays within the capacity, whose
/// kind and flag are known, whose version is set and follows the one before
/// without passing the manifest's epoch, and whose checksum over the whole
/// record matches. A blank header ends the journal, one of another journal or
/// without a usable length is a torn tail, and any other fault damages it.
pub proof fn law_journal_records(contents: Seq<u8>, manifest: OfflineHybridManifest, relative: int, previous: (u64, u64))
    requires
        relative >= 0,
        8192 + relative + 80 <= contents.len(),
    ensures
        ({
            let start = 8192 + relative;
            let header = contents.subrange(start, start + 80);
            let step = journal_step(contents, manifest, relative, previous);
            let length = u32_at(header, 12) as int;
            let key_len = u32_at(header, 52) as int;
            let epoch = u64_at(header, 32);
            let seqno = u64_at(header, 40);
            let blank = forall|k: int| 0 <= k < 80 ==> #[trigger] header[k] == 0;
            let ours = u64_at(header, 0) == 0x3130_524a_5948_5243 && u16_at(header, 8) == 1 && u16_at(header, 10) == 80 && u64_at(
                header,
                24,
            ) == manifest.journal_generation && length >= 80 && length % 32 == 0 && relative + length <= manifest.journal_capacity;
            let sound = {
                &&& 80 + key_len <= length < 112 + key_len
                &&& 1 <= header[16] <= 4 && header[17] <= 1
                &&& header[16] == 1 ==> header[17] == 1
                &&& header[16] == 4 ==> header[17] == 0 && key_len == 0
                &&& 0 < epoch <= manifest.version_epoch && seqno > 0
                &&& epoch > previous.0 || (epoch == previous.0 && seqno > previous.1)
                &&& sealed(contents.subrange(start, start + length), 72)
            };
            &&& step is End <==> blank
            &&& step is Torn <==> !blank && !ours
            &&& step is Damaged <==> !blank && ours && !sound
            &&& step is Record <==> !blank && ours && sound
            &&& step matches JournalStep::Record { length: taken, epoch: of_epoch, seqno: of_seqno } ==> taken == length && of_epoch == epoch
                && of_seqno == seqno
        }),
{
    let header = journal_header(contents, relative);
    let length = u32_at(header, 12) as int;
    let least = 80 + u32_at(header, 52);
    lemma_journal_rounded_up(length, least);
}

proof fn lemma_journal_rounded_up(length: int, least: int)
    requires
        least >= 0,
    ensures
        length == (least + 31) / 32 * 32 <==> length % 32 == 0 && least <= length < least + 32,
{
}

/// The journal is read record by record from its start; where it ends, the bytes
/// up to there are valid, and recovery is required if it held a record or its
/// tail is torn. A damaged record makes the file invalid, a torn tail does not.
pub proof fn law_journal_is_read_in_turn(
    report: HybridManifestFileReport,
    contents: Seq<u8>,
    manifest: OfflineHybridManifest,
    relative: int,
    previous: (u64, u64),
)
    requires
        0 <= relative <= u64::MAX,
        report.journal_records < u64::MAX,
    ensures
        ({
            let after = journal_read(report, contents, manifest, relative, previous);
            let step = journal_step(contents, manifest, relative, previous);
            let full = relative + 80 > manifest.journal_capacity;
            &&& full || !(step is Record) ==> {
                &&& after.journal_valid_bytes == relative
                &&& after.journal_records == report.journal_records
                &&& after.journal_torn_tail <==> report.journal_torn_tail || (!full && (step is Torn || step is Damaged))
                &&& after.valid <==> report.valid && (full || !(step is Damaged))
                &&& after.recovery_required <==> report.recovery_required || report.journal_records > 0 || after.journal_torn_tail
                &&& after.selected_slot == report.selected_slot && after.generation == report.generation
                &&& after.file_len == report.file_len && after.clean == report.clean
                &&& after.cache_id == report.cache_id && after.layout_fingerprint == report.layout_fingerprint
                &&& after.version_epoch == report.version_epoch && after.next_seqno == report.next_seqno
                &&& after.journal_generation == report.journal_generation
                &&& after.journal_capacity_bytes == report.journal_capacity_bytes
            }
            &&& !full ==> (step matches JournalStep::Record { length, epoch, seqno } ==> length > 0 ==> after == journal_read(
                (HybridManifestFileReport { journal_records: (report.journal_records + 1) as u64, ..report }),
                contents,
                manifest,
                relative + length,
                (epoch, seqno),
            ))
        }),
{
}

/// A report shows the manifest that counts. The file is valid exactly if it fits
/// and, where the journal is verified, no record is damaged; recovery is
/// required of one that was not closed cleanly. Nothing is shown of a file
/// without a manifest.
pub proof fn law_manifest_reports(contents: Seq<u8>, file_len: u64, verify_journal: bool)
    ensures
        ({
            let report = manifest_report(contents, file_len, verify_journal);
            let read = file_len >= 8192 && selected_manifest(contents) is Some;
            let (slot, manifest) = selected_manifest(contents)->0;
            &&& !read ==> {
                &&& report.file_len == file_len && !report.valid && report.selected_slot is None && report.generation is None
                &&& report.cache_id is None && report.layout_fingerprint is None && report.clean is None
                &&& report.version_epoch is None && report.next_seqno is None && report.journal_generation is None
                &&& report.journal_capacity_bytes is None && report.journal_records == 0 && report.journal_valid_bytes == 0
                &&& !report.journal_torn_tail && !report.recovery_required
            }
            &&& read && (!verify_journal || !manifest.fits(file_len)) ==> {
                &&& report.file_len == file_len && (report.valid <==> manifest.fits(file_len))
                &&& report.selected_slot == Some(slot) && report.generation == Some(manifest.generation)
                &&& report.cache_id == Some(manifest.cache_id) && report.layout_fingerprint == Some(manifest.layout_fingerprint)
                &&& report.clean == Some(manifest.clean) && report.recovery_required == !manifest.clean
                &&& report.version_epoch == Some(manifest.version_epoch) && report.next_seqno == Some(manifest.next_seqno)
                &&& report.journal_generation == Some(manifest.journal_generation)
                &&& report.journal_capacity_bytes == Some(manifest.journal_capacity)
                &&& report.journal_records == 0 && report.journal_valid_bytes == 0 && !report.journal_torn_tail
            }
            &&& read && verify_journal && manifest.fits(file_len) ==> report == journal_read(
                manifest_report(contents, file_len, false),
                contents,
                manifest,
                0,
                (0u64, 0u64),
            )
        }),
{
}

} // verus!
