//! Offline inspection of the Region file: Superblocks, Region Headers and the
//! checkpoint directory with its slot headers.

use vstd::prelude::*;

use crate::bytes::{all_zero, is_all_zero};
use crate::checkpoint::{CheckpointDirectory, CheckpointSlotHeader, CHECKPOINT_DIRECTORY_SIZE, CHECKPOINT_SLOT_HEADER_SIZE};
use crate::format::{
    RegionHeader, RegionState, Superblock, SuperblockProbe, FORMAT_VERSION, REGION_HEADER_SIZE, SUPERBLOCK_AREA_SIZE,
    SUPERBLOCK_A_OFFSET, SUPERBLOCK_B_OFFSET, SUPERBLOCK_SIZE,
};
use crate::index::{MAX_REGION_ID, MAX_REGION_OFFSET};
use crate::management::{
    tally, CacheFileKind, CheckpointDirectoryState, CheckpointSlotState, CheckpointSlotSummary, CheckpointSummary, InspectReport,
    ManagementError, RegionSummary, SuperblockState, SuperblockSummary,
};
use crate::offline_file::OfflineFile;

verus! {

// ---------------------------------------------------------------------------
// Superblocks
// ---------------------------------------------------------------------------

/// The Superblock page at an offset; what the file lacks of it is zero.
pub open spec fn superblock_page(contents: Seq<u8>, offset: int) -> Seq<u8> {
    Seq::new(
        SUPERBLOCK_SIZE as nat,
        |k: int|
            if offset + k < contents.len() {
                contents[offset + k]
            } else {
                0u8
            },
    )
}

/// What the page at an offset holds, if the file reaches it.
pub open spec fn superblock_probe(contents: Seq<u8>, offset: int) -> Option<SuperblockProbe> {
    if offset >= contents.len() {
        None
    } else {
        Some(Superblock::probed(superblock_page(contents, offset)))
    }
}

/// The page at an offset in short.
pub open spec fn superblock_summary(contents: Seq<u8>, slot: u8, offset: int) -> SuperblockSummary {
    match superblock_probe(contents, offset) {
        None => SuperblockSummary::bare_of(slot, SuperblockState::Missing),
        Some(SuperblockProbe::Empty) => SuperblockSummary::bare_of(
            slot,
            if contents.len() - offset < SUPERBLOCK_SIZE {
                SuperblockState::Truncated
            } else {
                SuperblockState::Empty
            },
        ),
        Some(SuperblockProbe::InterruptedV1) => SuperblockSummary::bare_of(slot, SuperblockState::InterruptedV1),
        Some(SuperblockProbe::ValidV1(superblock)) => SuperblockSummary::valid_of(slot, superblock),
        Some(SuperblockProbe::CorruptV1) => SuperblockSummary::bare_of(slot, SuperblockState::CorruptV1),
        Some(SuperblockProbe::Unsupported(_)) => SuperblockSummary::bare_of(slot, SuperblockState::Unsupported),
        Some(SuperblockProbe::Unrecognized) => SuperblockSummary::bare_of(slot, SuperblockState::Unrecognized),
    }
}

/// The valid copy of the higher generation, the second of two equal ones.
pub open spec fn newest_copy(first: Option<SuperblockProbe>, second: Option<SuperblockProbe>) -> Option<(u8, Superblock)> {
    match (first, second) {
        (Some(SuperblockProbe::ValidV1(earlier)), Some(SuperblockProbe::ValidV1(later))) => if later.generation
            >= earlier.generation {
            Some((1u8, later))
        } else {
            Some((0u8, earlier))
        },
        (Some(SuperblockProbe::ValidV1(earlier)), _) => Some((0u8, earlier)),
        (_, Some(SuperblockProbe::ValidV1(later))) => Some((1u8, later)),
        _ => None,
    }
}

/// What the file is, and the copy in effect. A copy of an unknown version
/// keeps everything else from being trusted.
pub open spec fn file_kind(
    first: Option<SuperblockProbe>,
    second: Option<SuperblockProbe>,
    file_len: int,
) -> (CacheFileKind, Option<(u8, Superblock)>) {
    let unrecognized = first == Some(SuperblockProbe::Unrecognized) || second == Some(SuperblockProbe::Unrecognized);
    let corrupt = first == Some(SuperblockProbe::CorruptV1) || second == Some(SuperblockProbe::CorruptV1);
    match (first, second) {
        (_, Some(SuperblockProbe::Unsupported(version))) => (CacheFileKind::Unsupported(version), None),
        (Some(SuperblockProbe::Unsupported(version)), _) => (CacheFileKind::Unsupported(version), None),
        _ => match newest_copy(first, second) {
            Some(copy) => (CacheFileKind::FormatV1, Some(copy)),
            None => if unrecognized || (file_len > SUPERBLOCK_AREA_SIZE && !corrupt) {
                (CacheFileKind::Unrecognized, None)
            } else if corrupt {
                (CacheFileKind::CorruptV1, None)
            } else if file_len != 0 {
                (CacheFileKind::InterruptedV1, None)
            } else {
                (CacheFileKind::Empty, None)
            },
        },
    }
}

/// What the two Superblock pages say.
#[derive(Clone, Copy, Debug)]
pub struct SuperblockInspection {
    pub summaries: [SuperblockSummary; 2],
    pub kind: CacheFileKind,
    pub selected: Option<(u8, Superblock)>,
}

/// What the two Superblock pages of a file say.
pub open spec fn superblock_inspection(contents: Seq<u8>) -> SuperblockInspection {
    let first = superblock_probe(contents, SUPERBLOCK_A_OFFSET as int);
    let second = superblock_probe(contents, SUPERBLOCK_B_OFFSET as int);
    let (kind, selected) = file_kind(first, second, contents.len() as int);
    SuperblockInspection {
        summaries: [
            superblock_summary(contents, 0, SUPERBLOCK_A_OFFSET as int),
            superblock_summary(contents, 1, SUPERBLOCK_B_OFFSET as int),
        ],
        kind,
        selected,
    }
}

/// The summary of a copy names its slot, and carries values only if the copy is
/// a valid page.
pub proof fn law_only_valid_copies_carry_values(contents: Seq<u8>, slot: int)
    requires
        slot == 0 || slot == 1,
    ensures
        ({
            let summary = superblock_inspection(contents).summaries[slot];
            &&& summary.slot == slot
            &&& summary.state != SuperblockState::ValidV1 ==> summary == SuperblockSummary::bare_of(slot as u8, summary.state)
            &&& summary.state == SuperblockState::ValidV1 ==> summary.version == Some(FORMAT_VERSION)
        }),
{
}

/// Probes the page at an offset.
fn probe_superblock<F: OfflineFile>(file: &F, slot: u8, offset: u64) -> (result: Result<
    (Option<SuperblockProbe>, SuperblockSummary),
    F::Error,
>)
    requires
        offset <= SUPERBLOCK_B_OFFSET,
    ensures
        match result {
            Ok((probe, summary)) => {
                &&& probe == superblock_probe(file.contents(), offset as int)
                &&& summary == superblock_summary(file.contents(), slot, offset as int)
            },
            Err(_) => !file.reliable(),
        },
{
    let file_len = file.len();
    if offset >= file_len {
        return Ok((None, SuperblockSummary::bare(slot, SuperblockState::Missing)));
    }
    let available: usize = if file_len - offset < SUPERBLOCK_SIZE as u64 {
        (file_len - offset) as usize
    } else {
        SUPERBLOCK_SIZE
    };
    let mut page = match file.read_exact_at(offset, available) {
        Ok(page) => page,
        Err(error) => {
            return Err(error);
        },
    };
    let ghost read = page@;
    page.resize(SUPERBLOCK_SIZE, 0);
    assert(page@.take(available as int) =~= read.take(available as int));
    assert forall|k: int| 0 <= k < SUPERBLOCK_SIZE implies #[trigger] page@[k] == superblock_page(file.contents(), offset as int)[k] by {
        if k < available {
            assert(page@[k] == page@.take(available as int)[k]);
            assert(read[k] == read.take(available as int)[k]);
        }
    }
    assert(page@ =~= superblock_page(file.contents(), offset as int));
    let probe = Superblock::probe(page.as_slice());
    let summary = match probe {
        SuperblockProbe::Empty => if available < SUPERBLOCK_SIZE {
            SuperblockSummary::bare(slot, SuperblockState::Truncated)
        } else {
            SuperblockSummary::bare(slot, SuperblockState::Empty)
        },
        SuperblockProbe::InterruptedV1 => SuperblockSummary::bare(slot, SuperblockState::InterruptedV1),
        SuperblockProbe::ValidV1(superblock) => SuperblockSummary::valid(slot, superblock),
        SuperblockProbe::CorruptV1 => SuperblockSummary::bare(slot, SuperblockState::CorruptV1),
        SuperblockProbe::Unsupported(_) => SuperblockSummary::bare(slot, SuperblockState::Unsupported),
        SuperblockProbe::Unrecognized => SuperblockSummary::bare(slot, SuperblockState::Unrecognized),
    };
    Ok((Some(probe), summary))
}

/// Picks the newest valid copy.
fn select_superblock(first: Option<SuperblockProbe>, second: Option<SuperblockProbe>) -> (selected: Option<(u8, Superblock)>)
    ensures
        selected == newest_copy(first, second),
{
    match (first, second) {
        (Some(SuperblockProbe::ValidV1(earlier)), Some(SuperblockProbe::ValidV1(later))) => if later.generation
            >= earlier.generation {
            Some((1u8, later))
        } else {
            Some((0u8, earlier))
        },
        (Some(SuperblockProbe::ValidV1(earlier)), _) => Some((0u8, earlier)),
        (_, Some(SuperblockProbe::ValidV1(later))) => Some((1u8, later)),
        _ => None,
    }
}

/// Reads both Superblock pages and decides what the file is.
pub fn inspect_superblocks<F: OfflineFile>(file: &F) -> (result: Result<SuperblockInspection, F::Error>)
    ensures
        match result {
            Ok(inspection) => inspection == superblock_inspection(file.contents()),
            Err(_) => !file.reliable(),
        },
{
    let file_len = file.len();
    let (first, first_summary) = match probe_superblock(file, 0, SUPERBLOCK_A_OFFSET) {
        Ok(pair) => pair,
        Err(error) => {
            return Err(error);
        },
    };
    let (second, second_summary) = match probe_superblock(file, 1, SUPERBLOCK_B_OFFSET) {
        Ok(pair) => pair,
        Err(error) => {
            return Err(error);
        },
    };
    let summaries = [first_summary, second_summary];
    if let Some(SuperblockProbe::Unsupported(version)) = second {
        return Ok(SuperblockInspection { summaries, kind: CacheFileKind::Unsupported(version), selected: None });
    }
    if let Some(SuperblockProbe::Unsupported(version)) = first {
        return Ok(SuperblockInspection { summaries, kind: CacheFileKind::Unsupported(version), selected: None });
    }
    let selected = select_superblock(first, second);
    if selected.is_some() {
        return Ok(SuperblockInspection { summaries, kind: CacheFileKind::FormatV1, selected });
    }
    let saw_unrecognized = match first {
        Some(SuperblockProbe::Unrecognized) => true,
        _ => false,
    } || match second {
        Some(SuperblockProbe::Unrecognized) => true,
        _ => false,
    };
    let saw_corrupt = match first {
        Some(SuperblockProbe::CorruptV1) => true,
        _ => false,
    } || match second {
        Some(SuperblockProbe::CorruptV1) => true,
        _ => false,
    };
    let kind = if saw_unrecognized || (file_len > SUPERBLOCK_AREA_SIZE && !saw_corrupt) {
        CacheFileKind::Unrecognized
    } else if saw_corrupt {
        CacheFileKind::CorruptV1
    } else if file_len != 0 {
        CacheFileKind::InterruptedV1
    } else {
        CacheFileKind::Empty
    };
    Ok(SuperblockInspection { summaries, kind, selected: None })
}

// ---------------------------------------------------------------------------
// Layout
// ---------------------------------------------------------------------------

/// Where the Regions end.
pub open spec fn data_end(superblock: Superblock) -> int {
    SUPERBLOCK_AREA_SIZE + superblock.region_count * superblock.region_size
}

/// Where the Regions end, if that is a file offset.
pub open spec fn data_len(superblock: Superblock) -> Option<u64> {
    if data_end(superblock) <= u64::MAX {
        Some(data_end(superblock) as u64)
    } else {
        None
    }
}

/// Where a Region starts.
pub open spec fn region_start(superblock: Superblock, region_id: int) -> int {
    SUPERBLOCK_AREA_SIZE + region_id * superblock.region_size
}

/// The layout is one that the index can address.
pub open spec fn supported_layout(superblock: Superblock) -> bool {
    &&& superblock.region_count != 0
    &&& superblock.region_count <= MAX_REGION_ID
    &&& superblock.region_size <= MAX_REGION_OFFSET + 8
    &&& data_len(superblock) is Some
}

/// Where the Regions end, if that is a file offset.
pub fn data_file_len(superblock: Superblock) -> (length: Option<u64>)
    ensures
        length == data_len(superblock),
{
    region_offset(superblock, superblock.region_count)
}

/// Where a Region starts, if that is a file offset.
pub fn region_offset(superblock: Superblock, region_id: u32) -> (offset: Option<u64>)
    ensures
        offset == (if region_start(superblock, region_id as int) <= u64::MAX {
            Some(region_start(superblock, region_id as int) as u64)
        } else {
            None
        }),
{
    assert(region_id * superblock.region_size <= 0x1_0000_0000 * 0x1_0000_0000_0000_0000) by (nonlinear_arith)
        requires
            region_id < 0x1_0000_0000,
            superblock.region_size < 0x1_0000_0000_0000_0000,
    ;
    assert(region_id * superblock.region_size >= 0) by (nonlinear_arith)
        requires
            region_id >= 0,
            superblock.region_size >= 0,
    ;
    let offset: u128 = SUPERBLOCK_AREA_SIZE as u128 + region_id as u128 * superblock.region_size as u128;
    if offset <= u64::MAX as u128 {
        Some(offset as u64)
    } else {
        None
    }
}

/// Whether the layout is one that the index can address.
pub fn supported_superblock_layout(superblock: Superblock) -> (supported: bool)
    ensures
        supported == supported_layout(superblock),
{
    superblock.region_count != 0 && superblock.region_count <= MAX_REGION_ID && superblock.region_size <= MAX_REGION_OFFSET as u64
        + 8 && data_file_len(superblock).is_some()
}

/// A supported layout's Regions lie between the Superblocks and the data end.
pub proof fn lemma_region_bounds(superblock: Superblock, region_id: int)
    requires
        0 <= region_id < superblock.region_count,
    ensures
        SUPERBLOCK_AREA_SIZE <= region_start(superblock, region_id),
        region_start(superblock, region_id) + superblock.region_size <= data_end(superblock),
{
    assert(region_id * superblock.region_size >= 0) by (nonlinear_arith)
        requires
            region_id >= 0,
            superblock.region_size >= 0,
    ;
    assert(region_id * superblock.region_size + superblock.region_size <= superblock.region_count * superblock.region_size)
        by (nonlinear_arith)
        requires
            region_id + 1 <= superblock.region_count,
            superblock.region_size >= 0,
    ;
}

// ---------------------------------------------------------------------------
// Region Headers
// ---------------------------------------------------------------------------

/// A header describes its Region and agrees with the Superblock.
pub open spec fn region_header_consistent(header: RegionHeader, expected_id: u32, superblock: Superblock) -> bool {
    &&& header.region_id == expected_id
    &&& header.used <= superblock.region_size
    &&& match header.state {
        RegionState::Free => header.incarnation == 0 && header.created_seqno == 0 && header.used == REGION_HEADER_SIZE,
        RegionState::Active | RegionState::Sealed => {
            &&& header.incarnation != 0
            &&& header.created_seqno != 0
            &&& header.created_seqno != u64::MAX
            // The dirty marker is durable before later Region rotations, so a
            // new Region's creation sequence may legitimately be at or beyond
            // the marker's persisted `next_seqno`.
            &&& superblock.clean ==> header.created_seqno < superblock.next_seqno
        },
    }
}

/// Whether a header describes its Region and agrees with the Superblock.
pub fn region_header_valid(header: RegionHeader, expected_id: u32, superblock: Superblock) -> (valid: bool)
    ensures
        valid == region_header_consistent(header, expected_id, superblock),
{
    if header.region_id != expected_id || header.used > superblock.region_size {
        return false;
    }
    match header.state {
        RegionState::Free => header.incarnation == 0 && header.created_seqno == 0 && header.used == REGION_HEADER_SIZE as u64,
        RegionState::Active | RegionState::Sealed => header.incarnation != 0 && header.created_seqno != 0 && header.created_seqno
            != u64::MAX && (!superblock.clean || header.created_seqno < superblock.next_seqno),
    }
}

/// What stands where a Region's header belongs.
#[derive(Clone, Copy, Debug, PartialEq, Eq, Structural)]
pub enum RegionProbe {
    /// The Region's place is no file offset.
    Unplaced,
    /// The file ends before the header does.
    Truncated { offset: u64 },
    /// No header with a valid checksum.
    Undecodable { offset: u64 },
    /// A header that disagrees with its place or the Superblock.
    Inconsistent { offset: u64 },
    /// A usable header.
    Valid { offset: u64, header: RegionHeader },
}

/// What stands where a Region's header belongs.
pub open spec fn region_probe(contents: Seq<u8>, superblock: Superblock, region_id: u32) -> RegionProbe {
    let start = region_start(superblock, region_id as int);
    if start > u64::MAX {
        RegionProbe::Unplaced
    } else if start + REGION_HEADER_SIZE > contents.len() {
        RegionProbe::Truncated { offset: start as u64 }
    } else {
        match RegionHeader::held(contents.subrange(start, start + REGION_HEADER_SIZE)) {
            None => RegionProbe::Undecodable { offset: start as u64 },
            Some(header) => if region_header_consistent(header, region_id, superblock) {
                RegionProbe::Valid { offset: start as u64, header }
            } else {
                RegionProbe::Inconsistent { offset: start as u64 }
            },
        }
    }
}

/// Probes a Region's header.
pub fn probe_region<F: OfflineFile>(file: &F, superblock: Superblock, region_id: u32) -> (result: Result<RegionProbe, F::Error>)
    ensures
        match result {
            Ok(probe) => probe == region_probe(file.contents(), superblock, region_id),
            Err(_) => !file.reliable(),
        },
{
    let offset: u64 = match region_offset(superblock, region_id) {
        Some(offset) => offset,
        None => {
            return Ok(RegionProbe::Unplaced);
        },
    };
    let file_len = file.len();
    if file_len < REGION_HEADER_SIZE as u64 || offset > file_len - REGION_HEADER_SIZE as u64 {
        assert(region_id * superblock.region_size >= 0) by (nonlinear_arith)
            requires
                region_id >= 0,
                superblock.region_size >= 0,
        ;
        return Ok(RegionProbe::Truncated { offset });
    }
    let page = match file.read_exact_at(offset, REGION_HEADER_SIZE) {
        Ok(page) => page,
        Err(error) => {
            return Err(error);
        },
    };
    match RegionHeader::decode(page.as_slice()) {
        None => Ok(RegionProbe::Undecodable { offset }),
        Some(header) => if region_header_valid(header, region_id, superblock) {
            Ok(RegionProbe::Valid { offset, header })
        } else {
            Ok(RegionProbe::Inconsistent { offset })
        },
    }
}

/// `counter + 1`, sticking at the maximum.
pub open spec fn one_more(counter: u32) -> u32 {
    if counter < u32::MAX {
        (counter + 1) as u32
    } else {
        u32::MAX
    }
}

/// The summary once a Region's header has been added.
pub open spec fn with_region(summary: RegionSummary, probe: RegionProbe) -> RegionSummary {
    match probe {
        RegionProbe::Truncated { offset } => if offset + REGION_HEADER_SIZE > u64::MAX {
            RegionSummary { invalid_headers: one_more(summary.invalid_headers), ..summary }
        } else {
            RegionSummary { truncated_headers: one_more(summary.truncated_headers), ..summary }
        },
        RegionProbe::Valid { offset, header } => {
            let counted = RegionSummary {
                valid_headers: one_more(summary.valid_headers),
                record_extent_bytes: tally(
                    summary.record_extent_bytes,
                    if header.used >= REGION_HEADER_SIZE {
                        (header.used - REGION_HEADER_SIZE) as u64
                    } else {
                        0
                    },
                ),
                ..summary
            };
            match header.state {
                RegionState::Free => RegionSummary { free: one_more(summary.free), ..counted },
                RegionState::Active => RegionSummary { active: one_more(summary.active), ..counted },
                RegionState::Sealed => RegionSummary { sealed: one_more(summary.sealed), ..counted },
            }
        },
        _ => RegionSummary { invalid_headers: one_more(summary.invalid_headers), ..summary },
    }
}

/// The first `count` Region Headers in short.
pub open spec fn region_summary(contents: Seq<u8>, superblock: Superblock, count: nat) -> RegionSummary
    decreases count,
{
    if count == 0 {
        RegionSummary::empty(superblock.region_count)
    } else {
        with_region(
            region_summary(contents, superblock, (count - 1) as nat),
            region_probe(contents, superblock, (count - 1) as u32),
        )
    }
}

/// Reads all Region Headers.
pub fn inspect_regions<F: OfflineFile>(file: &F, superblock: Superblock) -> (result: Result<RegionSummary, F::Error>)
    ensures
        match result {
            Ok(summary) => summary == region_summary(file.contents(), superblock, superblock.region_count as nat),
            Err(_) => !file.reliable(),
        },
{
    let mut summary = RegionSummary {
        expected: superblock.region_count,
        valid_headers: 0,
        invalid_headers: 0,
        truncated_headers: 0,
        free: 0,
        active: 0,
        sealed: 0,
        record_extent_bytes: 0,
    };
    let mut region_id: u32 = 0;
    while region_id < superblock.region_count
        invariant
            region_id <= superblock.region_count,
            summary == region_summary(file.contents(), superblock, region_id as nat),
        decreases superblock.region_count - region_id,
    {
        match probe_region(file, superblock, region_id) {
            Ok(RegionProbe::Truncated { offset }) => {
                if offset > u64::MAX - REGION_HEADER_SIZE as u64 {
                    summary.invalid_headers = summary.invalid_headers.saturating_add(1);
                } else {
                    summary.truncated_headers = summary.truncated_headers.saturating_add(1);
                }
            },
            Ok(RegionProbe::Valid { offset: _, header }) => {
                summary.valid_headers = summary.valid_headers.saturating_add(1);
                summary.record_extent_bytes = summary.record_extent_bytes.saturating_add(
                    header.used.saturating_sub(REGION_HEADER_SIZE as u64),
                );
                match header.state {
                    RegionState::Free => {
                        summary.free = summary.free.saturating_add(1);
                    },
                    RegionState::Active => {
                        summary.active = summary.active.saturating_add(1);
                    },
                    RegionState::Sealed => {
                        summary.sealed = summary.sealed.saturating_add(1);
                    },
                }
            },
            Ok(_) => {
                summary.invalid_headers = summary.invalid_headers.saturating_add(1);
            },
            Err(error) => {
                return Err(error);
            },
        }
        region_id = region_id + 1;
    }
    Ok(summary)
}

// ---------------------------------------------------------------------------
// Checkpoint directory and slot headers
// ---------------------------------------------------------------------------

/// A checkpoint belongs to the history of the Superblock: of a clean one it is
/// the very checkpoint, of a dirty one the last checkpoint before the dirty
/// marker, either in the same epoch or before the epoch was advanced.
pub open spec fn lineage_matches(header: CheckpointSlotHeader, superblock: Superblock) -> bool {
    &&& header.generation == header.superblock_generation
    &&& header.hash_seed == superblock.hash_seed
    &&& if superblock.clean {
        &&& header.superblock_generation == superblock.generation
        &&& header.epoch == superblock.epoch
        &&& header.epoch_start_seqno == superblock.epoch_start_seqno
        &&& header.max_seqno + 1 == superblock.next_seqno
    } else if header.epoch == superblock.epoch {
        &&& header.superblock_generation + 1 == superblock.generation
        &&& header.epoch_start_seqno == superblock.epoch_start_seqno
        &&& header.max_seqno + 1 == superblock.next_seqno
    } else {
        &&& header.superblock_generation + 2 <= superblock.generation
        &&& header.epoch < superblock.epoch
        &&& header.epoch_start_seqno < superblock.epoch_start_seqno
        &&& header.max_seqno < superblock.epoch_start_seqno
        &&& superblock.epoch_start_seqno + 1 == superblock.next_seqno
    }
}

/// Whether a checkpoint belongs to the history of the Superblock.
pub fn checkpoint_matches_superblock(header: CheckpointSlotHeader, superblock: Superblock) -> (matches: bool)
    ensures
        matches == lineage_matches(header, superblock),
{
    if header.generation != header.superblock_generation || header.hash_seed != superblock.hash_seed {
        return false;
    }
    if superblock.clean {
        return header.superblock_generation == superblock.generation && header.epoch == superblock.epoch && header.epoch_start_seqno
            == superblock.epoch_start_seqno && superblock.next_seqno.checked_sub(1) == Some(header.max_seqno);
    }
    if header.superblock_generation >= superblock.generation {
        return false;
    }
    if header.epoch == superblock.epoch {
        return header.epoch_start_seqno == superblock.epoch_start_seqno && header.max_seqno.checked_add(1) == Some(
            superblock.next_seqno,
        ) && header.superblock_generation.checked_add(1) == Some(superblock.generation);
    }
    header.epoch < superblock.epoch && header.epoch_start_seqno < superblock.epoch_start_seqno && header.max_seqno
        < superblock.epoch_start_seqno && superblock.epoch_start_seqno.checked_add(1) == Some(superblock.next_seqno)
        && match header.superblock_generation.checked_add(2) {
        Some(minimum) => minimum <= superblock.generation,
        None => false,
    }
}

/// A slot's header, if it is readable, and the slot in short.
pub open spec fn slot_inspection(
    contents: Seq<u8>,
    directory: CheckpointDirectory,
    superblock: Superblock,
    slot: u8,
) -> (CheckpointSlotSummary, Option<CheckpointSlotHeader>) {
    match directory.header_offset(slot as int) {
        Err(_) => (CheckpointSlotSummary::bare_of(slot, CheckpointSlotState::Invalid), None),
        Ok(offset) => if offset + CHECKPOINT_SLOT_HEADER_SIZE > u64::MAX {
            (CheckpointSlotSummary::bare_of(slot, CheckpointSlotState::Invalid), None)
        } else if offset >= contents.len() {
            (CheckpointSlotSummary::bare_of(slot, CheckpointSlotState::Absent), None)
        } else if offset + CHECKPOINT_SLOT_HEADER_SIZE > contents.len() {
            (CheckpointSlotSummary::bare_of(slot, CheckpointSlotState::Truncated), None)
        } else {
            let page = contents.subrange(offset as int, offset + CHECKPOINT_SLOT_HEADER_SIZE);
            if all_zero(page) {
                (CheckpointSlotSummary::bare_of(slot, CheckpointSlotState::Absent), None)
            } else {
                match CheckpointSlotHeader::held(page, directory, slot as int) {
                    Err(_) => (CheckpointSlotSummary::bare_of(slot, CheckpointSlotState::Invalid), None),
                    Ok(header) => (
                        CheckpointSlotSummary {
                            slot,
                            state: CheckpointSlotState::HeaderValid,
                            version: Some(header.version),
                            generation: Some(header.generation),
                            superblock_generation: Some(header.superblock_generation),
                            entry_count: Some(header.entry_count),
                            payload_len: Some(header.payload_len),
                            matches_selected_superblock: lineage_matches(header, superblock),
                        },
                        Some(header),
                    ),
                }
            }
        },
    }
}

/// The directory page, or the state of an area without a usable one.
pub open spec fn directory_inspection(contents: Seq<u8>, superblock: Superblock, data_file_len: u64) -> Result<
    CheckpointDirectory,
    CheckpointDirectoryState,
> {
    if contents.len() <= data_file_len {
        Err(CheckpointDirectoryState::Absent)
    } else if data_file_len + CHECKPOINT_DIRECTORY_SIZE > contents.len() {
        Err(CheckpointDirectoryState::Truncated)
    } else {
        let page = contents.subrange(data_file_len as int, data_file_len + CHECKPOINT_DIRECTORY_SIZE);
        if all_zero(page) {
            Err(CheckpointDirectoryState::Absent)
        } else {
            match CheckpointDirectory::held(page) {
                Err(_) => Err(CheckpointDirectoryState::Invalid),
                Ok(directory) => if directory.data_file_len != data_file_len || directory.region_size != superblock.region_size
                    || directory.region_count != superblock.region_count {
                    Err(CheckpointDirectoryState::LayoutMismatch)
                } else {
                    Ok(directory)
                },
            }
        }
    }
}

/// What the checkpoint area says.
#[derive(Clone, Copy, Debug)]
pub struct CheckpointInspection {
    pub summary: CheckpointSummary,
    pub directory: Option<CheckpointDirectory>,
    pub headers: [Option<CheckpointSlotHeader>; 2],
}

impl CheckpointInspection {
    /// An area without readable slots.
    pub open spec fn without_slots(state: CheckpointDirectoryState) -> CheckpointInspection {
        CheckpointInspection { summary: CheckpointSummary::without_slots(state), directory: None, headers: [None, None] }
    }

    /// An area without readable slots.
    fn bare(state: CheckpointDirectoryState) -> (inspection: CheckpointInspection)
        ensures
            inspection == CheckpointInspection::without_slots(state),
    {
        CheckpointInspection { summary: CheckpointSummary::bare(state), directory: None, headers: [None, None] }
    }
}

/// The newer of the slots that belong to the Superblock's history, the first
/// of two equally new ones.
pub open spec fn newest_slot(
    first: Option<CheckpointSlotHeader>,
    second: Option<CheckpointSlotHeader>,
    superblock: Superblock,
) -> Option<u8> {
    let first_matches = first is Some && lineage_matches(first->0, superblock);
    let second_matches = second is Some && lineage_matches(second->0, superblock);
    if second_matches && (!first_matches || second->0.generation > first->0.generation) {
        Some(1u8)
    } else if first_matches {
        Some(0u8)
    } else {
        None
    }
}

/// What the checkpoint area of a file says.
pub open spec fn checkpoint_inspection(contents: Seq<u8>, superblock: Superblock, data_file_len: u64) -> CheckpointInspection {
    match directory_inspection(contents, superblock, data_file_len) {
        Err(state) => CheckpointInspection::without_slots(state),
        Ok(directory) => {
            let (first_summary, first) = slot_inspection(contents, directory, superblock, 0);
            let (second_summary, second) = slot_inspection(contents, directory, superblock, 1);
            CheckpointInspection {
                summary: CheckpointSummary {
                    directory_state: CheckpointDirectoryState::Valid,
                    slot_size: Some(directory.slot_size),
                    expected_file_len: match directory.end() {
                        Ok(length) => Some(length),
                        Err(_) => None,
                    },
                    selected_header_slot: newest_slot(first, second, superblock),
                    slots: [first_summary, second_summary],
                },
                directory: Some(directory),
                headers: [first, second],
            }
        },
    }
}

/// Reads one slot's header.
fn inspect_slot<F: OfflineFile>(file: &F, directory: CheckpointDirectory, superblock: Superblock, slot: u8) -> (result: Result<
    (CheckpointSlotSummary, Option<CheckpointSlotHeader>),
    F::Error,
>)
    ensures
        match result {
            Ok(pair) => pair == slot_inspection(file.contents(), directory, superblock, slot),
            Err(_) => !file.reliable(),
        },
{
    let file_len = file.len();
    let offset: u64 = match directory.slot_header_offset(slot as usize) {
        Ok(offset) => offset,
        Err(_) => {
            return Ok((CheckpointSlotSummary::bare(slot, CheckpointSlotState::Invalid), None));
        },
    };
    let end: u64 = match offset.checked_add(CHECKPOINT_SLOT_HEADER_SIZE as u64) {
        Some(end) => end,
        None => {
            return Ok((CheckpointSlotSummary::bare(slot, CheckpointSlotState::Invalid), None));
        },
    };
    if offset >= file_len {
        return Ok((CheckpointSlotSummary::bare(slot, CheckpointSlotState::Absent), None));
    }
    if end > file_len {
        return Ok((CheckpointSlotSummary::bare(slot, CheckpointSlotState::Truncated), None));
    }
    let page = match file.read_exact_at(offset, CHECKPOINT_SLOT_HEADER_SIZE) {
        Ok(page) => page,
        Err(error) => {
            return Err(error);
        },
    };
    if is_all_zero(page.as_slice()) {
        return Ok((CheckpointSlotSummary::bare(slot, CheckpointSlotState::Absent), None));
    }
    match CheckpointSlotHeader::decode(page.as_slice(), directory, slot as usize) {
        Ok(header) => Ok(
            (
                CheckpointSlotSummary {
                    slot,
                    state: CheckpointSlotState::HeaderValid,
                    version: Some(header.version),
                    generation: Some(header.generation),
                    superblock_generation: Some(header.superblock_generation),
                    entry_count: Some(header.entry_count),
                    payload_len: Some(header.payload_len),
                    matches_selected_superblock: checkpoint_matches_superblock(header, superblock),
                },
                Some(header),
            ),
        ),
        Err(_) => Ok((CheckpointSlotSummary::bare(slot, CheckpointSlotState::Invalid), None)),
    }
}

/// Reads the directory page.
fn inspect_directory<F: OfflineFile>(file: &F, superblock: Superblock, data_file_len: u64) -> (result: Result<
    Result<CheckpointDirectory, CheckpointDirectoryState>,
    F::Error,
>)
    ensures
        match result {
            Ok(found) => found == directory_inspection(file.contents(), superblock, data_file_len),
            Err(_) => !file.reliable(),
        },
{
    let file_len = file.len();
    if file_len <= data_file_len {
        return Ok(Err(CheckpointDirectoryState::Absent));
    }
    if file_len - data_file_len < CHECKPOINT_DIRECTORY_SIZE as u64 {
        return Ok(Err(CheckpointDirectoryState::Truncated));
    }
    let page = match file.read_exact_at(data_file_len, CHECKPOINT_DIRECTORY_SIZE) {
        Ok(page) => page,
        Err(error) => {
            return Err(error);
        },
    };
    if is_all_zero(page.as_slice()) {
        return Ok(Err(CheckpointDirectoryState::Absent));
    }
    match CheckpointDirectory::decode(page.as_slice()) {
        Err(_) => Ok(Err(CheckpointDirectoryState::Invalid)),
        Ok(directory) => if directory.data_file_len != data_file_len || directory.region_size != superblock.region_size
            || directory.region_count != superblock.region_count {
            Ok(Err(CheckpointDirectoryState::LayoutMismatch))
        } else {
            Ok(Ok(directory))
        },
    }
}

/// Reads the directory and both slot headers.
pub fn inspect_checkpoint<F: OfflineFile>(file: &F, superblock: Superblock, data_file_len: u64) -> (result: Result<
    CheckpointInspection,
    F::Error,
>)
    ensures
        match result {
            Ok(inspection) => inspection == checkpoint_inspection(file.contents(), superblock, data_file_len),
            Err(_) => !file.reliable(),
        },
{
    let directory = match inspect_directory(file, superblock, data_file_len) {
        Ok(Ok(directory)) => directory,
        Ok(Err(state)) => {
            return Ok(CheckpointInspection::bare(state));
        },
        Err(error) => {
            return Err(error);
        },
    };
    let (first_summary, first) = match inspect_slot(file, directory, superblock, 0) {
        Ok(pair) => pair,
        Err(error) => {
            return Err(error);
        },
    };
    let (second_summary, second) = match inspect_slot(file, directory, superblock, 1) {
        Ok(pair) => pair,
        Err(error) => {
            return Err(error);
        },
    };
    let mut selected_header_slot: Option<u8> = None;
    let mut selected_generation: u64 = 0;
    if let Some(header) = first {
        if first_summary.matches_selected_superblock {
            selected_header_slot = Some(0);
            selected_generation = header.generation;
        }
    }
    if let Some(header) = second {
        if second_summary.matches_selected_superblock && (selected_header_slot.is_none() || header.generation > selected_generation) {
            selected_header_slot = Some(1);
        }
    }
    Ok(
        CheckpointInspection {
            summary: CheckpointSummary {
                directory_state: CheckpointDirectoryState::Valid,
                slot_size: Some(directory.slot_size),
                expected_file_len: match directory.total_file_len() {
                    Ok(length) => Some(length),
                    Err(_) => None,
                },
                selected_header_slot,
                slots: [first_summary, second_summary],
            },
            directory: Some(directory),
            headers: [first, second],
        },
    )
}

// ---------------------------------------------------------------------------
// The whole file
// ---------------------------------------------------------------------------

/// A file's report with what verification needs of it.
#[derive(Clone, Copy, Debug)]
pub struct Inspected {
    pub report: InspectReport,
    pub selected: Option<Superblock>,
    pub directory: Option<CheckpointDirectory>,
    pub headers: [Option<CheckpointSlotHeader>; 2],
}

/// What inspection finds in a file. Regions and checkpoints are looked at only
/// if the layout is supported and the file is as long as it says.
pub open spec fn inspected(contents: Seq<u8>) -> Inspected {
    let superblocks = superblock_inspection(contents);
    let bare = InspectReport {
        file_len: contents.len() as u64,
        kind: superblocks.kind,
        selected_superblock: match superblocks.selected {
            Some((slot, _)) => Some(slot),
            None => None,
        },
        data_file_len: None,
        superblocks: superblocks.summaries,
        regions: RegionSummary::empty(0),
        checkpoint: CheckpointSummary::without_slots(CheckpointDirectoryState::Absent),
    };
    match superblocks.selected {
        None => Inspected { report: bare, selected: None, directory: None, headers: [None, None] },
        Some((_, superblock)) => {
            let sized = InspectReport {
                data_file_len: data_len(superblock),
                regions: RegionSummary::empty(superblock.region_count),
                ..bare
            };
            if !supported_layout(superblock) {
                Inspected {
                    report: InspectReport { kind: CacheFileKind::CorruptV1, ..sized },
                    selected: None,
                    directory: None,
                    headers: [None, None],
                }
            } else if contents.len() < data_end(superblock) {
                Inspected { report: sized, selected: Some(superblock), directory: None, headers: [None, None] }
            } else {
                let checkpoint = checkpoint_inspection(contents, superblock, data_end(superblock) as u64);
                Inspected {
                    report: InspectReport {
                        regions: region_summary(contents, superblock, superblock.region_count as nat),
                        checkpoint: checkpoint.summary,
                        ..sized
                    },
                    selected: Some(superblock),
                    directory: checkpoint.directory,
                    headers: checkpoint.headers,
                }
            }
        },
    }
}

/// Inspects a Region file without reading record payloads.
pub fn inspect_locked<F: OfflineFile>(file: &F) -> (result: Result<Inspected, ManagementError<F::Error>>)
    ensures
        match result {
            Ok(found) => found == inspected(file.contents()),
            Err(ManagementError::Io(_)) => !file.reliable(),
            Err(_) => false,
        },
{
    let superblocks = match inspect_superblocks(file) {
        Ok(superblocks) => superblocks,
        Err(error) => {
            return Err(ManagementError::Io(error));
        },
    };
    let file_len = file.len();
    let mut report = InspectReport {
        file_len,
        kind: superblocks.kind,
        selected_superblock: match superblocks.selected {
            Some((slot, _)) => Some(slot),
            None => None,
        },
        data_file_len: None,
        superblocks: superblocks.summaries,
        regions: RegionSummary::default(),
        checkpoint: CheckpointSummary::default(),
    };
    let superblock = match superblocks.selected {
        Some((_, superblock)) => superblock,
        None => {
            return Ok(Inspected { report, selected: None, directory: None, headers: [None, None] });
        },
    };
    let length = data_file_len(superblock);
    report.data_file_len = length;
    report.regions.expected = superblock.region_count;
    if !supported_superblock_layout(superblock) {
        report.kind = CacheFileKind::CorruptV1;
        return Ok(Inspected { report, selected: None, directory: None, headers: [None, None] });
    }
    let data_file_len = length.unwrap();
    if file_len < data_file_len {
        return Ok(Inspected { report, selected: Some(superblock), directory: None, headers: [None, None] });
    }
    match inspect_regions(file, superblock) {
        Ok(regions) => {
            report.regions = regions;
        },
        Err(error) => {
            return Err(ManagementError::Io(error));
        },
    }
    match inspect_checkpoint(file, superblock, data_file_len) {
        Ok(checkpoint) => {
            report.checkpoint = checkpoint.summary;
            Ok(
                Inspected {
                    report,
                    selected: Some(superblock),
                    directory: checkpoint.directory,
                    headers: checkpoint.headers,
                },
            )
        },
        Err(error) => Err(ManagementError::Io(error)),
    }
}

/// Nothing that inspection saw speaks against the Region file.
pub open spec fn inspect_clean(report: InspectReport) -> bool {
    &&& report.kind == CacheFileKind::FormatV1
    &&& report.data_file_len is Some
    &&& report.file_len >= report.data_file_len->0
    &&& report.regions.invalid_headers == 0
    &&& report.regions.truncated_headers == 0
    &&& report.checkpoint.directory_state is Absent || report.checkpoint.directory_state is Valid
    &&& forall|k: int| 0 <= k < 2 ==> (#[trigger] report.checkpoint.slots@[k]).state is Absent || report.checkpoint.slots@[k].state is HeaderValid
}

/// Whether nothing that inspection saw speaks against the Region file.
pub fn region_inspect_valid(report: &InspectReport) -> (valid: bool)
    ensures
        valid == inspect_clean(*report),
{
    let long_enough = match report.data_file_len {
        Some(data_file_len) => report.file_len >= data_file_len,
        None => false,
    };
    let directory = match report.checkpoint.directory_state {
        CheckpointDirectoryState::Absent | CheckpointDirectoryState::Valid => true,
        _ => false,
    };
    let first = match report.checkpoint.slots[0].state {
        CheckpointSlotState::Absent | CheckpointSlotState::HeaderValid => true,
        _ => false,
    };
    let second = match report.checkpoint.slots[1].state {
        CheckpointSlotState::Absent | CheckpointSlotState::HeaderValid => true,
        _ => false,
    };
    assert(first == (report.checkpoint.slots@[0].state is Absent || report.checkpoint.slots@[0].state is HeaderValid));
    assert(second == (report.checkpoint.slots@[1].state is Absent || report.checkpoint.slots@[1].state is HeaderValid));
    report.kind == CacheFileKind::FormatV1 && long_enough && report.regions.invalid_headers == 0 && report.regions.truncated_headers
        == 0 && directory && first && second
}

// ---------------------------------------------------------------------------
// Laws
// ---------------------------------------------------------------------------

/// At most one generation of checkpoint belongs to a clean Superblock's
/// history: two matching headers agree on generation, epoch and range.
pub proof fn law_clean_lineage_is_unique(first: CheckpointSlotHeader, second: CheckpointSlotHeader, superblock: Superblock)
    requires
        superblock.clean,
        lineage_matches(first, superblock),
        lineage_matches(second, superblock),
    ensures
        first.generation == second.generation,
        first.epoch == second.epoch,
        first.epoch_start_seqno == second.epoch_start_seqno,
        first.max_seqno == second.max_seqno,
{
}

/// A checkpoint of a dirty file is always older than its Superblock, and by at
/// least two generations if the epoch was advanced in between.
pub proof fn law_dirty_lineage_is_older(header: CheckpointSlotHeader, superblock: Superblock)
    requires
        !superblock.clean,
        lineage_matches(header, superblock),
    ensures
        header.generation < superblock.generation,
        header.epoch != superblock.epoch ==> header.generation + 2 <= superblock.generation,
        header.max_seqno < superblock.next_seqno,
{
}

// ---------------------------------------------------------------------------
// What inspection finds
// ---------------------------------------------------------------------------

/// A Superblock copy is read as a page of 4096 bytes, of which the file may lack
/// the end; one that the file does not reach is missing.
pub proof fn law_superblock_copies_are_pages(contents: Seq<u8>, offset: int, k: int)
    requires
        0 <= offset,
        0 <= k < 4096,
    ensures
        superblock_page(contents, offset).len() == 4096,
        offset + k < contents.len() ==> superblock_page(contents, offset)[k] == contents[offset + k],
        offset + k >= contents.len() ==> superblock_page(contents, offset)[k] == 0,
        superblock_probe(contents, offset) is None <==> contents.len() <= offset,
        superblock_probe(contents, offset) matches Some(probe) ==> probe == Superblock::probed(superblock_page(contents, offset)),
{
}

/// The copy that counts is a valid one with the highest generation; of two equal
/// ones it is the second.
pub proof fn law_newest_superblock_counts(first: Option<SuperblockProbe>, second: Option<SuperblockProbe>)
    ensures
        newest_copy(first, second) is None <==> !(first matches Some(SuperblockProbe::ValidV1(_))) && !(second matches Some(
            SuperblockProbe::ValidV1(_),
        )),
        newest_copy(first, second) matches Some((slot, superblock)) ==> {
            &&& slot == 0 ==> first == Some(SuperblockProbe::ValidV1(superblock))
            &&& slot == 1 ==> second == Some(SuperblockProbe::ValidV1(superblock))
            &&& slot < 2
            &&& first matches Some(SuperblockProbe::ValidV1(other)) ==> other.generation <= superblock.generation
            &&& second matches Some(SuperblockProbe::ValidV1(other)) ==> other.generation <= superblock.generation && (slot == 0
                ==> other.generation < superblock.generation)
        },
{
}

/// What a file is: of an unsupported version if either copy says so; of this
/// format if a copy is valid; foreign if a copy is, or if it is longer than the
/// copies without one that is corrupt; else corrupt, empty or interrupted.
pub proof fn law_kinds_of_files(first: Option<SuperblockProbe>, second: Option<SuperblockProbe>, file_len: int)
    ensures
        ({
            let (kind, selected) = file_kind(first, second, file_len);
            let unsupported = first matches Some(SuperblockProbe::Unsupported(_)) || second matches Some(SuperblockProbe::Unsupported(_));
            let valid = first matches Some(SuperblockProbe::ValidV1(_)) || second matches Some(SuperblockProbe::ValidV1(_));
            let foreign = first == Some(SuperblockProbe::Unrecognized) || second == Some(SuperblockProbe::Unrecognized);
            let corrupt = first == Some(SuperblockProbe::CorruptV1) || second == Some(SuperblockProbe::CorruptV1);
            &&& kind is Unsupported <==> unsupported
            &&& kind matches CacheFileKind::Unsupported(version) ==> (match second {
                Some(SuperblockProbe::Unsupported(found)) => found == version,
                _ => first == Some(SuperblockProbe::Unsupported(version)),
            })
            &&& kind is FormatV1 <==> valid && !unsupported
            &&& selected is Some <==> kind is FormatV1
            &&& selected is Some ==> selected == newest_copy(first, second)
            &&& !unsupported && !valid ==> {
                &&& kind is Unrecognized <==> foreign || (file_len > 8192 && !corrupt)
                &&& kind is CorruptV1 <==> corrupt && !foreign
                &&& kind is Empty <==> !foreign && !corrupt && file_len == 0
                &&& kind is InterruptedV1 <==> !foreign && !corrupt && file_len != 0 && file_len <= 8192
            }
        }),
{
}

/// A copy's state says what was found on its page; a page of zeros that is cut
/// short is truncated.
pub proof fn law_states_of_superblocks(contents: Seq<u8>, slot: u8, offset: int)
    requires
        0 <= offset,
    ensures
        ({
            let shown = superblock_summary(contents, slot, offset);
            let page = Superblock::probed(superblock_page(contents, offset));
            let present = offset < contents.len();
            &&& shown.slot == slot
            &&& shown.state is Missing <==> !present
            &&& shown.state is Truncated <==> present && page is Empty && contents.len() < offset + 4096
            &&& shown.state is Empty <==> present && page is Empty && contents.len() >= offset + 4096
            &&& shown.state is InterruptedV1 <==> present && page is InterruptedV1
            &&& shown.state is CorruptV1 <==> present && page is CorruptV1
            &&& shown.state is Unsupported <==> present && page is Unsupported
            &&& shown.state is Unrecognized <==> present && page is Unrecognized
            &&& shown.state is ValidV1 <==> present && page is ValidV1
            &&& present ==> (page matches SuperblockProbe::ValidV1(superblock) ==> shown.generation == Some(superblock.generation)
                && shown.hash_seed == Some(superblock.hash_seed) && shown.clean == Some(superblock.clean))
        }),
{
}

/// The two copies stand at the start of the file and 4096 bytes behind it.
pub proof fn law_places_of_superblocks(contents: Seq<u8>)
    ensures
        ({
            let found = superblock_inspection(contents);
            &&& found.summaries[0] == superblock_summary(contents, 0, 0)
            &&& found.summaries[1] == superblock_summary(contents, 1, 4096)
            &&& (found.kind, found.selected) == file_kind(
                superblock_probe(contents, 0),
                superblock_probe(contents, 4096),
                contents.len() as int,
            )
        }),
{
}

/// Regions follow each other behind the copies, which take 8192 bytes; a layout
/// is supported exactly if it has between one and 2^20 - 1 Regions of at most
/// 2^32 bytes and its end is a file offset.
pub proof fn law_layouts(superblock: Superblock, region_id: int)
    requires
        region_id >= 0,
    ensures
        region_start(superblock, 0) == 8192,
        region_start(superblock, region_id + 1) == region_start(superblock, region_id) + superblock.region_size,
        data_end(superblock) == region_start(superblock, superblock.region_count as int),
        data_len(superblock) is Some <==> data_end(superblock) < 0x1_0000_0000_0000_0000,
        data_len(superblock) matches Some(length) ==> length == data_end(superblock),
        supported_layout(superblock) <==> 0 < superblock.region_count < 0x10_0000 && superblock.region_size <= 0x1_0000_0000
            && data_end(superblock) < 0x1_0000_0000_0000_0000,
{
    assert((region_id + 1) * superblock.region_size == region_id * superblock.region_size + superblock.region_size) by (nonlinear_arith);
}

/// A Region's header is consistent exactly if it names its own place, its extent
/// lies within the Region, and its generation fits its state: blank if it is
/// free, and else set and, in a clean file, before the next version.
pub proof fn law_consistent_region_headers(header: RegionHeader, id: u32, superblock: Superblock)
    ensures
        header.state is Free ==> (region_header_consistent(header, id, superblock) <==> header.region_id == id && header.incarnation
            == 0 && header.created_seqno == 0 && header.used == 4096 && superblock.region_size >= 4096),
        !(header.state is Free) ==> (region_header_consistent(header, id, superblock) <==> header.region_id == id && header.used
            <= superblock.region_size && header.incarnation > 0 && 0 < header.created_seqno < u64::MAX && (superblock.clean
            ==> header.created_seqno < superblock.next_seqno)),
{
}

/// A Region is usable exactly if a consistent header stands at its start.
pub proof fn law_usable_regions(contents: Seq<u8>, superblock: Superblock, id: u32)
    ensures
        ({
            let start = 8192 + id * superblock.region_size;
            let probe = region_probe(contents, superblock, id);
            let header = RegionHeader::held(contents.subrange(start, start + 4096));
            let placed = start < 0x1_0000_0000_0000_0000;
            let whole = start + 4096 <= contents.len();
            &&& probe is Unplaced <==> !placed
            &&& probe is Truncated <==> placed && !whole
            &&& probe is Undecodable <==> placed && whole && header is None
            &&& probe is Valid <==> placed && whole && (header matches Some(found) && region_header_consistent(found, id, superblock))
            &&& probe matches RegionProbe::Valid { offset, header: found } ==> offset == start && header == Some(found)
            &&& probe matches RegionProbe::Truncated { offset } ==> offset == start
            &&& probe matches RegionProbe::Undecodable { offset } ==> offset == start
            &&& probe matches RegionProbe::Inconsistent { offset } ==> offset == start
        }),
{
}

/// Every Region is counted once, as valid, invalid or truncated; valid ones are
/// counted by their state too, and with the bytes behind their header.
pub proof fn law_regions_are_counted(summary: RegionSummary, probe: RegionProbe)
    requires
        summary.valid_headers < u32::MAX,
        summary.invalid_headers < u32::MAX,
        summary.truncated_headers < u32::MAX,
        summary.free < u32::MAX,
        summary.active < u32::MAX,
        summary.sealed < u32::MAX,
    ensures
        ({
            let after = with_region(summary, probe);
            let state = probe->Valid_header.state;
            &&& after.expected == summary.expected
            &&& after.valid_headers + after.invalid_headers + after.truncated_headers == summary.valid_headers + summary.invalid_headers
                + summary.truncated_headers + 1
            &&& after.valid_headers == summary.valid_headers + if probe is Valid { 1int } else { 0int }
            &&& after.free == summary.free + if probe is Valid && state is Free { 1int } else { 0int }
            &&& after.active == summary.active + if probe is Valid && state is Active { 1int } else { 0int }
            &&& after.sealed == summary.sealed + if probe is Valid && state is Sealed { 1int } else { 0int }
            &&& probe matches RegionProbe::Truncated { offset } ==> (after.truncated_headers == summary.truncated_headers + 1 <==> offset
                + 4096 <= u64::MAX)
            &&& !(probe is Truncated) ==> after.truncated_headers == summary.truncated_headers
            &&& !(probe is Valid) ==> after.record_extent_bytes == summary.record_extent_bytes
            &&& probe matches RegionProbe::Valid { offset, header } ==> (header.used >= 4096 && summary.record_extent_bytes + header.used
                <= u64::MAX ==> after.record_extent_bytes == summary.record_extent_bytes + header.used - 4096)
        }),
{
}

/// The summary takes in every Region, in order.
pub proof fn law_every_region_is_counted(contents: Seq<u8>, superblock: Superblock, id: u32)
    ensures
        region_summary(contents, superblock, (id + 1) as nat) == with_region(
            region_summary(contents, superblock, id as nat),
            region_probe(contents, superblock, id),
        ),
        ({
            let none = region_summary(contents, superblock, 0);
            &&& none.expected == superblock.region_count
            &&& none.valid_headers == 0 && none.invalid_headers == 0 && none.truncated_headers == 0
            &&& none.free == 0 && none.active == 0 && none.sealed == 0 && none.record_extent_bytes == 0
        }),
{
}

/// A checkpoint belongs to a clean file exactly if it was written with that very
/// Superblock, and to one that is in use exactly if it was written with the
/// Superblock before it, of the same epoch, or with an earlier one of an earlier
/// epoch of which nothing is left behind the new epoch's start.
pub proof fn law_lineage(header: CheckpointSlotHeader, superblock: Superblock)
    ensures
        superblock.clean ==> (lineage_matches(header, superblock) <==> {
            &&& header.hash_seed == superblock.hash_seed
            &&& header.generation == superblock.generation && header.superblock_generation == superblock.generation
            &&& header.epoch == superblock.epoch && header.epoch_start_seqno == superblock.epoch_start_seqno
            &&& header.max_seqno == superblock.next_seqno - 1
        }),
        !superblock.clean && header.epoch == superblock.epoch ==> (lineage_matches(header, superblock) <==> {
            &&& header.hash_seed == superblock.hash_seed
            &&& header.generation == superblock.generation - 1 && header.superblock_generation == superblock.generation - 1
            &&& header.epoch_start_seqno == superblock.epoch_start_seqno
            &&& header.max_seqno == superblock.next_seqno - 1
        }),
        !superblock.clean && header.epoch != superblock.epoch ==> (lineage_matches(header, superblock) <==> {
            &&& header.hash_seed == superblock.hash_seed
            &&& header.generation == header.superblock_generation && header.superblock_generation <= superblock.generation - 2
            &&& header.epoch < superblock.epoch && header.epoch_start_seqno < superblock.epoch_start_seqno
            &&& header.max_seqno < superblock.epoch_start_seqno && superblock.epoch_start_seqno == superblock.next_seqno - 1
        }),
{
}

/// The directory stands behind the Regions. It is absent if the file ends there
/// or the page is blank, and valid only if it describes these very Regions.
pub proof fn law_directories(contents: Seq<u8>, superblock: Superblock, end: u64)
    ensures
        ({
            let page = contents.subrange(end as int, end + 4096);
            let found = directory_inspection(contents, superblock, end);
            let whole = end + 4096 <= contents.len();
            let decoded = CheckpointDirectory::held(page);
            &&& found == Err::<CheckpointDirectory, CheckpointDirectoryState>(CheckpointDirectoryState::Truncated) <==> end
                < contents.len() < end + 4096
            &&& found == Err::<CheckpointDirectory, CheckpointDirectoryState>(CheckpointDirectoryState::Absent) <==> contents.len()
                <= end || (whole && all_zero(page))
            &&& found == Err::<CheckpointDirectory, CheckpointDirectoryState>(CheckpointDirectoryState::Invalid) <==> whole && !all_zero(
                page,
            ) && decoded is Err
            &&& found matches Ok(directory) ==> decoded == Ok::<CheckpointDirectory, crate::checkpoint::CheckpointCodecError>(directory)
            &&& found is Ok <==> whole && !all_zero(page) && (decoded matches Ok(directory) && directory.data_file_len == end
                && directory.region_size == superblock.region_size && directory.region_count == superblock.region_count)
        }),
{
}

/// A slot's header is absent if the file ends before it or its page is blank, and
/// its summary shows what a valid one holds.
pub proof fn law_slot_headers(contents: Seq<u8>, directory: CheckpointDirectory, superblock: Superblock, slot: u8)
    requires
        slot < 2,
    ensures
        ({
            let (shown, found) = slot_inspection(contents, directory, superblock, slot);
            let start = directory.data_file_len + 4096 + slot * directory.slot_size;
            let placed = start + 4096 <= u64::MAX;
            let page = contents.subrange(start, start + 4096);
            let whole = start + 4096 <= contents.len();
            let decoded = CheckpointSlotHeader::held(page, directory, slot as int);
            &&& shown.slot == slot
            &&& shown.state is Absent <==> placed && (contents.len() <= start || (whole && all_zero(page)))
            &&& shown.state is Truncated <==> placed && start < contents.len() < start + 4096
            &&& shown.state is HeaderValid <==> placed && whole && !all_zero(page) && decoded is Ok
            &&& found is Some <==> shown.state is HeaderValid
            &&& found matches Some(header) ==> {
                &&& decoded == Ok::<CheckpointSlotHeader, crate::checkpoint::CheckpointCodecError>(header)
                &&& shown.version == Some(header.version) && shown.generation == Some(header.generation)
                &&& shown.superblock_generation == Some(header.superblock_generation)
                &&& shown.entry_count == Some(header.entry_count) && shown.payload_len == Some(header.payload_len)
                &&& shown.matches_selected_superblock == lineage_matches(header, superblock)
            }
            &&& found is None ==> shown.generation is None && !shown.matches_selected_superblock
        }),
{
}

/// The slot that counts belongs to the file and is the newest that does; of two
/// equal ones it is the first.
pub proof fn law_newest_slot_counts(
    first: Option<CheckpointSlotHeader>,
    second: Option<CheckpointSlotHeader>,
    superblock: Superblock,
)
    ensures
        ({
            let chosen = newest_slot(first, second, superblock);
            let first_fits = first matches Some(header) && lineage_matches(header, superblock);
            let second_fits = second matches Some(header) && lineage_matches(header, superblock);
            &&& chosen is None <==> !first_fits && !second_fits
            &&& chosen == Some(0u8) <==> first_fits && (second_fits ==> first->0.generation >= second->0.generation)
            &&& chosen == Some(1u8) <==> second_fits && (first_fits ==> second->0.generation > first->0.generation)
        }),
{
}

/// A file is inspected as far as its Superblocks allow: without one that counts
/// nothing else is shown, with an unsupported layout it is corrupt, and Regions
/// and checkpoints are shown only of a file that holds all of its Regions.
pub proof fn law_inspection_goes_as_far_as_it_can(contents: Seq<u8>)
    requires
        contents.len() <= u64::MAX,
    ensures
        ({
            let found = inspected(contents);
            let copies = superblock_inspection(contents);
            let report = found.report;
            &&& report.file_len == contents.len()
            &&& report.superblocks == copies.summaries
            &&& report.selected_superblock is Some <==> copies.selected is Some
            &&& copies.selected is None ==> {
                &&& report.kind == copies.kind && found.selected is None && report.data_file_len is None
                &&& report.regions.expected == 0 && report.checkpoint.directory_state is Absent
            }
            &&& copies.selected matches Some((slot, superblock)) ==> {
                &&& report.selected_superblock == Some(slot)
                &&& report.data_file_len == data_len(superblock)
                &&& report.regions.expected == superblock.region_count
                &&& found.selected == if supported_layout(superblock) {
                    Some(superblock)
                } else {
                    None
                }
                &&& report.kind == if supported_layout(superblock) {
                    copies.kind
                } else {
                    CacheFileKind::CorruptV1
                }
                &&& supported_layout(superblock) && contents.len() >= data_end(superblock) ==> {
                    &&& report.regions == region_summary(contents, superblock, superblock.region_count as nat)
                    &&& report.checkpoint.directory_state is Valid <==> found.directory is Some
                    &&& found.directory is Some <==> directory_inspection(contents, superblock, data_end(superblock) as u64) is Ok
                    &&& found.directory matches Some(directory) ==> {
                        &&& found.headers[0] == slot_inspection(contents, directory, superblock, 0).1
                        &&& found.headers[1] == slot_inspection(contents, directory, superblock, 1).1
                        &&& report.checkpoint.selected_header_slot == newest_slot(found.headers[0], found.headers[1], superblock)
                        &&& report.checkpoint.slot_size == Some(directory.slot_size)
                    }
                }
                &&& !supported_layout(superblock) || contents.len() < data_end(superblock) ==> {
                    &&& found.directory is None && found.headers[0] is None && found.headers[1] is None
                    &&& report.checkpoint.directory_state is Absent && report.checkpoint.selected_header_slot is None
                    &&& report.regions.valid_headers == 0 && report.regions.invalid_headers == 0 && report.regions.truncated_headers == 0
                }
            }
        }),
{
    let copies = superblock_inspection(contents);
    if copies.selected is Some {
        let superblock = (copies.selected->0).1;
        law_every_region_is_counted(contents, superblock, 0);
        lemma_summary_expects(contents, superblock, superblock.region_count as nat);
    }
}

proof fn lemma_summary_expects(contents: Seq<u8>, superblock: Superblock, count: nat)
    ensures
        region_summary(contents, superblock, count).expected == superblock.region_count,
    decreases count,
{
    if count > 0 {
        lemma_summary_expects(contents, superblock, (count - 1) as nat);
    }
}

/// An inspected file is in order exactly if it has this format, holds all of its
/// Regions with their headers, and neither the checkpoint directory nor a slot
/// of it is damaged.
pub proof fn law_inspected_in_order(report: InspectReport)
    ensures
        inspect_clean(report) <==> {
            let directory = report.checkpoint.directory_state;
            let first = report.checkpoint.slots[0].state;
            let second = report.checkpoint.slots[1].state;
            &&& report.kind is FormatV1
            &&& report.data_file_len matches Some(length) && report.file_len >= length
            &&& report.regions.invalid_headers == 0 && report.regions.truncated_headers == 0
            &&& !(directory is Invalid || directory is LayoutMismatch || directory is Truncated)
            &&& !(first is Invalid || first is Truncated || second is Invalid || second is Truncated)
        },
{
    let slots = report.checkpoint.slots@;
    assert(slots[0] == report.checkpoint.slots[0] && slots[1] == report.checkpoint.slots[1]);
}

} // verus!
