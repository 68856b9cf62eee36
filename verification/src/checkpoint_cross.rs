//! Offline validation of a checkpoint against the Regions as they are now.

use vstd::prelude::*;

use crate::bytes::{all_zero, is_all_zero};
use crate::checkpoint::{
    decode_region_snapshot, CheckpointCodecError, CheckpointDirectory, CheckpointRegionSnapshot, CheckpointSlotHeader,
    CHECKPOINT_LANE_VERSION,
};
use crate::checkpoint_verify::{payload_in_file, read_snapshot_bytes, snapshot_at, MAX_APPEND_LANES};
use crate::containers::sort_numbers;
use crate::format::{RecordHeader, RegionHeader, RegionState, Superblock, RECORD_HEADER_SIZE, REGION_HEADER_SIZE};
use crate::offline_file::OfflineFile;
use crate::region_file::{data_end, lemma_region_bounds, region_offset, region_start};
use crate::region_verify::{older, older_region, payload_fault, verify_record_payload, SequenceRoom};

verus! {

/// What a matching checkpoint is good for.
#[derive(Clone, Copy, Debug, PartialEq, Eq, Structural)]
pub enum CheckpointCrossValidation {
    /// The runtime can start from it.
    Usable,
    /// The runtime may infer what the checkpoint does not say; verification
    /// declines to claim that path.
    ConservativeFallback,
}

/// Why a checkpoint does not fit the Regions.
#[derive(Clone, Copy, Debug)]
pub enum CrossFault {
    Codec(CheckpointCodecError),
    Invalid(&'static str),
}

/// Why a checkpoint does not fit the Regions, with the message as text.
pub enum CrossFaultModel {
    Codec(CheckpointCodecError),
    Invalid(Seq<char>),
}

impl View for CrossFault {
    type V = CrossFaultModel;

    open spec fn view(&self) -> CrossFaultModel {
        match *self {
            CrossFault::Codec(error) => CrossFaultModel::Codec(error),
            CrossFault::Invalid(message) => CrossFaultModel::Invalid(message@),
        }
    }
}

/// Why a checkpoint could not be accepted.
#[derive(Debug)]
pub enum CheckpointCrossError<E> {
    Io(E),
    Allocation,
    Fault(CrossFault),
}

// ---------------------------------------------------------------------------
// The Regions as they are now
// ---------------------------------------------------------------------------

/// What is wrong with a decoded header in its place, if anything is.
pub open spec fn current_fault(header: RegionHeader, region_id: u32, superblock: Superblock) -> Option<Seq<char>> {
    if header.region_id != region_id || header.used > superblock.region_size {
        Some("current Region Header metadata is inconsistent"@)
    } else {
        match header.state {
            RegionState::Free => if header.incarnation == 0 && header.created_seqno == 0 && header.used == REGION_HEADER_SIZE {
                None
            } else {
                Some("current Free Region has non-empty metadata"@)
            },
            _ => if header.incarnation != 0 && header.created_seqno != 0 && header.created_seqno != u64::MAX && (
            !superblock.clean || header.created_seqno < superblock.next_seqno) {
                None
            } else {
                Some("current allocated Region has invalid generation metadata"@)
            },
        }
    }
}

/// A Region's header, or what is wrong with it.
pub open spec fn current_region(contents: Seq<u8>, superblock: Superblock, region_id: u32) -> Result<RegionHeader, Seq<char>> {
    let start = region_start(superblock, region_id as int);
    match RegionHeader::held(contents.subrange(start, start + REGION_HEADER_SIZE)) {
        None => Err("current Region Header checksum or fields are invalid"@),
        Some(header) => match current_fault(header, region_id, superblock) {
            Some(message) => Err(message),
            None => Ok(header),
        },
    }
}

/// All Regions lie in the file, each with room for its header.
pub open spec fn regions_in_file(contents: Seq<u8>, superblock: Superblock) -> bool {
    &&& data_end(superblock) <= contents.len()
    &&& superblock.region_size >= REGION_HEADER_SIZE
}

/// Reads a Region's header.
fn read_current_region<F: OfflineFile>(file: &F, superblock: Superblock, region_id: u32) -> (result: Result<
    RegionHeader,
    CheckpointCrossError<F::Error>,
>)
    requires
        regions_in_file(file.contents(), superblock),
        region_id < superblock.region_count,
    ensures
        match result {
            Ok(header) => current_region(file.contents(), superblock, region_id) == Ok::<RegionHeader, Seq<char>>(header),
            Err(CheckpointCrossError::Fault(CrossFault::Invalid(message))) => current_region(
                file.contents(),
                superblock,
                region_id,
            ) == Err::<RegionHeader, Seq<char>>(message@),
            Err(CheckpointCrossError::Fault(CrossFault::Codec(_))) => false,
            Err(CheckpointCrossError::Io(_)) => !file.reliable(),
            Err(CheckpointCrossError::Allocation) => false,
        },
{
    proof {
        lemma_region_bounds(superblock, region_id as int);
    }
    let file_len = file.len();
    let offset = region_offset(superblock, region_id).unwrap();
    let page = match file.read_exact_at(offset, REGION_HEADER_SIZE) {
        Ok(page) => page,
        Err(error) => {
            return Err(CheckpointCrossError::Io(error));
        },
    };
    let current = match RegionHeader::decode(page.as_slice()) {
        Some(current) => current,
        None => {
            return Err(
                CheckpointCrossError::Fault(CrossFault::Invalid("current Region Header checksum or fields are invalid")),
            );
        },
    };
    if current.region_id != region_id || current.used > superblock.region_size {
        return Err(CheckpointCrossError::Fault(CrossFault::Invalid("current Region Header metadata is inconsistent")));
    }
    match current.state {
        RegionState::Free => {
            if current.incarnation != 0 || current.created_seqno != 0 || current.used != REGION_HEADER_SIZE as u64 {
                return Err(CheckpointCrossError::Fault(CrossFault::Invalid("current Free Region has non-empty metadata")));
            }
        },
        _ => {
            if current.incarnation == 0 || current.created_seqno == 0 || current.created_seqno == u64::MAX || (superblock.clean
                && current.created_seqno >= superblock.next_seqno) {
                return Err(
                    CheckpointCrossError::Fault(
                        CrossFault::Invalid("current allocated Region has invalid generation metadata"),
                    ),
                );
            }
        },
    }
    Ok(current)
}

// ---------------------------------------------------------------------------
// From the snapshot to the Region of today
// ---------------------------------------------------------------------------

/// A Region may grow and be sealed in its incarnation.
pub open spec fn legal_transition(prior: RegionState, current: RegionState) -> bool {
    ||| prior is Free && current is Free
    ||| prior is Active && current is Active
    ||| prior is Active && current is Sealed
    ||| prior is Sealed && current is Sealed
}

/// What is wrong with how a Region of a dirty file changed since the
/// checkpoint, if anything is.
pub open spec fn transition_fault(current: RegionHeader, prior: CheckpointRegionSnapshot, checkpoint_max_seqno: u64) -> Option<
    Seq<char>,
> {
    if current.incarnation < prior.incarnation {
        Some("Region incarnation moved backwards from checkpoint"@)
    } else if current.incarnation == prior.incarnation {
        if legal_transition(prior.state, current.state) && current.created_seqno == prior.created_seqno && current.used
            >= prior.used {
            None
        } else {
            Some("Region changed without a new incarnation"@)
        }
    } else if current.state is Free || current.created_seqno <= checkpoint_max_seqno {
        Some("reused Region has invalid generation metadata"@)
    } else {
        None
    }
}

/// Checks how a Region of a dirty file changed since the checkpoint.
pub fn validate_dirty_region_transition(current: RegionHeader, prior: CheckpointRegionSnapshot, checkpoint_max_seqno: u64) -> (result:
    Result<(), CrossFault>)
    ensures
        match result {
            Ok(_) => transition_fault(current, prior, checkpoint_max_seqno) is None,
            Err(CrossFault::Invalid(message)) => transition_fault(current, prior, checkpoint_max_seqno) == Some(message@),
            Err(CrossFault::Codec(_)) => false,
        },
{
    if current.incarnation < prior.incarnation {
        return Err(CrossFault::Invalid("Region incarnation moved backwards from checkpoint"));
    }
    let free = match current.state {
        RegionState::Free => true,
        _ => false,
    };
    if current.incarnation == prior.incarnation {
        let legal_state = match (prior.state, current.state) {
            (RegionState::Free, RegionState::Free) => true,
            (RegionState::Active, RegionState::Active) => true,
            (RegionState::Active, RegionState::Sealed) => true,
            (RegionState::Sealed, RegionState::Sealed) => true,
            _ => false,
        };
        if !legal_state || current.created_seqno != prior.created_seqno || current.used < prior.used {
            return Err(CrossFault::Invalid("Region changed without a new incarnation"));
        }
    } else if free || current.created_seqno <= checkpoint_max_seqno {
        return Err(CrossFault::Invalid("reused Region has invalid generation metadata"));
    }
    Ok(())
}

/// A record behind the checkpoint has a sequence number and an epoch that fit
/// the checkpoint, its Region and the Superblock.
pub open spec fn tail_metadata_consistent(
    superblock: Superblock,
    checkpoint: CheckpointSlotHeader,
    current: RegionHeader,
    record: RecordHeader,
    last_seqno: Option<u64>,
) -> bool {
    &&& record.seqno != u64::MAX
    &&& record.seqno > checkpoint.max_seqno
    &&& record.seqno >= current.created_seqno
    &&& last_seqno matches Some(previous) ==> record.seqno > previous
    &&& record.epoch != 0
    &&& record.epoch <= superblock.epoch
    &&& record.epoch == superblock.epoch ==> record.seqno > superblock.epoch_start_seqno
    &&& record.epoch < superblock.epoch ==> record.seqno < superblock.epoch_start_seqno
}

/// What stands behind the checkpoint's extent of a Region.
pub enum TailStep {
    /// The tail ends here.
    End,
    /// The tail cannot be recovered.
    Fault(Seq<char>),
    /// A record; the tail goes on behind it.
    Record { next: int, seqno: u64 },
}

/// The tail ends, unless the persisted extent was not reached.
pub open spec fn tail_cut(short: bool, message: Seq<char>) -> TailStep {
    if short {
        TailStep::Fault(message)
    } else {
        TailStep::End
    }
}

/// What a decoded record header of the Region's incarnation means.
pub open spec fn tail_record(
    contents: Seq<u8>,
    superblock: Superblock,
    checkpoint: CheckpointSlotHeader,
    current: RegionHeader,
    cursor: int,
    last_seqno: Option<u64>,
    record: RecordHeader,
) -> TailStep {
    let absolute = region_start(superblock, current.region_id as int) + cursor;
    let end = cursor + record.record_len;
    if end > superblock.region_size {
        TailStep::Fault("record crosses the recovered Region boundary"@)
    } else if cursor < current.used && end > current.used {
        TailStep::Fault("record crosses the persisted Region extent"@)
    } else if !tail_metadata_consistent(superblock, checkpoint, current, record, last_seqno) {
        TailStep::Fault("incremental record generation metadata is inconsistent"@)
    } else if payload_fault(contents, superblock.hash_seed, record, absolute + RECORD_HEADER_SIZE) is Some {
        TailStep::Fault("incremental record payload checksum or key hash does not match"@)
    } else {
        TailStep::Record { next: end, seqno: record.seqno }
    }
}

/// What stands at the cursor of a Region's tail.
pub open spec fn tail_step(
    contents: Seq<u8>,
    superblock: Superblock,
    checkpoint: CheckpointSlotHeader,
    current: RegionHeader,
    cursor: int,
    last_seqno: Option<u64>,
) -> TailStep {
    let absolute = region_start(superblock, current.region_id as int) + cursor;
    let short = cursor < current.used;
    if !(current.state is Active) && !short {
        TailStep::End
    } else if cursor >= superblock.region_size {
        tail_cut(cursor > superblock.region_size, "incremental recovery cursor exceeds Region"@)
    } else if superblock.region_size - cursor < RECORD_HEADER_SIZE {
        tail_cut(short, "persisted Region tail cannot contain a record header"@)
    } else {
        let bytes = contents.subrange(absolute, absolute + RECORD_HEADER_SIZE);
        if all_zero(bytes) {
            tail_cut(short, "zero record appears inside persisted Region extent"@)
        } else {
            match RecordHeader::held(bytes) {
                None => TailStep::Fault("non-zero incremental tail has an invalid record header"@),
                Some(record) => if record.region_incarnation != current.incarnation {
                    tail_cut(short, "persisted record has the wrong Region incarnation"@)
                } else {
                    tail_record(contents, superblock, checkpoint, current, cursor, last_seqno, record)
                },
            }
        }
    }
}

/// What is wrong with a Region's tail from the cursor on, if anything is. The
/// tail of a sealed Region must end exactly at its persisted cursor.
pub open spec fn tail_fault(
    contents: Seq<u8>,
    superblock: Superblock,
    checkpoint: CheckpointSlotHeader,
    current: RegionHeader,
    cursor: int,
    last_seqno: Option<u64>,
) -> Option<Seq<char>>
    decreases superblock.region_size - cursor,
{
    match tail_step(contents, superblock, checkpoint, current, cursor, last_seqno) {
        TailStep::End => if current.state is Sealed && cursor != current.used {
            Some("sealed Region recovery did not reach its persisted cursor"@)
        } else {
            None
        },
        TailStep::Fault(message) => Some(message),
        TailStep::Record { next, seqno } => if cursor < next <= superblock.region_size {
            tail_fault(contents, superblock, checkpoint, current, next, Some(seqno))
        } else {
            None
        },
    }
}

/// What is wrong with what a Region of a dirty file gained since the
/// checkpoint, if anything is: in the same incarnation the tail starts where
/// the checkpoint ended, in a new one at the first record.
pub open spec fn incremental_fault(
    contents: Seq<u8>,
    superblock: Superblock,
    checkpoint: CheckpointSlotHeader,
    prior: CheckpointRegionSnapshot,
    current: RegionHeader,
) -> Option<Seq<char>> {
    let same = current.incarnation == prior.incarnation;
    if current.state is Free {
        None
    } else {
        tail_fault(
            contents,
            superblock,
            checkpoint,
            current,
            if same {
                prior.used as int
            } else {
                REGION_HEADER_SIZE as int
            },
            if same && prior.max_seqno != 0 {
                Some(prior.max_seqno)
            } else {
                None
            },
        )
    }
}

/// What stands at the cursor of a Region's tail.
enum TailFound {
    End,
    Fault(&'static str),
    Record { next: u64, seqno: u64 },
}

impl View for TailFound {
    type V = TailStep;

    closed spec fn view(&self) -> TailStep {
        match *self {
            TailFound::End => TailStep::End,
            TailFound::Fault(message) => TailStep::Fault(message@),
            TailFound::Record { next, seqno } => TailStep::Record { next: next as int, seqno },
        }
    }
}

/// Checks a record's sequence number and epoch.
fn tail_metadata_valid(
    superblock: Superblock,
    checkpoint: CheckpointSlotHeader,
    current: RegionHeader,
    record: RecordHeader,
    last_seqno: Option<u64>,
) -> (valid: bool)
    ensures
        valid == tail_metadata_consistent(superblock, checkpoint, current, record, last_seqno),
{
    let after_previous = match last_seqno {
        Some(previous) => record.seqno > previous,
        None => true,
    };
    record.seqno != u64::MAX && record.seqno > checkpoint.max_seqno && record.seqno >= current.created_seqno && after_previous
        && record.epoch != 0 && record.epoch <= superblock.epoch && (record.epoch != superblock.epoch || record.seqno
        > superblock.epoch_start_seqno) && (record.epoch >= superblock.epoch || record.seqno < superblock.epoch_start_seqno)
}

/// Reads what stands at the cursor of a Region's tail.
#[verifier::rlimit(40)]
#[verifier::spinoff_prover]
fn read_tail_step<F: OfflineFile>(
    file: &F,
    superblock: Superblock,
    checkpoint: CheckpointSlotHeader,
    current: RegionHeader,
    base: u64,
    cursor: u64,
    last_seqno: Option<u64>,
) -> (result: Result<TailFound, F::Error>)
    requires
        base == region_start(superblock, current.region_id as int),
        base + superblock.region_size <= file.contents().len(),
    ensures
        match result {
            Ok(found) => {
                &&& found@ == tail_step(file.contents(), superblock, checkpoint, current, cursor as int, last_seqno)
                &&& found matches TailFound::Record { next, .. } ==> cursor < next <= superblock.region_size
            },
            Err(_) => !file.reliable(),
        },
{
    let file_len = file.len();
    let active = match current.state {
        RegionState::Active => true,
        _ => false,
    };
    let short = cursor < current.used;
    if !active && !short {
        return Ok(TailFound::End);
    }
    if cursor >= superblock.region_size {
        if cursor == superblock.region_size {
            return Ok(TailFound::End);
        }
        return Ok(TailFound::Fault("incremental recovery cursor exceeds Region"));
    }
    if superblock.region_size - cursor < RECORD_HEADER_SIZE as u64 {
        if short {
            return Ok(TailFound::Fault("persisted Region tail cannot contain a record header"));
        }
        return Ok(TailFound::End);
    }
    let absolute = base + cursor;
    let bytes = match file.read_exact_at(absolute, RECORD_HEADER_SIZE) {
        Ok(bytes) => bytes,
        Err(error) => {
            return Err(error);
        },
    };
    if is_all_zero(bytes.as_slice()) {
        if short {
            return Ok(TailFound::Fault("zero record appears inside persisted Region extent"));
        }
        return Ok(TailFound::End);
    }
    let record = match RecordHeader::decode(bytes.as_slice()) {
        Some(record) => record,
        None => {
            return Ok(TailFound::Fault("non-zero incremental tail has an invalid record header"));
        },
    };
    if record.region_incarnation != current.incarnation {
        if short {
            return Ok(TailFound::Fault("persisted record has the wrong Region incarnation"));
        }
        return Ok(TailFound::End);
    }
    if record.record_len as u64 > superblock.region_size - cursor {
        return Ok(TailFound::Fault("record crosses the recovered Region boundary"));
    }
    let end = cursor + record.record_len as u64;
    if short && end > current.used {
        return Ok(TailFound::Fault("record crosses the persisted Region extent"));
    }
    if !tail_metadata_valid(superblock, checkpoint, current, record, last_seqno) {
        return Ok(TailFound::Fault("incremental record generation metadata is inconsistent"));
    }
    match verify_record_payload(file, superblock.hash_seed, record, absolute + RECORD_HEADER_SIZE as u64) {
        Ok(None) => Ok(TailFound::Record { next: end, seqno: record.seqno }),
        Ok(Some(_)) => Ok(TailFound::Fault("incremental record payload checksum or key hash does not match")),
        Err(error) => Err(error),
    }
}

/// Checks what a Region of a dirty file gained since the checkpoint.
pub fn verify_dirty_incremental_tail<F: OfflineFile>(
    file: &F,
    superblock: Superblock,
    checkpoint: CheckpointSlotHeader,
    prior: CheckpointRegionSnapshot,
    current: RegionHeader,
) -> (result: Result<(), CheckpointCrossError<F::Error>>)
    requires
        regions_in_file(file.contents(), superblock),
        current.region_id < superblock.region_count,
    ensures
        match result {
            Ok(_) => incremental_fault(file.contents(), superblock, checkpoint, prior, current) is None,
            Err(CheckpointCrossError::Fault(CrossFault::Invalid(message))) => incremental_fault(
                file.contents(),
                superblock,
                checkpoint,
                prior,
                current,
            ) == Some(message@),
            Err(CheckpointCrossError::Fault(CrossFault::Codec(_))) => false,
            Err(CheckpointCrossError::Io(_)) => !file.reliable(),
            Err(CheckpointCrossError::Allocation) => false,
        },
{
    proof {
        lemma_region_bounds(superblock, current.region_id as int);
    }
    let file_len = file.len();
    let (free, sealed) = match current.state {
        RegionState::Free => (true, false),
        RegionState::Active => (false, false),
        RegionState::Sealed => (false, true),
    };
    if free {
        return Ok(());
    }
    let same_incarnation = current.incarnation == prior.incarnation;
    let mut cursor: u64 = if same_incarnation {
        prior.used
    } else {
        REGION_HEADER_SIZE as u64
    };
    let mut last_seqno: Option<u64> = if same_incarnation && prior.max_seqno != 0 {
        Some(prior.max_seqno)
    } else {
        None
    };
    let base = region_offset(superblock, current.region_id).unwrap();
    let ghost complete = incremental_fault(file.contents(), superblock, checkpoint, prior, current);
    let mut scanning = true;
    while scanning
        invariant
            base == region_start(superblock, current.region_id as int),
            base + superblock.region_size <= file.contents().len(),
            scanning ==> complete == tail_fault(
                file.contents(),
                superblock,
                checkpoint,
                current,
                cursor as int,
                last_seqno,
            ),
            complete == incremental_fault(file.contents(), superblock, checkpoint, prior, current),
            !scanning ==> complete == (if current.state is Sealed && cursor != current.used {
                Some("sealed Region recovery did not reach its persisted cursor"@)
            } else {
                None
            }),
        decreases (if scanning { 1int } else { 0int }), (if cursor <= superblock.region_size {
            superblock.region_size - cursor
        } else {
            0int
        }),
    {
        match read_tail_step(file, superblock, checkpoint, current, base, cursor, last_seqno) {
            Ok(TailFound::End) => {
                scanning = false;
            },
            Ok(TailFound::Fault(message)) => {
                return Err(CheckpointCrossError::Fault(CrossFault::Invalid(message)));
            },
            Ok(TailFound::Record { next, seqno }) => {
                cursor = next;
                last_seqno = Some(seqno);
            },
            Err(error) => {
                return Err(CheckpointCrossError::Io(error));
            },
        }
    }
    if sealed && cursor != current.used {
        return Err(
            CheckpointCrossError::Fault(CrossFault::Invalid("sealed Region recovery did not reach its persisted cursor")),
        );
    }
    Ok(())
}

// ---------------------------------------------------------------------------
// Append lanes
// ---------------------------------------------------------------------------

/// No lane is taken.
pub open spec fn no_lanes() -> Seq<bool> {
    Seq::new(MAX_APPEND_LANES as nat, |k: int| false)
}

/// Exactly the first `count` lanes are taken.
pub open spec fn first_lanes(lanes: Seq<bool>, count: int) -> bool {
    forall|k: int| 0 <= k < MAX_APPEND_LANES ==> #[trigger] lanes[k] == (k < count)
}

/// Which append lanes are taken.
struct LaneSet {
    taken: Vec<bool>,
}

impl LaneSet {
    closed spec fn lanes(&self) -> Seq<bool> {
        self.taken@
    }

    fn new() -> (set: LaneSet)
        ensures
            set.lanes() == no_lanes(),
    {
        let mut taken: Vec<bool> = Vec::new();
        taken.resize(MAX_APPEND_LANES, false);
        assert(taken@ =~= no_lanes());
        LaneSet { taken }
    }

    fn contains(&self, lane: u8) -> (found: bool)
        requires
            self.lanes().len() == MAX_APPEND_LANES,
            lane < MAX_APPEND_LANES,
        ensures
            found == self.lanes()[lane as int],
    {
        self.taken[lane as usize]
    }

    fn insert(&mut self, lane: u8)
        requires
            old(self).lanes().len() == MAX_APPEND_LANES,
            lane < MAX_APPEND_LANES,
        ensures
            final(self).lanes() == old(self).lanes().update(lane as int, true),
    {
        self.taken.set(lane as usize, true);
    }

    fn is_first(&self, count: usize) -> (first: bool)
        requires
            self.lanes().len() == MAX_APPEND_LANES,
        ensures
            first == first_lanes(self.lanes(), count as int),
    {
        let mut lane: usize = 0;
        while lane < MAX_APPEND_LANES
            invariant
                self.lanes() == self.taken@,
                self.taken@.len() == MAX_APPEND_LANES,
                lane <= MAX_APPEND_LANES,
                forall|k: int| 0 <= k < lane ==> #[trigger] self.lanes()[k] == (k < count),
            decreases MAX_APPEND_LANES - lane,
        {
            if self.taken[lane] != (lane < count) {
                assert(self.lanes()[lane as int] != (lane < count));
                return false;
            }
            lane = lane + 1;
        }
        true
    }
}

// ---------------------------------------------------------------------------
// All Regions
// ---------------------------------------------------------------------------

/// What a row of Regions adds up to.
#[verifier::ext_equal]
pub struct Topology {
    pub allocated: nat,
    pub active: nat,
    pub oldest: Option<(u64, u32)>,
    pub seqnos: Seq<u64>,
}

impl Topology {
    /// No Region.
    pub open spec fn empty() -> Topology {
        Topology { allocated: 0, active: 0, oldest: None, seqnos: Seq::empty() }
    }

    /// One more Region.
    pub open spec fn with(self, state: RegionState, created_seqno: u64, region_id: u32) -> Topology {
        if state is Free {
            self
        } else {
            Topology {
                allocated: self.allocated + 1,
                active: if state is Active {
                    self.active + 1
                } else {
                    self.active
                },
                oldest: older(self.oldest, created_seqno, region_id),
                seqnos: self.seqnos.push(created_seqno),
            }
        }
    }

    /// What is wrong with the row as a whole, if anything is.
    pub open spec fn fault(self, region_count: u32) -> Option<Seq<char>> {
        if !self.seqnos.no_duplicates() {
            Some("Region creation sequence is duplicated"@)
        } else if self.active == 0 {
            Some("Region topology has no Active Region"@)
        } else {
            match self.oldest {
                Some((_, region_id)) => if self.allocated < region_count && region_id != 0 {
                    Some("partially allocated FIFO does not start at Region zero"@)
                } else {
                    None
                },
                None => None,
            }
        }
    }
}

/// The two rows of Regions, then and now, as far as they have been compared.
#[verifier::ext_equal]
pub struct CrossState {
    pub prior: Topology,
    pub prior_lanes: Seq<bool>,
    pub current: Topology,
    pub current_lanes: Seq<bool>,
    pub conservative: bool,
}

/// Snapshots of the version name the append lane of each active Region.
pub open spec fn names_lanes(header: CheckpointSlotHeader) -> bool {
    header.version >= CHECKPOINT_LANE_VERSION
}

/// What is wrong with an active Region's lane in the checkpoint, if anything
/// is.
pub open spec fn lane_fault(prior: CheckpointRegionSnapshot, lanes: Seq<bool>) -> Option<Seq<char>> {
    match prior.lane_id {
        None => Some("checkpoint Active Region has no append lane"@),
        Some(lane) => if lane >= MAX_APPEND_LANES {
            Some("checkpoint append lane is out of range"@)
        } else if lanes[lane as int] {
            Some("checkpoint append lane is duplicated"@)
        } else {
            None
        },
    }
}

/// What is wrong with a Region compared to its snapshot, if anything is: in a
/// clean file they must be the same, in a dirty one the Region may have grown.
pub open spec fn change_fault(
    contents: Seq<u8>,
    superblock: Superblock,
    header: CheckpointSlotHeader,
    prior: CheckpointRegionSnapshot,
    current: RegionHeader,
) -> Option<Seq<char>> {
    if superblock.clean {
        if current.incarnation == prior.incarnation && current.state == prior.state && current.created_seqno == prior.created_seqno
            && current.used == prior.used {
            None
        } else {
            Some("clean checkpoint does not exactly match current Region Headers"@)
        }
    } else {
        match transition_fault(current, prior, header.max_seqno) {
            Some(message) => Some(message),
            None => incremental_fault(contents, superblock, header, prior, current),
        }
    }
}

/// The state once a Region and its snapshot have been compared, or what is
/// wrong with them.
pub open spec fn cross_region(
    contents: Seq<u8>,
    superblock: Superblock,
    header: CheckpointSlotHeader,
    payload: int,
    before: CrossState,
    region_id: u32,
) -> Result<CrossState, CrossFaultModel> {
    match snapshot_at(contents, payload, header.version, region_id as int) {
        Err(error) => Err(CrossFaultModel::Codec(error)),
        Ok(prior) => match current_region(contents, superblock, region_id) {
            Err(message) => Err(CrossFaultModel::Invalid(message)),
            Ok(current) => cross_pair(contents, superblock, header, before, region_id, prior, current),
        },
    }
}

/// The state once a Region and its snapshot have been compared, or what is
/// wrong with them.
pub open spec fn cross_pair(
    contents: Seq<u8>,
    superblock: Superblock,
    header: CheckpointSlotHeader,
    before: CrossState,
    region_id: u32,
    prior: CheckpointRegionSnapshot,
    current: RegionHeader,
) -> Result<CrossState, CrossFaultModel> {
    let laned = names_lanes(header) && prior.state is Active;
    let kept = names_lanes(header) && current.state is Active && current.incarnation == prior.incarnation && prior.state is Active;
    let fresh = names_lanes(header) && current.state is Active && !(current.incarnation == prior.incarnation && prior.state is Active);
    if laned && lane_fault(prior, before.prior_lanes) is Some {
        Err(CrossFaultModel::Invalid(lane_fault(prior, before.prior_lanes)->0))
    } else {
        match change_fault(contents, superblock, header, prior, current) {
            Some(message) => Err(CrossFaultModel::Invalid(message)),
            None => if kept && before.current_lanes[prior.lane_id->0 as int] {
                Err(CrossFaultModel::Invalid("current Active Regions have duplicate append lanes"@))
            } else {
                Ok(
                    CrossState {
                        prior: before.prior.with(prior.state, prior.created_seqno, region_id),
                        prior_lanes: if laned {
                            before.prior_lanes.update(prior.lane_id->0 as int, true)
                        } else {
                            before.prior_lanes
                        },
                        current: before.current.with(current.state, current.created_seqno, region_id),
                        current_lanes: if kept {
                            before.current_lanes.update(prior.lane_id->0 as int, true)
                        } else {
                            before.current_lanes
                        },
                        conservative: before.conservative || fresh,
                    },
                )
            },
        }
    }
}

/// The state before any Region has been compared.
pub open spec fn cross_start(header: CheckpointSlotHeader) -> CrossState {
    CrossState {
        prior: Topology::empty(),
        prior_lanes: no_lanes(),
        current: Topology::empty(),
        current_lanes: no_lanes(),
        conservative: !names_lanes(header),
    }
}

/// The state once the first `count` Regions have been compared, or the first
/// thing wrong with them.
pub open spec fn cross_regions(
    contents: Seq<u8>,
    superblock: Superblock,
    header: CheckpointSlotHeader,
    payload: int,
    count: nat,
) -> Result<CrossState, CrossFaultModel>
    decreases count,
{
    if count == 0 {
        Ok(cross_start(header))
    } else {
        match cross_regions(contents, superblock, header, payload, (count - 1) as nat) {
            Err(fault) => Err(fault),
            Ok(before) => cross_region(contents, superblock, header, payload, before, (count - 1) as u32),
        }
    }
}

/// What is wrong with the rows of Regions as a whole, if anything is.
pub open spec fn cross_whole_fault(found: CrossState, superblock: Superblock, header: CheckpointSlotHeader) -> Option<Seq<char>> {
    match found.current.fault(superblock.region_count) {
        Some(message) => Some(message),
        None => match found.prior.fault(superblock.region_count) {
            Some(message) => Some(message),
            None => if found.current.active != found.prior.active {
                Some("current Active Region count differs from checkpoint"@)
            } else if found.prior.active > MAX_APPEND_LANES {
                Some("checkpoint append lane count is unsupported"@)
            } else if names_lanes(header) && !first_lanes(found.prior_lanes, found.prior.active as int) {
                Some("checkpoint append lanes are incomplete or out of range"@)
            } else if names_lanes(header) && !found.conservative && !first_lanes(found.current_lanes, found.prior.active as int) {
                Some("current Active Region append lanes are incomplete"@)
            } else {
                None
            },
        },
    }
}

/// What a checkpoint is good for, or why it does not fit the Regions.
pub open spec fn cross_validated(contents: Seq<u8>, superblock: Superblock, directory: CheckpointDirectory, header: CheckpointSlotHeader) -> Result<
    CheckpointCrossValidation,
    CrossFaultModel,
> {
    match directory.payload_offset(header.slot as int) {
        Err(error) => Err(CrossFaultModel::Codec(error)),
        Ok(payload) => match cross_regions(contents, superblock, header, payload as int, header.region_count as nat) {
            Err(fault) => Err(fault),
            Ok(found) => match cross_whole_fault(found, superblock, header) {
                Some(message) => Err(CrossFaultModel::Invalid(message)),
                None => Ok(
                    if found.conservative {
                        CheckpointCrossValidation::ConservativeFallback
                    } else {
                        CheckpointCrossValidation::Usable
                    },
                ),
            },
        },
    }
}

/// Whether a number occurs twice. The numbers are put in order.
fn has_repeats(seqnos: &mut Vec<u64>) -> (repeats: bool)
    ensures
        repeats == !old(seqnos)@.no_duplicates(),
{
    sort_numbers(seqnos);
    proof {
        if seqnos@.no_duplicates() {
            seqnos@.lemma_multiset_has_no_duplicates();
            old(seqnos)@.lemma_multiset_has_no_duplicates_conv();
        }
        if old(seqnos)@.no_duplicates() {
            old(seqnos)@.lemma_multiset_has_no_duplicates();
            seqnos@.lemma_multiset_has_no_duplicates_conv();
        }
    }
    let mut index: usize = 1;
    while index < seqnos.len()
        invariant
            1 <= index,
            old(seqnos)@.no_duplicates() == seqnos@.no_duplicates(),
            forall|i: int, j: int| 0 <= i <= j < seqnos@.len() ==> seqnos@[i] <= seqnos@[j],
            forall|k: int| 1 <= k < index && k < seqnos@.len() ==> seqnos@[k - 1] < #[trigger] seqnos@[k],
        decreases seqnos@.len() - index,
    {
        if seqnos[index - 1] == seqnos[index] {
            return true;
        }
        index = index + 1;
    }
    proof {
        assert forall|i: int, j: int| 0 <= i < j < seqnos@.len() implies seqnos@[i] != seqnos@[j] by {
            assert(seqnos@[j - 1] < seqnos@[j]);
            assert(seqnos@[i] <= seqnos@[j - 1]);
        }
    }
    false
}

/// One row of Regions, added up.
struct TopologyTally {
    allocated: u32,
    active: usize,
    oldest: Option<(u64, u32)>,
    seqnos: Vec<u64>,
}

impl TopologyTally {
    closed spec fn model(&self) -> Topology {
        Topology {
            allocated: self.allocated as nat,
            active: self.active as nat,
            oldest: self.oldest,
            seqnos: self.seqnos@,
        }
    }

    closed spec fn within(&self, count: int) -> bool {
        self.allocated <= count && self.active <= count
    }

    fn new(seqnos: Vec<u64>) -> (tally: TopologyTally)
        requires
            seqnos@.len() == 0,
        ensures
            tally.model() == Topology::empty(),
            tally.within(0),
    {
        assert(seqnos@ =~= Seq::<u64>::empty());
        TopologyTally { allocated: 0, active: 0, oldest: None, seqnos }
    }

    fn add_region(&mut self, state: RegionState, created_seqno: u64, region_id: u32)
        requires
            old(self).within(region_id as int),
            region_id < u32::MAX,
        ensures
            final(self).model() == old(self).model().with(state, created_seqno, region_id),
            final(self).within(region_id + 1),
    {
        let active = match state {
            RegionState::Free => {
                return;
            },
            RegionState::Active => true,
            RegionState::Sealed => false,
        };
        self.allocated = self.allocated + 1;
        if active {
            self.active = self.active + 1;
        }
        self.oldest = older_region(self.oldest, created_seqno, region_id);
        self.seqnos.push(created_seqno);
    }

    /// Checks the row as a whole, and puts its numbers in order.
    fn validate(&mut self, region_count: u32) -> (result: Result<(), &'static str>)
        ensures
            final(self).active == old(self).active,
            match result {
                Ok(_) => old(self).model().fault(region_count) is None,
                Err(message) => old(self).model().fault(region_count) == Some(message@),
            },
    {
        if has_repeats(&mut self.seqnos) {
            return Err("Region creation sequence is duplicated");
        }
        if self.active == 0 {
            return Err("Region topology has no Active Region");
        }
        if let Some((_, region_id)) = self.oldest {
            if self.allocated < region_count && region_id != 0 {
                return Err("partially allocated FIFO does not start at Region zero");
            }
        }
        Ok(())
    }
}

/// Checks a Region against its snapshot, but for the lanes.
fn check_change<F: OfflineFile>(
    file: &F,
    superblock: Superblock,
    header: CheckpointSlotHeader,
    prior: CheckpointRegionSnapshot,
    current: RegionHeader,
) -> (result: Result<(), CheckpointCrossError<F::Error>>)
    requires
        regions_in_file(file.contents(), superblock),
        current.region_id < superblock.region_count,
    ensures
        match result {
            Ok(_) => change_fault(file.contents(), superblock, header, prior, current) is None,
            Err(CheckpointCrossError::Fault(CrossFault::Invalid(message))) => change_fault(
                file.contents(),
                superblock,
                header,
                prior,
                current,
            ) == Some(message@),
            Err(CheckpointCrossError::Fault(CrossFault::Codec(_))) => false,
            Err(CheckpointCrossError::Io(_)) => !file.reliable(),
            Err(CheckpointCrossError::Allocation) => false,
        },
{
    if superblock.clean {
        if current.incarnation != prior.incarnation || current.state != prior.state || current.created_seqno != prior.created_seqno
            || current.used != prior.used {
            return Err(
                CheckpointCrossError::Fault(
                    CrossFault::Invalid("clean checkpoint does not exactly match current Region Headers"),
                ),
            );
        }
        return Ok(());
    }
    match validate_dirty_region_transition(current, prior, header.max_seqno) {
        Ok(_) => verify_dirty_incremental_tail(file, superblock, header, prior, current),
        Err(fault) => Err(CheckpointCrossError::Fault(fault)),
    }
}

/// The comparison of the two rows of Regions, as far as it has come.
struct CrossTally {
    prior: TopologyTally,
    prior_lanes: LaneSet,
    current: TopologyTally,
    current_lanes: LaneSet,
    conservative: bool,
}

impl CrossTally {
    closed spec fn model(&self) -> CrossState {
        CrossState {
            prior: self.prior.model(),
            prior_lanes: self.prior_lanes.lanes(),
            current: self.current.model(),
            current_lanes: self.current_lanes.lanes(),
            conservative: self.conservative,
        }
    }

    closed spec fn within(&self, count: int) -> bool {
        &&& self.prior.within(count)
        &&& self.current.within(count)
        &&& self.prior_lanes.lanes().len() == MAX_APPEND_LANES
        &&& self.current_lanes.lanes().len() == MAX_APPEND_LANES
    }

    /// Takes in a Region and its snapshot.
    #[verifier::rlimit(40)]
    #[verifier::spinoff_prover]
    fn compare<F: OfflineFile>(
        &mut self,
        file: &F,
        superblock: Superblock,
        header: CheckpointSlotHeader,
        region_id: u32,
        prior: CheckpointRegionSnapshot,
        current: RegionHeader,
    ) -> (result: Result<(), CheckpointCrossError<F::Error>>)
        requires
            old(self).within(region_id as int),
            region_id < u32::MAX,
            regions_in_file(file.contents(), superblock),
            current.region_id < superblock.region_count,
        ensures
            match result {
                Ok(_) => {
                    &&& cross_pair(file.contents(), superblock, header, old(self).model(), region_id, prior, current) == Ok::<
                        CrossState,
                        CrossFaultModel,
                    >(final(self).model())
                    &&& final(self).within(region_id + 1)
                },
                Err(CheckpointCrossError::Fault(fault)) => cross_pair(
                    file.contents(),
                    superblock,
                    header,
                    old(self).model(),
                    region_id,
                    prior,
                    current,
                ) == Err::<CrossState, CrossFaultModel>(fault@),
                Err(CheckpointCrossError::Io(_)) => !file.reliable(),
                Err(CheckpointCrossError::Allocation) => false,
            },
    {
        let lanes_named = header.version >= CHECKPOINT_LANE_VERSION;
        let prior_active = match prior.state {
            RegionState::Active => true,
            _ => false,
        };
        let current_active = match current.state {
            RegionState::Active => true,
            _ => false,
        };
        let mut prior_lane: Option<u8> = None;
        if lanes_named && prior_active {
            match prior.lane_id {
                None => {
                    return Err(
                        CheckpointCrossError::Fault(CrossFault::Invalid("checkpoint Active Region has no append lane")),
                    );
                },
                Some(lane) => {
                    if lane as usize >= MAX_APPEND_LANES {
                        return Err(
                            CheckpointCrossError::Fault(CrossFault::Invalid("checkpoint append lane is out of range")),
                        );
                    }
                    if self.prior_lanes.contains(lane) {
                        return Err(
                            CheckpointCrossError::Fault(CrossFault::Invalid("checkpoint append lane is duplicated")),
                        );
                    }
                    prior_lane = Some(lane);
                },
            }
        }
        match check_change(file, superblock, header, prior, current) {
            Ok(_) => {},
            Err(error) => {
                return Err(error);
            },
        }
        let mut kept_lane: Option<u8> = None;
        if lanes_named && current_active {
            if current.incarnation == prior.incarnation && prior_active {
                if let Some(lane) = prior_lane {
                    if self.current_lanes.contains(lane) {
                        return Err(
                            CheckpointCrossError::Fault(
                                CrossFault::Invalid("current Active Regions have duplicate append lanes"),
                            ),
                        );
                    }
                    kept_lane = Some(lane);
                }
            } else {
                self.conservative = true;
            }
        }
        if let Some(lane) = prior_lane {
            self.prior_lanes.insert(lane);
        }
        if let Some(lane) = kept_lane {
            self.current_lanes.insert(lane);
        }
        self.prior.add_region(prior.state, prior.created_seqno, region_id);
        self.current.add_region(current.state, current.created_seqno, region_id);
        Ok(())
    }

    /// Checks the rows as a whole, and puts their numbers in order.
    fn validate<E>(&mut self, superblock: Superblock, header: CheckpointSlotHeader) -> (result: Result<(), CheckpointCrossError<E>>)
        requires
            old(self).prior_lanes.lanes().len() == MAX_APPEND_LANES,
            old(self).current_lanes.lanes().len() == MAX_APPEND_LANES,
        ensures
            final(self).conservative == old(self).conservative,
            match result {
                Ok(_) => cross_whole_fault(old(self).model(), superblock, header) is None,
                Err(CheckpointCrossError::Fault(CrossFault::Invalid(message))) => cross_whole_fault(
                    old(self).model(),
                    superblock,
                    header,
                ) == Some(message@),
                Err(_) => false,
            },
    {
        if let Err(message) = self.current.validate(superblock.region_count) {
            return Err(CheckpointCrossError::Fault(CrossFault::Invalid(message)));
        }
        if let Err(message) = self.prior.validate(superblock.region_count) {
            return Err(CheckpointCrossError::Fault(CrossFault::Invalid(message)));
        }
        if self.current.active != self.prior.active {
            return Err(
                CheckpointCrossError::Fault(CrossFault::Invalid("current Active Region count differs from checkpoint")),
            );
        }
        if self.prior.active > MAX_APPEND_LANES {
            return Err(CheckpointCrossError::Fault(CrossFault::Invalid("checkpoint append lane count is unsupported")));
        }
        if header.version >= CHECKPOINT_LANE_VERSION {
            if !self.prior_lanes.is_first(self.prior.active) {
                return Err(
                    CheckpointCrossError::Fault(
                        CrossFault::Invalid("checkpoint append lanes are incomplete or out of range"),
                    ),
                );
            }
            if !self.conservative && !self.current_lanes.is_first(self.prior.active) {
                return Err(
                    CheckpointCrossError::Fault(CrossFault::Invalid("current Active Region append lanes are incomplete")),
                );
            }
        }
        Ok(())
    }
}

/// Reads and compares a Region and its snapshot.
fn compare_region<F: OfflineFile>(
    file: &F,
    superblock: Superblock,
    header: CheckpointSlotHeader,
    payload: u64,
    region_id: u32,
    tally: &mut CrossTally,
) -> (result: Result<(), CheckpointCrossError<F::Error>>)
    requires
        old(tally).within(region_id as int),
        regions_in_file(file.contents(), superblock),
        payload_in_file(file.contents(), payload, header),
        region_id < header.region_count,
        header.region_count == superblock.region_count,
    ensures
        match result {
            Ok(_) => {
                &&& cross_region(file.contents(), superblock, header, payload as int, old(tally).model(), region_id) == Ok::<
                    CrossState,
                    CrossFaultModel,
                >(final(tally).model())
                &&& final(tally).within(region_id + 1)
            },
            Err(CheckpointCrossError::Fault(fault)) => cross_region(
                file.contents(),
                superblock,
                header,
                payload as int,
                old(tally).model(),
                region_id,
            ) == Err::<CrossState, CrossFaultModel>(fault@),
            Err(CheckpointCrossError::Io(_)) => !file.reliable(),
            Err(CheckpointCrossError::Allocation) => false,
        },
{
    let bytes = match read_snapshot_bytes(file, payload, header, region_id) {
        Ok(bytes) => bytes,
        Err(error) => {
            return Err(CheckpointCrossError::Io(error));
        },
    };
    let prior = match decode_region_snapshot(bytes.as_slice(), header.version) {
        Ok(prior) => prior,
        Err(error) => {
            return Err(CheckpointCrossError::Fault(CrossFault::Codec(error)));
        },
    };
    let current = match read_current_region(file, superblock, region_id) {
        Ok(current) => current,
        Err(error) => {
            return Err(error);
        },
    };
    tally.compare(file, superblock, header, region_id, prior, current)
}

proof fn lemma_first_cross_fault(
    contents: Seq<u8>,
    superblock: Superblock,
    header: CheckpointSlotHeader,
    payload: int,
    count: nat,
    total: nat,
)
    requires
        count <= total,
        cross_regions(contents, superblock, header, payload, count) is Err,
    ensures
        cross_regions(contents, superblock, header, payload, total) == cross_regions(
            contents,
            superblock,
            header,
            payload,
            count,
        ),
    decreases total,
{
    if count < total {
        lemma_first_cross_fault(contents, superblock, header, payload, count, (total - 1) as nat);
    }
}

/// Checks a checkpoint against the Regions as they are now.
pub fn cross_validate_checkpoint_regions<F: OfflineFile>(
    file: &F,
    superblock: Superblock,
    directory: CheckpointDirectory,
    header: CheckpointSlotHeader,
) -> (result: Result<CheckpointCrossValidation, CheckpointCrossError<F::Error>>)
    requires
        regions_in_file(file.contents(), superblock),
        header.region_count == superblock.region_count,
        directory.payload_offset(header.slot as int) matches Ok(payload) ==> payload_in_file(file.contents(), payload, header),
    ensures
        match result {
            Ok(validation) => cross_validated(file.contents(), superblock, directory, header) == Ok::<
                CheckpointCrossValidation,
                CrossFaultModel,
            >(validation),
            Err(CheckpointCrossError::Fault(fault)) => cross_validated(file.contents(), superblock, directory, header) == Err::<
                CheckpointCrossValidation,
                CrossFaultModel,
            >(fault@),
            Err(CheckpointCrossError::Io(_)) => !file.reliable(),
            Err(CheckpointCrossError::Allocation) => {
                &&& directory.payload_offset(header.slot as int) is Ok
                &&& header.region_count > 0
            },
        },
{
    if let Err(error) = directory.slot_payload_offset(header.slot as usize) {
        return Err(CheckpointCrossError::Fault(CrossFault::Codec(error)));
    }
    let region_count = header.region_count as usize;
    match (SequenceRoom::try_new(region_count), SequenceRoom::try_new(region_count)) {
        (Some(prior), Some(current)) => cross_validate_regions_in(file, superblock, directory, header, prior, current),
        _ => Err(CheckpointCrossError::Allocation),
    }
}

/// Checks a checkpoint against the Regions as they are now. The sequence
/// numbers of both rows of Regions are noted in `prior_room` and `current_room`.
pub fn cross_validate_regions_in<F: OfflineFile>(
    file: &F,
    superblock: Superblock,
    directory: CheckpointDirectory,
    header: CheckpointSlotHeader,
    prior_room: SequenceRoom,
    current_room: SequenceRoom,
) -> (result: Result<CheckpointCrossValidation, CheckpointCrossError<F::Error>>)
    requires
        regions_in_file(file.contents(), superblock),
        header.region_count == superblock.region_count,
        directory.payload_offset(header.slot as int) matches Ok(payload) ==> payload_in_file(file.contents(), payload, header),
        prior_room.is_empty(),
        current_room.is_empty(),
    ensures
        match result {
            Ok(validation) => cross_validated(file.contents(), superblock, directory, header) == Ok::<
                CheckpointCrossValidation,
                CrossFaultModel,
            >(validation),
            Err(CheckpointCrossError::Fault(fault)) => cross_validated(file.contents(), superblock, directory, header) == Err::<
                CheckpointCrossValidation,
                CrossFaultModel,
            >(fault@),
            Err(CheckpointCrossError::Io(_)) => !file.reliable(),
            Err(CheckpointCrossError::Allocation) => false,
        },
{
    let payload: u64 = match directory.slot_payload_offset(header.slot as usize) {
        Ok(payload) => payload,
        Err(error) => {
            return Err(CheckpointCrossError::Fault(CrossFault::Codec(error)));
        },
    };
    let mut tally = CrossTally {
        prior: TopologyTally::new(prior_room.seqnos),
        prior_lanes: LaneSet::new(),
        current: TopologyTally::new(current_room.seqnos),
        current_lanes: LaneSet::new(),
        conservative: header.version < CHECKPOINT_LANE_VERSION,
    };
    let mut region_id: u32 = 0;
    while region_id < header.region_count
        invariant
            region_id <= header.region_count,
            regions_in_file(file.contents(), superblock),
            payload_in_file(file.contents(), payload, header),
            header.region_count == superblock.region_count,
            tally.within(region_id as int),
            cross_regions(file.contents(), superblock, header, payload as int, region_id as nat) == Ok::<
                CrossState,
                CrossFaultModel,
            >(tally.model()),
            directory.payload_offset(header.slot as int) == Ok::<u64, CheckpointCodecError>(payload),
        decreases header.region_count - region_id,
    {
        match compare_region(file, superblock, header, payload, region_id, &mut tally) {
            Ok(_) => {},
            Err(error) => {
                proof {
                    if error is Fault {
                        lemma_first_cross_fault(
                            file.contents(),
                            superblock,
                            header,
                            payload as int,
                            (region_id + 1) as nat,
                            header.region_count as nat,
                        );
                    }
                }
                return Err(error);
            },
        }
        region_id = region_id + 1;
    }
    match tally.validate(superblock, header) {
        Ok(_) => {},
        Err(error) => {
            return Err(error);
        },
    }
    Ok(
        if tally.conservative {
            CheckpointCrossValidation::ConservativeFallback
        } else {
            CheckpointCrossValidation::Usable
        },
    )
}

// ---------------------------------------------------------------------------
// What makes a checkpoint usable
// ---------------------------------------------------------------------------

/// A Region's header as it is now is acceptable exactly if it can be read, names
/// its own place, its extent lies within the Region, and its generation fits its
/// state.
pub proof fn law_current_headers(contents: Seq<u8>, superblock: Superblock, id: u32)
    ensures
        ({
            let start = 8192 + id * superblock.region_size;
            let held = RegionHeader::held(contents.subrange(start, start + 4096));
            let found = current_region(contents, superblock, id);
            &&& held is None ==> found == Err::<RegionHeader, Seq<char>>("current Region Header checksum or fields are invalid"@)
            &&& held matches Some(header) ==> {
                let placed = header.region_id == id && header.used <= superblock.region_size;
                let blank = header.incarnation == 0 && header.created_seqno == 0 && header.used == 4096;
                let dated = header.incarnation > 0 && 0 < header.created_seqno < u64::MAX && (superblock.clean ==> header.created_seqno
                    < superblock.next_seqno);
                &&& found == Ok::<RegionHeader, Seq<char>>(header) <==> placed && (if header.state is Free {
                    blank
                } else {
                    dated
                })
                &&& !placed ==> found == Err::<RegionHeader, Seq<char>>("current Region Header metadata is inconsistent"@)
                &&& placed && header.state is Free && !blank ==> found == Err::<RegionHeader, Seq<char>>(
                    "current Free Region has non-empty metadata"@,
                )
                &&& placed && !(header.state is Free) && !dated ==> found == Err::<RegionHeader, Seq<char>>(
                    "current allocated Region has invalid generation metadata"@,
                )
            }
        }),
{
}

/// Between a checkpoint and now a Region either kept its incarnation, and then
/// its creation, did not shrink and at most was sealed; or it was reused, and
/// then after the checkpoint.
pub proof fn law_region_histories(current: RegionHeader, prior: CheckpointRegionSnapshot, max_seqno: u64)
    ensures
        ({
            let fault = transition_fault(current, prior, max_seqno);
            let kept = current.incarnation == prior.incarnation && current.created_seqno == prior.created_seqno && current.used
                >= prior.used && (current.state == prior.state || (prior.state is Active && current.state is Sealed));
            let reused = current.incarnation > prior.incarnation && !(current.state is Free) && current.created_seqno > max_seqno;
            &&& fault is None <==> kept || reused
            &&& current.incarnation < prior.incarnation ==> fault == Some("Region incarnation moved backwards from checkpoint"@)
            &&& current.incarnation == prior.incarnation && !kept ==> fault == Some("Region changed without a new incarnation"@)
            &&& current.incarnation > prior.incarnation && !reused ==> fault == Some("reused Region has invalid generation metadata"@)
        }),
{
}

/// A record behind a checkpoint is newer than it, than its Region and than the
/// record before it, and on the side of the epoch's start that its epoch says.
pub proof fn law_tail_generations(
    superblock: Superblock,
    checkpoint: CheckpointSlotHeader,
    current: RegionHeader,
    record: RecordHeader,
    last_seqno: Option<u64>,
)
    ensures
        tail_metadata_consistent(superblock, checkpoint, current, record, last_seqno) <==> {
            &&& checkpoint.max_seqno < record.seqno < u64::MAX
            &&& current.created_seqno <= record.seqno
            &&& match last_seqno {
                Some(previous) => previous < record.seqno,
                None => true,
            }
            &&& 0 < record.epoch <= superblock.epoch
            &&& if record.epoch == superblock.epoch {
                superblock.epoch_start_seqno < record.seqno
            } else {
                record.seqno < superblock.epoch_start_seqno
            }
        },
{
}

/// The record that stands at a cursor behind a checkpoint, within its Region and
/// of its incarnation.
pub open spec fn tail_record_stands(
    contents: Seq<u8>,
    superblock: Superblock,
    current: RegionHeader,
    cursor: int,
    record: RecordHeader,
) -> bool {
    let at = 8192 + current.region_id * superblock.region_size + cursor;
    &&& cursor + 64 <= superblock.region_size
    &&& !all_zero(contents.subrange(at, at + 64))
    &&& RecordHeader::held(contents.subrange(at, at + 64)) == Some(record)
    &&& record.region_incarnation == current.incarnation
}

/// Recovery goes on behind a record exactly if one stands there within the
/// Region and the persisted extent, in order and with a payload as its header
/// says. It ends without a fault exactly behind the persisted extent, where the
/// Region takes no appends, is full, or has no record of its incarnation.
pub proof fn law_tail_steps(
    contents: Seq<u8>,
    superblock: Superblock,
    checkpoint: CheckpointSlotHeader,
    current: RegionHeader,
    cursor: int,
    last_seqno: Option<u64>,
)
    requires
        cursor >= 0,
    ensures
        ({
            let at = 8192 + current.region_id * superblock.region_size + cursor;
            let head = contents.subrange(at, at + 64);
            let step = tail_step(contents, superblock, checkpoint, current, cursor, last_seqno);
            let inside = cursor < current.used;
            let read = inside || current.state is Active;
            let fits = cursor + 64 <= superblock.region_size;
            let foreign = RecordHeader::held(head) matches Some(record) && record.region_incarnation != current.incarnation;
            &&& step matches TailStep::Record { next, seqno } ==> (RecordHeader::held(head) matches Some(record) && {
                &&& read && tail_record_stands(contents, superblock, current, cursor, record)
                &&& next == cursor + record.record_len && seqno == record.seqno
                &&& next <= superblock.region_size && (inside ==> next <= current.used)
                &&& tail_metadata_consistent(superblock, checkpoint, current, record, last_seqno)
                &&& payload_fault(contents, superblock.hash_seed, record, at + 64) is None
            })
            &&& forall|record: RecordHeader| #[trigger]
                tail_record_stands(contents, superblock, current, cursor, record) && read && cursor + record.record_len
                    <= superblock.region_size && (inside ==> cursor + record.record_len <= current.used) && tail_metadata_consistent(
                    superblock,
                    checkpoint,
                    current,
                    record,
                    last_seqno,
                ) && payload_fault(contents, superblock.hash_seed, record, at + 64) is None ==> step is Record
            &&& step is End <==> (!inside && (!(current.state is Active) || (cursor <= superblock.region_size && (!fits || all_zero(head)
                || foreign)))) || (inside && cursor == superblock.region_size)
        }),
{
}

/// Recovery of a Region has no fault exactly if none of its records has one and
/// a sealed Region's records end at its persisted cursor.
pub proof fn law_tail_is_read_in_turn(
    contents: Seq<u8>,
    superblock: Superblock,
    checkpoint: CheckpointSlotHeader,
    current: RegionHeader,
    cursor: int,
    last_seqno: Option<u64>,
)
    ensures
        ({
            let fault = tail_fault(contents, superblock, checkpoint, current, cursor, last_seqno);
            match tail_step(contents, superblock, checkpoint, current, cursor, last_seqno) {
                TailStep::Fault(message) => fault == Some(message),
                TailStep::End => {
                    &&& fault is None <==> !(current.state is Sealed) || cursor == current.used
                    &&& fault is Some ==> fault == Some("sealed Region recovery did not reach its persisted cursor"@)
                },
                TailStep::Record { next, seqno } => cursor < next <= superblock.region_size ==> fault == tail_fault(
                    contents,
                    superblock,
                    checkpoint,
                    current,
                    next,
                    Some(seqno),
                ),
            }
        }),
{
}

/// A kept Region is recovered from where the checkpoint left it, behind its last
/// version if it has one; a reused one from behind its header; a free one not at
/// all.
pub proof fn law_recovery_starts_behind_the_checkpoint(
    contents: Seq<u8>,
    superblock: Superblock,
    checkpoint: CheckpointSlotHeader,
    prior: CheckpointRegionSnapshot,
    current: RegionHeader,
)
    ensures
        ({
            let fault = incremental_fault(contents, superblock, checkpoint, prior, current);
            let kept = current.incarnation == prior.incarnation;
            &&& current.state is Free ==> fault is None
            &&& !(current.state is Free) && kept && prior.max_seqno > 0 ==> fault == tail_fault(
                contents,
                superblock,
                checkpoint,
                current,
                prior.used as int,
                Some(prior.max_seqno),
            )
            &&& !(current.state is Free) && kept && prior.max_seqno == 0 ==> fault == tail_fault(
                contents,
                superblock,
                checkpoint,
                current,
                prior.used as int,
                None,
            )
            &&& !(current.state is Free) && !kept ==> fault == tail_fault(contents, superblock, checkpoint, current, 4096, None)
        }),
{
}

/// In a clean file a Region is exactly as its snapshot; in one that is in use it
/// has a history and can be recovered.
pub proof fn law_changes_since_the_checkpoint(
    contents: Seq<u8>,
    superblock: Superblock,
    header: CheckpointSlotHeader,
    prior: CheckpointRegionSnapshot,
    current: RegionHeader,
)
    ensures
        superblock.clean ==> (change_fault(contents, superblock, header, prior, current) is None <==> current.incarnation
            == prior.incarnation && current.state == prior.state && current.created_seqno == prior.created_seqno && current.used
            == prior.used),
        !superblock.clean ==> (change_fault(contents, superblock, header, prior, current) is None <==> transition_fault(
            current,
            prior,
            header.max_seqno,
        ) is None && incremental_fault(contents, superblock, header, prior, current) is None),
        !superblock.clean ==> (transition_fault(current, prior, header.max_seqno) matches Some(message) ==> change_fault(
            contents,
            superblock,
            header,
            prior,
            current,
        ) == Some(message)),
{
}

/// Allocated Regions are counted, as Active if they are, with their creation
/// sequences; the oldest is the first with the smallest.
pub proof fn law_regions_are_gathered(topology: Topology, state: RegionState, created_seqno: u64, id: u32)
    ensures
        ({
            let after = topology.with(state, created_seqno, id);
            &&& state is Free ==> after == topology
            &&& !(state is Free) ==> {
                &&& after.allocated == topology.allocated + 1
                &&& after.active == topology.active + if state is Active { 1int } else { 0int }
                &&& after.seqnos == topology.seqnos + seq![created_seqno]
                &&& topology.oldest is None ==> after.oldest == Some((created_seqno, id))
                &&& topology.oldest matches Some((seqno, owner)) ==> after.oldest == if created_seqno < seqno {
                    Some((created_seqno, id))
                } else {
                    Some((seqno, owner))
                }
            }
        }),
{
    assert(topology.seqnos.push(created_seqno) =~= topology.seqnos + seq![created_seqno]);
}

/// Regions fit together exactly if no creation sequence occurs twice, one of
/// them is Active, and the oldest is the first unless all are allocated.
pub proof fn law_fitting_topologies(topology: Topology, region_count: u32)
    ensures
        ({
            let distinct = forall|i: int, j: int| 0 <= i < j < topology.seqnos.len() ==> topology.seqnos[i] != topology.seqnos[j];
            let ordered = match topology.oldest {
                Some((_, id)) => id == 0 || topology.allocated >= region_count,
                None => true,
            };
            &&& topology.fault(region_count) is None <==> distinct && topology.active > 0 && ordered
            &&& !distinct ==> topology.fault(region_count) == Some("Region creation sequence is duplicated"@)
            &&& distinct && topology.active == 0 ==> topology.fault(region_count) == Some("Region topology has no Active Region"@)
            &&& distinct && topology.active > 0 && !ordered ==> topology.fault(region_count) == Some(
                "partially allocated FIFO does not start at Region zero"@,
            )
        }),
{
}

/// An Active Region of a checkpoint that names lanes has one of the eight, which
/// no other has.
pub proof fn law_append_lanes(prior: CheckpointRegionSnapshot, lanes: Seq<bool>)
    ensures
        lane_fault(prior, lanes) is None <==> (prior.lane_id matches Some(lane) && lane < 8 && !lanes[lane as int]),
        prior.lane_id is None ==> lane_fault(prior, lanes) == Some("checkpoint Active Region has no append lane"@),
        prior.lane_id matches Some(lane) && lane >= 8 ==> lane_fault(prior, lanes) == Some("checkpoint append lane is out of range"@),
        prior.lane_id matches Some(lane) && lane < 8 && lanes[lane as int] ==> lane_fault(prior, lanes) == Some(
            "checkpoint append lane is duplicated"@,
        ),
{
}

/// Each Region in turn is held against its snapshot. Its lane is taken in the
/// checkpoint if it was Active there, and now if it still is; a Region that has
/// become Active since makes the verdict conservative, as does a checkpoint that
/// names no lanes.
pub proof fn law_regions_are_crossed(
    contents: Seq<u8>,
    superblock: Superblock,
    header: CheckpointSlotHeader,
    before: CrossState,
    id: u32,
    prior: CheckpointRegionSnapshot,
    current: RegionHeader,
)
    requires
        before.prior_lanes.len() == 8,
        before.current_lanes.len() == 8,
    ensures
        ({
            let after = cross_pair(contents, superblock, header, before, id, prior, current);
            let named = header.version >= 3;
            let was = named && prior.state is Active;
            let still = was && current.state is Active && current.incarnation == prior.incarnation;
            let lane = prior.lane_id->0 as int;
            &&& after is Ok <==> {
                &&& change_fault(contents, superblock, header, prior, current) is None
                &&& was ==> prior.lane_id is Some && lane < 8 && !before.prior_lanes[lane]
                &&& still ==> !before.current_lanes[lane]
            }
            &&& after matches Ok(found) ==> {
                &&& found.prior == before.prior.with(prior.state, prior.created_seqno, id)
                &&& found.current == before.current.with(current.state, current.created_seqno, id)
                &&& found.conservative <==> before.conservative || (named && current.state is Active && !still)
                &&& found.prior_lanes.len() == 8 && found.current_lanes.len() == 8
                &&& forall|k: int|
                    0 <= k < 8 ==> #[trigger] found.prior_lanes[k] == (before.prior_lanes[k] || (was && k == lane))
                &&& forall|k: int|
                    0 <= k < 8 ==> #[trigger] found.current_lanes[k] == (before.current_lanes[k] || (still && k == lane))
            }
        }),
{
}

/// Crossing starts from nothing and takes in every Region, in order; the first
/// fault is the checkpoint's.
pub proof fn law_every_region_is_crossed(
    contents: Seq<u8>,
    superblock: Superblock,
    header: CheckpointSlotHeader,
    payload: int,
    id: u32,
)
    ensures
        cross_regions(contents, superblock, header, payload, 0) matches Ok(start) && {
            &&& start.prior.allocated == 0 && start.prior.active == 0 && start.prior.oldest is None && start.prior.seqnos.len() == 0
            &&& start.current == start.prior
            &&& start.conservative <==> header.version < 3
            &&& start.prior_lanes.len() == 8 && start.current_lanes.len() == 8
            &&& forall|k: int| 0 <= k < 8 ==> !#[trigger] start.prior_lanes[k]
            &&& forall|k: int| 0 <= k < 8 ==> !#[trigger] start.current_lanes[k]
        },
        cross_regions(contents, superblock, header, payload, (id + 1) as nat) == match cross_regions(
            contents,
            superblock,
            header,
            payload,
            id as nat,
        ) {
            Err(fault) => Err::<CrossState, CrossFaultModel>(fault),
            Ok(before) => cross_region(contents, superblock, header, payload, before, id),
        },
        forall|before: CrossState| #[trigger]
            cross_region(contents, superblock, header, payload, before, id) is Ok ==> {
                &&& snapshot_at(contents, payload, header.version, id as int) is Ok
                &&& current_region(contents, superblock, id) is Ok
            },
        forall|before: CrossState|
            snapshot_at(contents, payload, header.version, id as int) is Ok && current_region(contents, superblock, id) is Ok
                ==> #[trigger] cross_region(contents, superblock, header, payload, before, id) == cross_pair(
                contents,
                superblock,
                header,
                before,
                id,
                snapshot_at(contents, payload, header.version, id as int)->Ok_0,
                current_region(contents, superblock, id)->Ok_0,
            ),
{
}

/// A checkpoint passes as a whole exactly if its Regions and those of now fit
/// together, equally many of both are Active, at most eight, and where lanes are
/// named the Active Regions have the first lanes between them.
pub proof fn law_whole_checkpoints(found: CrossState, superblock: Superblock, header: CheckpointSlotHeader)
    requires
        found.prior_lanes.len() == 8,
        found.current_lanes.len() == 8,
    ensures
        cross_whole_fault(found, superblock, header) is None <==> {
            &&& found.current.fault(superblock.region_count) is None
            &&& found.prior.fault(superblock.region_count) is None
            &&& found.current.active == found.prior.active
            &&& found.prior.active <= 8
            &&& header.version >= 3 ==> forall|k: int| 0 <= k < 8 ==> (#[trigger] found.prior_lanes[k] <==> k < found.prior.active)
            &&& header.version >= 3 && !found.conservative ==> forall|k: int|
                0 <= k < 8 ==> (#[trigger] found.current_lanes[k] <==> k < found.prior.active)
        },
{
    assert(first_lanes(found.prior_lanes, found.prior.active as int) <==> forall|k: int|
        0 <= k < 8 ==> (#[trigger] found.prior_lanes[k] <==> k < found.prior.active));
    assert(first_lanes(found.current_lanes, found.prior.active as int) <==> forall|k: int|
        0 <= k < 8 ==> (#[trigger] found.current_lanes[k] <==> k < found.prior.active));
}

/// A checkpoint is usable exactly if it passes Region by Region and as a whole
/// and nothing had to be inferred; if something had, it is passed over without
/// an issue.
pub proof fn law_usable_checkpoints(
    contents: Seq<u8>,
    superblock: Superblock,
    directory: CheckpointDirectory,
    header: CheckpointSlotHeader,
)
    ensures
        ({
            let verdict = cross_validated(contents, superblock, directory, header);
            &&& verdict is Ok <==> (directory.payload_offset(header.slot as int) matches Ok(payload) && cross_regions(
                contents,
                superblock,
                header,
                payload as int,
                header.region_count as nat,
            ) matches Ok(found) && cross_whole_fault(found, superblock, header) is None)
            &&& directory.payload_offset(header.slot as int) matches Ok(payload) ==> (cross_regions(
                contents,
                superblock,
                header,
                payload as int,
                header.region_count as nat,
            ) matches Ok(found) ==> (verdict is Ok ==> (verdict->Ok_0 is Usable <==> !found.conservative)))
        }),
{
}

/// What a fault behind a checkpoint is called: a cursor or a header that does
/// not fit, a blank, unreadable or foreign record within the extent, a record
/// that crosses the Region or the extent, or one that is out of order or damaged.
pub proof fn law_tail_faults(
    contents: Seq<u8>,
    superblock: Superblock,
    checkpoint: CheckpointSlotHeader,
    current: RegionHeader,
    cursor: int,
    last_seqno: Option<u64>,
)
    requires
        cursor >= 0,
    ensures
        ({
            let at = 8192 + current.region_id * superblock.region_size + cursor;
            let head = contents.subrange(at, at + 64);
            let step = tail_step(contents, superblock, checkpoint, current, cursor, last_seqno);
            let inside = cursor < current.used;
            let read = inside || current.state is Active;
            let fits = cursor + 64 <= superblock.region_size;
            &&& read && cursor > superblock.region_size ==> step == TailStep::Fault("incremental recovery cursor exceeds Region"@)
            &&& inside && cursor < superblock.region_size && !fits ==> step == TailStep::Fault(
                "persisted Region tail cannot contain a record header"@,
            )
            &&& inside && fits && all_zero(head) ==> step == TailStep::Fault("zero record appears inside persisted Region extent"@)
            &&& read && fits && !all_zero(head) && RecordHeader::held(head) is None ==> step == TailStep::Fault(
                "non-zero incremental tail has an invalid record header"@,
            )
            &&& inside && fits && !all_zero(head) && (RecordHeader::held(head) matches Some(record) && record.region_incarnation
                != current.incarnation) ==> step == TailStep::Fault("persisted record has the wrong Region incarnation"@)
            &&& forall|record: RecordHeader| #[trigger]
                tail_record_stands(contents, superblock, current, cursor, record) && read ==> {
                    let end = cursor + record.record_len;
                    let ordered = tail_metadata_consistent(superblock, checkpoint, current, record, last_seqno);
                    let within = end <= superblock.region_size && !(inside && end > current.used);
                    &&& end > superblock.region_size ==> step == TailStep::Fault("record crosses the recovered Region boundary"@)
                    &&& end <= superblock.region_size && inside && end > current.used ==> step == TailStep::Fault(
                        "record crosses the persisted Region extent"@,
                    )
                    &&& within && !ordered ==> step == TailStep::Fault("incremental record generation metadata is inconsistent"@)
                    &&& within && ordered && payload_fault(contents, superblock.hash_seed, record, at + 64) is Some ==> step
                        == TailStep::Fault("incremental record payload checksum or key hash does not match"@)
                }
        }),
{
}

} // verus!
