//! On-disk structures of the checkpoint area behind the Regions: one directory
//! page, then two slots of one header page and a payload each. The payload is
//! one snapshot per Region followed by the index entries.

use vstd::prelude::*;

use crate::bytes::{read_u16, read_u32, read_u64, u16_at, u32_at, u64_at, write_u16, write_u32, write_u64};
use crate::checksum::{checksum_matches, crc32c_of, seal, sealed, Crc32c};
use crate::format::{RegionState, PAGE_CHECKSUM_OFFSET, REGION_HEADER_SIZE};
use crate::index::PackedLocation;

verus! {

/// Bytes of the directory page.
pub const CHECKPOINT_DIRECTORY_SIZE: usize = 4096;

/// Bytes of one slot's header page.
pub const CHECKPOINT_SLOT_HEADER_SIZE: usize = 4096;

/// Payloads are padded to whole pages.
pub const CHECKPOINT_PAGE_SIZE: u64 = 4096;

/// Number of slots.
pub const CHECKPOINT_SLOT_COUNT: usize = 2;

/// Bytes of one Region's snapshot.
pub const CHECKPOINT_REGION_SNAPSHOT_SIZE: usize = 48;

/// Bytes of one index entry.
pub const CHECKPOINT_INDEX_ENTRY_SIZE: usize = 40;

/// Bytes of one index entry of the first version, which has no expiry.
pub const CHECKPOINT_INDEX_ENTRY_SIZE_V1: usize = 32;

/// Newest version of the slot format.
pub const CHECKPOINT_VERSION: u16 = 3;

/// First version whose snapshots name the append lane of each active Region.
pub const CHECKPOINT_LANE_VERSION: u16 = 3;

/// `CRCKDIR1`, read as a number.
pub const CHECKPOINT_DIRECTORY_MAGIC: u64 = 0x3152_4944_4b43_5243;

/// `CRCKSLT1`, read as a number.
pub const CHECKPOINT_SLOT_MAGIC: u64 = 0x3154_4c53_4b43_5243;

/// Lane byte of a Region without an append lane.
pub const NO_LANE: u8 = 0xff;

/// A field that holds a value it must not hold.
#[derive(Clone, Copy, Debug, PartialEq, Eq, Structural)]
pub enum CheckpointField {
    Slot,
    SlotSize,
    Flag,
    RegionCount,
    RegionState,
    RegionUsed,
    EntryLocation,
    EntrySeqno,
}

/// Why a checkpoint structure is refused.
#[derive(Clone, Copy, Debug, PartialEq, Eq, Structural)]
pub enum CheckpointCodecError {
    InvalidLength,
    InvalidMagic,
    UnsupportedVersion(u16),
    ChecksumMismatch,
    InvalidField(CheckpointField),
    PayloadTooLarge,
    ArithmeticOverflow,
}

/// The payload length rounded up to whole pages.
pub open spec fn padded(payload_len: u64) -> Result<u64, CheckpointCodecError> {
    let pages = (payload_len + (CHECKPOINT_PAGE_SIZE - 1)) / (CHECKPOINT_PAGE_SIZE as int);
    if payload_len + (CHECKPOINT_PAGE_SIZE - 1) > u64::MAX {
        Err(CheckpointCodecError::ArithmeticOverflow)
    } else {
        Ok((pages * CHECKPOINT_PAGE_SIZE) as u64)
    }
}

/// Rounds a payload length up to whole pages.
pub fn padded_payload_len(payload_len: u64) -> (result: Result<u64, CheckpointCodecError>)
    ensures
        result == padded(payload_len),
        result matches Ok(length) ==> payload_len <= length,
{
    match payload_len.checked_add(CHECKPOINT_PAGE_SIZE - 1) {
        Some(bytes) => Ok(bytes / CHECKPOINT_PAGE_SIZE * CHECKPOINT_PAGE_SIZE),
        None => Err(CheckpointCodecError::ArithmeticOverflow),
    }
}

// ---------------------------------------------------------------------------
// Directory
// ---------------------------------------------------------------------------

/// Where the slots are and which data layout they describe.
#[derive(Clone, Copy, Debug, PartialEq, Eq, Structural)]
pub struct CheckpointDirectory {
    pub data_file_len: u64,
    pub region_size: u64,
    pub region_count: u32,
    pub slot_size: u64,
}

impl CheckpointDirectory {
    /// The directory that a page holds, or why it holds none.
    pub open spec fn held(page: Seq<u8>) -> Result<CheckpointDirectory, CheckpointCodecError> {
        if page.len() != CHECKPOINT_DIRECTORY_SIZE {
            Err(CheckpointCodecError::InvalidLength)
        } else if u64_at(page, 0) != CHECKPOINT_DIRECTORY_MAGIC {
            Err(CheckpointCodecError::InvalidMagic)
        } else if u16_at(page, 8) != 1 {
            Err(CheckpointCodecError::UnsupportedVersion(u16_at(page, 8)))
        } else if !sealed(page, PAGE_CHECKSUM_OFFSET as int) {
            Err(CheckpointCodecError::ChecksumMismatch)
        } else if u64_at(page, 40) < CHECKPOINT_SLOT_HEADER_SIZE {
            Err(CheckpointCodecError::InvalidField(CheckpointField::SlotSize))
        } else {
            Ok(
                CheckpointDirectory {
                    data_file_len: u64_at(page, 16),
                    region_size: u64_at(page, 24),
                    region_count: u32_at(page, 32),
                    slot_size: u64_at(page, 40),
                },
            )
        }
    }

    /// Where a slot's header page starts.
    pub open spec fn header_offset(self, slot: int) -> Result<u64, CheckpointCodecError> {
        let offset = self.data_file_len + CHECKPOINT_DIRECTORY_SIZE + slot * self.slot_size;
        if slot >= CHECKPOINT_SLOT_COUNT {
            Err(CheckpointCodecError::InvalidField(CheckpointField::Slot))
        } else if offset > u64::MAX {
            Err(CheckpointCodecError::ArithmeticOverflow)
        } else {
            Ok(offset as u64)
        }
    }

    /// Where a slot's payload starts.
    pub open spec fn payload_offset(self, slot: int) -> Result<u64, CheckpointCodecError> {
        match self.header_offset(slot) {
            Ok(offset) => if offset + CHECKPOINT_SLOT_HEADER_SIZE > u64::MAX {
                Err(CheckpointCodecError::ArithmeticOverflow)
            } else {
                Ok((offset + CHECKPOINT_SLOT_HEADER_SIZE) as u64)
            },
            Err(error) => Err(error),
        }
    }

    /// Where the checkpoint area ends.
    pub open spec fn end(self) -> Result<u64, CheckpointCodecError> {
        let length = self.data_file_len + CHECKPOINT_DIRECTORY_SIZE + 2 * self.slot_size;
        if length > u64::MAX {
            Err(CheckpointCodecError::ArithmeticOverflow)
        } else {
            Ok(length as u64)
        }
    }

    /// Reads a page.
    pub fn decode(page: &[u8]) -> (result: Result<CheckpointDirectory, CheckpointCodecError>)
        ensures
            result == CheckpointDirectory::held(page@),
    {
        if page.len() != CHECKPOINT_DIRECTORY_SIZE {
            return Err(CheckpointCodecError::InvalidLength);
        }
        if read_u64(page, 0) != Some(CHECKPOINT_DIRECTORY_MAGIC) {
            return Err(CheckpointCodecError::InvalidMagic);
        }
        let version = read_u16(page, 8).unwrap();
        if version != 1 {
            return Err(CheckpointCodecError::UnsupportedVersion(version));
        }
        if !checksum_matches(page, PAGE_CHECKSUM_OFFSET) {
            return Err(CheckpointCodecError::ChecksumMismatch);
        }
        let slot_size = read_u64(page, 40).unwrap();
        if slot_size < CHECKPOINT_SLOT_HEADER_SIZE as u64 {
            return Err(CheckpointCodecError::InvalidField(CheckpointField::SlotSize));
        }
        Ok(
            CheckpointDirectory {
                data_file_len: read_u64(page, 16).unwrap(),
                region_size: read_u64(page, 24).unwrap(),
                region_count: read_u32(page, 32).unwrap(),
                slot_size,
            },
        )
    }

    /// Writes a page.
    pub fn encode(&self) -> (page: Vec<u8>)
        ensures
            page@.len() == CHECKPOINT_DIRECTORY_SIZE,
            CheckpointDirectory::held(page@) == (if self.slot_size < CHECKPOINT_SLOT_HEADER_SIZE {
                Err(CheckpointCodecError::InvalidField(CheckpointField::SlotSize))
            } else {
                Ok::<CheckpointDirectory, CheckpointCodecError>(*self)
            }),
    {
        let mut page: Vec<u8> = Vec::new();
        page.resize(CHECKPOINT_DIRECTORY_SIZE, 0);
        write_u64(&mut page, 0, CHECKPOINT_DIRECTORY_MAGIC);
        write_u16(&mut page, 8, 1);
        write_u64(&mut page, 16, self.data_file_len);
        write_u64(&mut page, 24, self.region_size);
        write_u32(&mut page, 32, self.region_count);
        write_u64(&mut page, 40, self.slot_size);
        seal(&mut page, PAGE_CHECKSUM_OFFSET);
        page
    }

    /// Where a slot's header page starts.
    pub fn slot_header_offset(&self, slot: usize) -> (result: Result<u64, CheckpointCodecError>)
        ensures
            result == self.header_offset(slot as int),
    {
        if slot >= CHECKPOINT_SLOT_COUNT {
            return Err(CheckpointCodecError::InvalidField(CheckpointField::Slot));
        }
        let first: u64 = match self.data_file_len.checked_add(CHECKPOINT_DIRECTORY_SIZE as u64) {
            Some(first) => first,
            None => {
                assert(slot * self.slot_size >= 0) by (nonlinear_arith)
                    requires
                        slot >= 0,
                        self.slot_size >= 0,
                ;
                return Err(CheckpointCodecError::ArithmeticOverflow);
            },
        };
        if slot == 0 {
            return Ok(first);
        }
        assert(slot * self.slot_size == self.slot_size) by (nonlinear_arith)
            requires
                slot == 1,
        ;
        match first.checked_add(self.slot_size) {
            Some(offset) => Ok(offset),
            None => Err(CheckpointCodecError::ArithmeticOverflow),
        }
    }

    /// Where a slot's payload starts.
    pub fn slot_payload_offset(&self, slot: usize) -> (result: Result<u64, CheckpointCodecError>)
        ensures
            result == self.payload_offset(slot as int),
    {
        match self.slot_header_offset(slot) {
            Ok(offset) => match offset.checked_add(CHECKPOINT_SLOT_HEADER_SIZE as u64) {
                Some(payload) => Ok(payload),
                None => Err(CheckpointCodecError::ArithmeticOverflow),
            },
            Err(error) => Err(error),
        }
    }

    /// Where the checkpoint area ends.
    pub fn total_file_len(&self) -> (result: Result<u64, CheckpointCodecError>)
        ensures
            result == self.end(),
    {
        let length: u128 = self.data_file_len as u128 + CHECKPOINT_DIRECTORY_SIZE as u128 + 2 * (self.slot_size as u128);
        if length > u64::MAX as u128 {
            Err(CheckpointCodecError::ArithmeticOverflow)
        } else {
            Ok(length as u64)
        }
    }
}

// ---------------------------------------------------------------------------
// Slot header
// ---------------------------------------------------------------------------

/// What a slot's payload is and which Superblock it belongs to.
#[derive(Clone, Copy, Debug, PartialEq, Eq, Structural)]
pub struct CheckpointSlotHeader {
    pub version: u16,
    pub slot: u8,
    pub generation: u64,
    pub payload_len: u64,
    pub region_count: u32,
    pub entry_count: u32,
    pub epoch: u32,
    pub epoch_start_seqno: u64,
    pub max_seqno: u64,
    pub superblock_generation: u64,
    pub hash_seed: u64,
    pub payload_crc: u32,
    pub index_slots: Option<u64>,
    pub index_shards: Option<u32>,
}

/// Bytes of one index entry in a version.
pub open spec fn entry_size(version: u16) -> int {
    if version < 2 {
        CHECKPOINT_INDEX_ENTRY_SIZE_V1 as int
    } else {
        CHECKPOINT_INDEX_ENTRY_SIZE as int
    }
}

impl CheckpointSlotHeader {
    /// Bytes of the payload's snapshots and entries.
    pub open spec fn expected_payload(self) -> int {
        self.region_count * CHECKPOINT_REGION_SNAPSHOT_SIZE + self.entry_count * entry_size(self.version)
    }

    /// The fields of a page, whether or not its checksum is right.
    pub open spec fn fields(page: Seq<u8>) -> CheckpointSlotHeader {
        CheckpointSlotHeader {
            version: u16_at(page, 8),
            slot: page[10],
            generation: u64_at(page, 16),
            payload_len: u64_at(page, 24),
            region_count: u32_at(page, 32),
            entry_count: u32_at(page, 36),
            epoch: u32_at(page, 40),
            epoch_start_seqno: u64_at(page, 48),
            max_seqno: u64_at(page, 56),
            superblock_generation: u64_at(page, 64),
            hash_seed: u64_at(page, 72),
            payload_crc: u32_at(page, 80),
            index_slots: if page[11] == 1 {
                Some(u64_at(page, 88))
            } else {
                None
            },
            index_shards: if page[12] == 1 {
                Some(u32_at(page, 84))
            } else {
                None
            },
        }
    }

    /// What is wrong with a header in a slot of a directory, if anything is.
    pub open spec fn fault(self, directory: CheckpointDirectory, slot: int) -> Option<CheckpointCodecError> {
        if self.version == 0 || self.version > CHECKPOINT_VERSION {
            Some(CheckpointCodecError::UnsupportedVersion(self.version))
        } else if self.slot != slot {
            Some(CheckpointCodecError::InvalidField(CheckpointField::Slot))
        } else if self.region_count != directory.region_count {
            Some(CheckpointCodecError::InvalidField(CheckpointField::RegionCount))
        } else if self.payload_len != self.expected_payload() {
            Some(CheckpointCodecError::InvalidLength)
        } else if directory.slot_size < CHECKPOINT_SLOT_HEADER_SIZE || self.payload_len > directory.slot_size
            - CHECKPOINT_SLOT_HEADER_SIZE {
            Some(CheckpointCodecError::PayloadTooLarge)
        } else {
            None
        }
    }

    /// The header that a slot's page holds, or why it holds none.
    pub open spec fn held(page: Seq<u8>, directory: CheckpointDirectory, slot: int) -> Result<
        CheckpointSlotHeader,
        CheckpointCodecError,
    > {
        if page.len() != CHECKPOINT_SLOT_HEADER_SIZE {
            Err(CheckpointCodecError::InvalidLength)
        } else if u64_at(page, 0) != CHECKPOINT_SLOT_MAGIC {
            Err(CheckpointCodecError::InvalidMagic)
        } else if !sealed(page, PAGE_CHECKSUM_OFFSET as int) {
            Err(CheckpointCodecError::ChecksumMismatch)
        } else if page[11] > 1 || page[12] > 1 {
            Err(CheckpointCodecError::InvalidField(CheckpointField::Flag))
        } else {
            match CheckpointSlotHeader::fields(page).fault(directory, slot) {
                Some(error) => Err(error),
                None => Ok(CheckpointSlotHeader::fields(page)),
            }
        }
    }

    /// Bytes of one of the payload's index entries.
    pub fn index_entry_size(&self) -> (size: usize)
        ensures
            size == entry_size(self.version),
    {
        if self.version < 2 {
            CHECKPOINT_INDEX_ENTRY_SIZE_V1
        } else {
            CHECKPOINT_INDEX_ENTRY_SIZE
        }
    }

    /// What is wrong with the header, if anything is.
    fn find_fault(&self, directory: CheckpointDirectory, slot: usize) -> (fault: Option<CheckpointCodecError>)
        ensures
            fault == self.fault(directory, slot as int),
    {
        if self.version == 0 || self.version > CHECKPOINT_VERSION {
            return Some(CheckpointCodecError::UnsupportedVersion(self.version));
        }
        if self.slot as usize != slot {
            return Some(CheckpointCodecError::InvalidField(CheckpointField::Slot));
        }
        if self.region_count != directory.region_count {
            return Some(CheckpointCodecError::InvalidField(CheckpointField::RegionCount));
        }
        let size = self.index_entry_size() as u64;
        assert(self.entry_count * size <= 0x1_0000_0000 * 40) by (nonlinear_arith)
            requires
                self.entry_count < 0x1_0000_0000,
                size <= 40,
        ;
        assert(self.region_count * 48 <= 0x1_0000_0000 * 48);
        let expected: u64 = self.region_count as u64 * (CHECKPOINT_REGION_SNAPSHOT_SIZE as u64) + self.entry_count as u64 * size;
        if self.payload_len != expected {
            return Some(CheckpointCodecError::InvalidLength);
        }
        if directory.slot_size < CHECKPOINT_SLOT_HEADER_SIZE as u64 || self.payload_len > directory.slot_size
            - CHECKPOINT_SLOT_HEADER_SIZE as u64 {
            return Some(CheckpointCodecError::PayloadTooLarge);
        }
        None
    }

    /// Reads a slot's page.
    pub fn decode(page: &[u8], directory: CheckpointDirectory, slot: usize) -> (result: Result<
        CheckpointSlotHeader,
        CheckpointCodecError,
    >)
        ensures
            result == CheckpointSlotHeader::held(page@, directory, slot as int),
    {
        if page.len() != CHECKPOINT_SLOT_HEADER_SIZE {
            return Err(CheckpointCodecError::InvalidLength);
        }
        if read_u64(page, 0) != Some(CHECKPOINT_SLOT_MAGIC) {
            return Err(CheckpointCodecError::InvalidMagic);
        }
        if !checksum_matches(page, PAGE_CHECKSUM_OFFSET) {
            return Err(CheckpointCodecError::ChecksumMismatch);
        }
        if page[11] > 1 || page[12] > 1 {
            return Err(CheckpointCodecError::InvalidField(CheckpointField::Flag));
        }
        let header = CheckpointSlotHeader {
            version: read_u16(page, 8).unwrap(),
            slot: page[10],
            generation: read_u64(page, 16).unwrap(),
            payload_len: read_u64(page, 24).unwrap(),
            region_count: read_u32(page, 32).unwrap(),
            entry_count: read_u32(page, 36).unwrap(),
            epoch: read_u32(page, 40).unwrap(),
            epoch_start_seqno: read_u64(page, 48).unwrap(),
            max_seqno: read_u64(page, 56).unwrap(),
            superblock_generation: read_u64(page, 64).unwrap(),
            hash_seed: read_u64(page, 72).unwrap(),
            payload_crc: read_u32(page, 80).unwrap(),
            index_slots: if page[11] == 1 {
                read_u64(page, 88)
            } else {
                None
            },
            index_shards: if page[12] == 1 {
                read_u32(page, 84)
            } else {
                None
            },
        };
        match header.find_fault(directory, slot) {
            Some(error) => Err(error),
            None => Ok(header),
        }
    }

    /// Writes a slot's page, unless the header does not fit its slot.
    #[verifier::rlimit(40)]
    pub fn encode(&self, directory: CheckpointDirectory) -> (result: Result<Vec<u8>, CheckpointCodecError>)
        ensures
            match result {
                Ok(page) => {
                    &&& page@.len() == CHECKPOINT_SLOT_HEADER_SIZE
                    &&& CheckpointSlotHeader::held(page@, directory, self.slot as int) == Ok::<
                        CheckpointSlotHeader,
                        CheckpointCodecError,
                    >(*self)
                },
                Err(error) => self.fault(directory, self.slot as int) == Some(error),
            },
    {
        if let Some(error) = self.find_fault(directory, self.slot as usize) {
            return Err(error);
        }
        let mut page: Vec<u8> = Vec::new();
        page.resize(CHECKPOINT_SLOT_HEADER_SIZE, 0);
        write_u64(&mut page, 0, CHECKPOINT_SLOT_MAGIC);
        write_u16(&mut page, 8, self.version);
        page.set(10, self.slot);
        write_u64(&mut page, 16, self.generation);
        write_u64(&mut page, 24, self.payload_len);
        write_u32(&mut page, 32, self.region_count);
        write_u32(&mut page, 36, self.entry_count);
        write_u32(&mut page, 40, self.epoch);
        write_u64(&mut page, 48, self.epoch_start_seqno);
        write_u64(&mut page, 56, self.max_seqno);
        write_u64(&mut page, 64, self.superblock_generation);
        write_u64(&mut page, 72, self.hash_seed);
        write_u32(&mut page, 80, self.payload_crc);
        if let Some(slots) = self.index_slots {
            page.set(11, 1);
            write_u64(&mut page, 88, slots);
        }
        if let Some(shards) = self.index_shards {
            page.set(12, 1);
            write_u32(&mut page, 84, shards);
        }
        seal(&mut page, PAGE_CHECKSUM_OFFSET);
        assert(CheckpointSlotHeader::fields(page@) == *self);
        Ok(page)
    }
}

// ---------------------------------------------------------------------------
// Region snapshots and index entries
// ---------------------------------------------------------------------------

/// One Region as it was when the checkpoint was written.
#[derive(Clone, Copy, Debug, PartialEq, Eq, Structural)]
pub struct CheckpointRegionSnapshot {
    pub incarnation: u64,
    pub state: RegionState,
    pub created_seqno: u64,
    pub used: u64,
    pub max_seqno: u64,
    pub lane_id: Option<u8>,
}

impl CheckpointRegionSnapshot {
    /// The snapshot that the bytes hold, or why they hold none.
    pub open spec fn held(bytes: Seq<u8>, version: u16) -> Result<CheckpointRegionSnapshot, CheckpointCodecError> {
        if bytes.len() != CHECKPOINT_REGION_SNAPSHOT_SIZE {
            Err(CheckpointCodecError::InvalidLength)
        } else {
            match RegionState::of(bytes[0]) {
                None => Err(CheckpointCodecError::InvalidField(CheckpointField::RegionState)),
                Some(state) => Ok(
                    CheckpointRegionSnapshot {
                        incarnation: u64_at(bytes, 8),
                        state,
                        created_seqno: u64_at(bytes, 16),
                        used: u64_at(bytes, 24),
                        max_seqno: u64_at(bytes, 32),
                        lane_id: if version < CHECKPOINT_LANE_VERSION || bytes[1] == NO_LANE {
                            None
                        } else {
                            Some(bytes[1])
                        },
                    },
                ),
            }
        }
    }

    /// What is wrong with the snapshot in a directory's layout, if anything is.
    pub open spec fn fault(self, directory: CheckpointDirectory) -> Option<CheckpointCodecError> {
        if self.used < REGION_HEADER_SIZE || self.used > directory.region_size {
            Some(CheckpointCodecError::InvalidField(CheckpointField::RegionUsed))
        } else {
            None
        }
    }

    /// Writes a snapshot of the newest version.
    pub fn encode(&self) -> (bytes: Vec<u8>)
        requires
            self.lane_id != Some(NO_LANE),
        ensures
            bytes@.len() == CHECKPOINT_REGION_SNAPSHOT_SIZE,
            CheckpointRegionSnapshot::held(bytes@, CHECKPOINT_VERSION) == Ok::<CheckpointRegionSnapshot, CheckpointCodecError>(
                *self,
            ),
    {
        let mut bytes: Vec<u8> = Vec::new();
        bytes.resize(CHECKPOINT_REGION_SNAPSHOT_SIZE, 0);
        bytes.set(0, self.state.to_code());
        bytes.set(
            1,
            match self.lane_id {
                Some(lane) => lane,
                None => NO_LANE,
            },
        );
        write_u64(&mut bytes, 8, self.incarnation);
        write_u64(&mut bytes, 16, self.created_seqno);
        write_u64(&mut bytes, 24, self.used);
        write_u64(&mut bytes, 32, self.max_seqno);
        bytes
    }
}

/// Reads a Region's snapshot.
pub fn decode_region_snapshot(bytes: &[u8], version: u16) -> (result: Result<CheckpointRegionSnapshot, CheckpointCodecError>)
    ensures
        result == CheckpointRegionSnapshot::held(bytes@, version),
{
    if bytes.len() != CHECKPOINT_REGION_SNAPSHOT_SIZE {
        return Err(CheckpointCodecError::InvalidLength);
    }
    let state = match RegionState::from_code(bytes[0]) {
        Some(state) => state,
        None => {
            return Err(CheckpointCodecError::InvalidField(CheckpointField::RegionState));
        },
    };
    Ok(
        CheckpointRegionSnapshot {
            incarnation: read_u64(bytes, 8).unwrap(),
            state,
            created_seqno: read_u64(bytes, 16).unwrap(),
            used: read_u64(bytes, 24).unwrap(),
            max_seqno: read_u64(bytes, 32).unwrap(),
            lane_id: if version < CHECKPOINT_LANE_VERSION || bytes[1] == NO_LANE {
                None
            } else {
                Some(bytes[1])
            },
        },
    )
}

/// One index entry of a checkpoint.
#[derive(Clone, Copy, Debug, PartialEq, Eq, Structural)]
pub struct CheckpointIndexEntry {
    pub hash: u64,
    pub location: PackedLocation,
    pub seqno: u64,
    pub expires_at_unix_ms: u64,
}

impl CheckpointIndexEntry {
    /// The entry that the bytes hold, or why they hold none.
    pub open spec fn held(bytes: Seq<u8>) -> Result<CheckpointIndexEntry, CheckpointCodecError> {
        if bytes.len() != CHECKPOINT_INDEX_ENTRY_SIZE && bytes.len() != CHECKPOINT_INDEX_ENTRY_SIZE_V1 {
            Err(CheckpointCodecError::InvalidLength)
        } else if bytes[20] > 1 {
            Err(CheckpointCodecError::InvalidField(CheckpointField::Flag))
        } else {
            Ok(
                CheckpointIndexEntry {
                    hash: u64_at(bytes, 0),
                    location: PackedLocation {
                        region_id: u32_at(bytes, 8),
                        offset: u32_at(bytes, 12),
                        record_len: u32_at(bytes, 16),
                        tombstone: bytes[20] == 1,
                    },
                    seqno: u64_at(bytes, 24),
                    expires_at_unix_ms: if bytes.len() == CHECKPOINT_INDEX_ENTRY_SIZE {
                        u64_at(bytes, 32)
                    } else {
                        0
                    },
                },
            )
        }
    }

    /// What is wrong with the entry in a Region, if anything is: it must lie in
    /// the Region's records and in the checkpoint's sequence range.
    pub open spec fn fault(self, header: CheckpointSlotHeader, owner: CheckpointRegionSnapshot) -> Option<CheckpointCodecError> {
        if self.location.region_id >= header.region_count || owner.state is Free || self.location.offset < REGION_HEADER_SIZE
            || self.location.offset + self.location.record_len > owner.used {
            Some(CheckpointCodecError::InvalidField(CheckpointField::EntryLocation))
        } else if self.seqno < owner.created_seqno || self.seqno > header.max_seqno {
            Some(CheckpointCodecError::InvalidField(CheckpointField::EntrySeqno))
        } else {
            None
        }
    }

    /// Writes an entry of the newest version.
    pub fn encode(&self) -> (bytes: Vec<u8>)
        ensures
            bytes@.len() == CHECKPOINT_INDEX_ENTRY_SIZE,
            CheckpointIndexEntry::held(bytes@) == Ok::<CheckpointIndexEntry, CheckpointCodecError>(*self),
    {
        let mut bytes: Vec<u8> = Vec::new();
        bytes.resize(CHECKPOINT_INDEX_ENTRY_SIZE, 0);
        write_u64(&mut bytes, 0, self.hash);
        write_u32(&mut bytes, 8, self.location.region_id);
        write_u32(&mut bytes, 12, self.location.offset);
        write_u32(&mut bytes, 16, self.location.record_len);
        bytes.set(
            20,
            if self.location.tombstone {
                1
            } else {
                0
            },
        );
        write_u64(&mut bytes, 24, self.seqno);
        write_u64(&mut bytes, 32, self.expires_at_unix_ms);
        bytes
    }
}

/// Reads an index entry.
pub fn decode_checkpoint_index_entry(bytes: &[u8]) -> (result: Result<CheckpointIndexEntry, CheckpointCodecError>)
    ensures
        result == CheckpointIndexEntry::held(bytes@),
{
    if bytes.len() != CHECKPOINT_INDEX_ENTRY_SIZE && bytes.len() != CHECKPOINT_INDEX_ENTRY_SIZE_V1 {
        return Err(CheckpointCodecError::InvalidLength);
    }
    if bytes[20] > 1 {
        return Err(CheckpointCodecError::InvalidField(CheckpointField::Flag));
    }
    Ok(
        CheckpointIndexEntry {
            hash: read_u64(bytes, 0).unwrap(),
            location: PackedLocation {
                region_id: read_u32(bytes, 8).unwrap(),
                offset: read_u32(bytes, 12).unwrap(),
                record_len: read_u32(bytes, 16).unwrap(),
                tombstone: bytes[20] == 1,
            },
            seqno: read_u64(bytes, 24).unwrap(),
            expires_at_unix_ms: if bytes.len() == CHECKPOINT_INDEX_ENTRY_SIZE {
                read_u64(bytes, 32).unwrap()
            } else {
                0
            },
        },
    )
}

// ---------------------------------------------------------------------------
// Payload decoder
// ---------------------------------------------------------------------------

/// Checks a payload piece by piece: all snapshots first, then all entries, then
/// the checksum over both.
pub struct CheckpointPayloadDecoder {
    directory: CheckpointDirectory,
    header: CheckpointSlotHeader,
    checksum: Crc32c,
    regions_seen: u32,
    entries_seen: u32,
}

impl CheckpointPayloadDecoder {
    /// The layout that the payload belongs to.
    pub closed spec fn layout(&self) -> CheckpointDirectory {
        self.directory
    }

    /// The header that the payload belongs to.
    pub closed spec fn slot_header(&self) -> CheckpointSlotHeader {
        self.header
    }

    /// The payload bytes seen so far.
    pub closed spec fn bytes(&self) -> Seq<u8> {
        self.checksum.bytes()
    }

    /// Number of snapshots seen so far.
    pub closed spec fn regions(&self) -> int {
        self.regions_seen as int
    }

    /// Number of entries seen so far.
    pub closed spec fn entries(&self) -> int {
        self.entries_seen as int
    }

    /// A decoder for a slot's payload, unless the header does not fit the slot.
    pub fn new(directory: CheckpointDirectory, header: CheckpointSlotHeader) -> (result: Result<
        CheckpointPayloadDecoder,
        CheckpointCodecError,
    >)
        ensures
            match result {
                Ok(decoder) => {
                    &&& header.fault(directory, header.slot as int) is None
                    &&& decoder.layout() == directory
                    &&& decoder.slot_header() == header
                    &&& decoder.bytes() == Seq::<u8>::empty()
                    &&& decoder.regions() == 0
                    &&& decoder.entries() == 0
                },
                Err(error) => header.fault(directory, header.slot as int) == Some(error),
            },
    {
        match header.find_fault(directory, header.slot as usize) {
            Some(error) => Err(error),
            None => Ok(
                CheckpointPayloadDecoder {
                    directory,
                    header,
                    checksum: Crc32c::new(),
                    regions_seen: 0,
                    entries_seen: 0,
                },
            ),
        }
    }

    /// Bytes of one index entry.
    pub fn index_entry_size(&self) -> (size: usize)
        ensures
            size == entry_size(self.slot_header().version),
    {
        self.header.index_entry_size()
    }

    /// Takes in the next Region's snapshot.
    pub fn decode_region(&mut self, bytes: &[u8]) -> (result: Result<CheckpointRegionSnapshot, CheckpointCodecError>)
        ensures
            final(self).layout() == old(self).layout(),
            final(self).slot_header() == old(self).slot_header(),
            final(self).entries() == old(self).entries(),
            match result {
                Ok(snapshot) => {
                    &&& old(self).regions() < old(self).slot_header().region_count
                    &&& CheckpointRegionSnapshot::held(bytes@, old(self).slot_header().version) == Ok::<
                        CheckpointRegionSnapshot,
                        CheckpointCodecError,
                    >(snapshot)
                    &&& snapshot.fault(old(self).layout()) is None
                    &&& final(self).bytes() == old(self).bytes() + bytes@
                    &&& final(self).regions() == old(self).regions() + 1
                },
                Err(error) => {
                    &&& final(self).bytes() == old(self).bytes()
                    &&& final(self).regions() == old(self).regions()
                    &&& if old(self).regions() >= old(self).slot_header().region_count {
                        error == CheckpointCodecError::InvalidLength
                    } else {
                        match CheckpointRegionSnapshot::held(bytes@, old(self).slot_header().version) {
                            Err(held) => error == held,
                            Ok(snapshot) => snapshot.fault(old(self).layout()) == Some(error),
                        }
                    }
                },
            },
    {
        if self.regions_seen >= self.header.region_count {
            return Err(CheckpointCodecError::InvalidLength);
        }
        let snapshot = match decode_region_snapshot(bytes, self.header.version) {
            Ok(snapshot) => snapshot,
            Err(error) => {
                return Err(error);
            },
        };
        if snapshot.used < REGION_HEADER_SIZE as u64 || snapshot.used > self.directory.region_size {
            return Err(CheckpointCodecError::InvalidField(CheckpointField::RegionUsed));
        }
        self.checksum.update(bytes);
        self.regions_seen = self.regions_seen + 1;
        Ok(snapshot)
    }

    /// Takes in the next index entry, which lies in `owner`.
    pub fn decode_index_entry(&mut self, bytes: &[u8], owner: CheckpointRegionSnapshot) -> (result: Result<
        CheckpointIndexEntry,
        CheckpointCodecError,
    >)
        ensures
            final(self).layout() == old(self).layout(),
            final(self).slot_header() == old(self).slot_header(),
            final(self).regions() == old(self).regions(),
            match result {
                Ok(entry) => {
                    &&& old(self).entries() < old(self).slot_header().entry_count
                    &&& bytes@.len() == entry_size(old(self).slot_header().version)
                    &&& CheckpointIndexEntry::held(bytes@) == Ok::<CheckpointIndexEntry, CheckpointCodecError>(entry)
                    &&& entry.fault(old(self).slot_header(), owner) is None
                    &&& final(self).bytes() == old(self).bytes() + bytes@
                    &&& final(self).entries() == old(self).entries() + 1
                },
                Err(error) => {
                    &&& final(self).bytes() == old(self).bytes()
                    &&& final(self).entries() == old(self).entries()
                    &&& if old(self).entries() >= old(self).slot_header().entry_count || bytes@.len() != entry_size(
                        old(self).slot_header().version,
                    ) {
                        error == CheckpointCodecError::InvalidLength
                    } else {
                        match CheckpointIndexEntry::held(bytes@) {
                            Err(held) => error == held,
                            Ok(entry) => entry.fault(old(self).slot_header(), owner) == Some(error),
                        }
                    }
                },
            },
    {
        if self.entries_seen >= self.header.entry_count || bytes.len() != self.header.index_entry_size() {
            return Err(CheckpointCodecError::InvalidLength);
        }
        let entry = match decode_checkpoint_index_entry(bytes) {
            Ok(entry) => entry,
            Err(error) => {
                return Err(error);
            },
        };
        let free = match owner.state {
            RegionState::Free => true,
            RegionState::Active => false,
            RegionState::Sealed => false,
        };
        if entry.location.region_id >= self.header.region_count || free || (entry.location.offset as u64) < REGION_HEADER_SIZE as u64
            || entry.location.offset as u64 + entry.location.record_len as u64 > owner.used {
            return Err(CheckpointCodecError::InvalidField(CheckpointField::EntryLocation));
        }
        if entry.seqno < owner.created_seqno || entry.seqno > self.header.max_seqno {
            return Err(CheckpointCodecError::InvalidField(CheckpointField::EntrySeqno));
        }
        self.checksum.update(bytes);
        self.entries_seen = self.entries_seen + 1;
        Ok(entry)
    }

    /// Checks that the payload is complete and its checksum right.
    pub fn finish(self) -> (result: Result<(), CheckpointCodecError>)
        ensures
            result == (if self.regions() != self.slot_header().region_count || self.entries() != self.slot_header().entry_count {
                Err(CheckpointCodecError::InvalidLength)
            } else if crc32c_of(self.bytes()) != self.slot_header().payload_crc {
                Err(CheckpointCodecError::ChecksumMismatch)
            } else {
                Ok::<(), CheckpointCodecError>(())
            }),
    {
        if self.regions_seen != self.header.region_count || self.entries_seen != self.header.entry_count {
            return Err(CheckpointCodecError::InvalidLength);
        }
        if self.checksum.finish() != self.header.payload_crc {
            return Err(CheckpointCodecError::ChecksumMismatch);
        }
        Ok(())
    }
}

// ---------------------------------------------------------------------------
// What checkpoint structures hold
// ---------------------------------------------------------------------------

/// A payload is padded to the smallest number of whole pages that hold it.
pub proof fn law_padding_is_tight(payload_len: u64)
    ensures
        padded(payload_len) matches Ok(length) ==> length as int % 4096 == 0 && payload_len <= length < payload_len + 4096,
        padded(payload_len) is Ok <==> payload_len + 4095 <= u64::MAX,
        padded(payload_len) matches Err(error) ==> error == CheckpointCodecError::ArithmeticOverflow,
{
}

/// A directory is accepted exactly if its length, magic, version, checksum and
/// slot size are right, and the first of them that is wrong is what is reported.
pub proof fn law_directory_pages(page: Seq<u8>)
    ensures
        ({
            let found = CheckpointDirectory::held(page);
            let magic = u64_at(page, 0) == 0x3152_4944_4b43_5243;
            let version = u16_at(page, 8);
            &&& found is Ok <==> page.len() == 4096 && magic && version == 1 && sealed(page, 4092) && u64_at(page, 40) >= 4096
            &&& found matches Ok(directory) ==> {
                &&& directory.data_file_len == u64_at(page, 16)
                &&& directory.region_size == u64_at(page, 24)
                &&& directory.region_count == u32_at(page, 32)
                &&& directory.slot_size == u64_at(page, 40)
            }
            &&& found matches Err(error) ==> match error {
                CheckpointCodecError::InvalidLength => page.len() != 4096,
                CheckpointCodecError::InvalidMagic => page.len() == 4096 && !magic,
                CheckpointCodecError::UnsupportedVersion(given) => magic && given == version && version != 1,
                CheckpointCodecError::ChecksumMismatch => magic && version == 1 && !sealed(page, 4092),
                CheckpointCodecError::InvalidField(field) => magic && version == 1 && sealed(page, 4092) && u64_at(page, 40) < 4096
                    && field is SlotSize,
                _ => false,
            }
        }),
{
}

/// The two slots follow the directory's page; each starts with its header's page
/// and ends where the next begins.
pub proof fn law_places_of_slots(directory: CheckpointDirectory)
    ensures
        directory.header_offset(0) matches Ok(offset) ==> offset == directory.data_file_len + 4096,
        directory.header_offset(1) matches Ok(offset) ==> offset == directory.data_file_len + 4096 + directory.slot_size,
        directory.payload_offset(0) matches Ok(offset) ==> offset == directory.data_file_len + 8192,
        directory.payload_offset(1) matches Ok(offset) ==> offset == directory.data_file_len + 8192 + directory.slot_size,
        directory.end() matches Ok(end) ==> end == directory.data_file_len + 4096 + directory.slot_size + directory.slot_size,
        directory.header_offset(0) is Ok <==> directory.data_file_len + 4096 <= u64::MAX,
        directory.header_offset(1) is Ok <==> directory.data_file_len + 4096 + directory.slot_size <= u64::MAX,
        directory.payload_offset(0) is Ok <==> directory.data_file_len + 8192 <= u64::MAX,
        directory.payload_offset(1) is Ok <==> directory.data_file_len + 8192 + directory.slot_size <= u64::MAX,
        directory.end() is Ok <==> directory.data_file_len + 4096 + 2 * directory.slot_size <= u64::MAX,
        forall|slot: int| slot >= 2 ==> #[trigger] directory.header_offset(slot) is Err,
{
}

/// A slot's payload is a snapshot of 48 bytes for each Region and an entry for
/// each of the index: 32 bytes in the first version, 40 in later ones.
pub proof fn law_payload_lengths(header: CheckpointSlotHeader)
    ensures
        header.version < 2 ==> header.expected_payload() == 48 * header.region_count + 32 * header.entry_count,
        header.version >= 2 ==> header.expected_payload() == 48 * header.region_count + 40 * header.entry_count,
{
    let size = entry_size(header.version);
    assert(size == 32 || size == 40);
    assert(header.entry_count * size == size * header.entry_count) by (nonlinear_arith);
}

/// A slot's header is accepted exactly if its length, magic, checksum and flags
/// are right, it is of one of the three versions and of this slot and these
/// Regions, and its payload is as long as it should be and fits.
pub proof fn law_slot_header_pages(page: Seq<u8>, directory: CheckpointDirectory, slot: int)
    requires
        page.len() == 4096,
    ensures
        ({
            let found = CheckpointSlotHeader::held(page, directory, slot);
            let version = u16_at(page, 8);
            let expected = 48 * u32_at(page, 32) + (if version == 1 { 32int } else { 40int }) * u32_at(page, 36);
            &&& found is Ok <==> {
                &&& u64_at(page, 0) == 0x3154_4c53_4b43_5243
                &&& sealed(page, 4092)
                &&& page[11] < 2 && page[12] < 2
                &&& 1 <= version <= 3
                &&& page[10] == slot
                &&& u32_at(page, 32) == directory.region_count
                &&& u64_at(page, 24) == expected
                &&& u64_at(page, 24) + 4096 <= directory.slot_size
            }
            &&& found matches Ok(header) ==> {
                &&& header.version == version && header.slot == page[10]
                &&& header.generation == u64_at(page, 16) && header.payload_len == u64_at(page, 24)
                &&& header.region_count == u32_at(page, 32) && header.entry_count == u32_at(page, 36)
                &&& header.epoch == u32_at(page, 40) && header.epoch_start_seqno == u64_at(page, 48)
                &&& header.max_seqno == u64_at(page, 56) && header.superblock_generation == u64_at(page, 64)
                &&& header.hash_seed == u64_at(page, 72) && header.payload_crc == u32_at(page, 80)
                &&& header.index_slots == if page[11] == 1 {
                    Some(u64_at(page, 88))
                } else {
                    None
                }
                &&& header.index_shards == if page[12] == 1 {
                    Some(u32_at(page, 84))
                } else {
                    None
                }
            }
            &&& found matches Err(error) ==> match error {
                CheckpointCodecError::InvalidMagic => u64_at(page, 0) != 0x3154_4c53_4b43_5243,
                CheckpointCodecError::ChecksumMismatch => !sealed(page, 4092),
                CheckpointCodecError::UnsupportedVersion(given) => given == version && (version == 0 || version > 3),
                CheckpointCodecError::InvalidField(CheckpointField::Flag) => page[11] > 1 || page[12] > 1,
                CheckpointCodecError::InvalidField(CheckpointField::Slot) => page[10] != slot,
                CheckpointCodecError::InvalidField(CheckpointField::RegionCount) => u32_at(page, 32) != directory.region_count,
                CheckpointCodecError::InvalidLength => u64_at(page, 24) != expected,
                CheckpointCodecError::PayloadTooLarge => u64_at(page, 24) + 4096 > directory.slot_size,
                _ => false,
            }
        }),
{
    let header = CheckpointSlotHeader::fields(page);
    law_payload_lengths(header);
}

/// A snapshot is accepted exactly if its length and the Region's state are
/// right. Its append lane is shown only from the third version on, and if there
/// is one.
pub proof fn law_snapshot_bytes(bytes: Seq<u8>, version: u16)
    ensures
        ({
            let found = CheckpointRegionSnapshot::held(bytes, version);
            &&& found is Ok <==> bytes.len() == 48 && bytes[0] < 3
            &&& found matches Ok(snapshot) ==> {
                &&& snapshot.state is Free <==> bytes[0] == 0
                &&& snapshot.state is Active <==> bytes[0] == 1
                &&& snapshot.incarnation == u64_at(bytes, 8) && snapshot.created_seqno == u64_at(bytes, 16)
                &&& snapshot.used == u64_at(bytes, 24) && snapshot.max_seqno == u64_at(bytes, 32)
                &&& snapshot.lane_id is Some <==> version >= 3 && bytes[1] != 255
                &&& snapshot.lane_id matches Some(lane) ==> lane == bytes[1]
            }
            &&& found matches Err(error) ==> error == if bytes.len() != 48 {
                CheckpointCodecError::InvalidLength
            } else {
                CheckpointCodecError::InvalidField(CheckpointField::RegionState)
            }
        }),
{
}

/// A snapshot's extent holds its header and lies within the Region.
pub proof fn law_snapshot_extents(snapshot: CheckpointRegionSnapshot, directory: CheckpointDirectory)
    ensures
        snapshot.fault(directory) is None <==> 4096 <= snapshot.used <= directory.region_size,
        snapshot.fault(directory) matches Some(error) ==> error == CheckpointCodecError::InvalidField(CheckpointField::RegionUsed),
{
}

/// An entry is accepted exactly if its length and flag are right; the short form
/// never expires.
pub proof fn law_entry_bytes(bytes: Seq<u8>)
    ensures
        ({
            let found = CheckpointIndexEntry::held(bytes);
            &&& found is Ok <==> (bytes.len() == 32 || bytes.len() == 40) && bytes[20] < 2
            &&& found matches Ok(entry) ==> {
                &&& entry.hash == u64_at(bytes, 0)
                &&& entry.location.region_id == u32_at(bytes, 8) && entry.location.offset == u32_at(bytes, 12)
                &&& entry.location.record_len == u32_at(bytes, 16) && (entry.location.tombstone <==> bytes[20] == 1)
                &&& entry.seqno == u64_at(bytes, 24)
                &&& bytes.len() == 40 ==> entry.expires_at_unix_ms == u64_at(bytes, 32)
                &&& bytes.len() == 32 ==> entry.expires_at_unix_ms == 0
            }
            &&& found matches Err(error) ==> error == if bytes.len() == 32 || bytes.len() == 40 {
                CheckpointCodecError::InvalidField(CheckpointField::Flag)
            } else {
                CheckpointCodecError::InvalidLength
            }
        }),
{
}

/// An entry lies within the extent of an allocated Region, behind its header,
/// and is no older than the Region nor newer than the checkpoint.
pub proof fn law_entries_lie_in_their_region(
    entry: CheckpointIndexEntry,
    header: CheckpointSlotHeader,
    owner: CheckpointRegionSnapshot,
)
    ensures
        ({
            let placed = entry.location.region_id < header.region_count && !(owner.state is Free) && 4096 <= entry.location.offset
                && entry.location.offset + entry.location.record_len <= owner.used;
            let timely = owner.created_seqno <= entry.seqno <= header.max_seqno;
            &&& entry.fault(header, owner) is None <==> placed && timely
            &&& !placed ==> entry.fault(header, owner) == Some(CheckpointCodecError::InvalidField(CheckpointField::EntryLocation))
            &&& placed && !timely ==> entry.fault(header, owner) == Some(
                CheckpointCodecError::InvalidField(CheckpointField::EntrySeqno),
            )
        }),
{
}

} // verus!
