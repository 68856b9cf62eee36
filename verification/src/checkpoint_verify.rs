//! Offline verification of checkpoint payloads, and of checkpoints against the
//! Regions they describe.

use vstd::prelude::*;

use crate::checkpoint::{
    decode_checkpoint_index_entry, decode_region_snapshot, entry_size, padded, padded_payload_len, CheckpointCodecError,
    CheckpointDirectory, CheckpointField, CheckpointIndexEntry, CheckpointPayloadDecoder, CheckpointRegionSnapshot,
    CheckpointSlotHeader, CHECKPOINT_REGION_SNAPSHOT_SIZE,
};
use crate::checksum::crc32c_of;
use crate::offline_file::OfflineFile;

verus! {

/// Most append lanes of a cache.
pub const MAX_APPEND_LANES: usize = 8;

// ---------------------------------------------------------------------------
// Payload
// ---------------------------------------------------------------------------

/// Why a slot's payload is refused.
#[derive(Clone, Copy, Debug, PartialEq, Eq, Structural)]
pub enum PayloadFault {
    Codec(CheckpointCodecError),
    Truncated,
}

/// Why a slot's payload could not be accepted.
#[derive(Debug)]
pub enum CheckpointVerifyError<E> {
    Io(E),
    Fault(PayloadFault),
}

/// The bytes of a Region's snapshot in the payload at `payload`.
pub open spec fn snapshot_bytes(contents: Seq<u8>, payload: int, region: int) -> Seq<u8> {
    contents.subrange(
        payload + region * CHECKPOINT_REGION_SNAPSHOT_SIZE,
        payload + region * CHECKPOINT_REGION_SNAPSHOT_SIZE + CHECKPOINT_REGION_SNAPSHOT_SIZE,
    )
}

/// A Region's snapshot in the payload at `payload`.
pub open spec fn snapshot_at(contents: Seq<u8>, payload: int, version: u16, region: int) -> Result<
    CheckpointRegionSnapshot,
    CheckpointCodecError,
> {
    CheckpointRegionSnapshot::held(snapshot_bytes(contents, payload, region), version)
}

/// The bytes of an index entry in the payload at `payload`.
pub open spec fn entry_bytes(contents: Seq<u8>, payload: int, header: CheckpointSlotHeader, entry: int) -> Seq<u8> {
    let start = payload + header.region_count * CHECKPOINT_REGION_SNAPSHOT_SIZE + entry * entry_size(header.version);
    contents.subrange(start, start + entry_size(header.version))
}

/// What is wrong with a Region's snapshot, if anything is.
pub open spec fn region_fault(
    contents: Seq<u8>,
    payload: int,
    directory: CheckpointDirectory,
    header: CheckpointSlotHeader,
    region: int,
) -> Option<CheckpointCodecError> {
    match snapshot_at(contents, payload, header.version, region) {
        Err(error) => Some(error),
        Ok(snapshot) => snapshot.fault(directory),
    }
}

/// What is wrong with an index entry, if anything is. It must lie in a Region
/// of the checkpoint.
pub open spec fn entry_fault(contents: Seq<u8>, payload: int, header: CheckpointSlotHeader, entry: int) -> Option<
    CheckpointCodecError,
> {
    match CheckpointIndexEntry::held(entry_bytes(contents, payload, header, entry)) {
        Err(error) => Some(error),
        Ok(found) => if found.location.region_id >= header.region_count {
            Some(CheckpointCodecError::InvalidField(CheckpointField::EntryLocation))
        } else {
            match snapshot_at(contents, payload, header.version, found.location.region_id as int) {
                Err(error) => Some(error),
                Ok(owner) => found.fault(header, owner),
            }
        },
    }
}

/// The first thing wrong with the first `count` snapshots, if anything is.
pub open spec fn regions_fault(
    contents: Seq<u8>,
    payload: int,
    directory: CheckpointDirectory,
    header: CheckpointSlotHeader,
    count: nat,
) -> Option<CheckpointCodecError>
    decreases count,
{
    if count == 0 {
        None
    } else {
        match regions_fault(contents, payload, directory, header, (count - 1) as nat) {
            Some(error) => Some(error),
            None => region_fault(contents, payload, directory, header, count - 1),
        }
    }
}

/// The first thing wrong with the first `count` entries, if anything is.
pub open spec fn entries_fault(contents: Seq<u8>, payload: int, header: CheckpointSlotHeader, count: nat) -> Option<
    CheckpointCodecError,
>
    decreases count,
{
    if count == 0 {
        None
    } else {
        match entries_fault(contents, payload, header, (count - 1) as nat) {
            Some(error) => Some(error),
            None => entry_fault(contents, payload, header, count - 1),
        }
    }
}

/// What is wrong with the payload at `payload`, if anything is.
pub open spec fn payload_content_fault(
    contents: Seq<u8>,
    payload: int,
    directory: CheckpointDirectory,
    header: CheckpointSlotHeader,
) -> Option<CheckpointCodecError> {
    match regions_fault(contents, payload, directory, header, header.region_count as nat) {
        Some(error) => Some(error),
        None => match entries_fault(contents, payload, header, header.entry_count as nat) {
            Some(error) => Some(error),
            None => if crc32c_of(contents.subrange(payload, payload + header.expected_payload())) != header.payload_crc {
                Some(CheckpointCodecError::ChecksumMismatch)
            } else {
                None
            },
        },
    }
}

/// What is wrong with a slot's payload, if anything is.
pub open spec fn slot_payload_fault(contents: Seq<u8>, directory: CheckpointDirectory, header: CheckpointSlotHeader) -> Option<
    PayloadFault,
> {
    match directory.payload_offset(header.slot as int) {
        Err(error) => Some(PayloadFault::Codec(error)),
        Ok(payload) => match padded(header.payload_len) {
            Err(error) => Some(PayloadFault::Codec(error)),
            Ok(length) => if payload + length > contents.len() {
                Some(PayloadFault::Truncated)
            } else {
                match header.fault(directory, header.slot as int) {
                    Some(error) => Some(PayloadFault::Codec(error)),
                    None => match payload_content_fault(contents, payload as int, directory, header) {
                        Some(error) => Some(PayloadFault::Codec(error)),
                        None => None,
                    },
                }
            },
        },
    }
}

/// The payload, as far as it follows from its header, lies in the file.
pub open spec fn payload_in_file(contents: Seq<u8>, payload: u64, header: CheckpointSlotHeader) -> bool {
    payload + header.expected_payload() <= contents.len()
}

proof fn lemma_snapshot_in_file(contents: Seq<u8>, payload: u64, header: CheckpointSlotHeader, region: int)
    requires
        payload_in_file(contents, payload, header),
        0 <= region < header.region_count,
    ensures
        0 <= region * CHECKPOINT_REGION_SNAPSHOT_SIZE,
        payload + region * CHECKPOINT_REGION_SNAPSHOT_SIZE + CHECKPOINT_REGION_SNAPSHOT_SIZE <= contents.len(),
{
    assert(header.entry_count * entry_size(header.version) >= 0) by (nonlinear_arith)
        requires
            header.entry_count >= 0,
            entry_size(header.version) >= 0,
    ;
}

proof fn lemma_entry_in_file(contents: Seq<u8>, payload: u64, header: CheckpointSlotHeader, entry: int)
    requires
        payload_in_file(contents, payload, header),
        0 <= entry < header.entry_count,
    ensures
        0 <= entry * entry_size(header.version),
        payload + header.region_count * CHECKPOINT_REGION_SNAPSHOT_SIZE + entry * entry_size(header.version) + entry_size(
            header.version,
        ) <= contents.len(),
        (entry + 1) * entry_size(header.version) == entry * entry_size(header.version) + entry_size(header.version),
{
    let size = entry_size(header.version);
    assert(entry * size >= 0) by (nonlinear_arith)
        requires
            entry >= 0,
            size >= 0,
    ;
    assert((entry + 1) * size == entry * size + size) by (nonlinear_arith);
    assert((entry + 1) * size <= header.entry_count * size) by (nonlinear_arith)
        requires
            entry + 1 <= header.entry_count,
            size >= 0,
    ;
}

/// Reads a Region's snapshot.
pub fn read_snapshot_bytes<F: OfflineFile>(file: &F, payload: u64, header: CheckpointSlotHeader, region_id: u32) -> (result: Result<
    Vec<u8>,
    F::Error,
>)
    requires
        payload_in_file(file.contents(), payload, header),
        region_id < header.region_count,
    ensures
        match result {
            Ok(bytes) => bytes@ == snapshot_bytes(file.contents(), payload as int, region_id as int),
            Err(_) => !file.reliable(),
        },
{
    proof {
        lemma_snapshot_in_file(file.contents(), payload, header, region_id as int);
    }
    let file_len = file.len();
    file.read_exact_at(
        payload + region_id as u64 * (CHECKPOINT_REGION_SNAPSHOT_SIZE as u64),
        CHECKPOINT_REGION_SNAPSHOT_SIZE,
    )
}

/// Takes all snapshots into the decoder.
fn decode_regions<F: OfflineFile>(
    file: &F,
    payload: u64,
    directory: CheckpointDirectory,
    header: CheckpointSlotHeader,
    decoder: &mut CheckpointPayloadDecoder,
) -> (result: Result<(), CheckpointVerifyError<F::Error>>)
    requires
        payload_in_file(file.contents(), payload, header),
        old(decoder).layout() == directory,
        old(decoder).slot_header() == header,
        old(decoder).bytes() == Seq::<u8>::empty(),
        old(decoder).regions() == 0,
    ensures
        final(decoder).layout() == directory,
        final(decoder).slot_header() == header,
        final(decoder).entries() == old(decoder).entries(),
        match result {
            Ok(_) => {
                &&& regions_fault(file.contents(), payload as int, directory, header, header.region_count as nat) is None
                &&& final(decoder).regions() == header.region_count
                &&& final(decoder).bytes() == file.contents().subrange(
                    payload as int,
                    payload + header.region_count * CHECKPOINT_REGION_SNAPSHOT_SIZE,
                )
            },
            Err(CheckpointVerifyError::Fault(fault)) => match fault {
                PayloadFault::Codec(error) => regions_fault(
                    file.contents(),
                    payload as int,
                    directory,
                    header,
                    header.region_count as nat,
                ) == Some(error),
                PayloadFault::Truncated => false,
            },
            Err(CheckpointVerifyError::Io(_)) => !file.reliable(),
        },
{
    let ghost contents = file.contents();
    let mut region_id: u32 = 0;
    assert(decoder.bytes() =~= contents.subrange(payload as int, payload as int));
    while region_id < header.region_count
        invariant
            region_id <= header.region_count,
            contents == file.contents(),
            payload_in_file(contents, payload, header),
            decoder.layout() == directory,
            decoder.slot_header() == header,
            decoder.entries() == old(decoder).entries(),
            decoder.regions() == region_id,
            decoder.bytes() == contents.subrange(payload as int, payload + region_id * CHECKPOINT_REGION_SNAPSHOT_SIZE),
            regions_fault(contents, payload as int, directory, header, region_id as nat) is None,
        decreases header.region_count - region_id,
    {
        proof {
            lemma_snapshot_in_file(contents, payload, header, region_id as int);
        }
        let bytes = match read_snapshot_bytes(file, payload, header, region_id) {
            Ok(bytes) => bytes,
            Err(error) => {
                return Err(CheckpointVerifyError::Io(error));
            },
        };
        let ghost before = decoder.bytes();
        let decoded = decoder.decode_region(bytes.as_slice());
        assert(regions_fault(contents, payload as int, directory, header, (region_id + 1) as nat) == region_fault(
            contents,
            payload as int,
            directory,
            header,
            region_id as int,
        ));
        match decoded {
            Ok(_) => {
                assert(before + bytes@ =~= contents.subrange(
                    payload as int,
                    payload + (region_id + 1) * CHECKPOINT_REGION_SNAPSHOT_SIZE,
                ));
            },
            Err(error) => {
                proof {
                    lemma_first_region_fault(
                        contents,
                        payload as int,
                        directory,
                        header,
                        (region_id + 1) as nat,
                        header.region_count as nat,
                    );
                }
                return Err(CheckpointVerifyError::Fault(PayloadFault::Codec(error)));
            },
        }
        region_id = region_id + 1;
    }
    Ok(())
}

proof fn lemma_first_region_fault(
    contents: Seq<u8>,
    payload: int,
    directory: CheckpointDirectory,
    header: CheckpointSlotHeader,
    count: nat,
    total: nat,
)
    requires
        count <= total,
        regions_fault(contents, payload, directory, header, count) is Some,
    ensures
        regions_fault(contents, payload, directory, header, total) == regions_fault(contents, payload, directory, header, count),
    decreases total,
{
    if count < total {
        lemma_first_region_fault(contents, payload, directory, header, count, (total - 1) as nat);
    }
}

proof fn lemma_first_entry_fault(contents: Seq<u8>, payload: int, header: CheckpointSlotHeader, count: nat, total: nat)
    requires
        count <= total,
        entries_fault(contents, payload, header, count) is Some,
    ensures
        entries_fault(contents, payload, header, total) == entries_fault(contents, payload, header, count),
    decreases total,
{
    if count < total {
        lemma_first_entry_fault(contents, payload, header, count, (total - 1) as nat);
    }
}

/// Takes one entry into the decoder.
fn decode_entry<F: OfflineFile>(
    file: &F,
    payload: u64,
    header: CheckpointSlotHeader,
    index: u32,
    decoder: &mut CheckpointPayloadDecoder,
) -> (result: Result<(), CheckpointVerifyError<F::Error>>)
    requires
        payload_in_file(file.contents(), payload, header),
        index < header.entry_count,
        old(decoder).slot_header() == header,
        old(decoder).entries() == index,
    ensures
        final(decoder).layout() == old(decoder).layout(),
        final(decoder).slot_header() == header,
        final(decoder).regions() == old(decoder).regions(),
        match result {
            Ok(_) => {
                &&& entry_fault(file.contents(), payload as int, header, index as int) is None
                &&& final(decoder).entries() == index + 1
                &&& final(decoder).bytes() == old(decoder).bytes() + entry_bytes(
                    file.contents(),
                    payload as int,
                    header,
                    index as int,
                )
            },
            Err(CheckpointVerifyError::Fault(fault)) => match fault {
                PayloadFault::Codec(error) => entry_fault(file.contents(), payload as int, header, index as int) == Some(error),
                PayloadFault::Truncated => false,
            },
            Err(CheckpointVerifyError::Io(_)) => !file.reliable(),
        },
{
    proof {
        lemma_entry_in_file(file.contents(), payload, header, index as int);
    }
    let file_len = file.len();
    let size = decoder.index_entry_size();
    let offset = payload + header.region_count as u64 * (CHECKPOINT_REGION_SNAPSHOT_SIZE as u64) + index as u64 * (size as u64);
    let bytes = match file.read_exact_at(offset, size) {
        Ok(bytes) => bytes,
        Err(error) => {
            return Err(CheckpointVerifyError::Io(error));
        },
    };
    assert(bytes@ == entry_bytes(file.contents(), payload as int, header, index as int));
    let entry = match decode_checkpoint_index_entry(bytes.as_slice()) {
        Ok(entry) => entry,
        Err(error) => {
            return Err(CheckpointVerifyError::Fault(PayloadFault::Codec(error)));
        },
    };
    if entry.location.region_id >= header.region_count {
        return Err(
            CheckpointVerifyError::Fault(
                PayloadFault::Codec(CheckpointCodecError::InvalidField(CheckpointField::EntryLocation)),
            ),
        );
    }
    let owner_bytes = match read_snapshot_bytes(file, payload, header, entry.location.region_id) {
        Ok(owner_bytes) => owner_bytes,
        Err(error) => {
            return Err(CheckpointVerifyError::Io(error));
        },
    };
    let owner = match decode_region_snapshot(owner_bytes.as_slice(), header.version) {
        Ok(owner) => owner,
        Err(error) => {
            return Err(CheckpointVerifyError::Fault(PayloadFault::Codec(error)));
        },
    };
    match decoder.decode_index_entry(bytes.as_slice(), owner) {
        Ok(_) => Ok(()),
        Err(error) => Err(CheckpointVerifyError::Fault(PayloadFault::Codec(error))),
    }
}

/// Takes all entries into the decoder.
fn decode_entries<F: OfflineFile>(
    file: &F,
    payload: u64,
    header: CheckpointSlotHeader,
    decoder: &mut CheckpointPayloadDecoder,
) -> (result: Result<(), CheckpointVerifyError<F::Error>>)
    requires
        payload_in_file(file.contents(), payload, header),
        old(decoder).slot_header() == header,
        old(decoder).entries() == 0,
        old(decoder).bytes() == file.contents().subrange(
            payload as int,
            payload + header.region_count * CHECKPOINT_REGION_SNAPSHOT_SIZE,
        ),
    ensures
        final(decoder).slot_header() == header,
        final(decoder).regions() == old(decoder).regions(),
        match result {
            Ok(_) => {
                &&& entries_fault(file.contents(), payload as int, header, header.entry_count as nat) is None
                &&& final(decoder).entries() == header.entry_count
                &&& final(decoder).bytes() == file.contents().subrange(payload as int, payload + header.expected_payload())
            },
            Err(CheckpointVerifyError::Fault(fault)) => match fault {
                PayloadFault::Codec(error) => entries_fault(
                    file.contents(),
                    payload as int,
                    header,
                    header.entry_count as nat,
                ) == Some(error),
                PayloadFault::Truncated => false,
            },
            Err(CheckpointVerifyError::Io(_)) => !file.reliable(),
        },
{
    let ghost contents = file.contents();
    let ghost size = entry_size(header.version);
    let ghost first = payload + header.region_count * CHECKPOINT_REGION_SNAPSHOT_SIZE;
    let mut index: u32 = 0;
    assert(0 * size == 0);
    while index < header.entry_count
        invariant
            index <= header.entry_count,
            contents == file.contents(),
            size == entry_size(header.version),
            first == payload + header.region_count * CHECKPOINT_REGION_SNAPSHOT_SIZE,
            payload_in_file(contents, payload, header),
            decoder.slot_header() == header,
            decoder.regions() == old(decoder).regions(),
            decoder.entries() == index,
            decoder.bytes() == contents.subrange(payload as int, first + index * size),
            entries_fault(contents, payload as int, header, index as nat) is None,
        decreases header.entry_count - index,
    {
        proof {
            lemma_entry_in_file(contents, payload, header, index as int);
        }
        let ghost before = decoder.bytes();
        let decoded = decode_entry(file, payload, header, index, decoder);
        assert(entries_fault(contents, payload as int, header, (index + 1) as nat) == entry_fault(
            contents,
            payload as int,
            header,
            index as int,
        ));
        match decoded {
            Ok(_) => {
                assert(before + entry_bytes(contents, payload as int, header, index as int) =~= contents.subrange(
                    payload as int,
                    first + (index + 1) * size,
                ));
            },
            Err(error) => {
                proof {
                    if error is Fault {
                        lemma_first_entry_fault(
                            contents,
                            payload as int,
                            header,
                            (index + 1) as nat,
                            header.entry_count as nat,
                        );
                    }
                }
                return Err(error);
            },
        }
        index = index + 1;
    }
    Ok(())
}

/// Checks a slot's payload.
pub fn verify_one_checkpoint_payload<F: OfflineFile>(file: &F, directory: CheckpointDirectory, header: CheckpointSlotHeader) -> (result:
    Result<(), CheckpointVerifyError<F::Error>>)
    ensures
        match result {
            Ok(_) => slot_payload_fault(file.contents(), directory, header) is None,
            Err(CheckpointVerifyError::Fault(fault)) => slot_payload_fault(file.contents(), directory, header) == Some(fault),
            Err(CheckpointVerifyError::Io(_)) => !file.reliable(),
        },
{
    let file_len = file.len();
    let payload: u64 = match directory.slot_payload_offset(header.slot as usize) {
        Ok(payload) => payload,
        Err(error) => {
            return Err(CheckpointVerifyError::Fault(PayloadFault::Codec(error)));
        },
    };
    let length: u64 = match padded_payload_len(header.payload_len) {
        Ok(length) => length,
        Err(error) => {
            return Err(CheckpointVerifyError::Fault(PayloadFault::Codec(error)));
        },
    };
    let inside = match payload.checked_add(length) {
        Some(end) => end <= file_len,
        None => false,
    };
    if !inside {
        return Err(CheckpointVerifyError::Fault(PayloadFault::Truncated));
    }
    let mut decoder = match CheckpointPayloadDecoder::new(directory, header) {
        Ok(decoder) => decoder,
        Err(error) => {
            return Err(CheckpointVerifyError::Fault(PayloadFault::Codec(error)));
        },
    };
    match decode_regions(file, payload, directory, header, &mut decoder) {
        Ok(_) => {},
        Err(error) => {
            return Err(error);
        },
    }
    match decode_entries(file, payload, header, &mut decoder) {
        Ok(_) => {},
        Err(error) => {
            return Err(error);
        },
    }
    match decoder.finish() {
        Ok(_) => Ok(()),
        Err(error) => Err(CheckpointVerifyError::Fault(PayloadFault::Codec(error))),
    }
}

/// A refused payload in words.
pub open spec fn codec_message(error: CheckpointCodecError) -> Seq<char> {
    match error {
        CheckpointCodecError::ChecksumMismatch => "checkpoint payload checksum does not match"@,
        CheckpointCodecError::UnsupportedVersion(_) => "checkpoint payload version is unsupported"@,
        CheckpointCodecError::PayloadTooLarge => "checkpoint payload exceeds its slot"@,
        CheckpointCodecError::ArithmeticOverflow => "checkpoint payload offset or size overflows"@,
        CheckpointCodecError::InvalidLength => "checkpoint payload length is invalid"@,
        CheckpointCodecError::InvalidMagic | CheckpointCodecError::InvalidField(_) => "checkpoint payload fields are invalid"@,
    }
}

/// A refused payload in words.
pub fn checkpoint_error_message(error: CheckpointCodecError) -> (message: &'static str)
    ensures
        message@ == codec_message(error),
{
    match error {
        CheckpointCodecError::ChecksumMismatch => "checkpoint payload checksum does not match",
        CheckpointCodecError::UnsupportedVersion(_) => "checkpoint payload version is unsupported",
        CheckpointCodecError::PayloadTooLarge => "checkpoint payload exceeds its slot",
        CheckpointCodecError::ArithmeticOverflow => "checkpoint payload offset or size overflows",
        CheckpointCodecError::InvalidLength => "checkpoint payload length is invalid",
        CheckpointCodecError::InvalidMagic | CheckpointCodecError::InvalidField(_) => "checkpoint payload fields are invalid",
    }
}

// ---------------------------------------------------------------------------
// What makes a payload acceptable
// ---------------------------------------------------------------------------

/// Snapshots follow each other from the payload's start, 48 bytes each; the
/// entries come behind the last of them.
pub proof fn law_places_in_a_payload(contents: Seq<u8>, payload: int, header: CheckpointSlotHeader, index: int, k: int)
    requires
        payload >= 0,
        index >= 0,
        k >= 0,
    ensures
        payload + 48 * index + 48 <= contents.len() && k < 48 ==> snapshot_bytes(contents, payload, index).len() == 48
            && snapshot_bytes(contents, payload, index)[k] == contents[payload + 48 * index + k],
        ({
            let size = if header.version < 2 {
                32int
            } else {
                40int
            };
            let start = payload + 48 * header.region_count + size * index;
            start + size <= contents.len() && k < size ==> entry_bytes(contents, payload, header, index).len() == size && entry_bytes(
                contents,
                payload,
                header,
                index,
            )[k] == contents[start + k]
        }),
{
    assert(index * entry_size(header.version) == entry_size(header.version) * index) by (nonlinear_arith);
    assert(0 <= entry_size(header.version) * index) by (nonlinear_arith)
        requires
            index >= 0,
            entry_size(header.version) >= 0,
    ;
}

proof fn lemma_all_regions_sound(
    contents: Seq<u8>,
    payload: int,
    directory: CheckpointDirectory,
    header: CheckpointSlotHeader,
    count: nat,
)
    ensures
        regions_fault(contents, payload, directory, header, count) is None <==> forall|region: int|
            0 <= region < count ==> #[trigger] region_fault(contents, payload, directory, header, region) is None,
    decreases count,
{
    if count > 0 {
        lemma_all_regions_sound(contents, payload, directory, header, (count - 1) as nat);
    }
}

proof fn lemma_all_entries_sound(contents: Seq<u8>, payload: int, header: CheckpointSlotHeader, count: nat)
    ensures
        entries_fault(contents, payload, header, count) is None <==> forall|entry: int|
            0 <= entry < count ==> #[trigger] entry_fault(contents, payload, header, entry) is None,
    decreases count,
{
    if count > 0 {
        lemma_all_entries_sound(contents, payload, header, (count - 1) as nat);
    }
}

/// The snapshot can be read and its extent holds its header and lies within the
/// Region.
pub open spec fn snapshot_acceptable(
    contents: Seq<u8>,
    payload: int,
    directory: CheckpointDirectory,
    header: CheckpointSlotHeader,
    region: int,
) -> bool {
    CheckpointRegionSnapshot::held(snapshot_bytes(contents, payload, region), header.version) matches Ok(snapshot) && 4096
        <= snapshot.used <= directory.region_size
}

/// The entry can be read and lies in the extent of its Region, as the snapshot
/// has it, within the versions of Region and checkpoint.
pub open spec fn entry_acceptable(contents: Seq<u8>, payload: int, header: CheckpointSlotHeader, index: int) -> bool {
    CheckpointIndexEntry::held(entry_bytes(contents, payload, header, index)) matches Ok(entry) && {
        &&& entry.location.region_id < header.region_count
        &&& CheckpointRegionSnapshot::held(
            snapshot_bytes(contents, payload, entry.location.region_id as int),
            header.version,
        ) matches Ok(owner) && {
            &&& !(owner.state is Free)
            &&& 4096 <= entry.location.offset
            &&& entry.location.offset + entry.location.record_len <= owner.used
            &&& owner.created_seqno <= entry.seqno <= header.max_seqno
        }
    }
}

/// A payload is acceptable exactly if it lies in the file with its padding, its
/// header fits the directory, every snapshot and every entry is acceptable and
/// the checksum over all of them matches.
pub proof fn law_acceptable_payloads(contents: Seq<u8>, directory: CheckpointDirectory, header: CheckpointSlotHeader)
    ensures
        slot_payload_fault(contents, directory, header) is None <==> (directory.payload_offset(header.slot as int) matches Ok(payload) && {
            &&& padded(header.payload_len) matches Ok(length) && payload + length <= contents.len()
            &&& 1 <= header.version <= 3
            &&& header.region_count == directory.region_count
            &&& header.payload_len == header.expected_payload()
            &&& header.payload_len + 4096 <= directory.slot_size
            &&& forall|region: int|
                0 <= region < header.region_count ==> #[trigger] snapshot_acceptable(contents, payload as int, directory, header, region)
            &&& forall|index: int|
                0 <= index < header.entry_count ==> #[trigger] entry_acceptable(contents, payload as int, header, index)
            &&& crc32c_of(contents.subrange(payload as int, payload + header.payload_len)) == header.payload_crc
        }),
{
    if directory.payload_offset(header.slot as int) is Ok {
        let payload = directory.payload_offset(header.slot as int)->Ok_0 as int;
        lemma_all_regions_sound(contents, payload, directory, header, header.region_count as nat);
        lemma_all_entries_sound(contents, payload, header, header.entry_count as nat);
        assert forall|region: int| #![trigger snapshot_acceptable(contents, payload, directory, header, region)]
            snapshot_acceptable(contents, payload, directory, header, region) <==> region_fault(
            contents,
            payload,
            directory,
            header,
            region,
        ) is None by {}
        assert forall|region: int| #![trigger region_fault(contents, payload, directory, header, region)]
            snapshot_acceptable(contents, payload, directory, header, region) <==> region_fault(
            contents,
            payload,
            directory,
            header,
            region,
        ) is None by {}
        assert forall|index: int| #![trigger entry_acceptable(contents, payload, header, index)]
            entry_acceptable(contents, payload, header, index) <==> entry_fault(contents, payload, header, index) is None by {}
        assert forall|index: int| #![trigger entry_fault(contents, payload, header, index)]
            entry_acceptable(contents, payload, header, index) <==> entry_fault(contents, payload, header, index) is None by {}
    }
}

/// A payload that the file does not hold whole, padding and all, is truncated.
pub proof fn law_truncated_payloads(contents: Seq<u8>, directory: CheckpointDirectory, header: CheckpointSlotHeader)
    ensures
        slot_payload_fault(contents, directory, header) == Some(PayloadFault::Truncated) <==> (directory.payload_offset(
            header.slot as int,
        ) matches Ok(payload) && padded(header.payload_len) matches Ok(length) && payload + length > contents.len()),
{
}

/// What a fault of a payload is called.
pub proof fn law_codec_messages(error: CheckpointCodecError)
    ensures
        error is ChecksumMismatch ==> codec_message(error) == "checkpoint payload checksum does not match"@,
        error is UnsupportedVersion ==> codec_message(error) == "checkpoint payload version is unsupported"@,
        error is PayloadTooLarge ==> codec_message(error) == "checkpoint payload exceeds its slot"@,
        error is ArithmeticOverflow ==> codec_message(error) == "checkpoint payload offset or size overflows"@,
        error is InvalidLength ==> codec_message(error) == "checkpoint payload length is invalid"@,
        error is InvalidMagic || error is InvalidField ==> codec_message(error) == "checkpoint payload fields are invalid"@,
{
}

} // verus!
