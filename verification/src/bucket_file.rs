//! Offline checks of the fixed-bucket small-object file.

use vstd::prelude::*;

use crate::bytes::{all_zero, is_all_zero, read_u16, read_u32, read_u64, u16_at, u32_at, u64_at};
use crate::checksum::{checksum_matches, sealed};
use crate::format::decode_flag;
use crate::management::{tally, ManagementError};
use crate::offline_file::OfflineFile;

verus! {

/// Bytes of one Superblock page.
pub const BUCKET_SUPERBLOCK_SIZE: usize = 4096;

/// Where the bucket pages start.
pub const BUCKET_DATA_OFFSET: u64 = 8192;

/// `CRBKT001`, read as a number.
pub const BUCKET_SUPERBLOCK_MAGIC: u64 = 0x3130_3054_4b42_5243;

/// `CRBUCKT1`, read as a number.
pub const BUCKET_PAGE_MAGIC: u64 = 0x3154_4b43_5542_5243;

/// Version of both page formats.
pub const BUCKET_FORMAT_VERSION: u16 = 1;

/// Bytes of a bucket page in front of its first entry.
pub const BUCKET_HEADER_BYTES: usize = 64;

/// Bytes of an entry in front of its key.
pub const BUCKET_ENTRY_HEADER_BYTES: usize = 32;

/// Entries start and end at multiples of this.
pub const BUCKET_ENTRY_ALIGNMENT: usize = 8;

/// Offline summary of the fixed-bucket small-object file in a Hybrid cache.
#[derive(Clone, Copy, Debug, PartialEq, Eq, Structural)]
pub struct BucketFileReport {
    pub file_len: u64,
    pub valid: bool,
    pub selected_superblock: Option<u8>,
    pub generation: Option<u64>,
    pub clean: Option<bool>,
    pub bucket_size_bytes: Option<u32>,
    pub bucket_count: Option<u64>,
    pub epoch: Option<u64>,
    pub expected_file_len: Option<u64>,
    pub buckets_verified: u64,
    pub current_epoch_buckets: u64,
    pub stale_epoch_buckets: u64,
    pub empty_buckets: u64,
    pub entries_verified: u64,
    pub invalid_buckets: u64,
}

impl BucketFileReport {
    /// Nothing is known but the file's length.
    pub open spec fn unread(file_len: u64) -> BucketFileReport {
        BucketFileReport {
            file_len,
            valid: false,
            selected_superblock: None,
            generation: None,
            clean: None,
            bucket_size_bytes: None,
            bucket_count: None,
            epoch: None,
            expected_file_len: None,
            buckets_verified: 0,
            current_epoch_buckets: 0,
            stale_epoch_buckets: 0,
            empty_buckets: 0,
            entries_verified: 0,
            invalid_buckets: 0,
        }
    }

    /// The report once a page's verdict has been added.
    pub open spec fn with_page(self, verdict: BucketPageVerification) -> BucketFileReport {
        let counted = BucketFileReport { buckets_verified: tally(self.buckets_verified, 1), ..self };
        match verdict {
            BucketPageVerification::Empty => BucketFileReport { empty_buckets: tally(self.empty_buckets, 1), ..counted },
            BucketPageVerification::Stale => BucketFileReport {
                stale_epoch_buckets: tally(self.stale_epoch_buckets, 1),
                ..counted
            },
            BucketPageVerification::Current(entries) => BucketFileReport {
                current_epoch_buckets: tally(self.current_epoch_buckets, 1),
                entries_verified: tally(self.entries_verified, entries),
                ..counted
            },
            BucketPageVerification::Invalid => BucketFileReport {
                invalid_buckets: tally(self.invalid_buckets, 1),
                valid: false,
                ..counted
            },
        }
    }

    /// A report of a file of which nothing is known but its length.
    pub fn of_length(file_len: u64) -> (report: BucketFileReport)
        ensures
            report == BucketFileReport::unread(file_len),
    {
        BucketFileReport {
            file_len,
            valid: false,
            selected_superblock: None,
            generation: None,
            clean: None,
            bucket_size_bytes: None,
            bucket_count: None,
            epoch: None,
            expected_file_len: None,
            buckets_verified: 0,
            current_epoch_buckets: 0,
            stale_epoch_buckets: 0,
            empty_buckets: 0,
            entries_verified: 0,
            invalid_buckets: 0,
        }
    }

    fn add_page(&mut self, verdict: BucketPageVerification)
        ensures
            *final(self) == old(self).with_page(verdict),
    {
        self.buckets_verified = self.buckets_verified.saturating_add(1);
        match verdict {
            BucketPageVerification::Empty => {
                self.empty_buckets = self.empty_buckets.saturating_add(1);
            },
            BucketPageVerification::Stale => {
                self.stale_epoch_buckets = self.stale_epoch_buckets.saturating_add(1);
            },
            BucketPageVerification::Current(entries) => {
                self.current_epoch_buckets = self.current_epoch_buckets.saturating_add(1);
                self.entries_verified = self.entries_verified.saturating_add(entries);
            },
            BucketPageVerification::Invalid => {
                self.invalid_buckets = self.invalid_buckets.saturating_add(1);
                self.valid = false;
            },
        }
    }
}

impl Default for BucketFileReport {
    fn default() -> (report: BucketFileReport)
        ensures
            report == BucketFileReport::unread(0),
    {
        BucketFileReport::of_length(0)
    }
}

/// Layout and epoch of the bucket file.
#[derive(Clone, Copy, Debug, PartialEq, Eq, Structural)]
pub struct OfflineBucketSuperblock {
    pub generation: u64,
    pub bucket_size: u32,
    pub bucket_count: u64,
    pub epoch: u64,
    pub clean: bool,
}

impl OfflineBucketSuperblock {
    /// The Superblock that a page holds, if it is a valid one.
    pub open spec fn held(page: Seq<u8>) -> Option<OfflineBucketSuperblock> {
        if page.len() == BUCKET_SUPERBLOCK_SIZE && u64_at(page, 0) == BUCKET_SUPERBLOCK_MAGIC && u16_at(page, 8)
            == BUCKET_FORMAT_VERSION && sealed(page, BUCKET_SUPERBLOCK_SIZE - 4) && page[56] <= 1 {
            Some(
                OfflineBucketSuperblock {
                    generation: u64_at(page, 16),
                    bucket_size: u32_at(page, 24),
                    bucket_count: u64_at(page, 32),
                    epoch: u64_at(page, 48),
                    clean: page[56] == 1,
                },
            )
        } else {
            None
        }
    }

    /// The file length that the layout calls for.
    pub open spec fn expected_len(self) -> Option<u64> {
        let pages = self.bucket_size * self.bucket_count;
        if pages <= u64::MAX - BUCKET_DATA_OFFSET {
            Some((BUCKET_DATA_OFFSET + pages) as u64)
        } else {
            None
        }
    }

    /// The layout is usable and the file has the length it calls for.
    pub open spec fn fits(self, file_len: u64) -> bool {
        &&& self.generation != 0
        &&& self.epoch != 0
        &&& self.bucket_count != 0
        &&& allowed_bucket_size(self.bucket_size)
        &&& self.expected_len() == Some(file_len)
    }
}

/// A power of two from 4 KiB to 64 KiB.
pub open spec fn allowed_bucket_size(size: u32) -> bool {
    size == 4096 || size == 8192 || size == 16384 || size == 32768 || size == 65536
}

/// Reads a Superblock page.
pub fn decode_bucket_superblock(page: &[u8]) -> (superblock: Option<OfflineBucketSuperblock>)
    ensures
        superblock == OfflineBucketSuperblock::held(page@),
{
    if page.len() != BUCKET_SUPERBLOCK_SIZE || read_u64(page, 0) != Some(BUCKET_SUPERBLOCK_MAGIC) || read_u16(page, 8) != Some(
        BUCKET_FORMAT_VERSION,
    ) || !checksum_matches(page, BUCKET_SUPERBLOCK_SIZE - 4) {
        return None;
    }
    let clean = decode_flag(page[56])?;
    Some(
        OfflineBucketSuperblock {
            generation: read_u64(page, 16)?,
            bucket_size: read_u32(page, 24)?,
            bucket_count: read_u64(page, 32)?,
            epoch: read_u64(page, 48)?,
            clean,
        },
    )
}

/// What a bucket page turns out to be.
#[derive(Clone, Copy, Debug, PartialEq, Eq, Structural)]
pub enum BucketPageVerification {
    Empty,
    Stale,
    Current(u64),
    Invalid,
}

/// Bytes that an entry with such a key and value takes up.
pub open spec fn bucket_entry_extent(key_len: int, value_len: int) -> int {
    (BUCKET_ENTRY_HEADER_BYTES + key_len + value_len + (BUCKET_ENTRY_ALIGNMENT - 1)) / (BUCKET_ENTRY_ALIGNMENT as int)
        * BUCKET_ENTRY_ALIGNMENT
}

/// A well-formed entry starts at the cursor and ends by `used`.
#[verifier::opaque]
pub open spec fn bucket_entry_at(page: Seq<u8>, cursor: int, used: int) -> bool {
    &&& cursor + 24 <= page.len()
    &&& u16_at(page, cursor + 14) == 0
    &&& u32_at(page, cursor + 20) == bucket_entry_extent(u16_at(page, cursor + 12) as int, u32_at(page, cursor + 16) as int)
    &&& cursor + u32_at(page, cursor + 20) <= used
}

/// Where `count` entries from the cursor on end, if all are well-formed.
pub open spec fn bucket_entries_end(page: Seq<u8>, cursor: int, count: nat, used: int) -> Option<int>
    decreases count,
{
    if count == 0 {
        Some(cursor)
    } else if bucket_entry_at(page, cursor, used) {
        bucket_entries_end(page, cursor + u32_at(page, cursor + 20), (count - 1) as nat, used)
    } else {
        None
    }
}

/// The entries of a page of the current epoch fill its used part exactly.
pub open spec fn bucket_entries_fit(page: Seq<u8>) -> bool {
    let used = u32_at(page, 36);
    let count = u32_at(page, 32);
    &&& BUCKET_HEADER_BYTES <= used <= page.len() - 4
    &&& count <= (used - BUCKET_HEADER_BYTES) / (BUCKET_ENTRY_HEADER_BYTES as int)
    &&& bucket_entries_end(page, BUCKET_HEADER_BYTES as int, count as nat, used as int) == Some(used as int)
}

/// What a bucket page is in an epoch.
pub open spec fn bucket_page(page: Seq<u8>, current_epoch: u64) -> BucketPageVerification {
    if all_zero(page) {
        BucketPageVerification::Empty
    } else if page.len() < BUCKET_HEADER_BYTES + 4 || u64_at(page, 0) != BUCKET_PAGE_MAGIC || u16_at(page, 8)
        != BUCKET_FORMAT_VERSION || !sealed(page, page.len() - 4) {
        BucketPageVerification::Invalid
    } else if u64_at(page, 24) != current_epoch {
        BucketPageVerification::Stale
    } else if bucket_entries_fit(page) {
        BucketPageVerification::Current(u32_at(page, 32) as u64)
    } else {
        BucketPageVerification::Invalid
    }
}

/// Length of the entry at the cursor, if it is well-formed and ends by `used`.
fn bucket_entry_len(page: &[u8], cursor: usize, used: usize) -> (length: Option<usize>)
    requires
        cursor <= used <= page.len(),
    ensures
        match length {
            Some(found) => {
                &&& bucket_entry_at(page@, cursor as int, used as int)
                &&& found == u32_at(page@, cursor + 20)
                &&& cursor + found <= used
            },
            None => !bucket_entry_at(page@, cursor as int, used as int),
        },
{
    reveal(bucket_entry_at);
    if page.len() - cursor < 24 {
        return None;
    }
    let key_len = read_u16(page, cursor + 12)?;
    if read_u16(page, cursor + 14)? != 0 {
        return None;
    }
    let value_len = read_u32(page, cursor + 16)?;
    let entry_len = read_u32(page, cursor + 20)?;
    let needed: u64 = BUCKET_ENTRY_HEADER_BYTES as u64 + key_len as u64 + value_len as u64 + (BUCKET_ENTRY_ALIGNMENT as u64 - 1);
    let expected = needed / (BUCKET_ENTRY_ALIGNMENT as u64) * (BUCKET_ENTRY_ALIGNMENT as u64);
    if expected != entry_len as u64 || entry_len as usize > used - cursor {
        return None;
    }
    Some(entry_len as usize)
}

/// Whether `count` well-formed entries fill the page up to `used`.
fn bucket_entries_complete(page: &[u8], count: usize, used: usize) -> (complete: bool)
    requires
        BUCKET_HEADER_BYTES <= used <= page.len(),
    ensures
        complete == (bucket_entries_end(page@, BUCKET_HEADER_BYTES as int, count as nat, used as int) == Some(used as int)),
{
    let mut cursor: usize = BUCKET_HEADER_BYTES;
    let mut index: usize = 0;
    while index < count
        invariant
            index <= count,
            cursor <= used <= page.len(),
            bucket_entries_end(page@, BUCKET_HEADER_BYTES as int, count as nat, used as int) == bucket_entries_end(
                page@,
                cursor as int,
                (count - index) as nat,
                used as int,
            ),
        decreases count - index,
    {
        match bucket_entry_len(page, cursor, used) {
            Some(length) => {
                cursor = cursor + length;
            },
            None => {
                return false;
            },
        }
        index = index + 1;
    }
    cursor == used
}

/// Tells what a bucket page is.
pub fn verify_bucket_page(page: &[u8], current_epoch: u64) -> (verdict: BucketPageVerification)
    ensures
        verdict == bucket_page(page@, current_epoch),
{
    if is_all_zero(page) {
        return BucketPageVerification::Empty;
    }
    if page.len() < BUCKET_HEADER_BYTES + 4 || read_u64(page, 0) != Some(BUCKET_PAGE_MAGIC) || read_u16(page, 8) != Some(
        BUCKET_FORMAT_VERSION,
    ) || !checksum_matches(page, page.len() - 4) {
        return BucketPageVerification::Invalid;
    }
    if read_u64(page, 24) != Some(current_epoch) {
        return BucketPageVerification::Stale;
    }
    let entry_count = read_u32(page, 32).unwrap() as usize;
    let used = read_u32(page, 36).unwrap() as usize;
    if used < BUCKET_HEADER_BYTES || used > page.len() - 4 {
        return BucketPageVerification::Invalid;
    }
    if entry_count > (used - BUCKET_HEADER_BYTES) / BUCKET_ENTRY_HEADER_BYTES {
        return BucketPageVerification::Invalid;
    }
    if !bucket_entries_complete(page, entry_count, used) {
        return BucketPageVerification::Invalid;
    }
    BucketPageVerification::Current(entry_count as u64)
}

/// A Superblock copy of the file.
pub open spec fn bucket_superblock(contents: Seq<u8>, slot: int) -> Option<OfflineBucketSuperblock> {
    OfflineBucketSuperblock::held(
        contents.subrange(slot * BUCKET_SUPERBLOCK_SIZE, slot * BUCKET_SUPERBLOCK_SIZE + BUCKET_SUPERBLOCK_SIZE),
    )
}

/// The copy in effect: the one of the higher generation, the first of two
/// equal ones.
pub open spec fn selected_bucket_superblock(contents: Seq<u8>) -> Option<(u8, OfflineBucketSuperblock)> {
    match (bucket_superblock(contents, 0), bucket_superblock(contents, 1)) {
        (Some(first), Some(second)) => if second.generation > first.generation {
            Some((1u8, second))
        } else {
            Some((0u8, first))
        },
        (Some(first), None) => Some((0u8, first)),
        (None, Some(second)) => Some((1u8, second)),
        (None, None) => None,
    }
}

/// One bucket page of the file.
pub open spec fn bucket_page_bytes(contents: Seq<u8>, superblock: OfflineBucketSuperblock, bucket: int) -> Seq<u8> {
    contents.subrange(
        BUCKET_DATA_OFFSET + bucket * superblock.bucket_size,
        BUCKET_DATA_OFFSET + bucket * superblock.bucket_size + superblock.bucket_size,
    )
}

/// The report once the first `count` pages have been added.
pub open spec fn with_bucket_pages(
    report: BucketFileReport,
    contents: Seq<u8>,
    superblock: OfflineBucketSuperblock,
    count: nat,
) -> BucketFileReport
    decreases count,
{
    if count == 0 {
        report
    } else {
        with_bucket_pages(report, contents, superblock, (count - 1) as nat).with_page(
            bucket_page(bucket_page_bytes(contents, superblock, count - 1), superblock.epoch),
        )
    }
}

/// What there is to say about a bucket file, without its pages or with them.
pub open spec fn bucket_report(contents: Seq<u8>, file_len: u64, verify_pages: bool) -> BucketFileReport {
    let unread = BucketFileReport::unread(file_len);
    if file_len < BUCKET_DATA_OFFSET {
        unread
    } else {
        match selected_bucket_superblock(contents) {
            None => unread,
            Some((slot, superblock)) => {
                let report = BucketFileReport {
                    valid: superblock.fits(file_len),
                    selected_superblock: Some(slot),
                    generation: Some(superblock.generation),
                    clean: Some(superblock.clean),
                    bucket_size_bytes: Some(superblock.bucket_size),
                    bucket_count: Some(superblock.bucket_count),
                    epoch: Some(superblock.epoch),
                    expected_file_len: superblock.expected_len(),
                    ..unread
                };
                if superblock.fits(file_len) && verify_pages {
                    with_bucket_pages(report, contents, superblock, superblock.bucket_count as nat)
                } else {
                    report
                }
            },
        }
    }
}

/// Inspects the bucket file, and verifies its pages on request.
#[verifier::rlimit(30)]
pub fn inspect_bucket_file<F: OfflineFile>(file: &F, verify_pages: bool) -> (result: Result<
    BucketFileReport,
    ManagementError<F::Error>,
>)
    ensures
        match result {
            Ok(report) => report == bucket_report(file.contents(), file.contents().len() as u64, verify_pages),
            Err(ManagementError::Io(_)) => !file.reliable(),
            Err(_) => false,
        },
{
    let file_len = file.len();
    let mut report = BucketFileReport::of_length(file_len);
    if file_len < BUCKET_DATA_OFFSET {
        return Ok(report);
    }
    let first_page = match file.read_exact_at(0, BUCKET_SUPERBLOCK_SIZE) {
        Ok(page) => page,
        Err(error) => {
            return Err(ManagementError::Io(error));
        },
    };
    let second_page = match file.read_exact_at(BUCKET_SUPERBLOCK_SIZE as u64, BUCKET_SUPERBLOCK_SIZE) {
        Ok(page) => page,
        Err(error) => {
            return Err(ManagementError::Io(error));
        },
    };
    let first = decode_bucket_superblock(first_page.as_slice());
    let second = decode_bucket_superblock(second_page.as_slice());
    let selected: Option<(u8, OfflineBucketSuperblock)> = match (first, second) {
        (Some(earlier), Some(later)) => if later.generation > earlier.generation {
            Some((1u8, later))
        } else {
            Some((0u8, earlier))
        },
        (Some(earlier), None) => Some((0u8, earlier)),
        (None, Some(later)) => Some((1u8, later)),
        (None, None) => None,
    };
    assert(selected == selected_bucket_superblock(file.contents()));
    let (slot, superblock) = match selected {
        Some(pair) => pair,
        None => {
            return Ok(report);
        },
    };
    assert(superblock.bucket_size * superblock.bucket_count <= 0x1_0000_0000 * 0x1_0000_0000_0000_0000) by (nonlinear_arith)
        requires
            superblock.bucket_size < 0x1_0000_0000,
            superblock.bucket_count < 0x1_0000_0000_0000_0000,
    ;
    assert(superblock.bucket_size * superblock.bucket_count >= 0) by (nonlinear_arith)
        requires
            superblock.bucket_size >= 0,
            superblock.bucket_count >= 0,
    ;
    let pages: u128 = superblock.bucket_size as u128 * superblock.bucket_count as u128;
    let expected: Option<u64> = if pages <= (u64::MAX - BUCKET_DATA_OFFSET) as u128 {
        Some(BUCKET_DATA_OFFSET + pages as u64)
    } else {
        None
    };
    let size = superblock.bucket_size;
    let allowed = size == 4096 || size == 8192 || size == 16384 || size == 32768 || size == 65536;
    let layout_valid = superblock.generation != 0 && superblock.epoch != 0 && superblock.bucket_count != 0 && allowed && expected
        == Some(file_len);
    report.selected_superblock = Some(slot);
    report.generation = Some(superblock.generation);
    report.clean = Some(superblock.clean);
    report.bucket_size_bytes = Some(superblock.bucket_size);
    report.bucket_count = Some(superblock.bucket_count);
    report.epoch = Some(superblock.epoch);
    report.expected_file_len = expected;
    report.valid = layout_valid;
    if !layout_valid || !verify_pages {
        return Ok(report);
    }
    let ghost summary = report;
    let mut bucket_id: u64 = 0;
    while bucket_id < superblock.bucket_count
        invariant
            bucket_id <= superblock.bucket_count,
            allowed_bucket_size(superblock.bucket_size),
            size == superblock.bucket_size,
            BUCKET_DATA_OFFSET + superblock.bucket_size * superblock.bucket_count == file.contents().len(),
            file.contents().len() <= u64::MAX,
            report == with_bucket_pages(summary, file.contents(), superblock, bucket_id as nat),
        decreases superblock.bucket_count - bucket_id,
    {
        assert(bucket_id * size + size <= superblock.bucket_size * superblock.bucket_count) by (nonlinear_arith)
            requires
                bucket_id + 1 <= superblock.bucket_count,
                size == superblock.bucket_size,
                size >= 0,
        ;
        assert(bucket_id * size >= 0) by (nonlinear_arith)
            requires
                bucket_id >= 0,
                size >= 0,
        ;
        let offset = BUCKET_DATA_OFFSET + bucket_id * (size as u64);
        let page = match file.read_exact_at(offset, size as usize) {
            Ok(page) => page,
            Err(error) => {
                return Err(ManagementError::Io(error));
            },
        };
        assert(page@ == bucket_page_bytes(file.contents(), superblock, bucket_id as int));
        report.add_page(verify_bucket_page(page.as_slice(), superblock.epoch));
        bucket_id = bucket_id + 1;
    }
    Ok(report)
}

// ---------------------------------------------------------------------------
// What Bucket inspection finds
// ---------------------------------------------------------------------------

/// A Superblock is accepted exactly if its length, magic, version, checksum and
/// clean flag are right.
pub proof fn law_bucket_superblocks(page: Seq<u8>)
    ensures
        ({
            let found = OfflineBucketSuperblock::held(page);
            &&& found is Some <==> page.len() == 4096 && u64_at(page, 0) == 0x3130_3054_4b42_5243 && u16_at(page, 8) == 1 && sealed(
                page,
                4092,
            ) && page[56] < 2
            &&& found matches Some(superblock) ==> {
                &&& superblock.generation == u64_at(page, 16)
                &&& superblock.bucket_size == u32_at(page, 24)
                &&& superblock.bucket_count == u64_at(page, 32)
                &&& superblock.epoch == u64_at(page, 48)
                &&& superblock.clean <==> page[56] == 1
            }
        }),
{
}

/// A Superblock fits a file exactly if its generation and epoch are set and the
/// file holds two pages of 4096 bytes and then exactly its Buckets, of which
/// there is at least one and each takes a power of two of bytes between 4096 and
/// 65536.
pub proof fn law_fitting_bucket_files(superblock: OfflineBucketSuperblock, file_len: u64)
    ensures
        superblock.fits(file_len) <==> {
            &&& superblock.generation > 0 && superblock.epoch > 0 && superblock.bucket_count > 0
            &&& exists|k: nat| 12 <= k <= 16 && superblock.bucket_size == #[trigger] vstd::arithmetic::power2::pow2(k)
            &&& file_len == 8192 + superblock.bucket_count * superblock.bucket_size
        },
        superblock.expected_len() matches Some(length) ==> length == 8192 + superblock.bucket_count * superblock.bucket_size,
        superblock.expected_len() is None <==> 8192 + superblock.bucket_count * superblock.bucket_size > u64::MAX,
{
    vstd::arithmetic::power2::lemma2_to64();
    assert(superblock.bucket_size * superblock.bucket_count == superblock.bucket_count * superblock.bucket_size) by (nonlinear_arith);
    let size = superblock.bucket_size as int;
    assert(allowed_bucket_size(superblock.bucket_size) <==> exists|k: nat| 12 <= k <= 16 && size == #[trigger]
        vstd::arithmetic::power2::pow2(k)) by {
        if exists|k: nat| 12 <= k <= 16 && size == #[trigger] vstd::arithmetic::power2::pow2(k) {
            let k = choose|k: nat| 12 <= k <= 16 && size == #[trigger] vstd::arithmetic::power2::pow2(k);
            assert(k == 12 || k == 13 || k == 14 || k == 15 || k == 16);
        }
        if size == 4096 {
            assert(size == vstd::arithmetic::power2::pow2(12));
        } else if size == 8192 {
            assert(size == vstd::arithmetic::power2::pow2(13));
        } else if size == 16384 {
            assert(size == vstd::arithmetic::power2::pow2(14));
        } else if size == 32768 {
            assert(size == vstd::arithmetic::power2::pow2(15));
        } else if size == 65536 {
            assert(size == vstd::arithmetic::power2::pow2(16));
        }
    }
}

/// The Superblock that counts is a valid one with the highest generation; of two
/// equal ones it is the first.
pub proof fn law_newest_bucket_superblock(contents: Seq<u8>)
    requires
        contents.len() >= 8192,
    ensures
        ({
            let first = OfflineBucketSuperblock::held(contents.subrange(0, 4096));
            let second = OfflineBucketSuperblock::held(contents.subrange(4096, 8192));
            let chosen = selected_bucket_superblock(contents);
            &&& chosen is None <==> first is None && second is None
            &&& chosen matches Some((slot, superblock)) ==> {
                &&& slot == 0 ==> first == Some(superblock) && (second matches Some(other) ==> other.generation <= superblock.generation)
                &&& slot == 1 ==> second == Some(superblock) && (first matches Some(other) ==> other.generation < superblock.generation)
                &&& slot < 2
            }
        }),
{
}

/// An entry takes the smallest multiple of eight bytes that holds its header of
/// 32 bytes, its key and its value, and says so itself; it ends within the used
/// bytes, and its reserved field is blank.
#[verifier::spinoff_prover]
pub proof fn law_bucket_entries(page: Seq<u8>, cursor: int, used: int)
    requires
        0 <= cursor,
        cursor + 24 <= page.len(),
    ensures
        ({
            let least = 32 + u16_at(page, cursor + 12) + u32_at(page, cursor + 16);
            let length = u32_at(page, cursor + 20) as int;
            bucket_entry_at(page, cursor, used) <==> u16_at(page, cursor + 14) == 0 && length % 8 == 0 && least <= length < least + 8
                && cursor + length <= used
        }),
{
    let least = 32 + u16_at(page, cursor + 12) + u32_at(page, cursor + 16);
    assert(bucket_entry_extent(u16_at(page, cursor + 12) as int, u32_at(page, cursor + 16) as int) == (least + 7) / 8 * 8);
    let length = u32_at(page, cursor + 20) as int;
    reveal(bucket_entry_at);
    lemma_entry_rounded_up(length, least);
    assert(bucket_entry_at(page, cursor, used) <==> {
        &&& u16_at(page, cursor + 14) == 0
        &&& length == (least + 7) / 8 * 8
        &&& cursor + length <= used
    });
}

proof fn lemma_entry_rounded_up(length: int, least: int)
    requires
        least >= 0,
    ensures
        length == (least + 7) / 8 * 8 <==> length % 8 == 0 && least <= length < least + 8,
{
}

/// Entries stand back to back: the ends of `count` of them, from the first
/// one's start.
pub open spec fn back_to_back(page: Seq<u8>, ends: Seq<int>, used: int) -> bool {
    forall|k: int|
        0 <= k < ends.len() - 1 ==> bucket_entry_at(page, #[trigger] ends[k], used) && ends[k + 1] == ends[k] + u32_at(
            page,
            ends[k] + 20,
        )
}

proof fn lemma_entries_back_to_back(page: Seq<u8>, cursor: int, count: nat, used: int) -> (ends: Seq<int>)
    ensures
        ends.len() > 0 && ends[0] == cursor,
        back_to_back(page, ends, used),
        bucket_entries_end(page, cursor, count, used) matches Some(end) ==> ends.len() == count + 1 && ends.last() == end,
        bucket_entries_end(page, cursor, count, used) is None ==> ends.len() <= count && !bucket_entry_at(page, ends.last(), used),
    decreases count,
{
    if count == 0 {
        seq![cursor]
    } else if bucket_entry_at(page, cursor, used) {
        let rest = lemma_entries_back_to_back(page, cursor + u32_at(page, cursor + 20), (count - 1) as nat, used);
        let ends = seq![cursor] + rest;
        assert forall|k: int| 0 <= k < ends.len() - 1 implies bucket_entry_at(page, #[trigger] ends[k], used) && ends[k + 1] == ends[k]
            + u32_at(page, ends[k] + 20) by {
            if k > 0 {
                assert(ends[k] == rest[k - 1] && ends[k + 1] == rest[k]);
            }
        }
        assert(ends.last() == rest.last());
        ends
    } else {
        seq![cursor]
    }
}

/// A page's entries fit exactly if they stand back to back from behind its header
/// of 64 bytes and the last ends where the used bytes do, which leave room for
/// the checksum.
pub proof fn law_fitting_entries(page: Seq<u8>) -> (ends: Seq<int>)
    ensures
        ({
            let used = u32_at(page, 36) as int;
            let count = u32_at(page, 32) as int;
            &&& ends.len() > 0 && ends[0] == 64
            &&& back_to_back(page, ends, used)
            &&& bucket_entries_fit(page) <==> 64 <= used <= page.len() - 4 && 32 * count <= used - 64 && ends.len() == count + 1
                && ends.last() == used
        }),
{
    let used = u32_at(page, 36) as int;
    let count = u32_at(page, 32) as int;
    let ends = lemma_entries_back_to_back(page, 64, count as nat, used);
    assert(count <= (used - 64) / 32 <==> 32 * count <= used - 64);
    ends
}

/// A page is empty exactly if it is blank. Else it is invalid without magic,
/// version and checksum; stale if it is of another epoch; and current, with the
/// entries that it counts, exactly if they fit.
pub proof fn law_bucket_pages(page: Seq<u8>, epoch: u64)
    ensures
        ({
            let verdict = bucket_page(page, epoch);
            let blank = forall|k: int| 0 <= k < page.len() ==> #[trigger] page[k] == 0;
            let sound = page.len() >= 68 && u64_at(page, 0) == 0x3154_4b43_5542_5243 && u16_at(page, 8) == 1 && sealed(
                page,
                page.len() - 4,
            );
            &&& verdict is Empty <==> blank
            &&& verdict is Stale <==> !blank && sound && u64_at(page, 24) != epoch
            &&& verdict is Current <==> !blank && sound && u64_at(page, 24) == epoch && bucket_entries_fit(page)
            &&& verdict matches BucketPageVerification::Current(entries) ==> entries == u32_at(page, 32)
        }),
{
}

/// Every page is counted once, by its verdict; an invalid one makes the file
/// invalid, and entries are counted on current ones.
pub proof fn law_bucket_pages_are_counted(report: BucketFileReport, verdict: BucketPageVerification)
    requires
        report.buckets_verified < u64::MAX,
        report.empty_buckets < u64::MAX,
        report.stale_epoch_buckets < u64::MAX,
        report.current_epoch_buckets < u64::MAX,
        report.invalid_buckets < u64::MAX,
        verdict matches BucketPageVerification::Current(entries) ==> report.entries_verified + entries <= u64::MAX,
    ensures
        ({
            let after = report.with_page(verdict);
            &&& after.buckets_verified == report.buckets_verified + 1
            &&& after.empty_buckets == report.empty_buckets + if verdict is Empty { 1int } else { 0int }
            &&& after.stale_epoch_buckets == report.stale_epoch_buckets + if verdict is Stale { 1int } else { 0int }
            &&& after.current_epoch_buckets == report.current_epoch_buckets + if verdict is Current { 1int } else { 0int }
            &&& after.invalid_buckets == report.invalid_buckets + if verdict is Invalid { 1int } else { 0int }
            &&& after.entries_verified == report.entries_verified + match verdict {
                BucketPageVerification::Current(entries) => entries as int,
                _ => 0int,
            }
            &&& after.valid <==> report.valid && !(verdict is Invalid)
            &&& after.file_len == report.file_len && after.selected_superblock == report.selected_superblock
            &&& after.generation == report.generation && after.clean == report.clean && after.epoch == report.epoch
            &&& after.bucket_size_bytes == report.bucket_size_bytes && after.bucket_count == report.bucket_count
            &&& after.expected_file_len == report.expected_file_len
        }),
{
}

/// Every Bucket's page is counted, in order; they follow each other behind the
/// two Superblocks.
pub proof fn law_every_bucket_page_is_counted(
    report: BucketFileReport,
    contents: Seq<u8>,
    superblock: OfflineBucketSuperblock,
    bucket: nat,
)
    ensures
        with_bucket_pages(report, contents, superblock, 0) == report,
        with_bucket_pages(report, contents, superblock, bucket + 1) == with_bucket_pages(report, contents, superblock, bucket).with_page(
            bucket_page(
                contents.subrange(
                    8192 + bucket * superblock.bucket_size,
                    8192 + bucket * superblock.bucket_size + superblock.bucket_size,
                ),
                superblock.epoch,
            ),
        ),
{
}

/// Nothing is shown of a file without a Superblock that counts.
pub proof fn law_unread_bucket_files(contents: Seq<u8>, file_len: u64, verify_pages: bool)
    requires
        file_len < 8192 || selected_bucket_superblock(contents) is None,
    ensures
        ({
            let report = bucket_report(contents, file_len, verify_pages);
            &&& report.file_len == file_len
            &&& !report.valid && report.selected_superblock is None && report.generation is None && report.clean is None
            &&& report.bucket_size_bytes is None && report.bucket_count is None && report.epoch is None
            &&& report.expected_file_len is None && report.buckets_verified == 0 && report.entries_verified == 0
            &&& report.invalid_buckets == 0
        }),
{
}

/// A report shows the Superblock that counts. The file is valid exactly if that
/// fits and, where pages are verified, none of them is invalid.
pub proof fn law_bucket_reports(contents: Seq<u8>, file_len: u64, slot: u8, superblock: OfflineBucketSuperblock)
    requires
        file_len >= 8192,
        selected_bucket_superblock(contents) == Some((slot, superblock)),
    ensures
        ({
            let report = bucket_report(contents, file_len, false);
            &&& report.file_len == file_len
            &&& report.valid == superblock.fits(file_len)
            &&& report.selected_superblock == Some(slot) && report.generation == Some(superblock.generation)
            &&& report.clean == Some(superblock.clean) && report.epoch == Some(superblock.epoch)
            &&& report.bucket_size_bytes == Some(superblock.bucket_size) && report.bucket_count == Some(superblock.bucket_count)
            &&& report.expected_file_len == superblock.expected_len()
            &&& report.buckets_verified == 0 && report.entries_verified == 0 && report.invalid_buckets == 0
            &&& report.current_epoch_buckets == 0 && report.stale_epoch_buckets == 0 && report.empty_buckets == 0
        }),
        bucket_report(contents, file_len, true) == if superblock.fits(file_len) {
            with_bucket_pages(
                bucket_report(contents, file_len, false),
                contents,
                superblock,
                superblock.bucket_count as nat,
            )
        } else {
            bucket_report(contents, file_len, false)
        },
{
}

} // verus!
