//! On-disk structures of the Region file: the two Superblock pages, the Region
//! Headers and the record headers. All numbers are little-endian and every
//! structure carries its own CRC-32C.

use vstd::prelude::*;

use crate::bytes::{
    all_zero, is_all_zero, read_u16, read_u32, read_u64, u16_at, u32_at, u64_at, write_u16, write_u32, write_u64,
};
use crate::checksum::{checksum_matches, seal, sealed};

verus! {

/// Version of the Region file format.
pub const FORMAT_VERSION: u16 = 1;

/// Bytes of one Superblock page.
pub const SUPERBLOCK_SIZE: usize = 4096;

/// Offset of the first Superblock copy.
pub const SUPERBLOCK_A_OFFSET: u64 = 0;

/// Offset of the second Superblock copy.
pub const SUPERBLOCK_B_OFFSET: u64 = 4096;

/// Bytes in front of the first Region.
pub const SUPERBLOCK_AREA_SIZE: u64 = 8192;

/// Bytes of one Region Header.
pub const REGION_HEADER_SIZE: usize = 4096;

/// Bytes of one record header.
pub const RECORD_HEADER_SIZE: usize = 64;

/// Records start and end at multiples of this.
pub const RECORD_ALIGNMENT: usize = 8;

/// `CRREGN01`, read as a number.
pub const SUPERBLOCK_MAGIC: u64 = 0x3130_4e47_4552_5243;

/// `CRREGHD1`, read as a number.
pub const REGION_HEADER_MAGIC: u64 = 0x3144_4847_4552_5243;

/// `CRRC`, read as a number.
pub const RECORD_MAGIC: u32 = 0x4352_5243;

/// Where a page keeps its CRC.
pub const PAGE_CHECKSUM_OFFSET: usize = 4092;

/// Where a record header keeps its CRC.
pub const RECORD_CHECKSUM_OFFSET: usize = 60;

/// A flag byte: zero or one.
pub open spec fn flag_of(byte: u8) -> Option<bool> {
    if byte == 0 {
        Some(false)
    } else if byte == 1 {
        Some(true)
    } else {
        None
    }
}

/// Reads a flag byte.
pub fn decode_flag(byte: u8) -> (flag: Option<bool>)
    ensures
        flag == flag_of(byte),
{
    if byte == 0 {
        Some(false)
    } else if byte == 1 {
        Some(true)
    } else {
        None
    }
}

/// A page of zeroes.
fn zero_page(length: usize) -> (page: Vec<u8>)
    ensures
        page@.len() == length,
        all_zero(page@),
{
    let mut page: Vec<u8> = Vec::new();
    page.resize(length, 0);
    page
}

// ---------------------------------------------------------------------------
// Superblock
// ---------------------------------------------------------------------------

/// Layout, lineage and cleanliness of the Region file.
#[derive(Clone, Copy, Debug, PartialEq, Eq, Structural)]
pub struct Superblock {
    pub generation: u64,
    pub region_size: u64,
    pub region_count: u32,
    pub epoch: u32,
    pub epoch_start_seqno: u64,
    pub next_seqno: u64,
    pub hash_seed: u64,
    pub clean: bool,
}

/// What a Superblock page holds.
#[derive(Clone, Copy, Debug, PartialEq, Eq, Structural)]
pub enum SuperblockProbe {
    Empty,
    InterruptedV1,
    ValidV1(Superblock),
    CorruptV1,
    Unsupported(u16),
    Unrecognized,
}

impl Superblock {
    /// The fields of a page, whether or not its checksum is right.
    pub open spec fn fields(page: Seq<u8>) -> Superblock {
        Superblock {
            generation: u64_at(page, 16),
            region_size: u64_at(page, 24),
            region_count: u32_at(page, 32),
            epoch: u32_at(page, 36),
            epoch_start_seqno: u64_at(page, 40),
            next_seqno: u64_at(page, 48),
            hash_seed: u64_at(page, 56),
            clean: page[64] == 1,
        }
    }

    /// The Superblock that a page holds, if it is a valid one.
    pub open spec fn held(page: Seq<u8>) -> Option<Superblock> {
        if page.len() == SUPERBLOCK_SIZE && u64_at(page, 0) == SUPERBLOCK_MAGIC && u16_at(page, 8) == FORMAT_VERSION && sealed(
            page,
            PAGE_CHECKSUM_OFFSET as int,
        ) && page[64] <= 1 {
            Some(Superblock::fields(page))
        } else {
            None
        }
    }

    /// What a page holds. A page with nothing but magic and version is the
    /// marker of an interrupted format.
    pub open spec fn probed(page: Seq<u8>) -> SuperblockProbe {
        if all_zero(page) {
            SuperblockProbe::Empty
        } else if u64_at(page, 0) != SUPERBLOCK_MAGIC {
            SuperblockProbe::Unrecognized
        } else if u16_at(page, 8) != FORMAT_VERSION {
            SuperblockProbe::Unsupported(u16_at(page, 8))
        } else if all_zero(page.skip(10)) {
            SuperblockProbe::InterruptedV1
        } else {
            match Superblock::held(page) {
                Some(superblock) => SuperblockProbe::ValidV1(superblock),
                None => SuperblockProbe::CorruptV1,
            }
        }
    }

    /// Reads a page.
    pub fn decode(page: &[u8]) -> (superblock: Option<Superblock>)
        ensures
            superblock == Superblock::held(page@),
    {
        if page.len() != SUPERBLOCK_SIZE || read_u64(page, 0) != Some(SUPERBLOCK_MAGIC) || read_u16(page, 8) != Some(
            FORMAT_VERSION,
        ) || !checksum_matches(page, PAGE_CHECKSUM_OFFSET) {
            return None;
        }
        let clean = decode_flag(page[64])?;
        Some(
            Superblock {
                generation: read_u64(page, 16)?,
                region_size: read_u64(page, 24)?,
                region_count: read_u32(page, 32)?,
                epoch: read_u32(page, 36)?,
                epoch_start_seqno: read_u64(page, 40)?,
                next_seqno: read_u64(page, 48)?,
                hash_seed: read_u64(page, 56)?,
                clean,
            },
        )
    }

    /// Tells what a page holds.
    pub fn probe(page: &[u8]) -> (probe: SuperblockProbe)
        requires
            page@.len() == SUPERBLOCK_SIZE,
        ensures
            probe == Superblock::probed(page@),
    {
        if is_all_zero(page) {
            return SuperblockProbe::Empty;
        }
        if read_u64(page, 0) != Some(SUPERBLOCK_MAGIC) {
            return SuperblockProbe::Unrecognized;
        }
        match read_u16(page, 8) {
            Some(version) => {
                if version != FORMAT_VERSION {
                    return SuperblockProbe::Unsupported(version);
                }
            },
            None => {
                return SuperblockProbe::Unrecognized;
            },
        }
        let rest = vstd::slice::slice_subrange(page, 10, page.len());
        assert(page@.subrange(10, page@.len() as int) =~= page@.skip(10));
        if is_all_zero(rest) {
            return SuperblockProbe::InterruptedV1;
        }
        match Superblock::decode(page) {
            Some(superblock) => SuperblockProbe::ValidV1(superblock),
            None => SuperblockProbe::CorruptV1,
        }
    }

    /// Writes a page.
    pub fn encode(&self) -> (page: Vec<u8>)
        ensures
            page@.len() == SUPERBLOCK_SIZE,
            Superblock::held(page@) == Some(*self),
    {
        let mut page = zero_page(SUPERBLOCK_SIZE);
        write_u64(&mut page, 0, SUPERBLOCK_MAGIC);
        write_u16(&mut page, 8, FORMAT_VERSION);
        write_u64(&mut page, 16, self.generation);
        write_u64(&mut page, 24, self.region_size);
        write_u32(&mut page, 32, self.region_count);
        write_u32(&mut page, 36, self.epoch);
        write_u64(&mut page, 40, self.epoch_start_seqno);
        write_u64(&mut page, 48, self.next_seqno);
        write_u64(&mut page, 56, self.hash_seed);
        page.set(
            64,
            if self.clean {
                1
            } else {
                0
            },
        );
        seal(&mut page, PAGE_CHECKSUM_OFFSET);
        page
    }
}

// ---------------------------------------------------------------------------
// Region Header
// ---------------------------------------------------------------------------

/// Life cycle of a Region.
#[derive(Clone, Copy, Debug, PartialEq, Eq, Structural)]
pub enum RegionState {
    Free,
    Active,
    Sealed,
}

impl RegionState {
    /// The byte that stands for a state.
    pub open spec fn code(self) -> u8 {
        match self {
            RegionState::Free => 0,
            RegionState::Active => 1,
            RegionState::Sealed => 2,
        }
    }

    /// The state that a byte stands for.
    pub open spec fn of(code: u8) -> Option<RegionState> {
        if code == 0 {
            Some(RegionState::Free)
        } else if code == 1 {
            Some(RegionState::Active)
        } else if code == 2 {
            Some(RegionState::Sealed)
        } else {
            None
        }
    }

    /// The state that a byte stands for.
    pub fn from_code(code: u8) -> (state: Option<RegionState>)
        ensures
            state == RegionState::of(code),
    {
        if code == 0 {
            Some(RegionState::Free)
        } else if code == 1 {
            Some(RegionState::Active)
        } else if code == 2 {
            Some(RegionState::Sealed)
        } else {
            None
        }
    }

    /// The byte that stands for the state.
    pub fn to_code(self) -> (code: u8)
        ensures
            code == self.code(),
            RegionState::of(code) == Some(self),
    {
        match self {
            RegionState::Free => 0,
            RegionState::Active => 1,
            RegionState::Sealed => 2,
        }
    }
}

/// Identity and persisted cursor of one Region.
#[derive(Clone, Copy, Debug, PartialEq, Eq, Structural)]
pub struct RegionHeader {
    pub region_id: u32,
    pub incarnation: u64,
    pub state: RegionState,
    pub created_seqno: u64,
    pub used: u64,
}

impl RegionHeader {
    /// The header that a page holds, if it is a valid one.
    pub open spec fn held(page: Seq<u8>) -> Option<RegionHeader> {
        if page.len() == REGION_HEADER_SIZE && u64_at(page, 0) == REGION_HEADER_MAGIC && u16_at(page, 8) == FORMAT_VERSION
            && sealed(page, PAGE_CHECKSUM_OFFSET as int) && RegionState::of(page[10]) is Some {
            Some(
                RegionHeader {
                    region_id: u32_at(page, 12),
                    incarnation: u64_at(page, 16),
                    state: RegionState::of(page[10])->0,
                    created_seqno: u64_at(page, 24),
                    used: u64_at(page, 32),
                },
            )
        } else {
            None
        }
    }

    /// Reads a page.
    pub fn decode(page: &[u8]) -> (header: Option<RegionHeader>)
        ensures
            header == RegionHeader::held(page@),
    {
        if page.len() != REGION_HEADER_SIZE || read_u64(page, 0) != Some(REGION_HEADER_MAGIC) || read_u16(page, 8) != Some(
            FORMAT_VERSION,
        ) || !checksum_matches(page, PAGE_CHECKSUM_OFFSET) {
            return None;
        }
        let state = RegionState::from_code(page[10])?;
        Some(
            RegionHeader {
                region_id: read_u32(page, 12)?,
                incarnation: read_u64(page, 16)?,
                state,
                created_seqno: read_u64(page, 24)?,
                used: read_u64(page, 32)?,
            },
        )
    }

    /// Writes a page.
    pub fn encode(&self) -> (page: Vec<u8>)
        ensures
            page@.len() == REGION_HEADER_SIZE,
            RegionHeader::held(page@) == Some(*self),
    {
        let mut page = zero_page(REGION_HEADER_SIZE);
        write_u64(&mut page, 0, REGION_HEADER_MAGIC);
        write_u16(&mut page, 8, FORMAT_VERSION);
        page.set(10, self.state.to_code());
        write_u32(&mut page, 12, self.region_id);
        write_u64(&mut page, 16, self.incarnation);
        write_u64(&mut page, 24, self.created_seqno);
        write_u64(&mut page, 32, self.used);
        seal(&mut page, PAGE_CHECKSUM_OFFSET);
        page
    }
}

// ---------------------------------------------------------------------------
// Record header
// ---------------------------------------------------------------------------

/// What a record stands for.
#[derive(Clone, Copy, Debug, PartialEq, Eq, Structural)]
pub enum RecordKind {
    Value,
    Tombstone,
}

/// How a record's key is stored.
#[derive(Clone, Copy, Debug, PartialEq, Eq, Structural)]
pub enum RecordCodec {
    Plain,
    NamespacedKey,
    SecondChance,
    SecondChanceNamespacedKey,
}

impl RecordKind {
    /// The kind that a byte stands for.
    pub open spec fn of(code: u8) -> Option<RecordKind> {
        if code == 1 {
            Some(RecordKind::Value)
        } else if code == 2 {
            Some(RecordKind::Tombstone)
        } else {
            None
        }
    }

    /// The kind that a byte stands for.
    pub fn from_code(code: u8) -> (kind: Option<RecordKind>)
        ensures
            kind == RecordKind::of(code),
    {
        if code == 1 {
            Some(RecordKind::Value)
        } else if code == 2 {
            Some(RecordKind::Tombstone)
        } else {
            None
        }
    }

    /// The byte that stands for the kind.
    pub fn to_code(self) -> (code: u8)
        ensures
            RecordKind::of(code) == Some(self),
    {
        match self {
            RecordKind::Value => 1,
            RecordKind::Tombstone => 2,
        }
    }
}

impl RecordCodec {
    /// The codec that a byte stands for.
    pub open spec fn of(code: u8) -> Option<RecordCodec> {
        if code == 0 {
            Some(RecordCodec::Plain)
        } else if code == 1 {
            Some(RecordCodec::NamespacedKey)
        } else if code == 2 {
            Some(RecordCodec::SecondChance)
        } else if code == 3 {
            Some(RecordCodec::SecondChanceNamespacedKey)
        } else {
            None
        }
    }

    /// The stored key starts with its namespace.
    pub open spec fn namespaced(self) -> bool {
        self is NamespacedKey || self is SecondChanceNamespacedKey
    }

    /// The codec that a byte stands for.
    pub fn from_code(code: u8) -> (codec: Option<RecordCodec>)
        ensures
            codec == RecordCodec::of(code),
    {
        if code == 0 {
            Some(RecordCodec::Plain)
        } else if code == 1 {
            Some(RecordCodec::NamespacedKey)
        } else if code == 2 {
            Some(RecordCodec::SecondChance)
        } else if code == 3 {
            Some(RecordCodec::SecondChanceNamespacedKey)
        } else {
            None
        }
    }

    /// The byte that stands for the codec.
    pub fn to_code(self) -> (code: u8)
        ensures
            RecordCodec::of(code) == Some(self),
    {
        match self {
            RecordCodec::Plain => 0,
            RecordCodec::NamespacedKey => 1,
            RecordCodec::SecondChance => 2,
            RecordCodec::SecondChanceNamespacedKey => 3,
        }
    }

    /// Whether the stored key starts with its namespace.
    pub fn is_namespaced(self) -> (namespaced: bool)
        ensures
            namespaced == self.namespaced(),
    {
        match self {
            RecordCodec::Plain => false,
            RecordCodec::NamespacedKey => true,
            RecordCodec::SecondChance => false,
            RecordCodec::SecondChanceNamespacedKey => true,
        }
    }
}

/// Everything about a record but its payload, which is the key followed by the
/// stored value.
#[derive(Clone, Copy, Debug, PartialEq, Eq, Structural)]
pub struct RecordHeader {
    pub kind: RecordKind,
    pub codec: RecordCodec,
    pub record_len: u32,
    pub key_len: u32,
    pub stored_len: u32,
    pub epoch: u32,
    pub seqno: u64,
    pub region_incarnation: u64,
    pub key_hash: u64,
    pub expires_at_unix_ms: u64,
    pub payload_crc: u32,
}

/// Bytes that a record with such a payload takes up.
pub open spec fn record_extent(key_len: u32, stored_len: u32) -> int {
    (RECORD_HEADER_SIZE + key_len + stored_len + (RECORD_ALIGNMENT - 1)) / (RECORD_ALIGNMENT as int) * RECORD_ALIGNMENT
}

impl RecordHeader {
    /// The record takes up exactly what its payload needs, and a tombstone
    /// stores no value.
    pub open spec fn well_formed(self) -> bool {
        &&& self.record_len == record_extent(self.key_len, self.stored_len)
        &&& self.kind is Tombstone ==> self.stored_len == 0
    }

    /// The fields of a header, whether or not its checksum is right.
    pub open spec fn fields(bytes: Seq<u8>) -> RecordHeader {
        RecordHeader {
            kind: RecordKind::of(bytes[4])->0,
            codec: RecordCodec::of(bytes[5])->0,
            record_len: u32_at(bytes, 8),
            key_len: u32_at(bytes, 12),
            stored_len: u32_at(bytes, 16),
            epoch: u32_at(bytes, 20),
            seqno: u64_at(bytes, 24),
            region_incarnation: u64_at(bytes, 32),
            key_hash: u64_at(bytes, 40),
            expires_at_unix_ms: u64_at(bytes, 48),
            payload_crc: u32_at(bytes, 56),
        }
    }

    /// The header that the bytes hold, if it is a valid one.
    pub open spec fn held(bytes: Seq<u8>) -> Option<RecordHeader> {
        if bytes.len() == RECORD_HEADER_SIZE && u32_at(bytes, 0) == RECORD_MAGIC && sealed(bytes, RECORD_CHECKSUM_OFFSET as int)
            && RecordKind::of(bytes[4]) is Some && RecordCodec::of(bytes[5]) is Some && RecordHeader::fields(bytes).well_formed() {
            Some(RecordHeader::fields(bytes))
        } else {
            None
        }
    }

    /// Whether the lengths fit together.
    pub fn is_well_formed(&self) -> (well_formed: bool)
        ensures
            well_formed == self.well_formed(),
    {
        let needed: u64 = RECORD_HEADER_SIZE as u64 + self.key_len as u64 + self.stored_len as u64 + (RECORD_ALIGNMENT as u64 - 1);
        if self.record_len as u64 != needed / (RECORD_ALIGNMENT as u64) * (RECORD_ALIGNMENT as u64) {
            return false;
        }
        match self.kind {
            RecordKind::Value => true,
            RecordKind::Tombstone => self.stored_len == 0,
        }
    }

    /// Reads a header.
    pub fn decode(bytes: &[u8]) -> (header: Option<RecordHeader>)
        ensures
            header == RecordHeader::held(bytes@),
    {
        if bytes.len() != RECORD_HEADER_SIZE || read_u32(bytes, 0) != Some(RECORD_MAGIC) || !checksum_matches(
            bytes,
            RECORD_CHECKSUM_OFFSET,
        ) {
            return None;
        }
        let kind = RecordKind::from_code(bytes[4])?;
        let codec = RecordCodec::from_code(bytes[5])?;
        let header = RecordHeader {
            kind,
            codec,
            record_len: read_u32(bytes, 8)?,
            key_len: read_u32(bytes, 12)?,
            stored_len: read_u32(bytes, 16)?,
            epoch: read_u32(bytes, 20)?,
            seqno: read_u64(bytes, 24)?,
            region_incarnation: read_u64(bytes, 32)?,
            key_hash: read_u64(bytes, 40)?,
            expires_at_unix_ms: read_u64(bytes, 48)?,
            payload_crc: read_u32(bytes, 56)?,
        };
        if header.is_well_formed() {
            Some(header)
        } else {
            None
        }
    }

    /// Writes a header.
    pub fn encode(&self) -> (bytes: Vec<u8>)
        ensures
            bytes@.len() == RECORD_HEADER_SIZE,
            RecordHeader::held(bytes@) == (if self.well_formed() {
                Some(*self)
            } else {
                None
            }),
    {
        let mut bytes = zero_page(RECORD_HEADER_SIZE);
        write_u32(&mut bytes, 0, RECORD_MAGIC);
        bytes.set(4, self.kind.to_code());
        bytes.set(5, self.codec.to_code());
        write_u32(&mut bytes, 8, self.record_len);
        write_u32(&mut bytes, 12, self.key_len);
        write_u32(&mut bytes, 16, self.stored_len);
        write_u32(&mut bytes, 20, self.epoch);
        write_u64(&mut bytes, 24, self.seqno);
        write_u64(&mut bytes, 32, self.region_incarnation);
        write_u64(&mut bytes, 40, self.key_hash);
        write_u64(&mut bytes, 48, self.expires_at_unix_ms);
        write_u32(&mut bytes, 56, self.payload_crc);
        seal(&mut bytes, RECORD_CHECKSUM_OFFSET);
        bytes
    }
}

// ---------------------------------------------------------------------------
// What the file's structures hold
// ---------------------------------------------------------------------------

/// The codes of record kinds, key codecs and Region states; others are refused.
pub proof fn law_codes(code: u8, codec: RecordCodec)
    ensures
        RecordKind::of(code) is Some <==> 1 <= code <= 2,
        RecordKind::of(code) == Some(RecordKind::Value) <==> code == 1,
        RecordCodec::of(code) is Some <==> code < 4,
        RecordCodec::of(code) == Some(RecordCodec::Plain) <==> code == 0,
        RecordCodec::of(code) == Some(RecordCodec::NamespacedKey) <==> code == 1,
        RecordCodec::of(code) == Some(RecordCodec::SecondChance) <==> code == 2,
        RegionState::of(code) is Some <==> code < 3,
        RegionState::of(code) == Some(RegionState::Free) <==> code == 0,
        RegionState::of(code) == Some(RegionState::Active) <==> code == 1,
        RecordCodec::of(code) == Some(codec) ==> (codec.namespaced() <==> code % 2 == 1),
        flag_of(code) is Some <==> code < 2,
        flag_of(code) == Some(true) <==> code == 1,
{
}

/// A record takes the smallest multiple of eight bytes that holds its header of
/// 64 bytes, its key and its stored value.
pub proof fn law_record_extent_is_tight(key_len: u32, stored_len: u32)
    ensures
        record_extent(key_len, stored_len) % 8 == 0,
        64 + key_len + stored_len <= record_extent(key_len, stored_len) < 64 + key_len + stored_len + 8,
{
}

proof fn lemma_rounded_up(length: int, least: int)
    requires
        least >= 0,
    ensures
        length == (least + 7) / 8 * 8 <==> length % 8 == 0 && least <= length < least + 8,
{
}

/// 64 bytes are a record header exactly if the magic, the checksum over them
/// with its own field cleared, the kind, the codec and the record's length are
/// right and a tombstone stores no value.
pub proof fn law_record_headers(bytes: Seq<u8>)
    requires
        bytes.len() == 64,
    ensures
        RecordHeader::held(bytes) is Some <==> {
            &&& u32_at(bytes, 0) == 0x4352_5243
            &&& sealed(bytes, 60)
            &&& bytes[4] == 1 || bytes[4] == 2
            &&& bytes[5] < 4
            &&& u32_at(bytes, 8) as int % 8 == 0
            &&& 64 + u32_at(bytes, 12) + u32_at(bytes, 16) <= u32_at(bytes, 8) < 72 + u32_at(bytes, 12) + u32_at(bytes, 16)
            &&& bytes[4] == 2 ==> u32_at(bytes, 16) == 0
        },
        RecordHeader::held(bytes) matches Some(header) ==> {
            &&& header.kind is Value <==> bytes[4] == 1
            &&& header.codec is NamespacedKey || header.codec is SecondChanceNamespacedKey <==> bytes[5] == 1 || bytes[5] == 3
            &&& header.codec is SecondChance || header.codec is SecondChanceNamespacedKey <==> bytes[5] == 2 || bytes[5] == 3
            &&& header.record_len == u32_at(bytes, 8)
            &&& header.key_len == u32_at(bytes, 12)
            &&& header.stored_len == u32_at(bytes, 16)
            &&& header.epoch == u32_at(bytes, 20)
            &&& header.seqno == u64_at(bytes, 24)
            &&& header.region_incarnation == u64_at(bytes, 32)
            &&& header.key_hash == u64_at(bytes, 40)
            &&& header.expires_at_unix_ms == u64_at(bytes, 48)
            &&& header.payload_crc == u32_at(bytes, 56)
        },
{
    lemma_rounded_up(u32_at(bytes, 8) as int, 64 + u32_at(bytes, 12) + u32_at(bytes, 16));
    let shown = RecordHeader::fields(bytes);
    assert(shown.record_len == record_extent(shown.key_len, shown.stored_len) <==> (u32_at(bytes, 8) as int % 8 == 0 && 64 + u32_at(
        bytes,
        12,
    ) + u32_at(bytes, 16) <= u32_at(bytes, 8) < 72 + u32_at(bytes, 12) + u32_at(bytes, 16)));
}

/// Records whose headers are accepted hold their key and value within their
/// length.
pub proof fn law_record_holds_its_payload(bytes: Seq<u8>)
    ensures
        RecordHeader::held(bytes) matches Some(header) ==> 64 + header.key_len + header.stored_len <= header.record_len,
{
}

/// A page is a Region Header exactly if the magic, the version, the checksum and
/// the state are right.
pub proof fn law_region_headers(page: Seq<u8>)
    requires
        page.len() == 4096,
    ensures
        RegionHeader::held(page) is Some <==> u64_at(page, 0) == 0x3144_4847_4552_5243 && u16_at(page, 8) == 1 && sealed(page, 4092)
            && page[10] < 3,
        RegionHeader::held(page) matches Some(header) ==> {
            &&& header.state is Free <==> page[10] == 0
            &&& header.state is Active <==> page[10] == 1
            &&& header.region_id == u32_at(page, 12)
            &&& header.incarnation == u64_at(page, 16)
            &&& header.created_seqno == u64_at(page, 24)
            &&& header.used == u64_at(page, 32)
        },
{
}

/// A page is told apart as empty, foreign, of another version, interrupted,
/// valid or corrupt; it is valid exactly if the magic, the version, the checksum
/// and the clean flag are right.
pub proof fn law_superblock_pages(page: Seq<u8>)
    requires
        page.len() == 4096,
    ensures
        ({
            let blank = forall|k: int| 0 <= k < 4096 ==> #[trigger] page[k] == 0;
            let marked = forall|k: int| 10 <= k < 4096 ==> #[trigger] page[k] == 0;
            let ours = u64_at(page, 0) == 0x3130_4e47_4552_5243;
            let version = u16_at(page, 8);
            &&& Superblock::probed(page) is Empty <==> blank
            &&& Superblock::probed(page) is Unrecognized <==> !blank && !ours
            &&& Superblock::probed(page) is Unsupported <==> ours && version != 1
            &&& Superblock::probed(page) is InterruptedV1 <==> ours && version == 1 && marked
            &&& Superblock::probed(page) is ValidV1 <==> ours && version == 1 && !marked && sealed(page, 4092) && page[64] < 2
            &&& Superblock::probed(page) matches SuperblockProbe::Unsupported(found) ==> found == version
            &&& Superblock::probed(page) matches SuperblockProbe::ValidV1(found) ==> {
                &&& found.generation == u64_at(page, 16)
                &&& found.region_size == u64_at(page, 24)
                &&& found.region_count == u32_at(page, 32)
                &&& found.epoch == u32_at(page, 36)
                &&& found.epoch_start_seqno == u64_at(page, 40)
                &&& found.next_seqno == u64_at(page, 48)
                &&& found.hash_seed == u64_at(page, 56)
                &&& found.clean <==> page[64] == 1
            }
        }),
{
    let rest = page.skip(10);
    assert(all_zero(rest) <==> (forall|k: int| 10 <= k < 4096 ==> #[trigger] page[k] == 0)) by {
        if all_zero(rest) {
            assert forall|k: int| 10 <= k < 4096 implies #[trigger] page[k] == 0 by {
                assert(rest[k - 10] == page[k]);
            }
        }
    }
    if all_zero(page) {
        assert(page[0] == 0 && page[1] == 0 && page[2] == 0 && page[3] == 0);
        assert(u32_at(page, 0) == 0);
        assert(u64_at(page, 0) as int % 0x1_0000_0000 == 0);
    }
}

} // verus!
