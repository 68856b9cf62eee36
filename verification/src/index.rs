//! Point entries of the Region index.

use vstd::prelude::*;

verus! {

/// Slots that one point operation may examine.
pub const MAX_INDEX_PROBES: usize = 8;

/// Largest Region identifier that a location can name.
pub const MAX_REGION_ID: u32 = 0x000f_ffff;

/// Largest offset in a Region that a location can name.
pub const MAX_REGION_OFFSET: u32 = 0xffff_fff8;

/// Where a record lies: its Region, its offset and length there, and whether
/// it marks a deletion.
#[derive(Clone, Copy, Debug, PartialEq, Eq, Structural)]
pub struct PackedLocation {
    pub region_id: u32,
    pub offset: u32,
    pub record_len: u32,
    pub tombstone: bool,
}

impl PackedLocation {
    /// A location.
    pub fn new(region_id: u32, offset: u32, record_len: u32, tombstone: bool) -> (location: PackedLocation)
        ensures
            location == (PackedLocation { region_id, offset, record_len, tombstone }),
    {
        PackedLocation { region_id, offset, record_len, tombstone }
    }
}

/// One indexed record version.
#[derive(Clone, Copy, Debug, PartialEq, Eq, Structural)]
pub struct IndexEntry {
    pub location: PackedLocation,
    pub seqno: u64,
    pub namespace_id: u32,
    /// Runtime-only marks; they do not belong to the record's identity.
    pub flags: u32,
}

impl IndexEntry {
    /// Both entries name the same immutable record, whatever their flags.
    pub open spec fn same_record(self, other: IndexEntry) -> bool {
        self.location == other.location && self.seqno == other.seqno && self.namespace_id == other.namespace_id
    }

    /// Whether both entries name the same immutable record.
    pub fn same_record_identity(&self, other: IndexEntry) -> (same: bool)
        ensures
            same == self.same_record(other),
    {
        self.location == other.location && self.seqno == other.seqno && self.namespace_id == other.namespace_id
    }
}

} // verus!
