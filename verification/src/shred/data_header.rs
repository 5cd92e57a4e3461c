//! The header that follows the common header in a data shred, and its flags.

use crate::shred::common_header::COMMON_HEADER_SIZE;
use crate::shred::le::{le_u16_at, read_u16};
use vstd::prelude::*;

verus! {

/// Offset of the first payload byte in a data shred.
pub const DATA_PAYLOAD_OFFSET: usize = 88;

/// Flag of a data shred that ends an entry batch.
pub const FLAG_DATA_COMPLETE_SHRED: u8 = 0x40;

/// Flag of the last data shred of a slot. It contains
/// [`FLAG_DATA_COMPLETE_SHRED`].
pub const FLAG_LAST_SHRED_IN_SLOT: u8 = 0xC0;

/// The parent of the slot, the flags of the shred, and the offset at which its
/// payload ends.
#[derive(Debug, Clone, Copy, PartialEq, Eq, Structural)]
pub struct DataHeader {
    pub parent_offset: u16,
    pub flags: u8,
    pub size: u16,
}

impl DataHeader {
    /// The data header of the data shred `raw`.
    pub open spec fn in_bytes(raw: Seq<u8>) -> Option<DataHeader> {
        if raw.len() < DATA_PAYLOAD_OFFSET {
            None
        } else {
            Some(
                DataHeader {
                    parent_offset: le_u16_at(raw, 83),
                    flags: raw[85],
                    size: le_u16_at(raw, 86),
                },
            )
        }
    }

    /// Reads the data header; `None` where the bytes are too few.
    pub fn parse(raw: &[u8]) -> (header: Option<DataHeader>)
        ensures
            header == DataHeader::in_bytes(raw@),
    {
        if raw.len() < DATA_PAYLOAD_OFFSET {
            return None;
        }
        Some(
            DataHeader {
                parent_offset: read_u16(raw, COMMON_HEADER_SIZE),
                flags: raw[COMMON_HEADER_SIZE + 2],
                size: read_u16(raw, COMMON_HEADER_SIZE + 3),
            },
        )
    }
}

/// The flags say that an entry batch ends with this shred.
pub open spec fn ends_batch(flags: u8) -> bool {
    flags & FLAG_DATA_COMPLETE_SHRED == FLAG_DATA_COMPLETE_SHRED
}

/// The flags say that the slot ends with this shred.
pub open spec fn ends_slot(flags: u8) -> bool {
    flags & FLAG_LAST_SHRED_IN_SLOT == FLAG_LAST_SHRED_IN_SLOT
}

/// Whether an entry batch ends with a shred that has these flags.
pub fn is_data_complete(flags: u8) -> (r: bool)
    ensures
        r == ends_batch(flags),
{
    flags & FLAG_DATA_COMPLETE_SHRED == FLAG_DATA_COMPLETE_SHRED
}

/// Whether a slot ends with a shred that has these flags.
pub fn is_last_in_slot(flags: u8) -> (r: bool)
    ensures
        r == ends_slot(flags),
{
    flags & FLAG_LAST_SHRED_IN_SLOT == FLAG_LAST_SHRED_IN_SLOT
}

/// The last shred of a slot also ends an entry batch.
pub proof fn slot_end_is_batch_end(flags: u8)
    requires
        ends_slot(flags),
    ensures
        ends_batch(flags),
{
    assert(flags & 0xC0 == 0xC0 ==> flags & 0x40 == 0x40) by (bit_vector);
}

/// The low six bits of the flags, the tick reference, never decide whether a
/// shred ends a batch or a slot.
pub proof fn tick_reference_is_no_boundary(flags: u8, tick: u8)
    requires
        tick < 0x40,
    ensures
        ends_batch(flags | tick) == ends_batch(flags),
        ends_slot(flags | tick) == ends_slot(flags),
{
    assert(tick < 0x40 ==> (flags | tick) & 0x40 == flags & 0x40) by (bit_vector);
    assert(tick < 0x40 ==> (flags | tick) & 0xC0 == flags & 0xC0) by (bit_vector);
}

} // verus!
