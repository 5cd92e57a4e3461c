//! The header that follows the common header in a coding shred.

use crate::shred::common_header::COMMON_HEADER_SIZE;
use crate::shred::le::{le_u16_at, read_u16};
use vstd::prelude::*;

verus! {

/// Offset of the first payload byte in a coding shred.
pub const CODING_PAYLOAD_OFFSET: usize = 89;

/// The shape of the erasure set of a coding shred and its place in it.
#[derive(Debug, Clone, Copy, PartialEq, Eq, Structural)]
pub struct CodingHeader {
    pub num_data_shreds: u16,
    pub num_coding_shreds: u16,
    pub position: u16,
}

impl CodingHeader {
    /// The coding header of the coding shred `raw`.
    pub open spec fn in_bytes(raw: Seq<u8>) -> Option<CodingHeader> {
        if raw.len() < CODING_PAYLOAD_OFFSET {
            None
        } else {
            Some(
                CodingHeader {
                    num_data_shreds: le_u16_at(raw, 83),
                    num_coding_shreds: le_u16_at(raw, 85),
                    position: le_u16_at(raw, 87),
                },
            )
        }
    }

    /// Reads the coding header; `None` where the bytes are too few.
    pub fn parse(raw: &[u8]) -> (header: Option<CodingHeader>)
        ensures
            header == CodingHeader::in_bytes(raw@),
    {
        if raw.len() < CODING_PAYLOAD_OFFSET {
            return None;
        }
        Some(
            CodingHeader {
                num_data_shreds: read_u16(raw, COMMON_HEADER_SIZE),
                num_coding_shreds: read_u16(raw, COMMON_HEADER_SIZE + 2),
                position: read_u16(raw, COMMON_HEADER_SIZE + 4),
            },
        )
    }
}

} // verus!
