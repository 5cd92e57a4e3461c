//! The shreds of a Solana block: their wire layout and their headers.

pub mod coding_header;
pub mod common_header;
pub mod data_header;
pub mod laws;
pub mod le;

use crate::types::ShredInfo;
use coding_header::CodingHeader;
use common_header::CommonHeader;
use data_header::DataHeader;
use vstd::prelude::*;

verus! {

/// What a [`ParsedShred`] holds.
#[verifier::ext_equal]
pub enum ShredView {
    Data { common: CommonHeader, data: DataHeader, raw: Seq<u8> },
    Coding { common: CommonHeader, coding: CodingHeader, raw: Seq<u8> },
}

impl ShredView {
    /// The shred in the bytes `raw`: `None` where they are too few for the
    /// headers of a shred of its variant, or where the variant is unknown.
    pub open spec fn in_bytes(raw: Seq<u8>) -> Option<ShredView> {
        match CommonHeader::in_bytes(raw) {
            None => None,
            Some(common) => if common.variant.carries_data() {
                match DataHeader::in_bytes(raw) {
                    Some(data) => Some(ShredView::Data { common, data, raw }),
                    None => None,
                }
            } else {
                match CodingHeader::in_bytes(raw) {
                    Some(coding) => Some(ShredView::Coding { common, coding, raw }),
                    None => None,
                }
            },
        }
    }

    pub open spec fn header(self) -> CommonHeader {
        match self {
            ShredView::Data { common, .. } => common,
            ShredView::Coding { common, .. } => common,
        }
    }

    pub open spec fn bytes(self) -> Seq<u8> {
        match self {
            ShredView::Data { raw, .. } => raw,
            ShredView::Coding { raw, .. } => raw,
        }
    }

    pub open spec fn summary(self) -> ShredInfo {
        ShredInfo {
            slot: self.header().slot,
            index: self.header().index,
            version: self.header().version,
            fec_set_index: self.header().fec_set_index,
            is_data: self is Data,
        }
    }
}

/// A shred with its headers read. It keeps all of its bytes.
#[derive(Debug)]
pub enum ParsedShred {
    Data { common: CommonHeader, data: DataHeader, raw: Vec<u8> },
    Coding { common: CommonHeader, coding: CodingHeader, raw: Vec<u8> },
}

impl View for ParsedShred {
    type V = ShredView;

    open spec fn view(&self) -> ShredView {
        match *self {
            ParsedShred::Data { common, data, raw } => ShredView::Data { common, data, raw: raw@ },
            ParsedShred::Coding { common, coding, raw } => ShredView::Coding {
                common,
                coding,
                raw: raw@,
            },
        }
    }
}

impl ParsedShred {
    /// The common header.
    pub fn common(&self) -> (common: &CommonHeader)
        ensures
            *common == self@.header(),
    {
        match self {
            ParsedShred::Data { common, .. } => common,
            ParsedShred::Coding { common, .. } => common,
        }
    }

    /// The slot to which the shred belongs.
    pub fn slot(&self) -> (slot: u64)
        ensures
            slot == self@.header().slot,
    {
        self.common().slot
    }

    /// The index of the shred among those of its kind in the slot.
    pub fn index(&self) -> (index: u32)
        ensures
            index == self@.header().index,
    {
        self.common().index
    }

    /// The index of the first data shred of its erasure set.
    pub fn fec_set_index(&self) -> (index: u32)
        ensures
            index == self@.header().fec_set_index,
    {
        self.common().fec_set_index
    }

    /// Whether this is a data shred.
    pub fn is_data(&self) -> (r: bool)
        ensures
            r == (self@ is Data),
    {
        match self {
            ParsedShred::Data { .. } => true,
            ParsedShred::Coding { .. } => false,
        }
    }

    /// A summary of the headers.
    pub fn info(&self) -> (info: ShredInfo)
        ensures
            info == self@.summary(),
    {
        ShredInfo {
            slot: self.slot(),
            index: self.index(),
            version: self.common().version,
            fec_set_index: self.fec_set_index(),
            is_data: self.is_data(),
        }
    }
}

/// Reads the headers of a shred. `None` where the bytes are too few for them or
/// the variant is unknown.
pub fn parse_shred(raw: &[u8]) -> (shred: Option<ParsedShred>)
    ensures
        match shred {
            Some(s) => ShredView::in_bytes(raw@) == Some(s@),
            None => ShredView::in_bytes(raw@) is None,
        },
{
    let common = match CommonHeader::parse(raw) {
        Some(common) => common,
        None => {
            return None;
        },
    };
    if common.variant.is_data() {
        match DataHeader::parse(raw) {
            Some(data) => Some(
                ParsedShred::Data { common, data, raw: vstd::slice::slice_to_vec(raw) },
            ),
            None => None,
        }
    } else {
        match CodingHeader::parse(raw) {
            Some(coding) => Some(
                ParsedShred::Coding { common, coding, raw: vstd::slice::slice_to_vec(raw) },
            ),
            None => None,
        }
    }
}

} // verus!
