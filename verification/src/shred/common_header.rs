//! The header with which every shred begins.

use crate::shred::le::{le_u16_at, le_u32_at, le_u64_at, read_u16, read_u32, read_u64};
use vstd::prelude::*;

verus! {

/// Length of the signature at the start of a shred.
pub const SIGNATURE_SIZE: usize = 64;

/// Length of the common header, signature included.
pub const COMMON_HEADER_SIZE: usize = 83;

/// Length of one entry of a Merkle proof.
pub const MERKLE_PROOF_ENTRY_SIZE: usize = 20;

/// The kind of a shred, as its variant byte tells it.
#[derive(Debug, Clone, Copy, PartialEq, Eq, Structural)]
pub enum ShredVariant {
    LegacyCode,
    LegacyData,
    MerkleCode { proof_size: u8, chained: bool, resigned: bool },
    MerkleData { proof_size: u8, chained: bool, resigned: bool },
}

impl ShredVariant {
    /// What the variant byte stands for. A Merkle variant has its kind in the
    /// high half of the byte and the number of its proof entries in the low
    /// half.
    pub open spec fn of_byte(byte: u8) -> Option<ShredVariant> {
        let proof_size = (byte % 16) as u8;
        if byte == 0x5A {
            Some(ShredVariant::LegacyCode)
        } else if byte == 0xA5 {
            Some(ShredVariant::LegacyData)
        } else if byte / 16 == 0x4 {
            Some(ShredVariant::MerkleCode { proof_size, chained: false, resigned: false })
        } else if byte / 16 == 0x6 {
            Some(ShredVariant::MerkleCode { proof_size, chained: true, resigned: false })
        } else if byte / 16 == 0x7 {
            Some(ShredVariant::MerkleCode { proof_size, chained: true, resigned: true })
        } else if byte / 16 == 0x8 {
            Some(ShredVariant::MerkleData { proof_size, chained: false, resigned: false })
        } else if byte / 16 == 0x9 {
            Some(ShredVariant::MerkleData { proof_size, chained: true, resigned: false })
        } else if byte / 16 == 0xB {
            Some(ShredVariant::MerkleData { proof_size, chained: true, resigned: true })
        } else {
            None
        }
    }

    /// The shred carries entry data, not an erasure code.
    pub open spec fn carries_data(self) -> bool {
        self is LegacyData || self is MerkleData
    }

    /// The length of the Merkle proof of the shred.
    pub open spec fn proof_len(self) -> nat {
        match self {
            ShredVariant::LegacyCode => 0,
            ShredVariant::LegacyData => 0,
            ShredVariant::MerkleCode { proof_size, .. } => MERKLE_PROOF_ENTRY_SIZE as nat
                * proof_size as nat,
            ShredVariant::MerkleData { proof_size, .. } => MERKLE_PROOF_ENTRY_SIZE as nat
                * proof_size as nat,
        }
    }

    /// Reads the variant byte; `None` for one that no variant has.
    pub fn from_byte(byte: u8) -> (variant: Option<ShredVariant>)
        ensures
            variant == ShredVariant::of_byte(byte),
    {
        let proof_size: u8 = byte % 16;
        let kind: u8 = byte / 16;
        if byte == 0x5A {
            Some(ShredVariant::LegacyCode)
        } else if byte == 0xA5 {
            Some(ShredVariant::LegacyData)
        } else if kind == 0x4 {
            Some(ShredVariant::MerkleCode { proof_size, chained: false, resigned: false })
        } else if kind == 0x6 {
            Some(ShredVariant::MerkleCode { proof_size, chained: true, resigned: false })
        } else if kind == 0x7 {
            Some(ShredVariant::MerkleCode { proof_size, chained: true, resigned: true })
        } else if kind == 0x8 {
            Some(ShredVariant::MerkleData { proof_size, chained: false, resigned: false })
        } else if kind == 0x9 {
            Some(ShredVariant::MerkleData { proof_size, chained: true, resigned: false })
        } else if kind == 0xB {
            Some(ShredVariant::MerkleData { proof_size, chained: true, resigned: true })
        } else {
            None
        }
    }

    /// Whether the shred carries entry data.
    pub fn is_data(self) -> (r: bool)
        ensures
            r == self.carries_data(),
    {
        match self {
            ShredVariant::LegacyData => true,
            ShredVariant::MerkleData { .. } => true,
            ShredVariant::LegacyCode => false,
            ShredVariant::MerkleCode { .. } => false,
        }
    }

    /// The length of the Merkle proof of the shred.
    pub fn merkle_proof_bytes(self) -> (n: usize)
        ensures
            n == self.proof_len(),
            n <= 5100,
    {
        match self {
            ShredVariant::LegacyCode => 0,
            ShredVariant::LegacyData => 0,
            ShredVariant::MerkleCode { proof_size, .. } => MERKLE_PROOF_ENTRY_SIZE * (
            proof_size as usize),
            ShredVariant::MerkleData { proof_size, .. } => MERKLE_PROOF_ENTRY_SIZE * (
            proof_size as usize),
        }
    }
}

/// The fields that every shred has, but for the signature.
#[derive(Debug, Clone, Copy, PartialEq, Eq, Structural)]
pub struct CommonHeader {
    pub variant: ShredVariant,
    pub slot: u64,
    pub index: u32,
    pub version: u16,
    pub fec_set_index: u32,
}

impl CommonHeader {
    /// The common header of the shred `raw`.
    pub open spec fn in_bytes(raw: Seq<u8>) -> Option<CommonHeader> {
        if raw.len() < COMMON_HEADER_SIZE {
            None
        } else {
            match ShredVariant::of_byte(raw[64]) {
                Some(variant) => Some(
                    CommonHeader {
                        variant,
                        slot: le_u64_at(raw, 65),
                        index: le_u32_at(raw, 73),
                        version: le_u16_at(raw, 77),
                        fec_set_index: le_u32_at(raw, 79),
                    },
                ),
                None => None,
            }
        }
    }

    /// Reads the common header; `None` where the bytes are too few or the
    /// variant is unknown.
    pub fn parse(raw: &[u8]) -> (header: Option<CommonHeader>)
        ensures
            header == CommonHeader::in_bytes(raw@),
    {
        if raw.len() < COMMON_HEADER_SIZE {
            return None;
        }
        match ShredVariant::from_byte(raw[SIGNATURE_SIZE]) {
            Some(variant) => Some(
                CommonHeader {
                    variant,
                    slot: read_u64(raw, 65),
                    index: read_u32(raw, 73),
                    version: read_u16(raw, 77),
                    fec_set_index: read_u32(raw, 79),
                },
            ),
            None => None,
        }
    }
}

} // verus!
