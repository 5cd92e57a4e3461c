//! What the headers of a shred say, byte by byte.

use crate::shred::coding_header::CodingHeader;
use crate::shred::common_header::{CommonHeader, ShredVariant};
use crate::shred::data_header::{ends_batch, ends_slot, DataHeader};
use crate::shred::le::{le_u16_at, le_u32_at, le_u64_at, le_value};
use crate::shred::ShredView;
use vstd::prelude::*;

verus! {

/// The numbers in a shred are little-endian: each byte counts 256 times what the
/// one before it counts.
pub proof fn numbers_are_little_endian(s: Seq<u8>, at: int)
    ensures
        le_u16_at(s, at) == s[at] + 256 * s[at + 1],
        le_u32_at(s, at) == s[at] + 0x100 * s[at + 1] + 0x1_0000 * s[at + 2] + 0x100_0000 * s[at
            + 3],
        le_u64_at(s, at) == s[at] + 0x100 * s[at + 1] + 0x1_0000 * s[at + 2] + 0x100_0000 * s[at
            + 3] + 0x1_0000_0000 * s[at + 4] + 0x100_0000_0000 * s[at + 5] + 0x1_0000_0000_0000
            * s[at + 6] + 0x100_0000_0000_0000 * s[at + 7],
{
    reveal_with_fuel(le_value, 9);
}

/// The variant byte: two values stand for the legacy shreds, and six ranges of
/// sixteen for the Merkle shreds, with the number of proof entries as the distance
/// from the start of the range. No other byte is a variant.
pub proof fn variants_of_bytes(byte: u8)
    ensures
        ({
            let variant = ShredVariant::of_byte(byte);
            let merkle = |start: u8| start <= byte < start + 16;
            &&& (variant == Some(ShredVariant::LegacyCode)) == (byte == 0x5A)
            &&& (variant == Some(ShredVariant::LegacyData)) == (byte == 0xA5)
            &&& merkle(0x40) ==> variant == Some(
                ShredVariant::MerkleCode {
                    proof_size: (byte - 0x40) as u8,
                    chained: false,
                    resigned: false,
                },
            )
            &&& merkle(0x60) ==> variant == Some(
                ShredVariant::MerkleCode {
                    proof_size: (byte - 0x60) as u8,
                    chained: true,
                    resigned: false,
                },
            )
            &&& merkle(0x70) ==> variant == Some(
                ShredVariant::MerkleCode {
                    proof_size: (byte - 0x70) as u8,
                    chained: true,
                    resigned: true,
                },
            )
            &&& merkle(0x80) ==> variant == Some(
                ShredVariant::MerkleData {
                    proof_size: (byte - 0x80) as u8,
                    chained: false,
                    resigned: false,
                },
            )
            &&& merkle(0x90) ==> variant == Some(
                ShredVariant::MerkleData {
                    proof_size: (byte - 0x90) as u8,
                    chained: true,
                    resigned: false,
                },
            )
            &&& merkle(0xB0) ==> variant == Some(
                ShredVariant::MerkleData {
                    proof_size: (byte - 0xB0) as u8,
                    chained: true,
                    resigned: true,
                },
            )
            &&& variant is Some <==> {
                ||| byte == 0x5A
                ||| byte == 0xA5
                ||| merkle(0x40)
                ||| merkle(0x60)
                ||| merkle(0x70)
                ||| merkle(0x80)
                ||| merkle(0x90)
                ||| merkle(0xB0)
            }
        }),
{
}

/// A Merkle proof has twenty bytes for each of its entries, a legacy shred has
/// none, and the data variants are the legacy one and the Merkle one for data.
pub proof fn proofs_of_variants(proof_size: u8, chained: bool, resigned: bool)
    ensures
        ShredVariant::LegacyCode.proof_len() == 0,
        ShredVariant::LegacyData.proof_len() == 0,
        (ShredVariant::MerkleCode { proof_size, chained, resigned }).proof_len() == 20 * proof_size,
        (ShredVariant::MerkleData { proof_size, chained, resigned }).proof_len() == 20 * proof_size,
        ShredVariant::LegacyData.carries_data(),
        (ShredVariant::MerkleData { proof_size, chained, resigned }).carries_data(),
        !ShredVariant::LegacyCode.carries_data(),
        !(ShredVariant::MerkleCode { proof_size, chained, resigned }).carries_data(),
{
}

/// What the bytes of a shred say of it. Bytes are a data shred exactly where there
/// are 88 of them or more and the byte after the signature is a data variant, and a
/// coding shred exactly where there are 89 or more and it is a coding variant. All
/// bytes are kept, and the fields are the numbers at their offsets.
pub proof fn shreds_in_bytes(raw: Seq<u8>)
    ensures
        ({
            let variant = ShredVariant::of_byte(raw[64]);
            let shred = ShredView::in_bytes(raw);
            &&& shred is Some <==> variant is Some && raw.len() >= (if variant->0.carries_data() {
                88int
            } else {
                89
            })
            &&& shred matches Some(s) ==> {
                &&& s.bytes() == raw
                &&& s is Data <==> variant->0.carries_data()
                &&& Some(s.header().variant) == variant
                &&& s.header().slot == le_u64_at(raw, 65)
                &&& s.header().index == le_u32_at(raw, 73)
                &&& s.header().version == le_u16_at(raw, 77)
                &&& s.header().fec_set_index == le_u32_at(raw, 79)
                &&& s.summary().slot == le_u64_at(raw, 65)
                &&& s.summary().index == le_u32_at(raw, 73)
                &&& s.summary().version == le_u16_at(raw, 77)
                &&& s.summary().fec_set_index == le_u32_at(raw, 79)
                &&& s.summary().is_data == variant->0.carries_data()
                &&& s matches ShredView::Data { common, data, raw: kept } ==> {
                    &&& common == s.header()
                    &&& kept == raw
                    &&& data.parent_offset == le_u16_at(raw, 83)
                    &&& data.flags == raw[85]
                    &&& data.size == le_u16_at(raw, 86)
                }
                &&& s matches ShredView::Coding { common, coding, raw: kept } ==> {
                    &&& common == s.header()
                    &&& kept == raw
                    &&& coding.num_data_shreds == le_u16_at(raw, 83)
                    &&& coding.num_coding_shreds == le_u16_at(raw, 85)
                    &&& coding.position == le_u16_at(raw, 87)
                }
            }
        }),
{
}

/// The headers alone: each is there exactly where the bytes reach to its end.
pub proof fn headers_in_bytes(raw: Seq<u8>)
    ensures
        CommonHeader::in_bytes(raw) is Some <==> raw.len() >= 83 && ShredVariant::of_byte(
            raw[64],
        ) is Some,
        DataHeader::in_bytes(raw) is Some <==> raw.len() >= 88,
        CodingHeader::in_bytes(raw) is Some <==> raw.len() >= 89,
        DataHeader::in_bytes(raw) matches Some(h) ==> {
            &&& h.parent_offset == le_u16_at(raw, 83)
            &&& h.flags == raw[85]
            &&& h.size == le_u16_at(raw, 86)
        },
        CodingHeader::in_bytes(raw) matches Some(h) ==> {
            &&& h.num_data_shreds == le_u16_at(raw, 83)
            &&& h.num_coding_shreds == le_u16_at(raw, 85)
            &&& h.position == le_u16_at(raw, 87)
        },
        CommonHeader::in_bytes(raw) matches Some(h) ==> {
            &&& Some(h.variant) == ShredVariant::of_byte(raw[64])
            &&& h.slot == le_u64_at(raw, 65)
            &&& h.index == le_u32_at(raw, 73)
            &&& h.version == le_u16_at(raw, 77)
            &&& h.fec_set_index == le_u32_at(raw, 79)
        },
{
}

/// Bit six of the flags ends a batch; bits six and seven together end a slot.
pub proof fn boundary_bits(flags: u8)
    ensures
        ends_batch(flags) <==> (flags / 64) % 2 == 1,
        ends_slot(flags) <==> flags >= 192,
{
    assert((flags & 0x40 == 0x40) == ((flags / 64) % 2 == 1)) by (bit_vector);
    assert((flags & 0xC0 == 0xC0) == (flags >= 192)) by (bit_vector);
}

} // verus!
