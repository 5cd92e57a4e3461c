use shred_pipeline::shred::coding_header::CodingHeader;
use shred_pipeline::shred::common_header::{CommonHeader, ShredVariant};
use shred_pipeline::shred::data_header::DataHeader;
use shred_pipeline::shred::{parse_shred, ParsedShred};
use shred_pipeline::types::ShredInfo;

fn header_bytes(variant: u8, len: usize) -> Vec<u8> {
    let mut raw = vec![0u8; len];
    raw[64] = variant;
    raw[65..73].copy_from_slice(&0x0102030405060708u64.to_le_bytes());
    raw[73..77].copy_from_slice(&0x11121314u32.to_le_bytes());
    raw[77..79].copy_from_slice(&0x2122u16.to_le_bytes());
    raw[79..83].copy_from_slice(&0x31323334u32.to_le_bytes());
    raw
}

#[test]
fn common_header_is_read_little_endian() {
    let raw = header_bytes(0xA5, 83);
    let header = CommonHeader::parse(&raw).unwrap();
    assert_eq!(header.variant, ShredVariant::LegacyData);
    assert_eq!(header.slot, 0x0102030405060708);
    assert_eq!(header.index, 0x11121314);
    assert_eq!(header.version, 0x2122);
    assert_eq!(header.fec_set_index, 0x31323334);
    assert!(CommonHeader::parse(&raw[..82]).is_none());
}

#[test]
fn data_shred_is_parsed() {
    let mut raw = header_bytes(0x86, 90);
    raw[83..85].copy_from_slice(&3u16.to_le_bytes());
    raw[85] = 0xC1;
    raw[86..88].copy_from_slice(&90u16.to_le_bytes());
    let shred = parse_shred(&raw).unwrap();
    assert!(shred.is_data());
    assert_eq!(shred.slot(), 0x0102030405060708);
    assert_eq!(shred.index(), 0x11121314);
    assert_eq!(shred.fec_set_index(), 0x31323334);
    assert_eq!(
        shred.info(),
        ShredInfo {
            slot: 0x0102030405060708,
            index: 0x11121314,
            version: 0x2122,
            fec_set_index: 0x31323334,
            is_data: true,
        }
    );
    match shred {
        ParsedShred::Data { data, raw: kept, .. } => {
            assert_eq!(
                data,
                DataHeader {
                    parent_offset: 3,
                    flags: 0xC1,
                    size: 90
                }
            );
            assert_eq!(kept, raw);
        }
        ParsedShred::Coding { .. } => panic!("a data shred"),
    }
    assert!(parse_shred(&raw[..88]).is_some());
    assert!(parse_shred(&raw[..87]).is_none());
}

#[test]
fn coding_shred_is_parsed() {
    let mut raw = header_bytes(0x46, 100);
    raw[83..85].copy_from_slice(&32u16.to_le_bytes());
    raw[85..87].copy_from_slice(&33u16.to_le_bytes());
    raw[87..89].copy_from_slice(&5u16.to_le_bytes());
    let shred = parse_shred(&raw).unwrap();
    assert!(!shred.is_data());
    assert!(!shred.info().is_data);
    assert_eq!(
        shred.common().variant,
        ShredVariant::MerkleCode {
            proof_size: 6,
            chained: false,
            resigned: false
        }
    );
    match shred {
        ParsedShred::Coding { coding, .. } => assert_eq!(
            coding,
            CodingHeader {
                num_data_shreds: 32,
                num_coding_shreds: 33,
                position: 5
            }
        ),
        ParsedShred::Data { .. } => panic!("a coding shred"),
    }
    assert!(parse_shred(&raw[..89]).is_some());
    assert!(parse_shred(&raw[..88]).is_none());
}

#[test]
fn unknown_variants_are_no_shreds() {
    for byte in [0x00u8, 0x15, 0x2F, 0x35, 0x5B, 0xA4, 0xC6, 0xD0, 0xEF, 0xFF] {
        assert!(ShredVariant::from_byte(byte).is_none());
        assert!(parse_shred(&header_bytes(byte, 200)).is_none());
    }
    assert!(parse_shred(&[]).is_none());
}

#[test]
fn variants_and_their_proofs() {
    assert_eq!(
        ShredVariant::from_byte(0x5A),
        Some(ShredVariant::LegacyCode)
    );
    assert_eq!(
        ShredVariant::from_byte(0xA5),
        Some(ShredVariant::LegacyData)
    );
    assert_eq!(
        ShredVariant::from_byte(0x75),
        Some(ShredVariant::MerkleCode {
            proof_size: 5,
            chained: true,
            resigned: true
        })
    );
    assert_eq!(
        ShredVariant::from_byte(0x9F),
        Some(ShredVariant::MerkleData {
            proof_size: 15,
            chained: true,
            resigned: false
        })
    );
    assert_eq!(ShredVariant::from_byte(0x86).unwrap().merkle_proof_bytes(), 120);
    assert_eq!(ShredVariant::from_byte(0xA5).unwrap().merkle_proof_bytes(), 0);
    assert!(ShredVariant::from_byte(0xB0).unwrap().is_data());
    assert!(!ShredVariant::from_byte(0x60).unwrap().is_data());
}
