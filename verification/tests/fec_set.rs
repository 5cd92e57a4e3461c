use reed_solomon_erasure::galois_8::ReedSolomon;
use shred_pipeline::decimal::to_decimal;
use shred_pipeline::fec::fec_set::{FecError, FecSet};
use shred_pipeline::fec::reed_solomon::recover_shards;
use shred_pipeline::shred::coding_header::CodingHeader;
use shred_pipeline::shred::common_header::ShredVariant;
use shred_pipeline::shred::parse_shred;

const SHARD: usize = 40;
const PROOF: usize = 120;

fn data_variant() -> ShredVariant {
    ShredVariant::from_byte(0x86).unwrap()
}

fn code_variant() -> ShredVariant {
    ShredVariant::from_byte(0x46).unwrap()
}

fn data_shred(slot: u64, fec: u32, index: u32, flags: u8, payload: &[u8]) -> Vec<u8> {
    let mut raw = vec![0u8; 64 + SHARD + PROOF];
    raw[64] = 0x86;
    raw[65..73].copy_from_slice(&slot.to_le_bytes());
    raw[73..77].copy_from_slice(&index.to_le_bytes());
    raw[79..83].copy_from_slice(&fec.to_le_bytes());
    raw[85] = flags;
    raw[86..88].copy_from_slice(&((88 + payload.len()) as u16).to_le_bytes());
    raw[88..88 + payload.len()].copy_from_slice(payload);
    for byte in raw[64 + SHARD..].iter_mut() {
        *byte = 0xEE;
    }
    raw
}

fn header(num_data: u16, num_coding: u16, position: u16) -> CodingHeader {
    CodingHeader {
        num_data_shreds: num_data,
        num_coding_shreds: num_coding,
        position,
    }
}

fn coding_shreds(slot: u64, fec: u32, data: &[Vec<u8>], num_coding: usize) -> Vec<Vec<u8>> {
    let mut shards: Vec<Vec<u8>> = data.iter().map(|raw| raw[64..64 + SHARD].to_vec()).collect();
    for _ in 0..num_coding {
        shards.push(vec![0u8; SHARD]);
    }
    let code = ReedSolomon::new(data.len(), num_coding).unwrap();
    code.encode(&mut shards).unwrap();
    let mut raws = Vec::new();
    for position in 0..num_coding {
        let mut raw = vec![0u8; 89 + SHARD + PROOF];
        raw[64] = 0x46;
        raw[65..73].copy_from_slice(&slot.to_le_bytes());
        raw[73..77].copy_from_slice(&(fec + position as u32).to_le_bytes());
        raw[79..83].copy_from_slice(&fec.to_le_bytes());
        raw[83..85].copy_from_slice(&(data.len() as u16).to_le_bytes());
        raw[85..87].copy_from_slice(&(num_coding as u16).to_le_bytes());
        raw[87..89].copy_from_slice(&(position as u16).to_le_bytes());
        raw[89..89 + SHARD].copy_from_slice(&shards[data.len() + position]);
        raws.push(raw);
    }
    raws
}

fn four_data_shreds() -> Vec<Vec<u8>> {
    vec![
        data_shred(9, 100, 100, 0, &[1, 2, 3]),
        data_shred(9, 100, 101, 0x41, &[4, 5, 6, 7, 8]),
        data_shred(9, 100, 102, 0, &[]),
        data_shred(9, 100, 103, 0xC0, &[9; 16]),
    ]
}

#[test]
fn missing_data_shreds_are_recovered() {
    let data = four_data_shreds();
    let coding = coding_shreds(9, 100, &data, 4);
    let mut set = FecSet::new(9, 100);
    assert!(!set.insert_data(data_variant(), 100, data[0].clone()));
    assert!(!set.insert_coding(code_variant(), &header(4, 4, 3), coding[3].clone()));
    assert!(!set.insert_data(data_variant(), 102, data[2].clone()));
    assert!(set.insert_coding(code_variant(), &header(4, 4, 0), coding[0].clone()));
    assert!(set.can_reassemble());
    assert!(set.can_recover());
    assert!(set.is_missing(101));
    assert!(!set.is_missing(102));
    assert!(!set.is_missing(104));
    assert!(!set.is_missing(99));

    let shreds = set.reassemble().unwrap();
    assert_eq!(shreds.len(), 2);
    assert_eq!(shreds[0].index, 101);
    assert_eq!(shreds[0].flags, 0x41);
    assert_eq!(shreds[0].payload, vec![4, 5, 6, 7, 8]);
    assert_eq!(shreds[1].index, 103);
    assert_eq!(shreds[1].flags, 0xC0);
    assert_eq!(shreds[1].payload, vec![9; 16]);
}

#[test]
fn any_four_shreds_recover_the_rest() {
    let data = four_data_shreds();
    let coding = coding_shreds(9, 100, &data, 4);
    for mask in 0u32..256 {
        if mask.count_ones() != 4 {
            continue;
        }
        let mut set = FecSet::new(9, 100);
        for i in 0..8 {
            if mask & (1 << i) == 0 {
                continue;
            }
            let raw = if i < 4 { &data[i] } else { &coding[i - 4] };
            set.insert(&parse_shred(raw).unwrap());
        }
        let data_only = mask & 0xF0 == 0;
        assert_eq!(set.is_complete(), !data_only);
        let shreds = set.reassemble().unwrap();
        assert_eq!(shreds.len(), (mask & 0xF).count_zeros() as usize - 28);
        for shred in shreds.iter() {
            let raw = &data[(shred.index - 100) as usize];
            assert_eq!(mask & (1 << (shred.index - 100)), 0);
            assert_eq!(shred.flags, raw[85]);
            let size = u16::from_le_bytes([raw[86], raw[87]]) as usize;
            assert_eq!(shred.payload, raw[88..size].to_vec());
        }
    }
}

#[test]
fn complete_data_needs_no_recovery() {
    let data = four_data_shreds();
    let coding = coding_shreds(9, 100, &data, 4);
    let mut set = FecSet::new(9, 100);
    set.insert_coding(code_variant(), &header(4, 4, 0), coding[0].clone());
    for (i, raw) in data.iter().enumerate() {
        set.insert_data(data_variant(), 100 + i as u32, raw.clone());
    }
    assert!(set.is_complete());
    assert!(!set.can_recover());
    assert!(set.reassemble().unwrap().is_empty());
}

#[test]
fn first_shred_of_a_place_stays() {
    let data = four_data_shreds();
    let coding = coding_shreds(9, 100, &data, 4);
    let mut set = FecSet::new(9, 100);
    set.insert_coding(code_variant(), &header(4, 4, 1), coding[1].clone());
    set.insert_coding(code_variant(), &header(4, 4, 1), vec![0xFF; 249]);
    set.insert_data(data_variant(), 100, data[0].clone());
    assert!(!set.insert_data(data_variant(), 100, vec![0xFF; 224]));
    set.insert_data(data_variant(), 101, data[1].clone());
    assert!(set.insert_data(data_variant(), 102, data[2].clone()));
    let shreds = set.reassemble().unwrap();
    assert_eq!(shreds.len(), 1);
    assert_eq!(shreds[0].payload, vec![9; 16]);
}

#[test]
fn index_before_the_set_takes_the_first_place() {
    let mut set = FecSet::new(9, 100);
    assert!(set.has_room_for_data(7));
    assert!(!set.insert_data(data_variant(), 7, vec![1; 224]));
    assert!(set.has_room_for_data(7));
    assert!(set.has_room_for_coding(u16::MAX));
    assert!(!set.is_missing(100));
    assert!(set.insert_coding(code_variant(), &header(1, 1, 0), vec![0; 249]));
    assert!(set.reassemble().unwrap().is_empty());
}

#[test]
fn without_the_shape_a_set_is_never_complete() {
    let mut set = FecSet::new(9, 0);
    for index in 0..40 {
        assert!(!set.insert_data(data_variant(), index, vec![1; 224]));
    }
    assert!(!set.is_complete());
    assert!(set.insert_coding(code_variant(), &header(32, 32, 0), vec![0; 249]));
}

#[test]
fn would_complete_foretells_insert() {
    let data = four_data_shreds();
    let coding = coding_shreds(9, 100, &data, 4);
    let mut set = FecSet::new(9, 100);
    let order = [&data[0], &coding[0], &coding[0], &data[3], &data[3], &coding[2], &coding[3]];
    for raw in order {
        let shred = parse_shred(raw).unwrap();
        let mut copy = set.copy();
        let foretold = set.would_complete(&shred);
        assert_eq!(copy.insert(&shred), foretold);
        assert_eq!(set.insert(&shred), foretold);
    }
    assert!(set.is_complete());
}

#[test]
fn unknown_shard_size_is_an_error() {
    let mut set = FecSet::new(1, 0);
    let bare = ShredVariant::LegacyCode;
    assert!(!set.insert_coding(bare, &header(2, 2, 0), vec![0; 89]));
    assert!(set.insert_coding(bare, &header(2, 2, 1), vec![0; 89]));
    assert!(set.can_reassemble());
    assert_eq!(set.reassemble().err(), Some(FecError::UnknownShardSize));
}

#[test]
fn code_without_coding_shreds_fails() {
    let mut set = FecSet::new(1, 0);
    assert!(!set.insert_coding(ShredVariant::LegacyCode, &header(2, 0, 0), vec![0; 120]));
    assert!(set.insert_data(ShredVariant::LegacyData, 0, vec![0; 120]));
    assert!(!set.can_recover());
    assert_eq!(set.reassemble().err(), Some(FecError::RecoveryFailed));
}

#[test]
fn too_many_shards_fail() {
    let mut set = FecSet::new(1, 0);
    let mut complete = false;
    for position in 0..2 {
        complete = set.insert_coding(
            ShredVariant::LegacyCode,
            &header(2, 255, position),
            vec![0; 120],
        );
    }
    assert!(complete);
    assert_eq!(set.reassemble().err(), Some(FecError::RecoveryFailed));
}

#[test]
fn shard_that_stays_missing_is_named() {
    let mut set = FecSet::new(1, 0);
    set.insert_coding(ShredVariant::LegacyCode, &header(3, 1, 0), vec![0; 120]);
    set.insert_data(ShredVariant::LegacyData, 0, vec![0; 120]);
    let shards = vec![None, Some(vec![0; 24]), None];
    assert_eq!(
        set.collect_recovered(&shards).err(),
        Some(FecError::StillMissing { index: 2 })
    );
}

#[test]
fn recovery_beyond_its_limits_is_foreseen() {
    let mut crowded = FecSet::new(1, 0);
    crowded.insert_data(ShredVariant::LegacyData, 5, vec![0; 120]);
    crowded.insert_data(ShredVariant::LegacyData, 6, vec![0; 120]);
    crowded.insert_coding(ShredVariant::LegacyCode, &header(1, 1, 0), vec![0; 120]);
    assert!(crowded.can_recover());
    assert!(!crowded.can_reassemble());

    let mut high = FecSet::new(1, u32::MAX);
    high.insert_coding(ShredVariant::LegacyCode, &header(2, 2, 0), vec![0; 120]);
    high.insert_coding(ShredVariant::LegacyCode, &header(2, 2, 1), vec![0; 120]);
    assert!(high.can_recover());
    assert!(!high.can_reassemble());
}

#[test]
fn erasure_shards_are_padded_with_zeros() {
    let raw = [1u8, 2, 3, 4, 5];
    assert_eq!(FecSet::extract_erasure_shard(&raw, 1, 3), vec![2, 3, 4]);
    assert_eq!(FecSet::extract_erasure_shard(&raw, 3, 4), vec![4, 5, 0, 0]);
    assert_eq!(FecSet::extract_erasure_shard(&raw, 9, 2), vec![0, 0]);
    assert!(FecSet::extract_erasure_shard(&raw, 0, 0).is_empty());
}

#[test]
fn flags_and_payload_of_a_shard() {
    let mut shard = vec![7u8; 30];
    shard[21] = 0xC5;
    shard[22..24].copy_from_slice(&92u16.to_le_bytes());
    assert_eq!(FecSet::extract_flags_from_erasure_shard(&shard), 0xC5);
    assert_eq!(FecSet::extract_flags_from_erasure_shard(&shard[..21]), 0);
    assert_eq!(FecSet::extract_payload_from_erasure_shard(&shard), vec![7; 4]);

    shard[22..24].copy_from_slice(&88u16.to_le_bytes());
    assert!(FecSet::extract_payload_from_erasure_shard(&shard).is_empty());
    shard[22..24].copy_from_slice(&10u16.to_le_bytes());
    assert!(FecSet::extract_payload_from_erasure_shard(&shard).is_empty());
    shard[22..24].copy_from_slice(&60000u16.to_le_bytes());
    assert_eq!(FecSet::extract_payload_from_erasure_shard(&shard), vec![7; 6]);
    assert!(FecSet::extract_payload_from_erasure_shard(&shard[..23]).is_empty());
}

#[test]
fn shards_are_recovered_from_a_codeword() {
    let mut full = vec![vec![1u8, 2], vec![3, 4], vec![0, 0], vec![0, 0]];
    ReedSolomon::new(2, 2).unwrap().encode(&mut full).unwrap();
    let mut shards = vec![None, None, Some(full[2].clone()), Some(full[3].clone())];
    assert_eq!(recover_shards(2, 2, &mut shards), Ok(()));
    let all: Vec<Vec<u8>> = shards.into_iter().map(|shard| shard.unwrap()).collect();
    assert_eq!(all, full);
}

#[test]
fn failed_recovery_changes_no_shard() {
    let mut shards = vec![None, Some(vec![1u8, 2]), None];
    assert_eq!(
        recover_shards(2, 1, &mut shards),
        Err(FecError::RecoveryFailed)
    );
    assert_eq!(shards, vec![None, Some(vec![1, 2]), None]);
    let mut uneven = vec![None, Some(vec![1u8, 2]), Some(vec![3])];
    assert_eq!(
        recover_shards(2, 1, &mut uneven),
        Err(FecError::RecoveryFailed)
    );
    let mut empty = vec![None, Some(Vec::<u8>::new()), Some(Vec::new())];
    assert_eq!(
        recover_shards(2, 1, &mut empty),
        Err(FecError::RecoveryFailed)
    );
}

#[test]
fn shard_size_comes_from_the_stored_shreds() {
    let mut set = FecSet::new(1, 0);
    assert_eq!(set.compute_erasure_shard_size(), 0);
    set.insert_data(ShredVariant::LegacyData, 4, vec![0; 64]);
    assert_eq!(set.compute_erasure_shard_size(), 0);
    set.insert_data(ShredVariant::LegacyData, 6, vec![0; 84]);
    set.insert_data(ShredVariant::LegacyData, 5, vec![0; 94]);
    assert_eq!(set.compute_erasure_shard_size(), 30);
    set.insert_coding(ShredVariant::LegacyCode, &header(2, 1, 3), vec![0; 200]);
    assert_eq!(set.compute_erasure_shard_size(), 111);

    let mut beyond = FecSet::new(1, 0);
    beyond.insert_coding(ShredVariant::LegacyCode, &header(2, 1, 3), vec![0; 200]);
    assert_eq!(beyond.compute_erasure_shard_size(), 111);
    beyond.insert_coding(ShredVariant::LegacyCode, &header(2, 1, 1), vec![0; 89]);
    beyond.insert_coding(ShredVariant::LegacyCode, &header(2, 1, 2), vec![0; 100]);
    assert_eq!(beyond.compute_erasure_shard_size(), 11);
    assert!(!beyond.can_recover());
    assert_eq!(beyond.reassemble().err(), Some(FecError::UnknownShardSize));

    let mut proofs = FecSet::new(1, 0);
    proofs.insert_coding(code_variant(), &header(1, 1, 0), vec![0; 249]);
    assert_eq!(proofs.compute_erasure_shard_size(), SHARD);
}

#[test]
fn errors_are_put_in_words() {
    assert_eq!(
        FecError::UnknownShardSize.message(),
        "Cannot determine erasure shard size for RS recovery"
    );
    assert_eq!(FecError::RecoveryFailed.message(), "RS recovery failed");
    assert_eq!(
        FecError::StillMissing { index: 0 }.message(),
        "Data shard 0 still missing after recovery"
    );
    assert_eq!(
        FecError::StillMissing { index: 1207 }.message(),
        "Data shard 1207 still missing after recovery"
    );
    for n in [9, 10, 99, 100, 65535, usize::MAX] {
        assert_eq!(to_decimal(n), n.to_string());
    }
}
