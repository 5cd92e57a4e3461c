use reed_solomon_erasure::galois_8::ReedSolomon;
use shred_pipeline::fec::fec_set::FecError;
use shred_pipeline::fec::{FecTracker, IngestResult};
use shred_pipeline::shred::{parse_shred, ParsedShred};

const SHARD: usize = 40;

fn data_shred(slot: u64, fec: u32, index: u32, flags: u8, payload: &[u8]) -> Vec<u8> {
    let mut raw = vec![0u8; 64 + SHARD];
    raw[64] = 0xA5;
    raw[65..73].copy_from_slice(&slot.to_le_bytes());
    raw[73..77].copy_from_slice(&index.to_le_bytes());
    raw[79..83].copy_from_slice(&fec.to_le_bytes());
    raw[85] = flags;
    raw[86..88].copy_from_slice(&((88 + payload.len()) as u16).to_le_bytes());
    raw[88..88 + payload.len()].copy_from_slice(payload);
    raw
}

fn coding_shreds(slot: u64, fec: u32, data: &[Vec<u8>], num_coding: usize) -> Vec<Vec<u8>> {
    let mut shards: Vec<Vec<u8>> = data.iter().map(|raw| raw[64..64 + SHARD].to_vec()).collect();
    for _ in 0..num_coding {
        shards.push(vec![0u8; SHARD]);
    }
    let code = ReedSolomon::new(data.len(), num_coding).unwrap();
    code.encode(&mut shards).unwrap();
    let mut raws = Vec::new();
    for position in 0..num_coding {
        let mut raw = vec![0u8; 89 + SHARD];
        raw[64] = 0x5A;
        raw[65..73].copy_from_slice(&slot.to_le_bytes());
        raw[79..83].copy_from_slice(&fec.to_le_bytes());
        raw[83..85].copy_from_slice(&(data.len() as u16).to_le_bytes());
        raw[85..87].copy_from_slice(&(num_coding as u16).to_le_bytes());
        raw[87..89].copy_from_slice(&(position as u16).to_le_bytes());
        raw[89..].copy_from_slice(&shards[data.len() + position]);
        raws.push(raw);
    }
    raws
}

fn parsed(raw: &[u8]) -> ParsedShred {
    parse_shred(raw).unwrap()
}

/// Takes in a shred from which nothing comes out.
fn ingest_pending(tracker: &mut FecTracker, raw: &[u8]) {
    let shred = parsed(raw);
    assert!(tracker.can_ingest(&shred));
    assert!(matches!(tracker.ingest(&shred), IngestResult::Pending));
}

/// Takes in a shred and gives what comes out.
fn ingest_batches(tracker: &mut FecTracker, raw: &[u8]) -> (u64, Vec<Vec<u8>>, bool) {
    let shred = parsed(raw);
    assert!(tracker.can_ingest(&shred));
    match tracker.ingest(&shred) {
        IngestResult::Batches {
            slot,
            batches,
            slot_complete,
        } => (slot, batches, slot_complete),
        IngestResult::Pending => panic!("batches are due"),
    }
}

#[test]
fn recovered_set_completes_its_slot() {
    let data = vec![
        data_shred(5, 0, 0, 0x40, &[1, 2]),
        data_shred(5, 0, 1, 0, &[3]),
        data_shred(5, 0, 2, 0xC0, &[4, 5]),
    ];
    let coding = coding_shreds(5, 0, &data, 3);
    let mut tracker = FecTracker::new(100);
    ingest_pending(&mut tracker, &coding[2]);
    ingest_pending(&mut tracker, &coding[0]);
    assert_eq!(tracker.active_sets(), 1);
    assert_eq!(tracker.active_slots(), 0);
    let (slot, batches, complete) = ingest_batches(&mut tracker, &coding[1]);
    assert_eq!(slot, 5);
    assert_eq!(batches, vec![vec![1, 2], vec![3, 4, 5]]);
    assert!(complete);
    assert_eq!(tracker.active_sets(), 0);
    assert_eq!(tracker.active_slots(), 0);
}

#[test]
fn finished_sets_and_slots_are_closed() {
    let data = vec![data_shred(5, 0, 0, 0xC0, &[1])];
    let coding = coding_shreds(5, 0, &data, 2);
    let mut tracker = FecTracker::new(100);
    let (_, batches, complete) = ingest_batches(&mut tracker, &coding[0]);
    assert_eq!(batches, vec![vec![1]]);
    assert!(complete);
    ingest_pending(&mut tracker, &coding[1]);
    ingest_pending(&mut tracker, &data[0]);
    ingest_pending(&mut tracker, &data_shred(5, 32, 32, 0, &[7]));
    assert_eq!(tracker.active_sets(), 0);
    assert_eq!(tracker.active_slots(), 0);
}

#[test]
fn only_recovered_shreds_reach_the_slot() {
    let data = vec![
        data_shred(5, 0, 0, 0, &[1]),
        data_shred(5, 0, 1, 0xC0, &[2]),
    ];
    let coding = coding_shreds(5, 0, &data, 2);
    let mut tracker = FecTracker::new(100);
    ingest_pending(&mut tracker, &data[0]);
    ingest_pending(&mut tracker, &coding[0]);
    assert_eq!(tracker.active_sets(), 0);
    assert_eq!(tracker.active_slots(), 1);
}

#[test]
fn whole_data_closes_the_set_without_batches() {
    let data = vec![
        data_shred(5, 0, 0, 0, &[1]),
        data_shred(5, 0, 1, 0xC0, &[2]),
    ];
    let coding = coding_shreds(5, 0, &data, 2);
    let mut tracker = FecTracker::new(100);
    ingest_pending(&mut tracker, &data[0]);
    ingest_pending(&mut tracker, &data[1]);
    assert_eq!(tracker.active_sets(), 1);
    ingest_pending(&mut tracker, &coding[0]);
    assert_eq!(tracker.active_sets(), 0);
    assert_eq!(tracker.active_slots(), 1);
}

#[test]
fn sets_of_one_slot_are_joined_in_order() {
    let first = vec![data_shred(5, 0, 0, 0, &[1])];
    let second = vec![
        data_shred(5, 1, 1, 0x40, &[2]),
        data_shred(5, 1, 2, 0, &[3]),
    ];
    let mut tracker = FecTracker::new(100);
    let later = coding_shreds(5, 1, &second, 2);
    ingest_pending(&mut tracker, &later[0]);
    ingest_pending(&mut tracker, &later[1]);
    assert_eq!(tracker.active_slots(), 1);
    let (slot, batches, complete) =
        ingest_batches(&mut tracker, &coding_shreds(5, 0, &first, 1)[0]);
    assert_eq!(slot, 5);
    assert_eq!(batches, vec![vec![1, 2]]);
    assert!(!complete);
    assert_eq!(tracker.active_slots(), 1);
}

#[test]
fn failed_recovery_closes_the_set() {
    let mut coding = vec![0u8; 89];
    coding[64] = 0x5A;
    coding[83] = 1;
    coding[85] = 1;
    let mut tracker = FecTracker::new(100);
    assert_eq!(tracker.take_failure(), None);
    ingest_pending(&mut tracker, &coding);
    assert_eq!(
        tracker.take_failure(),
        Some(((0, 0), FecError::UnknownShardSize))
    );
    assert_eq!(tracker.take_failure(), None);
    assert_eq!(tracker.active_sets(), 0);
    assert_eq!(tracker.active_slots(), 0);
    let data = vec![data_shred(0, 0, 0, 0xC0, &[1])];
    ingest_pending(&mut tracker, &coding_shreds(0, 0, &data, 1)[0]);
    assert_eq!(tracker.active_slots(), 0);
}

#[test]
fn old_slots_are_evicted() {
    let mut tracker = FecTracker::new(1);
    ingest_pending(&mut tracker, &data_shred(1, 0, 0, 0, &[1]));
    ingest_pending(&mut tracker, &data_shred(2, 0, 0, 0, &[1]));
    ingest_pending(&mut tracker, &data_shred(2, 8, 8, 0, &[1]));
    assert_eq!(tracker.active_sets(), 3);
    ingest_pending(&mut tracker, &data_shred(3, 0, 0, 0, &[1]));
    assert_eq!(tracker.active_sets(), 3);
    ingest_pending(&mut tracker, &data_shred(1, 0, 0, 0, &[1]));
    assert_eq!(tracker.active_sets(), 4);
    ingest_pending(&mut tracker, &data_shred(50, 0, 0, 0, &[1]));
    assert_eq!(tracker.active_sets(), 1);
}

#[test]
fn eviction_reopens_what_was_finished() {
    let data = vec![data_shred(5, 0, 0, 0xC0, &[1])];
    let coding = coding_shreds(5, 0, &data, 1);
    let mut tracker = FecTracker::new(2);
    ingest_batches(&mut tracker, &coding[0]);
    ingest_pending(&mut tracker, &data_shred(7, 0, 0, 0, &[1]));
    ingest_pending(&mut tracker, &coding[0]);
    ingest_pending(&mut tracker, &data_shred(8, 0, 0, 0, &[1]));
    let (slot, batches, complete) = ingest_batches(&mut tracker, &coding[0]);
    assert_eq!(slot, 5);
    assert_eq!(batches, vec![vec![1]]);
    assert!(complete);
}

#[test]
fn threshold_above_the_slot_evicts_nothing() {
    let mut tracker = FecTracker::new(100);
    ingest_pending(&mut tracker, &data_shred(0, 0, 0, 0, &[1]));
    ingest_pending(&mut tracker, &data_shred(99, 0, 0, 0, &[1]));
    assert_eq!(tracker.active_sets(), 2);
    ingest_pending(&mut tracker, &data_shred(100, 0, 0, 0, &[1]));
    assert_eq!(tracker.active_sets(), 3);
    ingest_pending(&mut tracker, &data_shred(101, 0, 0, 0, &[1]));
    assert_eq!(tracker.active_sets(), 3);
}

#[test]
fn sets_are_told_apart_by_slot_and_index() {
    let mut tracker = FecTracker::new(u64::MAX);
    ingest_pending(&mut tracker, &data_shred(1, 0, 0, 0, &[1]));
    ingest_pending(&mut tracker, &data_shred(1, u32::MAX, u32::MAX, 0, &[1]));
    ingest_pending(&mut tracker, &data_shred(u64::MAX, 0, 0, 0, &[1]));
    ingest_pending(&mut tracker, &data_shred(u64::MAX, u32::MAX, u32::MAX, 0, &[1]));
    ingest_pending(&mut tracker, &data_shred(1, 0, 1, 0, &[1]));
    assert_eq!(tracker.active_sets(), 4);
}

#[test]
fn indices_that_do_not_fit_are_foreseen() {
    let data = vec![
        data_shred(5, u32::MAX, u32::MAX, 0, &[1]),
        data_shred(5, u32::MAX, u32::MAX, 0, &[2]),
    ];
    let coding = coding_shreds(5, u32::MAX, &data, 2);
    let mut tracker = FecTracker::new(100);
    ingest_pending(&mut tracker, &coding[0]);
    assert!(!tracker.can_ingest(&parsed(&coding[1])));
}
