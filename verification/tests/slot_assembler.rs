use shred_pipeline::fec::fec_set::RecoveredShred;
use shred_pipeline::fec::slot_assembler::SlotAssembler;
use shred_pipeline::shred::data_header::{
    is_data_complete, is_last_in_slot, FLAG_DATA_COMPLETE_SHRED, FLAG_LAST_SHRED_IN_SLOT,
};

fn shred(index: u32, flags: u8, byte: u8) -> RecoveredShred {
    RecoveredShred {
        index,
        flags,
        payload: vec![byte],
    }
}

#[test]
fn batch_spanning_out_of_order_shreds() {
    let mut assembler = SlotAssembler::new(1);
    assembler.insert(shred(1, FLAG_DATA_COMPLETE_SHRED, 0xb));
    assert!(assembler.drain_batches().is_empty());

    assembler.insert(shred(0, 0, 0xa));
    let batches = assembler.drain_batches();
    assert_eq!(batches, vec![vec![0xa, 0xb]]);
    assert!(!assembler.is_complete());
}

#[test]
fn multiple_batches_and_slot_completion() {
    let mut assembler = SlotAssembler::new(1);
    assembler.insert(shred(0, FLAG_DATA_COMPLETE_SHRED, 0xa));
    assembler.insert(shred(1, 0, 0xb));
    assembler.insert(shred(2, FLAG_LAST_SHRED_IN_SLOT, 0xc));
    let batches = assembler.drain_batches();
    assert_eq!(batches, vec![vec![0xa], vec![0xb, 0xc]]);
    assert!(assembler.is_complete());
    assert_eq!(assembler.batches_emitted(), 2);
}

#[test]
fn tick_reference_bits_are_not_boundaries() {
    let mut assembler = SlotAssembler::new(1);
    assembler.insert(shred(0, 0x02, 0xa));
    assert!(assembler.drain_batches().is_empty());
    assert!(!assembler.is_complete());

    assembler.insert(shred(1, 0x02 | FLAG_LAST_SHRED_IN_SLOT, 0xb));
    assert_eq!(assembler.drain_batches(), vec![vec![0xa, 0xb]]);
    assert!(assembler.is_complete());
}

#[test]
fn duplicate_and_stale_inserts_ignored() {
    let mut assembler = SlotAssembler::new(1);
    assembler.insert(shred(0, FLAG_DATA_COMPLETE_SHRED, 0xa));
    assembler.insert(shred(0, FLAG_DATA_COMPLETE_SHRED, 0xff));
    assert_eq!(assembler.drain_batches(), vec![vec![0xa]]);

    assembler.insert(shred(0, FLAG_DATA_COMPLETE_SHRED, 0xff));
    assert!(assembler.drain_batches().is_empty());
}

#[test]
fn new_assembler_is_empty() {
    let mut assembler = SlotAssembler::new(7);
    assert_eq!(assembler.slot, 7);
    assert_eq!(assembler.pending_shreds(), 0);
    assert_eq!(assembler.batches_emitted(), 0);
    assert_eq!(assembler.cursor(), 0);
    assert!(assembler.can_drain());
    assert!(assembler.drain_batches().is_empty());
    assert!(!assembler.is_complete());
}

#[test]
fn shreds_wait_until_their_batch_is_whole() {
    let mut assembler = SlotAssembler::new(1);
    assembler.insert(shred(2, FLAG_DATA_COMPLETE_SHRED, 3));
    assembler.insert(shred(0, 0, 1));
    assert_eq!(assembler.pending_shreds(), 2);
    assert!(assembler.is_pending(0));
    assert!(!assembler.is_pending(1));
    assert!(assembler.drain_batches().is_empty());
    assert_eq!(assembler.pending_shreds(), 2);

    assembler.insert(shred(1, 0, 2));
    assembler.insert(shred(3, 0, 4));
    assert_eq!(assembler.drain_batches(), vec![vec![1, 2, 3]]);
    assert_eq!(assembler.pending_shreds(), 1);
    assert_eq!(assembler.cursor(), 3);
    assert_eq!(assembler.batches_emitted(), 1);
}

#[test]
fn every_order_of_arrival_gives_the_same_batches() {
    let orders: Vec<Vec<u32>> = vec![
        vec![0, 1, 2, 3],
        vec![3, 2, 1, 0],
        vec![2, 0, 3, 1],
        vec![1, 3, 0, 2],
    ];
    for order in orders {
        let mut once = SlotAssembler::new(1);
        let mut often = SlotAssembler::new(1);
        let mut taken: Vec<Vec<u8>> = Vec::new();
        for &index in order.iter() {
            let flags = match index {
                1 => FLAG_DATA_COMPLETE_SHRED,
                3 => FLAG_LAST_SHRED_IN_SLOT,
                _ => 0,
            };
            once.insert(shred(index, flags, index as u8));
            often.insert(shred(index, flags, index as u8));
            taken.append(&mut often.drain_batches());
        }
        assert_eq!(once.drain_batches(), vec![vec![0, 1], vec![2, 3]]);
        assert_eq!(taken, vec![vec![0, 1], vec![2, 3]]);
        assert!(once.is_complete());
        assert!(often.is_complete());
        assert!(once.drain_batches().is_empty());
    }
}

#[test]
fn complete_slot_is_reopened_only_by_a_later_end() {
    let mut assembler = SlotAssembler::new(1);
    assembler.insert(shred(0, FLAG_LAST_SHRED_IN_SLOT, 1));
    assert_eq!(assembler.drain_batches(), vec![vec![1]]);
    assert!(assembler.is_complete());

    assembler.insert(shred(4, FLAG_DATA_COMPLETE_SHRED, 5));
    assert!(assembler.is_complete());
    assembler.insert(shred(5, FLAG_LAST_SHRED_IN_SLOT, 6));
    assert!(!assembler.is_complete());
}

#[test]
fn shreds_with_no_payload_make_an_empty_batch() {
    let mut assembler = SlotAssembler::new(1);
    assembler.insert(RecoveredShred {
        index: 0,
        flags: FLAG_DATA_COMPLETE_SHRED,
        payload: Vec::new(),
    });
    assert_eq!(assembler.drain_batches(), vec![Vec::<u8>::new()]);
    assert_eq!(assembler.batches_emitted(), 1);
}

#[test]
fn highest_index_leaves_no_room_for_the_cursor_only_in_a_run() {
    let mut assembler = SlotAssembler::new(1);
    assembler.insert(shred(u32::MAX, FLAG_LAST_SHRED_IN_SLOT, 1));
    assert!(assembler.can_drain());
    assert!(assembler.drain_batches().is_empty());
    assert!(!assembler.is_complete());
    assert_eq!(assembler.pending_shreds(), 1);
}

#[test]
fn flags_of_boundaries() {
    assert_eq!(FLAG_DATA_COMPLETE_SHRED, 0x40);
    assert_eq!(FLAG_LAST_SHRED_IN_SLOT, 0xC0);
    assert!(is_data_complete(0x40));
    assert!(is_data_complete(0xC0));
    assert!(is_data_complete(0xFF));
    assert!(!is_data_complete(0x80));
    assert!(!is_data_complete(0x3F));
    assert!(is_last_in_slot(0xC0));
    assert!(is_last_in_slot(0xC1));
    assert!(!is_last_in_slot(0x40));
    assert!(!is_last_in_slot(0x80));
}
