use reed_solomon_erasure::galois_8::ReedSolomon;
use shred_pipeline::entry::{CompiledInstruction, Entry, Transaction};
use shred_pipeline::pipeline::{RunStats, ShredPipeline};
use shred_pipeline::shred::{parse_shred, ParsedShred};
use shred_pipeline::types::{DecodedInstruction, Dex, InstructionKind, ShredInfo};
use std::cell::RefCell;
use std::rc::Rc;

type Deserialize = fn(&[u8]) -> Vec<Entry>;
type Decode = fn(&[[u8; 32]], &[(u8, Vec<u8>, Vec<u8>)], &str, u64) -> Vec<DecodedInstruction>;
type ShredCallback = Box<dyn Fn(&ParsedShred)>;
type InstructionCallback = Box<dyn Fn(&DecodedInstruction)>;
type Pipeline = ShredPipeline<Deserialize, Decode, ShredCallback, InstructionCallback>;

const SHARD: usize = 40;

/// One entry for each byte, with one transaction whose first signature ends in
/// that byte; the byte 0xFF stands for one without a signature.
fn deserialize(data: &[u8]) -> Vec<Entry> {
    data.iter()
        .map(|&byte| {
            let mut signature = [0u8; 64];
            signature[63] = byte;
            let signatures = if byte == 0xFF {
                Vec::new()
            } else {
                vec![signature, [7; 64]]
            };
            Entry {
                transactions: vec![Transaction {
                    signatures,
                    account_keys: vec![[byte; 32], [9; 32]],
                    instructions: vec![CompiledInstruction {
                        program_id_index: 1,
                        accounts: vec![byte, 0],
                        data: vec![byte, byte, byte],
                    }],
                }],
            }
        })
        .collect()
}

/// The exchange is the first byte of the first account key, the kind is the number
/// of data bytes and the program of the first instruction.
fn decode(
    accounts: &[[u8; 32]],
    instructions: &[(u8, Vec<u8>, Vec<u8>)],
    signature: &str,
    slot: u64,
) -> Vec<DecodedInstruction> {
    assert_eq!(accounts.len(), 2);
    assert_eq!(instructions.len(), 1);
    assert_eq!(instructions[0].1, vec![accounts[0][0], 0]);
    vec![DecodedInstruction {
        dex: Dex {
            id: accounts[0][0] as u16,
        },
        kind: InstructionKind {
            id: instructions[0].2.len() as u16 * 10 + instructions[0].0 as u16,
        },
        signature: signature.to_string(),
        slot,
    }]
}

fn pipeline() -> Pipeline {
    Pipeline::new("127.0.0.1:9000".to_string(), deserialize, decode)
}

fn data_shred(slot: u64, fec: u32, index: u32, flags: u8, payload: &[u8]) -> Vec<u8> {
    let mut raw = vec![0u8; 64 + SHARD];
    raw[64] = 0xA5;
    raw[65..73].copy_from_slice(&slot.to_le_bytes());
    raw[73..77].copy_from_slice(&index.to_le_bytes());
    raw[77..79].copy_from_slice(&77u16.to_le_bytes());
    raw[79..83].copy_from_slice(&fec.to_le_bytes());
    raw[85] = flags;
    raw[86..88].copy_from_slice(&((88 + payload.len()) as u16).to_le_bytes());
    raw[88..88 + payload.len()].copy_from_slice(payload);
    raw
}

/// Coding shreds from which a set with the one data shred is recovered.
fn coding_shred(data: &[u8]) -> Vec<u8> {
    let mut shards = vec![data[64..64 + SHARD].to_vec(), vec![0u8; SHARD]];
    ReedSolomon::new(1, 1).unwrap().encode(&mut shards).unwrap();
    let mut raw = vec![0u8; 89 + SHARD];
    raw[64..83].copy_from_slice(&data[64..83]);
    raw[64] = 0x5A;
    raw[83] = 1;
    raw[85] = 1;
    raw[89..].copy_from_slice(&shards[1]);
    raw
}

fn ids(found: &[DecodedInstruction]) -> Vec<u16> {
    found.iter().map(|inst| inst.dex.id).collect()
}

#[test]
fn packet_gives_the_instructions_of_its_batches() {
    let mut pipeline = pipeline();
    let packet = coding_shred(&data_shred(12, 0, 0, 0xC0, &[1, 58]));
    assert!(pipeline.can_process(&packet));
    let found = pipeline.process_raw(&packet);
    assert_eq!(ids(&found), vec![1, 58]);
    assert_eq!(found[0].slot, 12);
    assert_eq!(found[0].kind, InstructionKind { id: 31 });
    assert_eq!(found[0].signature, "1".repeat(63) + "2");
    assert_eq!(found[1].signature, "1".repeat(63) + "21");
    assert!(pipeline.process_raw(&packet).is_empty());
}

#[test]
fn signatures_are_written_in_base_58() {
    let pipeline = Pipeline::new(
        String::new(),
        |data| {
            let mut signature = [0u8; 64];
            signature[..data.len()].copy_from_slice(data);
            vec![Entry {
                transactions: vec![Transaction {
                    signatures: vec![signature],
                    account_keys: vec![[0; 32], [0; 32]],
                    instructions: vec![CompiledInstruction {
                        program_id_index: 0,
                        accounts: vec![0, 0],
                        data: Vec::new(),
                    }],
                }],
            }]
        },
        decode,
    );
    let text = |data: &[u8]| pipeline.decode_entries(1, data)[0].signature.clone();
    assert_eq!(text(&[]), "1".repeat(64));
    let mut bytes = vec![0u8; 64];
    bytes[62] = 1;
    assert_eq!(text(&bytes), "1".repeat(62) + "5R");
    bytes = vec![0xFF; 64];
    assert_eq!(text(&bytes), bs58::encode(&bytes).into_string());
    assert_eq!(text(&bytes).len(), 88);
}

#[test]
fn packet_that_is_no_shred_gives_nothing() {
    let mut pipeline = pipeline();
    assert!(pipeline.can_process(&[1, 2, 3]));
    assert!(pipeline.process_raw(&[1, 2, 3]).is_empty());
    assert!(pipeline.process_raw(&[0; 200]).is_empty());
    assert_eq!(pipeline.fec_tracker().active_sets(), 0);
}

#[test]
fn pending_shred_gives_nothing_yet() {
    let mut pipeline = pipeline();
    assert!(pipeline
        .process_raw(&data_shred(12, 0, 0, 0xC0, &[1]))
        .is_empty());
    assert_eq!(pipeline.fec_tracker().active_sets(), 1);
    let shred = parse_shred(&data_shred(13, 0, 0, 0xC0, &[1])).unwrap();
    assert!(pipeline.can_handle(&shred));
    assert!(pipeline.handle_shred(&shred).is_none());
    assert_eq!(pipeline.fec_tracker().active_sets(), 2);
}

#[test]
fn transactions_without_signature_are_skipped() {
    let pipeline = pipeline();
    assert_eq!(ids(&pipeline.decode_entries(3, &[4, 0xFF, 5])), vec![4, 5]);
    assert!(pipeline.decode_entries(3, &[0xFF]).is_empty());
    assert!(pipeline.decode_entries(3, &[]).is_empty());
}

#[test]
fn filters_choose_what_is_handed_on() {
    let inst = |dex: u16, kind: u16| DecodedInstruction {
        dex: Dex { id: dex },
        kind: InstructionKind { id: kind },
        signature: String::new(),
        slot: 0,
    };
    let all = pipeline();
    assert!(all.matches_filters(&inst(1, 1)));

    let by_dex = pipeline().with_dex_filter(vec![Dex { id: 1 }, Dex { id: 2 }]);
    assert!(by_dex.matches_filters(&inst(2, 9)));
    assert!(!by_dex.matches_filters(&inst(3, 9)));

    let by_kind = pipeline().with_kind_filter(vec![InstructionKind { id: 9 }]);
    assert!(by_kind.matches_filters(&inst(3, 9)));
    assert!(!by_kind.matches_filters(&inst(3, 8)));

    let by_both = pipeline()
        .with_kind_filter(vec![InstructionKind { id: 9 }])
        .with_dex_filter(vec![Dex { id: 1 }]);
    assert!(by_both.matches_filters(&inst(1, 9)));
    assert!(!by_both.matches_filters(&inst(1, 8)));
    assert!(!by_both.matches_filters(&inst(2, 9)));

    let nothing = pipeline().with_dex_filter(Vec::new());
    assert!(!nothing.matches_filters(&inst(1, 1)));

    let replaced = nothing.with_dex_filter(vec![Dex { id: 1 }]);
    assert!(replaced.matches_filters(&inst(1, 1)));
}

#[test]
fn shreds_are_handled_with_filters_and_callbacks() {
    let seen: Rc<RefCell<Vec<String>>> = Rc::new(RefCell::new(Vec::new()));
    let shred_log = seen.clone();
    let instruction_log = seen.clone();
    let mut pipeline = pipeline()
        .with_dex_filter(vec![Dex { id: 3 }, Dex { id: 1 }])
        .on_shred(Box::new(move |shred| {
            shred_log.borrow_mut().push(format!("shred {}", shred.slot()))
        }))
        .on_instruction(Box::new(move |inst| {
            instruction_log
                .borrow_mut()
                .push(format!("instruction {}", inst.dex.id))
        }));
    let shred = parse_shred(&coding_shred(&data_shred(12, 0, 0, 0xC0, &[3, 2, 1]))).unwrap();
    assert!(pipeline.can_handle(&shred));
    pipeline.announce(&shred);
    let delivered = pipeline.handle_shred(&shred).unwrap();
    assert_eq!(ids(&delivered), vec![3, 1]);
    assert_eq!(
        *seen.borrow(),
        vec!["shred 12", "instruction 3", "instruction 1"]
    );
}

#[test]
fn processing_leaves_filters_and_callbacks_aside() {
    let seen: Rc<RefCell<usize>> = Rc::new(RefCell::new(0));
    let log = seen.clone();
    let mut pipeline = pipeline()
        .with_dex_filter(Vec::new())
        .with_kind_filter(Vec::new())
        .on_instruction(Box::new(move |_| *log.borrow_mut() += 1));
    let packet = coding_shred(&data_shred(12, 0, 0, 0xC0, &[3, 2]));
    assert_eq!(ids(&pipeline.process_raw(&packet)), vec![3, 2]);
    assert_eq!(*seen.borrow(), 0);
}

#[test]
fn callbacks_are_optional_and_filters_may_drop_all() {
    let mut pipeline = pipeline().with_kind_filter(Vec::new());
    let shred = parse_shred(&coding_shred(&data_shred(12, 0, 0, 0xC0, &[3]))).unwrap();
    pipeline.announce(&shred);
    let delivered = pipeline.handle_shred(&shred).unwrap();
    assert!(delivered.is_empty());
}

#[test]
fn pipeline_keeps_a_hundred_slots() {
    let mut pipeline = pipeline();
    assert_eq!(pipeline.bind_addr(), "127.0.0.1:9000");
    pipeline.process_raw(&data_shred(1, 0, 0, 0, &[1]));
    pipeline.process_raw(&data_shred(101, 0, 0, 0, &[1]));
    assert_eq!(pipeline.fec_tracker().active_sets(), 2);
    pipeline.process_raw(&data_shred(102, 0, 0, 0, &[1]));
    assert_eq!(pipeline.fec_tracker().active_sets(), 2);
}

#[test]
fn shred_info_is_read_from_a_packet() {
    assert_eq!(
        Pipeline::parse_shred_info(&data_shred(12, 32, 40, 0, &[1])),
        Some(ShredInfo {
            slot: 12,
            index: 40,
            version: 77,
            fec_set_index: 32,
            is_data: true,
        })
    );
    assert_eq!(Pipeline::parse_shred_info(&[0; 64]), None);
}

#[test]
fn statistics_are_due_every_ten_thousand_packets() {
    let mut stats = RunStats::new();
    assert_eq!(
        stats,
        RunStats {
            shreds: 0,
            instructions: 0
        }
    );
    for _ in 0..9_999 {
        stats.count_packet();
        assert!(!stats.report_due());
    }
    stats.count_packet();
    assert!(stats.report_due());
    stats.count_instructions(5);
    stats.count_instructions(7);
    assert_eq!(
        stats,
        RunStats {
            shreds: 10_000,
            instructions: 12
        }
    );
    stats.count_instructions(u64::MAX);
    assert_eq!(stats.instructions, 11);
}

#[test]
fn packets_are_counted_and_reported_when_batches_come() {
    let mut pipeline = pipeline();
    let mut stats = RunStats {
        shreds: 9_998,
        instructions: 4,
    };
    assert!(!pipeline.handle_packet(&mut stats, &[1, 2, 3]));
    assert_eq!(stats.shreds, 9_999);
    assert_eq!(stats.instructions, 4);
    let packet = coding_shred(&data_shred(12, 0, 0, 0xC0, &[3, 2, 1]));
    assert!(pipeline.can_process(&packet));
    assert!(pipeline.handle_packet(&mut stats, &packet));
    assert_eq!(
        stats,
        RunStats {
            shreds: 10_000,
            instructions: 7
        }
    );
    stats.shreds = 19_999;
    assert!(!pipeline.handle_packet(&mut stats, &packet));
    assert_eq!(stats.shreds, 20_000);
    assert_eq!(stats.instructions, 7);
    let more = coding_shred(&data_shred(13, 0, 0, 0xC0, &[5]));
    assert!(!pipeline.handle_packet(&mut stats, &more));
    assert_eq!(stats.shreds, 20_001);
    assert_eq!(stats.instructions, 8);
}

#[test]
fn run_hands_on_the_filtered_results_of_processing() {
    let packets = vec![
        coding_shred(&data_shred(12, 0, 0, 0x40, &[3, 2, 1])),
        vec![0; 20],
        data_shred(13, 0, 0, 0xC0, &[9]),
        coding_shred(&data_shred(12, 1, 1, 0xC0, &[1, 0xFF, 4, 3])),
        coding_shred(&data_shred(12, 1, 1, 0xC0, &[1, 0xFF, 4, 3])),
    ];
    let shreds: Rc<RefCell<Vec<u64>>> = Rc::new(RefCell::new(Vec::new()));
    let calls: Rc<RefCell<Vec<u16>>> = Rc::new(RefCell::new(Vec::new()));
    let shred_log = shreds.clone();
    let call_log = calls.clone();
    let mut running = pipeline()
        .with_dex_filter(vec![Dex { id: 1 }, Dex { id: 3 }])
        .on_shred(Box::new(move |shred| shred_log.borrow_mut().push(shred.slot())))
        .on_instruction(Box::new(move |inst| {
            call_log.borrow_mut().push(inst.dex.id)
        }));
    let mut processing = pipeline();
    let mut stats = RunStats::new();
    let mut expected = Vec::new();
    for packet in packets.iter() {
        assert!(running.can_process(packet));
        running.handle_packet(&mut stats, packet);
        for inst in processing.process_raw(packet) {
            if running.matches_filters(&inst) {
                expected.push(inst.dex.id);
            }
        }
    }
    assert_eq!(*calls.borrow(), expected);
    assert_eq!(*calls.borrow(), vec![3, 1, 1, 3]);
    assert_eq!(*shreds.borrow(), vec![12, 13, 12, 12]);
    assert_eq!(
        stats,
        RunStats {
            shreds: 5,
            instructions: 4
        }
    );
}

#[test]
fn shred_is_announced_before_its_instructions() {
    let log: Rc<RefCell<Vec<String>>> = Rc::new(RefCell::new(Vec::new()));
    let shred_log = log.clone();
    let instruction_log = log.clone();
    let mut pipeline = pipeline()
        .with_dex_filter(vec![Dex { id: 1 }, Dex { id: 3 }])
        .on_shred(Box::new(move |shred| {
            shred_log.borrow_mut().push(format!("shred {}", shred.slot()))
        }))
        .on_instruction(Box::new(move |inst| {
            instruction_log
                .borrow_mut()
                .push(format!("instruction {} of {}", inst.dex.id, inst.slot))
        }));
    let mut stats = RunStats::new();
    let packets = vec![
        coding_shred(&data_shred(12, 0, 0, 0xC0, &[3, 2, 1])),
        vec![0; 20],
        coding_shred(&data_shred(12, 0, 0, 0xC0, &[3, 2, 1])),
        data_shred(14, 0, 0, 0xC0, &[1]),
        coding_shred(&data_shred(13, 0, 0, 0xC0, &[1])),
    ];
    for packet in packets.iter() {
        assert!(pipeline.can_process(packet));
        pipeline.handle_packet(&mut stats, packet);
    }
    assert_eq!(
        *log.borrow(),
        vec![
            "shred 12",
            "instruction 3 of 12",
            "instruction 1 of 12",
            "shred 12",
            "shred 14",
            "shred 13",
            "instruction 1 of 13",
        ]
    );
}

#[test]
fn failed_recovery_is_taken_out_once() {
    let mut coding = vec![0u8; 89];
    coding[64] = 0x5A;
    coding[65] = 6;
    coding[79] = 2;
    coding[83] = 1;
    coding[85] = 1;
    let mut pipeline = pipeline();
    let mut stats = RunStats::new();
    assert!(pipeline.can_process(&coding));
    pipeline.handle_packet(&mut stats, &coding);
    let ((slot, fec_idx), error) = pipeline.take_failure().unwrap();
    assert_eq!((slot, fec_idx), (6, 2));
    assert_eq!(
        error.message(),
        "Cannot determine erasure shard size for RS recovery"
    );
    assert!(pipeline.take_failure().is_none());
}
