//! What the pipeline finds, hands on and counts, in terms of the filters, the
//! transactions and the batches.

use crate::base58::base58;
use crate::callback::{instruction_calls, Call};
use crate::entry::{transactions_of, Entry, Transaction};
use crate::fec::{IngestOutcome, TrackerState};
use crate::pipeline::{PipelineState, RunStats, REPORT_INTERVAL};
use crate::shred::{ParsedShred, ShredView};
use crate::types::{DecodedInstruction, Dex, InstructionKind};
use vstd::prelude::*;

verus! {

/// An instruction is let through exactly where its exchange is at any place of the
/// list of exchanges and its kind at any place of the list of kinds, each where there
/// is that list, whatever the order and the length of the lists.
pub proof fn filters_go_by_the_lists<E, D, S, I>(
    state: PipelineState<E, D, S, I>,
    inst: DecodedInstruction,
) where
    E: Fn(&[u8]) -> Vec<Entry>,
    D: Fn(&[[u8; 32]], &[(u8, Vec<u8>, Vec<u8>)], &str, u64) -> Vec<DecodedInstruction>,
    S: Fn(&ParsedShred),
    I: Fn(&DecodedInstruction),

    ensures
        state.passes(inst) <==> {
            &&& state.dex_filter is None || exists|j: int|
                0 <= j < state.dex_filter->0.len() && (#[trigger] state.dex_filter->0[j]).id
                    == inst.dex.id
            &&& state.kind_filter is None || exists|j: int|
                0 <= j < state.kind_filter->0.len() && (#[trigger] state.kind_filter->0[j]).id
                    == inst.kind.id
        },
{
    if let Some(dexes) = state.dex_filter {
        if exists|j: int| 0 <= j < dexes.len() && (#[trigger] dexes[j]).id == inst.dex.id {
            let j = choose|j: int| 0 <= j < dexes.len() && (#[trigger] dexes[j]).id == inst.dex.id;
            assert(dexes[j] == inst.dex);
        }
    }
    if let Some(kinds) = state.kind_filter {
        if exists|j: int| 0 <= j < kinds.len() && (#[trigger] kinds[j]).id == inst.kind.id {
            let j = choose|j: int|
                0 <= j < kinds.len() && (#[trigger] kinds[j]).id == inst.kind.id;
            assert(kinds[j] == inst.kind);
        }
    }
}

/// A list of kinds lets through what its parts let through, and so does a list of
/// exchanges: their order and how they are put together make no difference.
pub proof fn lists_let_through_what_their_parts_do<E, D, S, I>(
    state: PipelineState<E, D, S, I>,
    dexes: (Seq<Dex>, Seq<Dex>),
    kinds: (Seq<InstructionKind>, Seq<InstructionKind>),
    inst: DecodedInstruction,
) where
    E: Fn(&[u8]) -> Vec<Entry>,
    D: Fn(&[[u8; 32]], &[(u8, Vec<u8>, Vec<u8>)], &str, u64) -> Vec<DecodedInstruction>,
    S: Fn(&ParsedShred),
    I: Fn(&DecodedInstruction),

    ensures
        ({
            let by_dex = |list: Seq<Dex>|
                (PipelineState { dex_filter: Some(list), kind_filter: None, ..state }).passes(inst);
            let by_kind = |list: Seq<InstructionKind>|
                (PipelineState { dex_filter: None, kind_filter: Some(list), ..state }).passes(inst);
            &&& by_dex(dexes.0 + dexes.1) == (by_dex(dexes.0) || by_dex(dexes.1))
            &&& by_kind(kinds.0 + kinds.1) == (by_kind(kinds.0) || by_kind(kinds.1))
            &&& by_dex(seq![inst.dex])
            &&& by_kind(seq![inst.kind])
            &&& !by_dex(Seq::empty())
            &&& !by_kind(Seq::empty())
        }),
{
    let d = dexes.0 + dexes.1;
    let k = kinds.0 + kinds.1;
    if dexes.0.contains(inst.dex) {
        let j = choose|j: int| 0 <= j < dexes.0.len() && dexes.0[j] == inst.dex;
        assert(d[j] == inst.dex);
    }
    if dexes.1.contains(inst.dex) {
        let j = choose|j: int| 0 <= j < dexes.1.len() && dexes.1[j] == inst.dex;
        assert(d[dexes.0.len() + j] == inst.dex);
    }
    if kinds.0.contains(inst.kind) {
        let j = choose|j: int| 0 <= j < kinds.0.len() && kinds.0[j] == inst.kind;
        assert(k[j] == inst.kind);
    }
    if kinds.1.contains(inst.kind) {
        let j = choose|j: int| 0 <= j < kinds.1.len() && kinds.1[j] == inst.kind;
        assert(k[kinds.0.len() + j] == inst.kind);
    }
    assert(seq![inst.dex][0] == inst.dex);
    assert(seq![inst.kind][0] == inst.kind);
}

/// Of the instructions that are found, each is handed on or dropped by itself, and
/// those that are handed on keep their order.
pub proof fn instructions_are_filtered_one_by_one<E, D, S, I>(
    state: PipelineState<E, D, S, I>,
    found: Seq<DecodedInstruction>,
    inst: DecodedInstruction,
) where
    E: Fn(&[u8]) -> Vec<Entry>,
    D: Fn(&[[u8; 32]], &[(u8, Vec<u8>, Vec<u8>)], &str, u64) -> Vec<DecodedInstruction>,
    S: Fn(&ParsedShred),
    I: Fn(&DecodedInstruction),

    ensures
        state.filtered(Seq::empty()) == Seq::<DecodedInstruction>::empty(),
        state.filtered(found.push(inst)) == if state.passes(inst) {
            state.filtered(found).push(inst)
        } else {
            state.filtered(found)
        },
{
    let pred = |x: DecodedInstruction| state.passes(x);
    found.lemma_filter_push(inst, pred);
    Seq::<DecodedInstruction>::empty().lemma_filter_len(pred);
    assert(state.filtered(Seq::empty()) =~= Seq::empty());
}

/// In a signed transaction the decoder sees everything: it is called with all account
/// keys, with as many instructions as the transaction has, each with the program, the
/// accounts and the data of the transaction's instruction at its place, with the
/// first signature in base 58, and with the slot; and what it gives is what is found.
/// In a transaction without a signature nothing is found.
pub proof fn decoder_sees_the_whole_transaction<E, D, S, I>(
    state: PipelineState<E, D, S, I>,
    slot: u64,
    tx: Transaction,
    found: Seq<DecodedInstruction>,
) where
    E: Fn(&[u8]) -> Vec<Entry>,
    D: Fn(&[[u8; 32]], &[(u8, Vec<u8>, Vec<u8>)], &str, u64) -> Vec<DecodedInstruction>,
    S: Fn(&ParsedShred),
    I: Fn(&DecodedInstruction),

    requires
        state.finds_in_transaction(slot, tx, found),
    ensures
        tx.signatures@.len() == 0 ==> found.len() == 0,
        tx.signatures@.len() > 0 ==> exists|
            accounts: &[[u8; 32]],
            instructions: &[(u8, Vec<u8>, Vec<u8>)],
            signature: &str,
            decoded: Vec<DecodedInstruction>,
        |
            {
                &&& #[trigger] call_ensures(
                    state.decode,
                    (accounts, instructions, signature, slot),
                    decoded,
                )
                &&& accounts@ == tx.account_keys@
                &&& instructions@.len() == tx.instructions@.len()
                &&& forall|i: int|
                    0 <= i < tx.instructions@.len() ==> {
                        &&& (#[trigger] instructions@[i]).0 == tx.instructions@[i].program_id_index
                        &&& instructions@[i].1@ == tx.instructions@[i].accounts@
                        &&& instructions@[i].2@ == tx.instructions@[i].data@
                    }
                &&& signature@ == base58(tx.signatures@[0]@)
                &&& found == decoded@
            },
{
}

/// What the decoder gives for a transaction, so called, may be found in it.
pub proof fn what_the_decoder_gives_is_found<E, D, S, I>(
    state: PipelineState<E, D, S, I>,
    slot: u64,
    tx: Transaction,
    accounts: &[[u8; 32]],
    instructions: &[(u8, Vec<u8>, Vec<u8>)],
    signature: &str,
    decoded: Vec<DecodedInstruction>,
) where
    E: Fn(&[u8]) -> Vec<Entry>,
    D: Fn(&[[u8; 32]], &[(u8, Vec<u8>, Vec<u8>)], &str, u64) -> Vec<DecodedInstruction>,
    S: Fn(&ParsedShred),
    I: Fn(&DecodedInstruction),

    requires
        tx.signatures@.len() > 0,
        call_ensures(state.decode, (accounts, instructions, signature, slot), decoded),
        accounts@ == tx.account_keys@,
        instructions@.len() == tx.instructions@.len(),
        forall|i: int|
            0 <= i < tx.instructions@.len() ==> {
                &&& (#[trigger] instructions@[i]).0 == tx.instructions@[i].program_id_index
                &&& instructions@[i].1@ == tx.instructions@[i].accounts@
                &&& instructions@[i].2@ == tx.instructions@[i].data@
            },
        signature@ == base58(tx.signatures@[0]@),
    ensures
        state.finds_in_transaction(slot, tx, decoded@),
{
}

/// The transactions of entries are those of each entry, entry after entry.
pub proof fn transactions_come_entry_by_entry(entries: Seq<Entry>, entry: Entry)
    ensures
        transactions_of(Seq::empty()) == Seq::<Transaction>::empty(),
        transactions_of(entries.push(entry)) == transactions_of(entries) + entry.transactions@,
{
    let lists = entries.map_values(|e: Entry| e.transactions@);
    lists.lemma_flatten_push(entry.transactions@);
    assert(entries.push(entry).map_values(|e: Entry| e.transactions@) =~= lists.push(
        entry.transactions@,
    ));
    assert(Seq::<Entry>::empty().map_values(|e: Entry| e.transactions@) =~= Seq::empty());
    assert(transactions_of(Seq::empty()) =~= Seq::<Transaction>::empty());
}

/// Every transaction of a batch is decoded: the entry reader is called with the whole
/// bytes of the batch, and what is found is the concatenation of as many lists as
/// the entries that it gives have transactions, of which the i-th may be found in the
/// i-th transaction.
pub proof fn every_transaction_is_decoded<E, D, S, I>(
    state: PipelineState<E, D, S, I>,
    slot: u64,
    bytes: Seq<u8>,
    found: Seq<DecodedInstruction>,
) where
    E: Fn(&[u8]) -> Vec<Entry>,
    D: Fn(&[[u8; 32]], &[(u8, Vec<u8>, Vec<u8>)], &str, u64) -> Vec<DecodedInstruction>,
    S: Fn(&ParsedShred),
    I: Fn(&DecodedInstruction),

    requires
        state.finds_in_batch(slot, bytes, found),
    ensures
        exists|data: &[u8], entries: Vec<Entry>, parts: Seq<Seq<DecodedInstruction>>|
            {
                &&& #[trigger] call_ensures(state.deserialize, (data,), entries)
                &&& data@ == bytes
                &&& parts.len() == transactions_of(entries@).len()
                &&& forall|i: int|
                    0 <= i < parts.len() ==> state.finds_in_transaction(
                        slot,
                        transactions_of(entries@)[i],
                        #[trigger] parts[i],
                    )
                &&& found == #[trigger] parts.flatten()
            },
{
    let (data, entries) = choose|data: &[u8], entries: Vec<Entry>|
        {
            &&& #[trigger] call_ensures(state.deserialize, (data,), entries)
            &&& data@ == bytes
            &&& state.finds_in_transactions(slot, transactions_of(entries@), found)
        };
    let txs = transactions_of(entries@);
    let parts = choose|parts: Seq<Seq<DecodedInstruction>>| #[trigger]
        state.finds_parts(slot, txs, parts) && found == parts.flatten();
    assert forall|i: int| 0 <= i < parts.len() implies state.finds_in_transaction(
        slot,
        transactions_of(entries@)[i],
        #[trigger] parts[i],
    ) by {
        assert(state.finds_in_transaction(slot, txs[i], parts[i]));
    }
    assert(call_ensures(state.deserialize, (data,), entries) && found == parts.flatten());
}

/// What may be found in each transaction of a batch may, joined, be found in the
/// batch.
pub proof fn what_transactions_give_the_batch_gives<E, D, S, I>(
    state: PipelineState<E, D, S, I>,
    slot: u64,
    data: &[u8],
    entries: Vec<Entry>,
    parts: Seq<Seq<DecodedInstruction>>,
) where
    E: Fn(&[u8]) -> Vec<Entry>,
    D: Fn(&[[u8; 32]], &[(u8, Vec<u8>, Vec<u8>)], &str, u64) -> Vec<DecodedInstruction>,
    S: Fn(&ParsedShred),
    I: Fn(&DecodedInstruction),

    requires
        call_ensures(state.deserialize, (data,), entries),
        parts.len() == transactions_of(entries@).len(),
        forall|i: int|
            0 <= i < parts.len() ==> state.finds_in_transaction(
                slot,
                transactions_of(entries@)[i],
                #[trigger] parts[i],
            ),
    ensures
        state.finds_in_batch(slot, data@, parts.flatten()),
{
    let txs = transactions_of(entries@);
    assert forall|i: int| 0 <= i < txs.len() implies state.finds_in_transaction(
        slot,
        #[trigger] txs[i],
        parts[i],
    ) by {
        assert(state.finds_in_transaction(slot, transactions_of(entries@)[i], parts[i]));
    }
    assert(state.finds_parts(slot, txs, parts));
    assert(state.finds_in_transactions(slot, txs, parts.flatten()));
}

/// Every batch that the tracker hands out for a packet is decoded: where it hands out
/// n batches, what the packet gives is the concatenation of n lists, of which the
/// i-th is what may be found in the bytes of the i-th batch. Where it hands out none,
/// or the packet is no shred, nothing is given.
pub proof fn every_batch_is_decoded<E, D, S, I>(
    state: PipelineState<E, D, S, I>,
    raw: Seq<u8>,
    found: Seq<DecodedInstruction>,
) -> (parts: Seq<Seq<DecodedInstruction>>) where
    E: Fn(&[u8]) -> Vec<Entry>,
    D: Fn(&[[u8; 32]], &[(u8, Vec<u8>, Vec<u8>)], &str, u64) -> Vec<DecodedInstruction>,
    S: Fn(&ParsedShred),
    I: Fn(&DecodedInstruction),

    requires
        state.gives(raw, found),
    ensures
        found == parts.flatten(),
        match ShredView::in_bytes(raw) {
            None => parts.len() == 0,
            Some(shred) => match state.tracker.with_shred(shred).1 {
                IngestOutcome::Pending => parts.len() == 0,
                IngestOutcome::Batches { slot, batches, .. } => {
                    &&& parts.len() == batches.len()
                    &&& forall|i: int|
                        0 <= i < batches.len() ==> state.finds_in_batch(
                            slot,
                            batches[i],
                            #[trigger] parts[i],
                        )
                },
            },
        },
{
    let none = Seq::<Seq<DecodedInstruction>>::empty();
    assert(none.flatten() =~= Seq::empty());
    match ShredView::in_bytes(raw) {
        None => none,
        Some(shred) => match state.tracker.with_shred(shred).1 {
            IngestOutcome::Pending => none,
            IngestOutcome::Batches { slot, batches, .. } => {
                let parts = choose|parts: Seq<Seq<DecodedInstruction>>| #[trigger]
                    state.finds_batch_parts(slot, batches, parts) && found == parts.flatten();
                assert forall|i: int| 0 <= i < batches.len() implies state.finds_in_batch(
                    slot,
                    batches[i],
                    #[trigger] parts[i],
                ) by {
                    let bytes = batches[i];
                    assert(state.finds_in_batch(slot, bytes, parts[i]));
                }
                parts
            },
        },
    }
}

/// What may be found in each batch of a packet may, joined, be given by the packet.
pub proof fn what_batches_give_the_packet_gives<E, D, S, I>(
    state: PipelineState<E, D, S, I>,
    raw: Seq<u8>,
    parts: Seq<Seq<DecodedInstruction>>,
) where
    E: Fn(&[u8]) -> Vec<Entry>,
    D: Fn(&[[u8; 32]], &[(u8, Vec<u8>, Vec<u8>)], &str, u64) -> Vec<DecodedInstruction>,
    S: Fn(&ParsedShred),
    I: Fn(&DecodedInstruction),

    requires
        match ShredView::in_bytes(raw) {
            None => parts.len() == 0,
            Some(shred) => match state.tracker.with_shred(shred).1 {
                IngestOutcome::Pending => parts.len() == 0,
                IngestOutcome::Batches { slot, batches, .. } => {
                    &&& parts.len() == batches.len()
                    &&& forall|i: int|
                        0 <= i < batches.len() ==> state.finds_in_batch(
                            slot,
                            batches[i],
                            #[trigger] parts[i],
                        )
                },
            },
        },
    ensures
        state.gives(raw, parts.flatten()),
{
    if parts.len() == 0 {
        assert(parts.flatten() =~= Seq::empty());
    }
    if let Some(shred) = ShredView::in_bytes(raw) {
        if let IngestOutcome::Batches { slot, batches, .. } = state.tracker.with_shred(shred).1 {
            assert forall|i: int| 0 <= i < batches.len() implies state.finds_in_batch(
                slot,
                #[trigger] batches[i],
                parts[i],
            ) by {
                let part = parts[i];
                assert(state.finds_in_batch(slot, batches[i], part));
            }
            assert(state.finds_batch_parts(slot, batches, parts));
        }
    }
}

/// What a packet changes: the tracker takes in the shred in it, if there is one, and
/// nothing else changes but the record of the calls. To that are added the call with
/// the shred, and after it one call for each instruction that is handed on, in order;
/// each where there is that function.
pub proof fn packet_changes_tracker_and_calls<E, D, S, I>(
    state: PipelineState<E, D, S, I>,
    raw: Seq<u8>,
    found: Seq<DecodedInstruction>,
) where
    E: Fn(&[u8]) -> Vec<Entry>,
    D: Fn(&[[u8; 32]], &[(u8, Vec<u8>, Vec<u8>)], &str, u64) -> Vec<DecodedInstruction>,
    S: Fn(&ParsedShred),
    I: Fn(&DecodedInstruction),

    ensures
        ({
            let shred = ShredView::in_bytes(raw);
            let processed = state.with_packet(raw);
            let handled = state.after_packet(raw, found);
            let announced: int = if shred is Some && state.on_shred is Some {
                1
            } else {
                0
            };
            let chosen = state.filtered(found);
            let delivered: int = if shred is Some && state.on_instruction is Some {
                chosen.len() as int
            } else {
                0
            };
            let first = state.calls.len() as int;
            &&& processed.tracker == if shred is Some {
                state.tracker.with_shred(shred->0).0
            } else {
                state.tracker
            }
            &&& processed == (PipelineState { tracker: processed.tracker, ..state })
            &&& handled == (PipelineState { calls: handled.calls, ..processed })
            &&& handled.calls.len() == first + announced + delivered
            &&& forall|i: int|
                0 <= i < first ==> #[trigger] handled.calls[i] == state.calls[i]
            &&& announced == 1 ==> handled.calls[first] == Call::Shred(shred->0)
            &&& forall|i: int|
                0 <= i < delivered ==> #[trigger] handled.calls[first + announced + i]
                    == Call::Instruction(chosen[i])
        }),
{
    let chosen = state.filtered(found);
    let handled = state.after_packet(raw, found);
    assert(instruction_calls(chosen).len() == chosen.len());
    assert forall|i: int| 0 <= i < chosen.len() implies #[trigger] instruction_calls(chosen)[i]
        == Call::Instruction(chosen[i]) by {}
    if let Some(shred) = ShredView::in_bytes(raw) {
        let first = state.calls.len() as int;
        let announced: int = if state.on_shred is Some {
            1
        } else {
            0
        };
        if state.on_instruction is Some {
            assert forall|i: int| 0 <= i < chosen.len() implies #[trigger] handled.calls[first
                + announced + i] == Call::Instruction(chosen[i]) by {
                assert(handled.calls[first + announced + i] == instruction_calls(chosen)[i]);
            }
        }
    }
}

/// What announcing and delivering change: the record of the calls, by one call for
/// the shred, or by one for each instruction, in order, where there is that function.
pub proof fn calls_are_added_one_by_one<E, D, S, I>(
    state: PipelineState<E, D, S, I>,
    shred: ShredView,
    instructions: Seq<DecodedInstruction>,
    inst: DecodedInstruction,
) where
    E: Fn(&[u8]) -> Vec<Entry>,
    D: Fn(&[[u8; 32]], &[(u8, Vec<u8>, Vec<u8>)], &str, u64) -> Vec<DecodedInstruction>,
    S: Fn(&ParsedShred),
    I: Fn(&DecodedInstruction),

    ensures
        state.announcing(shred) == if state.on_shred is Some {
            PipelineState { calls: state.calls.push(Call::Shred(shred)), ..state }
        } else {
            state
        },
        state.delivering(Seq::empty()) == state,
        state.delivering(instructions.push(inst)) == if state.on_instruction is Some {
            PipelineState {
                calls: state.delivering(instructions).calls.push(Call::Instruction(inst)),
                ..state
            }
        } else {
            state
        },
{
    assert(instruction_calls(Seq::empty()) =~= Seq::empty());
    assert(state.delivering(Seq::empty()) =~= state);
    assert(instruction_calls(instructions.push(inst)) =~= instruction_calls(instructions).push(
        Call::Instruction(inst),
    ));
    if state.on_instruction is Some {
        assert(state.delivering(instructions.push(inst)).calls =~= state.delivering(
            instructions,
        ).calls.push(Call::Instruction(inst)));
    }
}

/// A new pipeline has no filters and no callbacks, has called nothing, and keeps a
/// hundred slots behind the highest one.
pub proof fn new_pipeline_is_bare<E, D, S, I>(bind_addr: Seq<char>, deserialize: E, decode: D) where
    E: Fn(&[u8]) -> Vec<Entry>,
    D: Fn(&[[u8; 32]], &[(u8, Vec<u8>, Vec<u8>)], &str, u64) -> Vec<DecodedInstruction>,
    S: Fn(&ParsedShred),
    I: Fn(&DecodedInstruction),

    ensures
        ({
            let state = PipelineState::<E, D, S, I>::fresh(bind_addr, deserialize, decode);
            &&& state.bind_addr == bind_addr
            &&& state.deserialize == deserialize
            &&& state.decode == decode
            &&& state.tracker == TrackerState::fresh(100)
            &&& state.dex_filter is None
            &&& state.kind_filter is None
            &&& state.on_shred is None
            &&& state.on_instruction is None
            &&& state.calls.len() == 0
        }),
{
}

/// When packets can be handled: where the functions can be called with everything,
/// nothing more is asked of them; and a packet is accepted where it is no shred, or
/// the tracker accepts its shred.
pub proof fn packets_can_be_handled<E, D, S, I>(
    state: PipelineState<E, D, S, I>,
    raw: Seq<u8>,
) where
    E: Fn(&[u8]) -> Vec<Entry>,
    D: Fn(&[[u8; 32]], &[(u8, Vec<u8>, Vec<u8>)], &str, u64) -> Vec<DecodedInstruction>,
    S: Fn(&ParsedShred),
    I: Fn(&DecodedInstruction),

    ensures
        (forall|data: &[u8]| #[trigger] call_requires(state.deserialize, (data,))) && (forall|
            accounts: &[[u8; 32]],
            instructions: &[(u8, Vec<u8>, Vec<u8>)],
            signature: &str,
            slot: u64,
        | #[trigger]
            call_requires(state.decode, (accounts, instructions, signature, slot)))
            ==> state.readable(),
        state.on_shred is None || (forall|shred: &ParsedShred| #[trigger]
            call_requires(state.on_shred->0, (shred,))) ==> state.announceable(raw),
        state.on_instruction is None || (forall|inst: &DecodedInstruction| #[trigger]
            call_requires(state.on_instruction->0, (inst,))) ==> state.deliverable(),
        state.accepts(raw) <==> match ShredView::in_bytes(raw) {
            Some(shred) => state.tracker.accepts(shred),
            None => true,
        },
        state.brings_batches(raw) <==> match ShredView::in_bytes(raw) {
            Some(shred) => !(state.tracker.with_shred(shred).1 is Pending),
            None => false,
        },
{
}

/// Each packet counts one, and each instruction that is handed on counts one; the
/// count of instructions starts again at 0 after the highest `u64`. Statistics are
/// due at each ten thousandth packet.
pub proof fn counts_go_up(stats: RunStats, n: nat)
    requires
        stats.shreds < u64::MAX,
    ensures
        stats.with_packet(n).shreds == stats.shreds + 1,
        stats.instructions + n <= u64::MAX ==> stats.with_packet(n).instructions
            == stats.instructions + n,
        stats.with_packet(0).instructions == stats.instructions,
        REPORT_INTERVAL == 10_000,
        stats.with_packet(n + 1).instructions == if stats.with_packet(n).instructions == u64::MAX {
            0
        } else {
            stats.with_packet(n).instructions + 1
        },
{
}

} // verus!
