//! From packets to instructions: reads the shreds, follows their erasure sets and
//! slots, and decodes the entry batches that come out.

use crate::base58::{base58, encode_signature};
use crate::callback::{
    called_with_instructions, instruction_calls, instructions_called, joined_calls, shreds_called,
    Call, Callbacks,
};
use crate::entry::{
    are_triples, same_transaction, same_transactions, same_triples, transactions_of, triples_of,
    Entry, Transaction,
};
use crate::fec::fec_set::FecError;
use crate::fec::slot_assembler::batch_bytes;
use crate::fec::{FecTracker, IngestOutcome, IngestResult, TrackerState};
use crate::shred::{parse_shred, ParsedShred, ShredView};
use crate::types::{DecodedInstruction, Dex, InstructionKind, ShredInfo};
use vstd::prelude::*;

verus! {

/// How many slots behind the highest one a pipeline keeps.
pub const EVICTION_THRESHOLD: u64 = 100;

/// After how many packets each the statistics are reported.
pub const REPORT_INTERVAL: u64 = 10_000;

/// What a [`ShredPipeline`] holds.
#[verifier::ext_equal]
pub struct PipelineState<E, D, S, I> {
    pub bind_addr: Seq<char>,
    pub deserialize: E,
    pub decode: D,
    pub tracker: TrackerState,
    pub dex_filter: Option<Seq<Dex>>,
    pub kind_filter: Option<Seq<InstructionKind>>,
    /// The function for shreds, if there is one.
    pub on_shred: Option<S>,
    /// The function for instructions, if there is one.
    pub on_instruction: Option<I>,
    /// All calls of the two functions, in order.
    pub calls: Seq<Call>,
}

impl<E, D, S, I> PipelineState<E, D, S, I> where
    E: Fn(&[u8]) -> Vec<Entry>,
    D: Fn(&[[u8; 32]], &[(u8, Vec<u8>, Vec<u8>)], &str, u64) -> Vec<DecodedInstruction>,
    S: Fn(&ParsedShred),
    I: Fn(&DecodedInstruction),
 {
    /// The pipeline to which no packet has come, without filters and callbacks.
    pub open spec fn fresh(bind_addr: Seq<char>, deserialize: E, decode: D) -> Self {
        PipelineState {
            bind_addr,
            deserialize,
            decode,
            tracker: TrackerState::fresh(EVICTION_THRESHOLD),
            dex_filter: None,
            kind_filter: None,
            on_shred: None,
            on_instruction: None,
            calls: Seq::empty(),
        }
    }

    /// Entries can be read from all bytes, and instructions looked for in all
    /// transactions.
    pub open spec fn readable(self) -> bool {
        &&& forall|data: &[u8]| call_requires(self.deserialize, (data,))
        &&& forall|
            accounts: &[[u8; 32]],
            instructions: &[(u8, Vec<u8>, Vec<u8>)],
            signature: &str,
            slot: u64,
        | call_requires(self.decode, (accounts, instructions, signature, slot))
    }

    /// The function for shreds, if there is one, can be called with the shred in
    /// the packet.
    pub open spec fn announceable(self, raw: Seq<u8>) -> bool {
        self.on_shred matches Some(cb) ==> forall|shred: &ParsedShred|
            ShredView::in_bytes(raw) == Some(shred@) ==> call_requires(cb, (shred,))
    }

    /// The function for instructions, if there is one, can be called with those
    /// that the filters let through.
    pub open spec fn deliverable(self) -> bool {
        self.on_instruction matches Some(cb) ==> forall|inst: &DecodedInstruction|
            self.passes(*inst) ==> call_requires(cb, (inst,))
    }

    /// Reading entries gives the same transactions for the same bytes, and looking
    /// for instructions gives equal results for equal arguments.
    pub open spec fn functional(self) -> bool {
        &&& forall|a: &[u8], b: &[u8], e: Vec<Entry>, f: Vec<Entry>|
            a@ == b@ && #[trigger] call_ensures(self.deserialize, (a,), e)
                && #[trigger] call_ensures(self.deserialize, (b,), f) ==> same_transactions(
                transactions_of(e@),
                transactions_of(f@),
            )
        &&& forall|
            a: &[[u8; 32]],
            b: &[[u8; 32]],
            t: &[(u8, Vec<u8>, Vec<u8>)],
            u: &[(u8, Vec<u8>, Vec<u8>)],
            g: &str,
            h: &str,
            slot: u64,
            e: Vec<DecodedInstruction>,
            f: Vec<DecodedInstruction>,
        |
            a@ == b@ && same_triples(t@, u@) && g@ == h@ && #[trigger] call_ensures(
                self.decode,
                (a, t, g, slot),
                e,
            ) && #[trigger] call_ensures(self.decode, (b, u, h, slot), f) ==> e@ == f@
    }

    /// Both read entries and look for instructions with the same functions, and
    /// have seen the same shreds. They may differ in their addresses, filters and
    /// callbacks.
    pub open spec fn finds_like(self, other: Self) -> bool {
        &&& self.deserialize == other.deserialize
        &&& self.decode == other.decode
        &&& self.tracker == other.tracker
    }

    /// The filters let the instruction through: the exchange is one of those
    /// asked for, and so is the kind, where any were asked for.
    pub open spec fn passes(self, inst: DecodedInstruction) -> bool {
        &&& self.dex_filter matches Some(dexes) ==> dexes.contains(inst.dex)
        &&& self.kind_filter matches Some(kinds) ==> kinds.contains(inst.kind)
    }

    /// The instructions that the filters let through, in order.
    pub open spec fn filtered(self, found: Seq<DecodedInstruction>) -> Seq<DecodedInstruction> {
        found.filter(|inst: DecodedInstruction| self.passes(inst))
    }

    /// The decoder may find `found` in a transaction of `slot`. It is called with
    /// the account keys, the instructions and the first signature in base 58. In
    /// a transaction without a signature nothing is found.
    pub open spec fn finds_in_transaction(
        self,
        slot: u64,
        tx: Transaction,
        found: Seq<DecodedInstruction>,
    ) -> bool {
        if tx.signatures@.len() == 0 {
            found == Seq::<DecodedInstruction>::empty()
        } else {
            exists|
                accounts: &[[u8; 32]],
                instructions: &[(u8, Vec<u8>, Vec<u8>)],
                signature: &str,
                decoded: Vec<DecodedInstruction>,
            |
                {
                    &&& #[trigger] call_ensures(
                        self.decode,
                        (accounts, instructions, signature, slot),
                        decoded,
                    )
                    &&& accounts@ == tx.account_keys@
                    &&& are_triples(instructions@, tx.instructions@)
                    &&& signature@ == base58(tx.signatures@[0]@)
                    &&& decoded@ == found
                }
        }
    }

    /// `parts` are what may be found in each of the transactions.
    pub open spec fn finds_parts(
        self,
        slot: u64,
        txs: Seq<Transaction>,
        parts: Seq<Seq<DecodedInstruction>>,
    ) -> bool {
        &&& parts.len() == txs.len()
        &&& forall|i: int|
            0 <= i < txs.len() ==> self.finds_in_transaction(slot, #[trigger] txs[i], parts[i])
    }

    /// `found` may be found in the transactions, in order.
    pub open spec fn finds_in_transactions(
        self,
        slot: u64,
        txs: Seq<Transaction>,
        found: Seq<DecodedInstruction>,
    ) -> bool {
        exists|parts: Seq<Seq<DecodedInstruction>>| #[trigger]
            self.finds_parts(slot, txs, parts) && found == parts.flatten()
    }

    /// `found` may be found in the entries that the bytes of a batch hold.
    pub open spec fn finds_in_batch(
        self,
        slot: u64,
        bytes: Seq<u8>,
        found: Seq<DecodedInstruction>,
    ) -> bool {
        exists|data: &[u8], entries: Vec<Entry>|
            {
                &&& #[trigger] call_ensures(self.deserialize, (data,), entries)
                &&& data@ == bytes
                &&& self.finds_in_transactions(slot, transactions_of(entries@), found)
            }
    }

    /// `parts` are what may be found in each of the batches.
    pub open spec fn finds_batch_parts(
        self,
        slot: u64,
        batches: Seq<Seq<u8>>,
        parts: Seq<Seq<DecodedInstruction>>,
    ) -> bool {
        &&& parts.len() == batches.len()
        &&& forall|i: int|
            0 <= i < batches.len() ==> self.finds_in_batch(slot, #[trigger] batches[i], parts[i])
    }

    /// `found` may be found in the batches, in order.
    pub open spec fn finds_in_batches(
        self,
        slot: u64,
        batches: Seq<Seq<u8>>,
        found: Seq<DecodedInstruction>,
    ) -> bool {
        exists|parts: Seq<Seq<DecodedInstruction>>| #[trigger]
            self.finds_batch_parts(slot, batches, parts) && found == parts.flatten()
    }

    /// `found` may be found in the batches that a shred gives.
    pub open spec fn yields(self, shred: ShredView, found: Seq<DecodedInstruction>) -> bool {
        match self.tracker.with_shred(shred).1 {
            IngestOutcome::Pending => found == Seq::<DecodedInstruction>::empty(),
            IngestOutcome::Batches { slot, batches, .. } => self.finds_in_batches(
                slot,
                batches,
                found,
            ),
        }
    }

    /// After a shred has arrived.
    pub open spec fn with_shred(self, shred: ShredView) -> Self {
        PipelineState { tracker: self.tracker.with_shred(shred).0, ..self }
    }

    /// After a packet has arrived: one that is no shred changes nothing.
    pub open spec fn with_packet(self, raw: Seq<u8>) -> Self {
        match ShredView::in_bytes(raw) {
            Some(shred) => self.with_shred(shred),
            None => self,
        }
    }

    /// `found` may be found in the batches that a packet gives.
    pub open spec fn gives(self, raw: Seq<u8>, found: Seq<DecodedInstruction>) -> bool {
        match ShredView::in_bytes(raw) {
            Some(shred) => self.yields(shred, found),
            None => found == Seq::<DecodedInstruction>::empty(),
        }
    }

    /// Batches come out of the packet.
    pub open spec fn brings_batches(self, raw: Seq<u8>) -> bool {
        ShredView::in_bytes(raw) matches Some(shred) && self.tracker.with_shred(shred).1 is Batches
    }

    /// After the function for shreds has been called with `shred`, if there is
    /// one.
    pub open spec fn announcing(self, shred: ShredView) -> Self {
        if self.on_shred is Some {
            PipelineState { calls: self.calls.push(Call::Shred(shred)), ..self }
        } else {
            self
        }
    }

    /// After the function for instructions has been called with each of
    /// `instructions` once, in order, if there is one.
    pub open spec fn delivering(self, instructions: Seq<DecodedInstruction>) -> Self {
        if self.on_instruction is Some {
            PipelineState { calls: self.calls + instruction_calls(instructions), ..self }
        } else {
            self
        }
    }

    /// The calls for a packet in which `found` was found: first that of the
    /// function for shreds with the shred, then those of the function for
    /// instructions with the instructions that the filters let through, in order;
    /// each where there is that function. There are none for a packet that is no
    /// shred.
    pub open spec fn calls_for(self, raw: Seq<u8>, found: Seq<DecodedInstruction>) -> Seq<Call> {
        match ShredView::in_bytes(raw) {
            Some(shred) => {
                let announcement = if self.on_shred is Some {
                    seq![Call::Shred(shred)]
                } else {
                    Seq::empty()
                };
                let delivery = if self.on_instruction is Some {
                    instruction_calls(self.filtered(found))
                } else {
                    Seq::empty()
                };
                announcement + delivery
            },
            None => Seq::empty(),
        }
    }

    /// After a packet in which `found` was found, and the calls for it.
    pub open spec fn after_packet(self, raw: Seq<u8>, found: Seq<DecodedInstruction>) -> Self {
        PipelineState { calls: self.calls + self.calls_for(raw, found), ..self.with_packet(raw) }
    }

    /// The calls for several packets, packet by packet.
    pub open spec fn calls_for_all(
        self,
        raws: Seq<Seq<u8>>,
        founds: Seq<Seq<DecodedInstruction>>,
    ) -> Seq<Call> {
        Seq::new(raws.len(), |i: int| self.calls_for(raws[i], founds[i])).flatten()
    }

    /// After several packets in each of which the instructions in `founds` were
    /// found.
    pub open spec fn after_packets(
        self,
        raws: Seq<Seq<u8>>,
        founds: Seq<Seq<DecodedInstruction>>,
    ) -> Self
        decreases raws.len(),
    {
        if raws.len() == 0 {
            self
        } else {
            self.after_packets(raws.drop_last(), founds.drop_last()).after_packet(
                raws.last(),
                founds.last(),
            )
        }
    }

    /// `founds` may be found in the packets, one after the other, by a pipeline
    /// that announces and delivers.
    pub open spec fn runs(
        self,
        raws: Seq<Seq<u8>>,
        founds: Seq<Seq<DecodedInstruction>>,
    ) -> bool {
        &&& founds.len() == raws.len()
        &&& forall|i: int|
            0 <= i < raws.len() ==> self.after_packets(raws.take(i), founds.take(i)).gives(
                #[trigger] raws[i],
                founds[i],
            )
    }

    /// After several packets, without callbacks.
    pub open spec fn with_packets(self, raws: Seq<Seq<u8>>) -> Self
        decreases raws.len(),
    {
        if raws.len() == 0 {
            self
        } else {
            self.with_packets(raws.drop_last()).with_packet(raws.last())
        }
    }

    /// `founds` may be found in the packets, one after the other, without
    /// callbacks.
    pub open spec fn processes(
        self,
        raws: Seq<Seq<u8>>,
        founds: Seq<Seq<DecodedInstruction>>,
    ) -> bool {
        &&& founds.len() == raws.len()
        &&& forall|i: int|
            0 <= i < raws.len() ==> self.with_packets(raws.take(i)).gives(
                #[trigger] raws[i],
                founds[i],
            )
    }

    /// The tracker accepts the shred in the packet, if there is one.
    pub open spec fn accepts(self, raw: Seq<u8>) -> bool {
        ShredView::in_bytes(raw) matches Some(shred) ==> self.tracker.accepts(shred)
    }
}

/// Turns packets into instructions. `deserialize` reads the entries in the bytes
/// of a batch; `decode` finds the instructions in a transaction, given its account
/// keys, its instructions, its first signature and its slot.
pub struct ShredPipeline<E, D, S, I> {
    bind_addr: String,
    deserialize: E,
    decode: D,
    fec_tracker: FecTracker,
    dex_filter: Option<Vec<Dex>>,
    kind_filter: Option<Vec<InstructionKind>>,
    callbacks: Callbacks<S, I>,
}

impl<E, D, S, I> View for ShredPipeline<E, D, S, I> {
    type V = PipelineState<E, D, S, I>;

    closed spec fn view(&self) -> PipelineState<E, D, S, I> {
        PipelineState {
            bind_addr: self.bind_addr@,
            deserialize: self.deserialize,
            decode: self.decode,
            tracker: self.fec_tracker@,
            dex_filter: match self.dex_filter {
                Some(dexes) => Some(dexes@),
                None => None,
            },
            kind_filter: match self.kind_filter {
                Some(kinds) => Some(kinds@),
                None => None,
            },
            on_shred: self.callbacks.shred_callback(),
            on_instruction: self.callbacks.instruction_callback(),
            calls: self.callbacks.calls(),
        }
    }
}

/// Whether the exchange is among `dexes`.
fn lists_dex(dexes: &Vec<Dex>, dex: Dex) -> (r: bool)
    ensures
        r == dexes@.contains(dex),
{
    let mut i: usize = 0;
    while i < dexes.len()
        invariant
            i <= dexes@.len(),
            forall|j: int| 0 <= j < i ==> dexes@[j] != dex,
        decreases dexes@.len() - i,
    {
        if dexes[i] == dex {
            return true;
        }
        i = i + 1;
    }
    false
}

/// Whether the kind is among `kinds`.
fn lists_kind(kinds: &Vec<InstructionKind>, kind: InstructionKind) -> (r: bool)
    ensures
        r == kinds@.contains(kind),
{
    let mut i: usize = 0;
    while i < kinds.len()
        invariant
            i <= kinds@.len(),
            forall|j: int| 0 <= j < i ==> kinds@[j] != kind,
        decreases kinds@.len() - i,
    {
        if kinds[i] == kind {
            return true;
        }
        i = i + 1;
    }
    false
}

impl<E, D, S, I> ShredPipeline<E, D, S, I> where
    E: Fn(&[u8]) -> Vec<Entry>,
    D: Fn(&[[u8; 32]], &[(u8, Vec<u8>, Vec<u8>)], &str, u64) -> Vec<DecodedInstruction>,
    S: Fn(&ParsedShred),
    I: Fn(&DecodedInstruction),
 {
    /// The tracker is well-formed, and the functions that read entries and look
    /// for instructions can be called. Of the callbacks nothing is asked here.
    pub closed spec fn wf(&self) -> bool {
        self.fec_tracker.wf() && self@.readable()
    }

    /// A pipeline for packets that come to `bind_addr`, without filters and
    /// callbacks.
    pub fn new(bind_addr: String, deserialize: E, decode: D) -> (pipeline: Self)
        requires
            PipelineState::<E, D, S, I>::fresh(bind_addr@, deserialize, decode).readable(),
        ensures
            pipeline@ == PipelineState::<E, D, S, I>::fresh(bind_addr@, deserialize, decode),
            pipeline.wf(),
    {
        ShredPipeline {
            bind_addr,
            deserialize,
            decode,
            fec_tracker: FecTracker::new(EVICTION_THRESHOLD),
            dex_filter: None,
            kind_filter: None,
            callbacks: Callbacks::new(),
        }
    }

    /// The pipeline with a filter that lets only these exchanges through, in place
    /// of an earlier one.
    pub fn with_dex_filter(self, dexes: Vec<Dex>) -> (pipeline: Self)
        requires
            self.wf(),
        ensures
            pipeline@ == (PipelineState { dex_filter: Some(dexes@), ..self@ }),
            pipeline.wf(),
    {
        let mut pipeline = self;
        pipeline.dex_filter = Some(dexes);
        pipeline
    }

    /// The pipeline with a filter that lets only these kinds through, in place of
    /// an earlier one.
    pub fn with_kind_filter(self, kinds: Vec<InstructionKind>) -> (pipeline: Self)
        requires
            self.wf(),
        ensures
            pipeline@ == (PipelineState { kind_filter: Some(kinds@), ..self@ }),
            pipeline.wf(),
    {
        let mut pipeline = self;
        pipeline.kind_filter = Some(kinds);
        pipeline
    }

    /// The pipeline with a function that is called with every shred, in place of
    /// an earlier one.
    pub fn on_shred(self, cb: S) -> (pipeline: Self)
        requires
            self.wf(),
        ensures
            pipeline@ == (PipelineState { on_shred: Some(cb), ..self@ }),
            pipeline.wf(),
    {
        let mut pipeline = self;
        pipeline.callbacks.set_on_shred(cb);
        pipeline
    }

    /// The pipeline with a function that is called with every instruction that the
    /// filters let through, in place of an earlier one.
    pub fn on_instruction(self, cb: I) -> (pipeline: Self)
        requires
            self.wf(),
        ensures
            pipeline@ == (PipelineState { on_instruction: Some(cb), ..self@ }),
            pipeline.wf(),
    {
        let mut pipeline = self;
        pipeline.callbacks.set_on_instruction(cb);
        pipeline
    }

    /// Finds the instructions in a transaction.
    fn decode_transaction(&self, slot: u64, tx: &Transaction) -> (found: Vec<DecodedInstruction>)
        requires
            self.wf(),
        ensures
            self@.finds_in_transaction(slot, *tx, found@),
    {
        if tx.signatures.len() == 0 {
            let none: Vec<DecodedInstruction> = Vec::new();
            assert(none@ =~= Seq::empty());
            return none;
        }
        let signature: String = encode_signature(&tx.signatures[0]);
        let triples = triples_of(&tx.instructions);
        let accounts = tx.account_keys.as_slice();
        let instructions = triples.as_slice();
        let text = signature.as_str();
        assert(call_requires(self@.decode, (accounts, instructions, text, slot)));
        let found = (self.decode)(accounts, instructions, text, slot);
        assert(call_ensures(self@.decode, (accounts, instructions, text, slot), found));
        found
    }

    /// Finds the instructions in the transactions of an entry, in order.
    fn decode_entry(&self, slot: u64, entry: &Entry) -> (found: Vec<DecodedInstruction>)
        requires
            self.wf(),
        ensures
            self@.finds_in_transactions(slot, entry.transactions@, found@),
    {
        let mut found: Vec<DecodedInstruction> = Vec::new();
        let ghost txs = entry.transactions@;
        let ghost mut parts: Seq<Seq<DecodedInstruction>> = Seq::empty();
        let mut i: usize = 0;
        assert(found@ =~= parts.flatten());
        while i < entry.transactions.len()
            invariant
                i <= txs.len(),
                txs == entry.transactions@,
                self.wf(),
                self@.finds_parts(slot, txs.take(i as int), parts),
                found@ == parts.flatten(),
            decreases txs.len() - i,
        {
            let mut part = self.decode_transaction(slot, &entry.transactions[i]);
            proof {
                parts.lemma_flatten_push(part@);
                assert(txs.take(i + 1) =~= txs.take(i as int).push(txs[i as int]));
                parts = parts.push(part@);
            }
            found.append(&mut part);
            i = i + 1;
        }
        assert(txs.take(i as int) =~= txs);
        found
    }

    /// Finds the instructions in the entries that the bytes of a batch hold, in
    /// order.
    pub fn decode_entries(&self, slot: u64, data: &[u8]) -> (found: Vec<DecodedInstruction>)
        requires
            self.wf(),
        ensures
            self@.finds_in_batch(slot, data@, found@),
    {
        assert(call_requires(self@.deserialize, (data,)));
        let entries: Vec<Entry> = (self.deserialize)(data);
        let mut found: Vec<DecodedInstruction> = Vec::new();
        let ghost lists = entries@.map_values(|entry: Entry| entry.transactions@);
        let ghost mut parts: Seq<Seq<DecodedInstruction>> = Seq::empty();
        let mut i: usize = 0;
        proof {
            assert(found@ =~= parts.flatten());
            assert(lists.take(0).flatten() =~= Seq::<Transaction>::empty());
        }
        while i < entries.len()
            invariant
                i <= entries@.len(),
                lists == entries@.map_values(|entry: Entry| entry.transactions@),
                self.wf(),
                self@.finds_parts(slot, lists.take(i as int).flatten(), parts),
                found@ == parts.flatten(),
            decreases entries@.len() - i,
        {
            let mut part = self.decode_entry(slot, &entries[i]);
            proof {
                let before = lists.take(i as int);
                let txs = lists[i as int];
                let more = choose|more: Seq<Seq<DecodedInstruction>>| #[trigger]
                    self@.finds_parts(slot, txs, more) && part@ == more.flatten();
                before.lemma_flatten_push(txs);
                assert(lists.take(i + 1) =~= before.push(txs));
                assert forall|k: int|
                    0 <= k < (before.flatten() + txs).len() implies self@.finds_in_transaction(
                    slot,
                    #[trigger] (before.flatten() + txs)[k],
                    (parts + more)[k],
                ) by {
                    if k < before.flatten().len() {
                        assert(self@.finds_in_transaction(slot, before.flatten()[k], parts[k]));
                    } else {
                        let j = k - before.flatten().len();
                        assert(self@.finds_in_transaction(slot, txs[j], more[j]));
                    }
                }
                vstd::seq_lib::lemma_flatten_concat(parts, more);
                parts = parts + more;
            }
            found.append(&mut part);
            i = i + 1;
        }
        proof {
            assert(lists.take(i as int) =~= lists);
            assert(self@.finds_in_transactions(slot, transactions_of(entries@), found@));
            assert(call_ensures(self@.deserialize, (data,), entries));
        }
        found
    }

    /// Whether the filters let the instruction through.
    pub fn matches_filters(&self, inst: &DecodedInstruction) -> (r: bool)
        ensures
            r == self@.passes(*inst),
    {
        if let Some(dexes) = &self.dex_filter {
            if !lists_dex(dexes, inst.dex) {
                return false;
            }
        }
        if let Some(kinds) = &self.kind_filter {
            if !lists_kind(kinds, inst.kind) {
                return false;
            }
        }
        true
    }

    /// Calls the function for shreds with `shred`, if there is one, and no other
    /// function.
    pub fn announce(&mut self, shred: &ParsedShred)
        requires
            old(self)@.on_shred matches Some(cb) ==> call_requires(cb, (shred,)),
        ensures
            final(self)@ == old(self)@.announcing(shred@),
            final(self).wf() == old(self).wf(),
            old(self)@.on_shred matches Some(cb) ==> call_ensures(cb, (shred,), ()),
    {
        self.callbacks.announce(shred);
        proof {
            assert(self@ =~= old(self)@.announcing(shred@));
            lemma_same_demands(old(self)@, self@);
        }
    }

    /// Hands on the instructions that the filters let through, in order: the
    /// function for instructions is called with each of them once, if there is
    /// one, and with no other.
    pub fn deliver(&mut self, found: Vec<DecodedInstruction>) -> (delivered: Vec<
        DecodedInstruction,
    >)
        requires
            old(self)@.deliverable(),
        ensures
            delivered@ == old(self)@.filtered(found@),
            final(self)@ == old(self)@.delivering(delivered@),
            final(self).wf() == old(self).wf(),
            old(self)@.on_instruction matches Some(cb) ==> forall|i: int|
                0 <= i < delivered@.len() ==> call_ensures(cb, (&#[trigger] delivered@[i],), ()),
    {
        let ghost state = self@;
        let mut delivered: Vec<DecodedInstruction> = Vec::new();
        assert(delivered@ =~= state.filtered(found@.take(0)));
        assert(self@ =~= state.delivering(delivered@));
        for inst in it: found.into_iter()
            invariant
                it.seq() == found@,
                state == old(self)@,
                state.deliverable(),
                self@ == state.delivering(delivered@),
                self.fec_tracker == old(self).fec_tracker,
                delivered@ == state.filtered(found@.take(it.index() as int)),
                state.on_instruction matches Some(cb) ==> forall|i: int|
                    0 <= i < delivered@.len() ==> call_ensures(
                        cb,
                        (&#[trigger] delivered@[i],),
                        (),
                    ),
        {
            proof {
                let i = it.index() as int;
                assert(found@.take(i + 1) =~= found@.take(i).push(inst));
                found@.take(i).lemma_filter_push(
                    inst,
                    |x: DecodedInstruction| state.passes(x),
                );
            }
            if self.matches_filters(&inst) {
                let ghost before = delivered@;
                assert(state.passes(inst));
                self.callbacks.hand_on(&inst);
                delivered.push(inst);
                proof {
                    assert(instruction_calls(before.push(inst)) =~= instruction_calls(before).push(
                        Call::Instruction(inst),
                    ));
                    assert(self@ =~= state.delivering(before.push(inst)));
                }
            }
        }
        proof {
            assert(found@.take(found@.len() as int) =~= found@);
            lemma_same_demands(state, self@);
        }
        delivered
    }

    /// Whether [`ShredPipeline::handle_shred`] can be called with `shred`.
    pub fn can_handle(&self, shred: &ParsedShred) -> (r: bool)
        requires
            self.wf(),
        ensures
            r == self@.tracker.accepts(shred@),
    {
        self.fec_tracker.can_ingest(shred)
    }

    /// Takes in a shred. Where batches come out of it, the instructions in them
    /// that the filters let through are handed on, in order: the function for
    /// instructions is called with each of them once, if there is one, and with no
    /// other.
    pub fn handle_shred(&mut self, shred: &ParsedShred) -> (result: Option<
        Vec<DecodedInstruction>,
    >)
        requires
            old(self).wf(),
            old(self)@.deliverable(),
            old(self)@.tracker.accepts(shred@),
        ensures
            final(self).wf(),
            result is Some <==> old(self)@.tracker.with_shred(shred@).1 is Batches,
            result is None ==> final(self)@ == old(self)@.with_shred(shred@),
            result matches Some(delivered) ==> final(self)@ == old(self)@.with_shred(
                shred@,
            ).delivering(delivered@),
            result matches Some(delivered) ==> exists|found: Seq<DecodedInstruction>| #[trigger]
                old(self)@.yields(shred@, found) && delivered@ == old(self)@.filtered(found),
            result matches Some(delivered) ==> (old(self)@.on_instruction matches Some(cb)
                ==> forall|i: int|
                0 <= i < delivered@.len() ==> call_ensures(cb, (&#[trigger] delivered@[i],), ())),
    {
        let result = self.fec_tracker.ingest(shred);
        let ghost state = old(self)@;
        assert(self@ =~= state.with_shred(shred@));
        let (slot, batches) = match result {
            IngestResult::Pending => {
                return None;
            },
            IngestResult::Batches { slot, batches, .. } => (slot, batches),
        };
        let ghost bytes = batch_bytes(batches@);
        let mut delivered: Vec<DecodedInstruction> = Vec::new();
        let ghost mut parts: Seq<Seq<DecodedInstruction>> = Seq::empty();
        let mut i: usize = 0;
        assert(delivered@ =~= state.filtered(parts.flatten()));
        assert(self@ =~= state.with_shred(shred@).delivering(delivered@));
        while i < batches.len()
            invariant
                i <= batches@.len(),
                bytes == batch_bytes(batches@),
                state == old(self)@,
                state.deliverable(),
                self.wf(),
                self@ == state.with_shred(shred@).delivering(delivered@),
                state.finds_batch_parts(slot, bytes.take(i as int), parts),
                delivered@ == state.filtered(parts.flatten()),
                state.on_instruction matches Some(cb) ==> forall|j: int|
                    0 <= j < delivered@.len() ==> call_ensures(
                        cb,
                        (&#[trigger] delivered@[j],),
                        (),
                    ),
            decreases batches@.len() - i,
        {
            let found = self.decode_entries(slot, batches[i].as_slice());
            let ghost part = found@;
            let ghost before = delivered@;
            proof {
                lemma_same_functions(state, self@, slot, bytes[i as int], part);
                lemma_same_filters(state, self@, part);
                lemma_same_demands(state, self@);
            }
            let mut chosen = self.deliver(found);
            proof {
                parts.lemma_flatten_push(part);
                Seq::filter_distributes_over_add(
                    parts.flatten(),
                    part,
                    |inst: DecodedInstruction| state.passes(inst),
                );
                assert(bytes.take(i + 1) =~= bytes.take(i as int).push(bytes[i as int]));
                assert(instruction_calls(before + chosen@) =~= instruction_calls(before)
                    + instruction_calls(chosen@));
                assert(self@ =~= state.with_shred(shred@).delivering(before + chosen@));
                parts = parts.push(part);
            }
            delivered.append(&mut chosen);
            i = i + 1;
        }
        proof {
            assert(bytes.take(i as int) =~= bytes);
            assert(state.yields(shred@, parts.flatten()));
        }
        Some(delivered)
    }

    /// Counts and takes in a packet. Where it is a shred, the function for shreds
    /// is called with it; then it is taken in, and the instructions that the
    /// filters let through are handed on and counted. Whether the statistics are
    /// due then: they are only after a packet out of which batches come.
    pub fn handle_packet(&mut self, stats: &mut RunStats, raw: &[u8]) -> (report: bool)
        requires
            old(self).wf(),
            old(self)@.announceable(raw@),
            old(self)@.deliverable(),
            old(self)@.accepts(raw@),
            old(stats).shreds < u64::MAX,
        ensures
            final(self).wf(),
            exists|found: Seq<DecodedInstruction>|
                {
                    &&& #[trigger] old(self)@.gives(raw@, found)
                    &&& final(self)@ == old(self)@.after_packet(raw@, found)
                    &&& *final(stats) == old(stats).with_packet(
                        old(self)@.filtered(found).len(),
                    )
                },
            report == (old(self)@.brings_batches(raw@) && final(stats).shreds % REPORT_INTERVAL
                == 0),
    {
        let ghost state = old(self)@;
        let ghost none = Seq::<DecodedInstruction>::empty();
        stats.count_packet();
        assert(state.filtered(none) =~= none) by {
            none.lemma_filter_len(|inst: DecodedInstruction| state.passes(inst));
        }
        let shred = match parse_shred(raw) {
            Some(shred) => shred,
            None => {
                assert(state.gives(raw@, none));
                return false;
            },
        };
        assert(ShredView::in_bytes(raw@) == Some((&shred)@));
        self.announce(&shred);
        let ghost announced = self@;
        proof {
            lemma_same_demands(state, announced);
        }
        match self.handle_shred(&shred) {
            Some(delivered) => {
                proof {
                    let found = choose|found: Seq<DecodedInstruction>| #[trigger]
                        announced.yields(shred@, found) && delivered@ == announced.filtered(found);
                    lemma_same_filters(state, announced, found);
                    lemma_same_yield(state, announced, shred@, found);
                    assert(state.gives(raw@, found));
                    assert(self@ =~= state.after_packet(raw@, found));
                    assert(delivered@.len() == delivered.len());
                }
                stats.count_instructions(delivered.len() as u64);
                stats.report_due()
            },
            None => {
                proof {
                    assert(state.gives(raw@, none));
                    assert(self@ =~= state.after_packet(raw@, none));
                }
                false
            },
        }
    }

    /// Whether [`ShredPipeline::process_raw`] can be called with `raw`.
    pub fn can_process(&self, raw: &[u8]) -> (r: bool)
        requires
            self.wf(),
        ensures
            r == self@.accepts(raw@),
    {
        match parse_shred(raw) {
            Some(shred) => self.can_handle(&shred),
            None => true,
        }
    }

    /// Takes in a packet and gives all instructions in the batches that come out
    /// of it, in order, whatever the filters. A packet that is no shred gives
    /// none. No callback is called.
    pub fn process_raw(&mut self, raw: &[u8]) -> (found: Vec<DecodedInstruction>)
        requires
            old(self).wf(),
            old(self)@.accepts(raw@),
        ensures
            final(self)@ == old(self)@.with_packet(raw@),
            final(self).wf(),
            old(self)@.gives(raw@, found@),
    {
        let mut found: Vec<DecodedInstruction> = Vec::new();
        assert(found@ =~= Seq::empty());
        let shred = match parse_shred(raw) {
            Some(shred) => shred,
            None => {
                return found;
            },
        };
        let ghost state = old(self)@;
        let result = self.fec_tracker.ingest(&shred);
        assert(self@ =~= state.with_shred(shred@));
        let (slot, batches) = match result {
            IngestResult::Pending => {
                return found;
            },
            IngestResult::Batches { slot, batches, .. } => (slot, batches),
        };
        let ghost bytes = batch_bytes(batches@);
        let ghost mut parts: Seq<Seq<DecodedInstruction>> = Seq::empty();
        let mut i: usize = 0;
        assert(found@ =~= parts.flatten());
        while i < batches.len()
            invariant
                i <= batches@.len(),
                bytes == batch_bytes(batches@),
                state == old(self)@,
                self.wf(),
                self@ == state.with_shred(shred@),
                state.finds_batch_parts(slot, bytes.take(i as int), parts),
                found@ == parts.flatten(),
            decreases batches@.len() - i,
        {
            let mut part = self.decode_entries(slot, batches[i].as_slice());
            proof {
                parts.lemma_flatten_push(part@);
                lemma_same_functions(state, self@, slot, bytes[i as int], part@);
                assert(bytes.take(i + 1) =~= bytes.take(i as int).push(bytes[i as int]));
                parts = parts.push(part@);
            }
            found.append(&mut part);
            i = i + 1;
        }
        proof {
            assert(bytes.take(i as int) =~= bytes);
            assert(state.yields(shred@, parts.flatten()));
        }
        found
    }

    /// A summary of the headers of the shred in the bytes. `None` where they are
    /// no shred.
    pub fn parse_shred_info(raw: &[u8]) -> (info: Option<ShredInfo>)
        ensures
            info == match ShredView::in_bytes(raw@) {
                Some(shred) => Some(shred.summary()),
                None => None,
            },
    {
        match parse_shred(raw) {
            Some(shred) => Some(shred.info()),
            None => None,
        }
    }

    /// Where the packets come to.
    pub fn bind_addr(&self) -> (addr: &str)
        ensures
            addr@ == self@.bind_addr,
    {
        self.bind_addr.as_str()
    }

    /// What follows the erasure sets and slots.
    pub fn fec_tracker(&self) -> (tracker: &FecTracker)
        requires
            self.wf(),
        ensures
            tracker@ == self@.tracker,
            tracker.wf(),
            tracker@.wf(),
    {
        proof {
            self.tracker_is_well_formed();
        }
        &self.fec_tracker
    }

    /// What the tracker of a well-formed pipeline holds is well-formed.
    pub proof fn tracker_is_well_formed(&self)
        requires
            self.wf(),
        ensures
            self@.tracker.wf(),
    {
        self.fec_tracker.state_is_well_formed();
    }

    /// Takes out the last failed recovery that was not taken out yet: the slot and
    /// the index of the set, and why it failed.
    pub fn take_failure(&mut self) -> (failure: Option<((u64, u32), FecError)>)
        requires
            old(self).wf(),
        ensures
            failure == old(self)@.tracker.failure,
            final(self)@ == (PipelineState {
                tracker: TrackerState { failure: None, ..old(self)@.tracker },
                ..old(self)@
            }),
            final(self).wf(),
    {
        let failure = self.fec_tracker.take_failure();
        proof {
            lemma_same_demands(old(self)@, self@);
        }
        failure
    }
}

/// What is asked of the functions depends on them and the filters alone.
proof fn lemma_same_demands<E, D, S, I>(
    a: PipelineState<E, D, S, I>,
    b: PipelineState<E, D, S, I>,
) where
    E: Fn(&[u8]) -> Vec<Entry>,
    D: Fn(&[[u8; 32]], &[(u8, Vec<u8>, Vec<u8>)], &str, u64) -> Vec<DecodedInstruction>,
    S: Fn(&ParsedShred),
    I: Fn(&DecodedInstruction),

    requires
        a.deserialize == b.deserialize,
        a.decode == b.decode,
        a.on_instruction == b.on_instruction,
        a.dex_filter == b.dex_filter,
        a.kind_filter == b.kind_filter,
    ensures
        a.readable() == b.readable(),
        a.deliverable() ==> b.deliverable(),
{
    if let Some(cb) = b.on_instruction {
        if a.deliverable() {
            assert forall|inst: &DecodedInstruction| b.passes(*inst) implies call_requires(
                cb,
                (inst,),
            ) by {
                assert(a.passes(*inst));
            }
        }
    }
}

proof fn lemma_same_filters<E, D, S, I>(
    a: PipelineState<E, D, S, I>,
    b: PipelineState<E, D, S, I>,
    found: Seq<DecodedInstruction>,
) where
    E: Fn(&[u8]) -> Vec<Entry>,
    D: Fn(&[[u8; 32]], &[(u8, Vec<u8>, Vec<u8>)], &str, u64) -> Vec<DecodedInstruction>,
    S: Fn(&ParsedShred),
    I: Fn(&DecodedInstruction),

    requires
        a.dex_filter == b.dex_filter,
        a.kind_filter == b.kind_filter,
    ensures
        a.filtered(found) == b.filtered(found),
{
    let p = |inst: DecodedInstruction| a.passes(inst);
    let q = |inst: DecodedInstruction| b.passes(inst);
    assert(p =~= q);
}

proof fn lemma_same_functions<E, D, S, I>(
    a: PipelineState<E, D, S, I>,
    b: PipelineState<E, D, S, I>,
    slot: u64,
    bytes: Seq<u8>,
    found: Seq<DecodedInstruction>,
) where
    E: Fn(&[u8]) -> Vec<Entry>,
    D: Fn(&[[u8; 32]], &[(u8, Vec<u8>, Vec<u8>)], &str, u64) -> Vec<DecodedInstruction>,
    S: Fn(&ParsedShred),
    I: Fn(&DecodedInstruction),

    requires
        a.deserialize == b.deserialize,
        a.decode == b.decode,
        b.finds_in_batch(slot, bytes, found),
    ensures
        a.finds_in_batch(slot, bytes, found),
{
    let (data, entries) = choose|data: &[u8], entries: Vec<Entry>|
        {
            &&& #[trigger] call_ensures(b.deserialize, (data,), entries)
            &&& data@ == bytes
            &&& b.finds_in_transactions(slot, transactions_of(entries@), found)
        };
    let txs = transactions_of(entries@);
    let parts = choose|parts: Seq<Seq<DecodedInstruction>>| #[trigger]
        b.finds_parts(slot, txs, parts) && found == parts.flatten();
    assert(call_ensures(a.deserialize, (data,), entries));
    assert forall|i: int| 0 <= i < txs.len() implies a.finds_in_transaction(
        slot,
        #[trigger] txs[i],
        parts[i],
    ) by {
        assert(b.finds_in_transaction(slot, txs[i], parts[i]));
    }
    assert(a.finds_parts(slot, txs, parts));
    assert(a.finds_in_transactions(slot, txs, found));
}

/// The filters let through exactly what was asked for: every instruction that is
/// handed on passes, and every one that passes is handed on.
pub proof fn filters_are_exact<E, D, S, I>(
    state: PipelineState<E, D, S, I>,
    found: Seq<DecodedInstruction>,
) where
    E: Fn(&[u8]) -> Vec<Entry>,
    D: Fn(&[[u8; 32]], &[(u8, Vec<u8>, Vec<u8>)], &str, u64) -> Vec<DecodedInstruction>,
    S: Fn(&ParsedShred),
    I: Fn(&DecodedInstruction),

    ensures
        state.filtered(found).len() <= found.len(),
        forall|inst: DecodedInstruction|
            #![trigger state.filtered(found).contains(inst)]
            #![trigger found.contains(inst)]
            state.filtered(found).contains(inst) <==> found.contains(inst) && state.passes(inst),
{
    let pred = |inst: DecodedInstruction| state.passes(inst);
    found.lemma_filter_len(pred);
    assert forall|inst: DecodedInstruction|
        state.filtered(found).contains(inst) <==> found.contains(inst) && state.passes(inst) by {
        if state.filtered(found).contains(inst) {
            let i = choose|i: int| 0 <= i < found.filter(pred).len() && found.filter(pred)[i] == inst;
            found.lemma_filter_pred(pred, i);
            found.lemma_filter_contains_rev(pred, inst);
        }
        if found.contains(inst) && state.passes(inst) {
            let i = choose|i: int| 0 <= i < found.len() && found[i] == inst;
            found.lemma_filter_contains(pred, i);
        }
    }
}

/// Without filters every instruction is handed on.
pub proof fn no_filter_drops_nothing<E, D, S, I>(
    state: PipelineState<E, D, S, I>,
    found: Seq<DecodedInstruction>,
) where
    E: Fn(&[u8]) -> Vec<Entry>,
    D: Fn(&[[u8; 32]], &[(u8, Vec<u8>, Vec<u8>)], &str, u64) -> Vec<DecodedInstruction>,
    S: Fn(&ParsedShred),
    I: Fn(&DecodedInstruction),

    requires
        state.dex_filter is None,
        state.kind_filter is None,
    ensures
        state.filtered(found) == found,
    decreases found.len(),
{
    let pred = |inst: DecodedInstruction| state.passes(inst);
    if found.len() == 0 {
        found.lemma_filter_len(pred);
        assert(found.filter(pred) =~= found);
    } else {
        no_filter_drops_nothing(state, found.drop_last());
        found.drop_last().lemma_filter_push(found.last(), pred);
        assert(found.drop_last().push(found.last()) =~= found);
    }
}

/// Neither filter bears on the other: an instruction passes both where it passes
/// each.
pub proof fn filters_are_independent<E, D, S, I>(
    state: PipelineState<E, D, S, I>,
    dexes: Seq<Dex>,
    kinds: Seq<InstructionKind>,
    inst: DecodedInstruction,
) where
    E: Fn(&[u8]) -> Vec<Entry>,
    D: Fn(&[[u8; 32]], &[(u8, Vec<u8>, Vec<u8>)], &str, u64) -> Vec<DecodedInstruction>,
    S: Fn(&ParsedShred),
    I: Fn(&DecodedInstruction),

    ensures
        ({
            let by_dex = PipelineState { dex_filter: Some(dexes), kind_filter: None, ..state };
            let by_kind = PipelineState { dex_filter: None, kind_filter: Some(kinds), ..state };
            let both = PipelineState {
                dex_filter: Some(dexes),
                kind_filter: Some(kinds),
                ..state
            };
            both.passes(inst) <==> by_dex.passes(inst) && by_kind.passes(inst)
        }),
{
}

/// What may be found depends on the functions and the tracker alone.
proof fn lemma_same_yield<E, D, S, I>(
    a: PipelineState<E, D, S, I>,
    b: PipelineState<E, D, S, I>,
    shred: ShredView,
    found: Seq<DecodedInstruction>,
) where
    E: Fn(&[u8]) -> Vec<Entry>,
    D: Fn(&[[u8; 32]], &[(u8, Vec<u8>, Vec<u8>)], &str, u64) -> Vec<DecodedInstruction>,
    S: Fn(&ParsedShred),
    I: Fn(&DecodedInstruction),

    requires
        a.finds_like(b),
        b.yields(shred, found),
    ensures
        a.yields(shred, found),
{
    match b.tracker.with_shred(shred).1 {
        IngestOutcome::Pending => {},
        IngestOutcome::Batches { slot, batches, .. } => {
            let parts = choose|parts: Seq<Seq<DecodedInstruction>>| #[trigger]
                b.finds_batch_parts(slot, batches, parts) && found == parts.flatten();
            assert forall|i: int| 0 <= i < batches.len() implies a.finds_in_batch(
                slot,
                #[trigger] batches[i],
                parts[i],
            ) by {
                assert(b.finds_in_batch(slot, batches[i], parts[i]));
                lemma_same_functions(a, b, slot, batches[i], parts[i]);
            }
            assert(a.finds_batch_parts(slot, batches, parts));
        },
    }
}

proof fn lemma_transaction_determined<E, D, S, I>(
    state: PipelineState<E, D, S, I>,
    slot: u64,
    tx: Transaction,
    ux: Transaction,
    a: Seq<DecodedInstruction>,
    b: Seq<DecodedInstruction>,
) where
    E: Fn(&[u8]) -> Vec<Entry>,
    D: Fn(&[[u8; 32]], &[(u8, Vec<u8>, Vec<u8>)], &str, u64) -> Vec<DecodedInstruction>,
    S: Fn(&ParsedShred),
    I: Fn(&DecodedInstruction),

    requires
        state.functional(),
        same_transaction(tx, ux),
        state.finds_in_transaction(slot, tx, a),
        state.finds_in_transaction(slot, ux, b),
    ensures
        a == b,
{
}

proof fn lemma_batch_determined<E, D, S, I>(
    state: PipelineState<E, D, S, I>,
    slot: u64,
    bytes: Seq<u8>,
    a: Seq<DecodedInstruction>,
    b: Seq<DecodedInstruction>,
) where
    E: Fn(&[u8]) -> Vec<Entry>,
    D: Fn(&[[u8; 32]], &[(u8, Vec<u8>, Vec<u8>)], &str, u64) -> Vec<DecodedInstruction>,
    S: Fn(&ParsedShred),
    I: Fn(&DecodedInstruction),

    requires
        state.functional(),
        state.finds_in_batch(slot, bytes, a),
        state.finds_in_batch(slot, bytes, b),
    ensures
        a == b,
{
    let (d, e) = choose|data: &[u8], entries: Vec<Entry>|
        {
            &&& #[trigger] call_ensures(state.deserialize, (data,), entries)
            &&& data@ == bytes
            &&& state.finds_in_transactions(slot, transactions_of(entries@), a)
        };
    let (g, f) = choose|data: &[u8], entries: Vec<Entry>|
        {
            &&& #[trigger] call_ensures(state.deserialize, (data,), entries)
            &&& data@ == bytes
            &&& state.finds_in_transactions(slot, transactions_of(entries@), b)
        };
    let txs = transactions_of(e@);
    let uxs = transactions_of(f@);
    assert(same_transactions(txs, uxs));
    let p = choose|parts: Seq<Seq<DecodedInstruction>>| #[trigger]
        state.finds_parts(slot, txs, parts) && a == parts.flatten();
    let q = choose|parts: Seq<Seq<DecodedInstruction>>| #[trigger]
        state.finds_parts(slot, uxs, parts) && b == parts.flatten();
    assert forall|i: int| 0 <= i < txs.len() implies p[i] == q[i] by {
        let tx = txs[i];
        let ux = uxs[i];
        assert(same_transaction(tx, ux));
        lemma_transaction_determined(state, slot, tx, ux, p[i], q[i]);
    }
    assert(p =~= q);
}

/// Where the functions give equal results on equal arguments, a packet gives one
/// list of instructions and no other.
pub proof fn finding_is_determined<E, D, S, I>(
    state: PipelineState<E, D, S, I>,
    raw: Seq<u8>,
    a: Seq<DecodedInstruction>,
    b: Seq<DecodedInstruction>,
) where
    E: Fn(&[u8]) -> Vec<Entry>,
    D: Fn(&[[u8; 32]], &[(u8, Vec<u8>, Vec<u8>)], &str, u64) -> Vec<DecodedInstruction>,
    S: Fn(&ParsedShred),
    I: Fn(&DecodedInstruction),

    requires
        state.functional(),
        state.gives(raw, a),
        state.gives(raw, b),
    ensures
        a == b,
{
    if state.brings_batches(raw) {
        let shred = ShredView::in_bytes(raw)->0;
        let outcome = state.tracker.with_shred(shred).1;
        let slot = outcome->slot;
        let batches = outcome->batches;
        let p = choose|parts: Seq<Seq<DecodedInstruction>>| #[trigger]
            state.finds_batch_parts(slot, batches, parts) && a == parts.flatten();
        let q = choose|parts: Seq<Seq<DecodedInstruction>>| #[trigger]
            state.finds_batch_parts(slot, batches, parts) && b == parts.flatten();
        assert forall|i: int| 0 <= i < batches.len() implies p[i] == q[i] by {
            let bytes = batches[i];
            lemma_batch_determined(state, slot, bytes, p[i], q[i]);
        }
        assert(p =~= q);
    }
}

/// Processing a packet does not depend on the filters and the callbacks: two
/// pipelines that differ only there follow the packet alike, and what the one
/// finds the other finds. Where the functions give equal results on equal
/// arguments, the two find the same.
pub proof fn filters_do_not_change_what_is_found<E, D, S, I>(
    a: PipelineState<E, D, S, I>,
    b: PipelineState<E, D, S, I>,
    raw: Seq<u8>,
    found: Seq<DecodedInstruction>,
) where
    E: Fn(&[u8]) -> Vec<Entry>,
    D: Fn(&[[u8; 32]], &[(u8, Vec<u8>, Vec<u8>)], &str, u64) -> Vec<DecodedInstruction>,
    S: Fn(&ParsedShred),
    I: Fn(&DecodedInstruction),

    requires
        a.finds_like(b),
        a.gives(raw, found),
    ensures
        b.gives(raw, found),
        a.with_packet(raw).finds_like(b.with_packet(raw)),
        a.functional() ==> forall|other: Seq<DecodedInstruction>| #[trigger]
            b.gives(raw, other) ==> other == found,
{
    if let Some(shred) = ShredView::in_bytes(raw) {
        lemma_same_yield(b, a, shred, found);
    }
    if a.functional() {
        assert(b.functional());
        assert forall|other: Seq<DecodedInstruction>| #[trigger] b.gives(raw, other) implies other
            == found by {
            finding_is_determined(b, raw, other, found);
        }
    }
}

/// The shreds in the packets, in order.
pub open spec fn shreds_in(raws: Seq<Seq<u8>>) -> Seq<ShredView>
    decreases raws.len(),
{
    if raws.len() == 0 {
        Seq::empty()
    } else {
        match ShredView::in_bytes(raws.last()) {
            Some(shred) => shreds_in(raws.drop_last()).push(shred),
            None => shreds_in(raws.drop_last()),
        }
    }
}

/// Filtering list by list and filtering the joined lists is the same.
proof fn lemma_filtered_lists<E, D, S, I>(
    state: PipelineState<E, D, S, I>,
    founds: Seq<Seq<DecodedInstruction>>,
) where
    E: Fn(&[u8]) -> Vec<Entry>,
    D: Fn(&[[u8; 32]], &[(u8, Vec<u8>, Vec<u8>)], &str, u64) -> Vec<DecodedInstruction>,
    S: Fn(&ParsedShred),
    I: Fn(&DecodedInstruction),

    ensures
        founds.map_values(|found: Seq<DecodedInstruction>| state.filtered(found)).flatten()
            == state.filtered(founds.flatten()),
        founds.len() > 0 ==> state.filtered(founds.flatten()) == state.filtered(
            founds.drop_last().flatten(),
        ) + state.filtered(founds.last()),
        founds.len() == 0 ==> state.filtered(founds.flatten()) == Seq::<
            DecodedInstruction,
        >::empty(),
    decreases founds.len(),
{
    let pred = |inst: DecodedInstruction| state.passes(inst);
    let choosing = |found: Seq<DecodedInstruction>| state.filtered(found);
    if founds.len() == 0 {
        founds.flatten().lemma_filter_len(pred);
        assert(state.filtered(founds.flatten()) =~= Seq::empty());
        assert(founds.map_values(choosing).flatten() =~= Seq::empty());
    } else {
        let early = founds.drop_last();
        let found = founds.last();
        lemma_filtered_lists(state, early);
        early.lemma_flatten_push(found);
        assert(early.push(found) =~= founds);
        Seq::filter_distributes_over_add(early.flatten(), found, pred);
        early.map_values(choosing).lemma_flatten_push(state.filtered(found));
        assert(founds.map_values(choosing) =~= early.map_values(choosing).push(
            state.filtered(found),
        ));
    }
}

/// The arguments of the calls for one packet.
proof fn lemma_calls_for<E, D, S, I>(
    state: PipelineState<E, D, S, I>,
    raw: Seq<u8>,
    found: Seq<DecodedInstruction>,
) where
    E: Fn(&[u8]) -> Vec<Entry>,
    D: Fn(&[[u8; 32]], &[(u8, Vec<u8>, Vec<u8>)], &str, u64) -> Vec<DecodedInstruction>,
    S: Fn(&ParsedShred),
    I: Fn(&DecodedInstruction),

    requires
        state.gives(raw, found),
    ensures
        state.on_shred is Some ==> shreds_called(state.calls_for(raw, found)) == match ShredView::in_bytes(
            raw,
        ) {
            Some(shred) => seq![shred],
            None => Seq::empty(),
        },
        state.on_instruction is Some ==> instructions_called(state.calls_for(raw, found))
            == state.filtered(found),
{
    match ShredView::in_bytes(raw) {
        None => {
            found.lemma_filter_len(|inst: DecodedInstruction| state.passes(inst));
            assert(state.filtered(found) =~= Seq::empty());
        },
        Some(shred) => {
            let announcement = if state.on_shred is Some {
                seq![Call::Shred(shred)]
            } else {
                Seq::empty()
            };
            let delivery = if state.on_instruction is Some {
                instruction_calls(state.filtered(found))
            } else {
                Seq::empty()
            };
            called_with_instructions(state.filtered(found));
            joined_calls(announcement, delivery);
            assert(seq![Call::Shred(shred)].drop_last() =~= Seq::empty());
            reveal_with_fuel(shreds_called, 2);
            reveal_with_fuel(instructions_called, 2);
            if state.on_shred is Some {
                assert(shreds_called(announcement) =~= seq![shred]);
                assert(shreds_called(announcement + delivery) =~= seq![shred]);
            }
            assert(instructions_called(announcement) =~= Seq::empty());
            if state.on_instruction is Some {
                assert(instructions_called(announcement + delivery) =~= state.filtered(found));
            }
        },
    }
}

/// The calls for several packets are those for all but the last, and then those
/// for the last.
proof fn lemma_calls_for_all<E, D, S, I>(
    state: PipelineState<E, D, S, I>,
    raws: Seq<Seq<u8>>,
    founds: Seq<Seq<DecodedInstruction>>,
) where
    E: Fn(&[u8]) -> Vec<Entry>,
    D: Fn(&[[u8; 32]], &[(u8, Vec<u8>, Vec<u8>)], &str, u64) -> Vec<DecodedInstruction>,
    S: Fn(&ParsedShred),
    I: Fn(&DecodedInstruction),

    requires
        raws.len() == founds.len(),
        raws.len() > 0,
    ensures
        state.calls_for_all(raws, founds) == state.calls_for_all(
            raws.drop_last(),
            founds.drop_last(),
        ) + state.calls_for(raws.last(), founds.last()),
{
    let front = raws.drop_last();
    let early = founds.drop_last();
    let before = Seq::new(front.len(), |i: int| state.calls_for(front[i], early[i]));
    let all = Seq::new(raws.len(), |i: int| state.calls_for(raws[i], founds[i]));
    before.lemma_flatten_push(state.calls_for(raws.last(), founds.last()));
    assert(all =~= before.push(state.calls_for(raws.last(), founds.last())));
}

/// What came before the last packets of a run is a run.
proof fn lemma_runs_front<E, D, S, I>(
    state: PipelineState<E, D, S, I>,
    raws: Seq<Seq<u8>>,
    founds: Seq<Seq<DecodedInstruction>>,
    n: int,
) where
    E: Fn(&[u8]) -> Vec<Entry>,
    D: Fn(&[[u8; 32]], &[(u8, Vec<u8>, Vec<u8>)], &str, u64) -> Vec<DecodedInstruction>,
    S: Fn(&ParsedShred),
    I: Fn(&DecodedInstruction),

    requires
        state.runs(raws, founds),
        0 <= n <= raws.len(),
    ensures
        state.runs(raws.take(n), founds.take(n)),
{
    let front = raws.take(n);
    let early = founds.take(n);
    assert forall|i: int| 0 <= i < front.len() implies state.after_packets(
        front.take(i),
        early.take(i),
    ).gives(#[trigger] front[i], early[i]) by {
        assert(front.take(i) =~= raws.take(i) && early.take(i) =~= founds.take(i));
        assert(front[i] == raws[i]);
    }
}

/// What one packet more does to a pipeline `before` that has the filters and the
/// callbacks of `p`.
proof fn lemma_run_step<E, D, S, I>(
    p: PipelineState<E, D, S, I>,
    q: PipelineState<E, D, S, I>,
    before: PipelineState<E, D, S, I>,
    raw: Seq<u8>,
    found: Seq<DecodedInstruction>,
) where
    E: Fn(&[u8]) -> Vec<Entry>,
    D: Fn(&[[u8; 32]], &[(u8, Vec<u8>, Vec<u8>)], &str, u64) -> Vec<DecodedInstruction>,
    S: Fn(&ParsedShred),
    I: Fn(&DecodedInstruction),

    requires
        before.finds_like(q),
        before.dex_filter == p.dex_filter,
        before.kind_filter == p.kind_filter,
        before.on_shred == p.on_shred,
        before.on_instruction == p.on_instruction,
        before.gives(raw, found),
    ensures
        ({
            let after = before.after_packet(raw, found);
            &&& after.finds_like(q.with_packet(raw))
            &&& after.dex_filter == p.dex_filter
            &&& after.kind_filter == p.kind_filter
            &&& after.on_shred == p.on_shred
            &&& after.on_instruction == p.on_instruction
            &&& after.calls == before.calls + p.calls_for(raw, found)
            &&& p.on_shred is Some ==> shreds_called(p.calls_for(raw, found))
                == match ShredView::in_bytes(raw) {
                Some(shred) => seq![shred],
                None => Seq::empty(),
            }
            &&& p.on_instruction is Some ==> instructions_called(p.calls_for(raw, found))
                == p.filtered(found)
        }),
{
    lemma_same_filters(p, before, found);
    lemma_calls_for(before, raw, found);
    assert(p.calls_for(raw, found) == before.calls_for(raw, found));
}

/// What several packets do to a pipeline that announces and delivers.
#[verifier::spinoff_prover]
#[verifier::rlimit(40)]
proof fn lemma_run<E, D, S, I>(
    p: PipelineState<E, D, S, I>,
    q: PipelineState<E, D, S, I>,
    raws: Seq<Seq<u8>>,
    founds: Seq<Seq<DecodedInstruction>>,
) where
    E: Fn(&[u8]) -> Vec<Entry>,
    D: Fn(&[[u8; 32]], &[(u8, Vec<u8>, Vec<u8>)], &str, u64) -> Vec<DecodedInstruction>,
    S: Fn(&ParsedShred),
    I: Fn(&DecodedInstruction),

    requires
        p.finds_like(q),
        p.runs(raws, founds),
    ensures
        ({
            let after = p.after_packets(raws, founds);
            &&& after.finds_like(q.with_packets(raws))
            &&& after.dex_filter == p.dex_filter
            &&& after.kind_filter == p.kind_filter
            &&& after.on_shred == p.on_shred
            &&& after.on_instruction == p.on_instruction
            &&& after.calls == p.calls + p.calls_for_all(raws, founds)
            &&& p.on_shred is Some ==> shreds_called(p.calls_for_all(raws, founds)) == shreds_in(
                raws,
            )
            &&& p.on_instruction is Some ==> instructions_called(p.calls_for_all(raws, founds))
                == p.filtered(founds.flatten())
        }),
    decreases raws.len(),
{
    let after = p.after_packets(raws, founds);
    lemma_filtered_lists(p, founds);
    if raws.len() == 0 {
        assert(p.calls_for_all(raws, founds) =~= Seq::empty());
        assert(p.calls + p.calls_for_all(raws, founds) =~= p.calls);
    } else {
        let n = raws.len() - 1;
        let front = raws.drop_last();
        let early = founds.drop_last();
        let raw = raws[n];
        let found = founds[n];
        assert(raws.take(n) =~= front && founds.take(n) =~= early);
        lemma_runs_front(p, raws, founds, n);
        lemma_run(p, q, front, early);
        let before = p.after_packets(front, early);
        assert(before.gives(raw, found));
        lemma_run_step(p, q.with_packets(front), before, raw, found);
        lemma_calls_for_all(p, raws, founds);
        joined_calls(p.calls_for_all(front, early), p.calls_for(raw, found));
        assert(after.calls =~= p.calls + p.calls_for_all(raws, founds));
        if p.on_shred is Some {
            assert(shreds_called(p.calls_for_all(raws, founds)) =~= shreds_in(raws));
        }
    }
}

/// A run hands on what processing finds: when packets come to a pipeline `p` one
/// after the other, the function for instructions is called with exactly the
/// instructions that a pipeline `q` in the same state finds in the same packets
/// and that pass the filters of `p`, in order, none lost and none repeated. What
/// is handed on packet by packet is, joined, the same. The function for shreds is
/// called with each shred once, in order. The calls come packet by packet, and for
/// each packet that of the function for shreds comes first.
///
/// Of functions that may give different results on equal arguments it is said that
/// `q` may find what `p` found; of others that `q` finds it.
pub proof fn run_hands_on_what_processing_finds<E, D, S, I>(
    p: PipelineState<E, D, S, I>,
    q: PipelineState<E, D, S, I>,
    raws: Seq<Seq<u8>>,
    founds: Seq<Seq<DecodedInstruction>>,
) where
    E: Fn(&[u8]) -> Vec<Entry>,
    D: Fn(&[[u8; 32]], &[(u8, Vec<u8>, Vec<u8>)], &str, u64) -> Vec<DecodedInstruction>,
    S: Fn(&ParsedShred),
    I: Fn(&DecodedInstruction),

    requires
        p.finds_like(q),
        p.runs(raws, founds),
    ensures
        q.processes(raws, founds),
        p.functional() ==> forall|results: Seq<Seq<DecodedInstruction>>| #[trigger]
            q.processes(raws, results) ==> results == founds,
        p.after_packets(raws, founds).calls == p.calls + p.calls_for_all(raws, founds),
        p.on_instruction is Some ==> instructions_called(p.calls_for_all(raws, founds))
            == p.filtered(founds.flatten()),
        p.on_shred is Some ==> shreds_called(p.calls_for_all(raws, founds)) == shreds_in(raws),
        founds.map_values(|found: Seq<DecodedInstruction>| p.filtered(found)).flatten()
            == p.filtered(founds.flatten()),
        p.after_packets(raws, founds).tracker == q.with_packets(raws).tracker,
{
    lemma_run(p, q, raws, founds);
    lemma_filtered_lists(p, founds);
    assert forall|i: int| 0 <= i < raws.len() implies {
        let then = q.with_packets(raws.take(i));
        &&& then.gives(#[trigger] raws[i], founds[i])
        &&& then.deserialize == q.deserialize
        &&& then.decode == q.decode
    } by {
        let front = raws.take(i);
        let early = founds.take(i);
        lemma_runs_front(p, raws, founds, i);
        lemma_run(p, q, front, early);
        lemma_functions_stay(q, front);
        filters_do_not_change_what_is_found(
            p.after_packets(front, early),
            q.with_packets(front),
            raws[i],
            founds[i],
        );
    }
    if p.functional() {
        assert forall|results: Seq<Seq<DecodedInstruction>>| #[trigger]
            q.processes(raws, results) implies results == founds by {
            assert forall|i: int| 0 <= i < raws.len() implies results[i] == founds[i] by {
                let raw = raws[i];
                let then = q.with_packets(raws.take(i));
                assert(then.gives(raw, results[i]) && then.gives(raw, founds[i]));
                assert(then.functional());
                finding_is_determined(then, raw, results[i], founds[i]);
            }
            assert(results =~= founds);
        }
    }
}

proof fn lemma_functions_stay<E, D, S, I>(
    state: PipelineState<E, D, S, I>,
    raws: Seq<Seq<u8>>,
) where
    E: Fn(&[u8]) -> Vec<Entry>,
    D: Fn(&[[u8; 32]], &[(u8, Vec<u8>, Vec<u8>)], &str, u64) -> Vec<DecodedInstruction>,
    S: Fn(&ParsedShred),
    I: Fn(&DecodedInstruction),

    ensures
        state.with_packets(raws).deserialize == state.deserialize,
        state.with_packets(raws).decode == state.decode,
    decreases raws.len(),
{
    if raws.len() > 0 {
        lemma_functions_stay(state, raws.drop_last());
    }
}

/// What a running pipeline has counted.
#[derive(Debug, Clone, Copy, PartialEq, Eq, Structural)]
pub struct RunStats {
    pub shreds: u64,
    pub instructions: u64,
}

impl RunStats {
    /// After a packet from which `n` instructions were handed on. The count of
    /// instructions wraps round.
    pub open spec fn with_packet(self, n: nat) -> Self {
        RunStats {
            shreds: (self.shreds + 1) as u64,
            instructions: ((self.instructions + n) % 0x1_0000_0000_0000_0000) as u64,
        }
    }

    /// Nothing has been counted.
    pub fn new() -> (stats: Self)
        ensures
            stats == (RunStats { shreds: 0, instructions: 0 }),
    {
        RunStats { shreds: 0, instructions: 0 }
    }

    /// Counts a packet.
    pub fn count_packet(&mut self)
        requires
            old(self).shreds < u64::MAX,
        ensures
            *final(self) == (RunStats { shreds: (old(self).shreds + 1) as u64, ..*old(self) }),
    {
        self.shreds = self.shreds + 1;
    }

    /// Counts the instructions that were handed on. How many a packet gives is not
    /// known beforehand, so the count wraps round.
    pub fn count_instructions(&mut self, n: u64)
        ensures
            *final(self) == (RunStats {
                instructions: ((old(self).instructions + n) % 0x1_0000_0000_0000_0000) as u64,
                ..*old(self)
            }),
    {
        self.instructions = self.instructions.wrapping_add(n);
    }

    /// Whether the statistics are due after the packet that was counted last.
    pub fn report_due(&self) -> (r: bool)
        ensures
            r == (self.shreds % REPORT_INTERVAL == 0),
    {
        self.shreds % REPORT_INTERVAL == 0
    }
}

} // verus!
