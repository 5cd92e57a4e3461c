//! Turns the data shreds of one slot, which arrive in any order, into the
//! entry batches of that slot, in order.

use crate::fec::fec_set::{RecoveredShred, ShredContents};
use crate::shred::data_header::{ends_batch, ends_slot, is_data_complete, is_last_in_slot};
use std::collections::BTreeMap;
use vstd::prelude::*;

verus! {

/// What a [`SlotAssembler`] holds.
#[verifier::ext_equal]
pub struct AssemblerState {
    pub slot: u64,
    /// The shreds that no batch has used yet, by their index in the slot.
    pub shreds: Map<u32, ShredContents>,
    /// The index at which the next batch starts.
    pub cursor: nat,
    /// The index of the last shred of the slot, once it is known.
    pub last_index: Option<u32>,
    pub batches_emitted: nat,
}

impl AssemblerState {
    /// The assembler of a slot of which nothing has arrived.
    pub open spec fn fresh(slot: u64) -> Self {
        AssemblerState {
            slot,
            shreds: Map::empty(),
            cursor: 0,
            last_index: None,
            batches_emitted: 0,
        }
    }

    /// A shred with index `k` is pending.
    pub open spec fn has(self, k: int) -> bool {
        0 <= k <= u32::MAX && self.shreds.contains_key(k as u32)
    }

    /// The pending shred with index `k` ends a batch.
    pub open spec fn marks_end(self, k: int) -> bool {
        self.has(k) && ends_batch(self.shreds[k as u32].flags)
    }

    /// The next batch consists of the shreds from the cursor to `end`: all of
    /// them are pending, and `end` is the first that ends a batch.
    pub open spec fn batch_ends_at(self, end: int) -> bool {
        &&& self.cursor <= end
        &&& self.marks_end(end)
        &&& forall|k: int| self.cursor <= k < end ==> #[trigger] self.has(k) && !self.marks_end(k)
    }

    /// A shred at or after the cursor is not pending.
    pub open spec fn has_gap(self) -> bool {
        exists|k: int| self.cursor <= k <= u32::MAX && !#[trigger] self.has(k)
    }

    /// The payloads of the shreds `from..to`, one after the other.
    pub open spec fn payloads(self, from: int, to: int) -> Seq<u8>
        decreases to - from,
    {
        if from >= to {
            Seq::empty()
        } else {
            self.payloads(from, to - 1) + self.shreds[(to - 1) as u32].payload
        }
    }

    /// After the batch that ends at `end` has been taken out.
    pub open spec fn without_batch(self, end: int) -> Self {
        AssemblerState {
            shreds: self.shreds.restrict(Set::new(|k: u32| end < k)),
            cursor: (end + 1) as nat,
            batches_emitted: self.batches_emitted + 1,
            ..self
        }
    }

    /// The batches that can be taken out, in order, and what is left then.
    pub open spec fn drained(self) -> (Seq<Seq<u8>>, Self)
        decreases u32::MAX + 1 - self.cursor,
    {
        if exists|end: int| self.batch_ends_at(end) {
            let end = choose|end: int| self.batch_ends_at(end);
            let (batches, rest) = self.without_batch(end).drained();
            (seq![self.payloads(self.cursor as int, end + 1)] + batches, rest)
        } else {
            (Seq::empty(), self)
        }
    }

    /// After `shred` has arrived: one before the cursor is ignored, and of two
    /// with the same index the first stays.
    pub open spec fn with_shred(self, shred: ShredContents) -> Self {
        if shred.index < self.cursor {
            self
        } else {
            AssemblerState {
                shreds: if self.shreds.contains_key(shred.index) {
                    self.shreds
                } else {
                    self.shreds.insert(shred.index, shred)
                },
                last_index: if ends_slot(shred.flags) {
                    Some(shred.index)
                } else {
                    self.last_index
                },
                ..self
            }
        }
    }

    /// After all of `shreds` have arrived, one after the other.
    pub open spec fn with_shreds(self, shreds: Seq<ShredContents>) -> Self
        decreases shreds.len(),
    {
        if shreds.len() == 0 {
            self
        } else {
            self.with_shreds(shreds.drop_last()).with_shred(shreds.last())
        }
    }

    /// The shred that ends the slot is known and has left in a batch.
    pub open spec fn complete(self) -> bool {
        self.last_index matches Some(last) && self.cursor > last
    }

    /// No pending shred lies before the cursor, every one is filed under its
    /// own index, and no batch was empty.
    pub open spec fn wf(self) -> bool {
        &&& self.cursor <= u32::MAX
        &&& self.batches_emitted <= self.cursor
        &&& forall|k: u32| #[trigger]
            self.shreds.contains_key(k) ==> self.cursor <= k && self.shreds[k].index == k
    }
}

/// Collects the shreds of one slot and hands out its entry batches.
#[derive(Debug)]
pub struct SlotAssembler {
    pub slot: u64,
    shreds: BTreeMap<u32, RecoveredShred>,
    cursor: u32,
    last_index: Option<u32>,
    batches_emitted: usize,
}

impl View for SlotAssembler {
    type V = AssemblerState;

    closed spec fn view(&self) -> AssemblerState {
        AssemblerState {
            slot: self.slot,
            shreds: self.shreds@.map_values(|shred: RecoveredShred| shred@),
            cursor: self.cursor as nat,
            last_index: self.last_index,
            batches_emitted: self.batches_emitted as nat,
        }
    }
}

/// The bytes of each batch.
pub open spec fn batch_bytes(batches: Seq<Vec<u8>>) -> Seq<Seq<u8>> {
    Seq::new(batches.len(), |i: int| batches[i]@)
}

proof fn lemma_batch_end_unique(state: AssemblerState, a: int, b: int)
    requires
        state.batch_ends_at(a),
        state.batch_ends_at(b),
    ensures
        a == b,
{
    if a < b {
        assert(state.has(a) && !state.marks_end(a));
    }
    if b < a {
        assert(state.has(b) && !state.marks_end(b));
    }
}

impl SlotAssembler {
    /// An assembler of which no shred has arrived.
    pub fn new(slot: u64) -> (assembler: Self)
        ensures
            assembler@ == AssemblerState::fresh(slot),
            assembler@.wf(),
    {
        let assembler = SlotAssembler {
            slot,
            shreds: BTreeMap::new(),
            cursor: 0,
            last_index: None,
            batches_emitted: 0,
        };
        assert(assembler@ =~= AssemblerState::fresh(slot));
        assembler
    }

    /// Files a shred under its index. A shred before the cursor is ignored; of
    /// two shreds with the same index the first stays.
    pub fn insert(&mut self, shred: RecoveredShred)
        requires
            old(self)@.wf(),
        ensures
            final(self)@ == old(self)@.with_shred(shred@),
            final(self)@.wf(),
    {
        if shred.index < self.cursor {
            return;
        }
        if is_last_in_slot(shred.flags) {
            self.last_index = Some(shred.index);
        }
        let index: u32 = shred.index;
        if !self.shreds.contains_key(&index) {
            self.shreds.insert(index, shred);
        }
        assert(self@ =~= old(self)@.with_shred(shred@));
    }

    /// Takes out every batch of which all shreds have arrived, in order. A
    /// batch is the payloads of its shreds, one after the other.
    pub fn drain_batches(&mut self) -> (batches: Vec<Vec<u8>>)
        requires
            old(self)@.wf(),
            old(self)@.has_gap(),
        ensures
            batch_bytes(batches@) == old(self)@.drained().0,
            final(self)@ == old(self)@.drained().1,
            final(self)@.wf(),
            final(self)@.has_gap(),
    {
        let mut batches: Vec<Vec<u8>> = Vec::new();
        proof {
            assert(batch_bytes(batches@) + self@.drained().0 =~= old(self)@.drained().0);
        }
        loop
            invariant
                self@.wf(),
                self@.has_gap(),
                batch_bytes(batches@) + self@.drained().0 == old(self)@.drained().0,
                self@.drained().1 == old(self)@.drained().1,
            ensures
                self@.wf(),
                self@.has_gap(),
                batch_bytes(batches@) == old(self)@.drained().0,
                self@ == old(self)@.drained().1,
            decreases u32::MAX + 1 - self@.cursor,
        {
            let next = self.next_batch_end();
            if next.is_none() {
                proof {
                    assert(batch_bytes(batches@) + self@.drained().0 =~= batch_bytes(batches@));
                }
                break;
            }
            let end: u32 = next.unwrap();
            let ghost before = self@;
            let ghost taken = batches@;
            let batch = self.take_batch(end);
            batches.push(batch);
            proof {
                assert(before.batch_ends_at(end as int));
                lemma_batch_end_unique(
                    before,
                    end as int,
                    choose|e: int| before.batch_ends_at(e),
                );
                assert(batch_bytes(batches@) =~= batch_bytes(taken).push(batch@));
                assert(batch_bytes(batches@) + self@.drained().0 =~= batch_bytes(taken)
                    + before.drained().0);
            }
        }
        batches
    }

    /// Whether [`SlotAssembler::drain_batches`] can be called: the index after
    /// the last of the consecutive shreds from the cursor on is a `u32`.
    pub fn can_drain(&self) -> (r: bool)
        requires
            self@.wf(),
        ensures
            r == self@.has_gap(),
    {
        let mut idx: u32 = self.cursor;
        while self.shreds.contains_key(&idx)
            invariant
                self@.cursor == self.cursor,
                self.cursor <= idx,
                forall|k: int| self@.cursor <= k < idx ==> #[trigger] self@.has(k),
            decreases u32::MAX - idx,
        {
            assert(self@.has(idx as int));
            if idx == u32::MAX {
                return false;
            }
            idx = idx + 1;
        }
        assert(!self@.has(idx as int));
        true
    }

    /// The index of the shred with which the next batch ends, if all shreds of
    /// that batch have arrived.
    fn next_batch_end(&self) -> (end: Option<u32>)
        requires
            self@.wf(),
            self@.has_gap(),
        ensures
            match end {
                Some(e) => self@.batch_ends_at(e as int) && e < u32::MAX,
                None => forall|e: int| !self@.batch_ends_at(e),
            },
    {
        let ghost gap = choose|k: int| self@.cursor <= k <= u32::MAX && !self@.has(k);
        let mut idx: u32 = self.cursor;
        while self.shreds.contains_key(&idx)
            invariant
                self@.cursor <= gap <= u32::MAX,
                !self@.has(gap),
                self@.cursor == self.cursor,
                self.cursor <= idx <= gap,
                forall|k: int| self@.cursor <= k < idx ==> #[trigger] self@.has(k)
                    && !self@.marks_end(k),
            decreases gap - idx,
        {
            proof {
                assert(self@.has(idx as int));
            }
            let shred = self.shreds.get(&idx).unwrap();
            if is_data_complete(shred.flags) {
                assert(self@.marks_end(idx as int));
                return Some(idx);
            }
            idx = idx + 1;
        }
        proof {
            assert(!self@.has(idx as int));
            assert forall|e: int| !self@.batch_ends_at(e) by {
                if self@.batch_ends_at(e) && idx < e {
                    assert(self@.has(idx as int));
                }
            }
        }
        None
    }

    /// Takes out the batch that ends at `end`.
    fn take_batch(&mut self, end: u32) -> (batch: Vec<u8>)
        requires
            old(self)@.wf(),
            old(self)@.has_gap(),
            old(self)@.batch_ends_at(end as int),
            end < u32::MAX,
        ensures
            batch@ == old(self)@.payloads(old(self)@.cursor as int, end + 1),
            final(self)@ == old(self)@.without_batch(end as int),
            final(self)@.wf(),
            final(self)@.has_gap(),
    {
        let ghost start = self@;
        let ghost gap = choose|k: int| self@.cursor <= k <= u32::MAX && !self@.has(k);
        proof {
            assert(!start.has(gap));
            assert(gap > end);
        }
        let mut batch: Vec<u8> = Vec::new();
        let first: u32 = self.cursor;
        let mut i: u32 = first;
        while i <= end
            invariant
                first <= i <= end + 1,
                end < u32::MAX,
                start == old(self)@,
                start.wf(),
                start.cursor == first,
                start.batch_ends_at(end as int),
                self@ == (AssemblerState {
                    shreds: start.shreds.restrict(Set::new(|k: u32| i <= k)),
                    ..start
                }),
                batch@ == start.payloads(first as int, i as int),
            decreases end + 1 - i,
        {
            proof {
                assert(start.has(i as int));
                assert(self@.shreds.contains_key(i));
                assert(self@.shreds[i] == start.shreds[i]);
            }
            let ghost pending = self@.shreds;
            let shred = self.shreds.remove(&i).unwrap();
            batch.extend_from_slice(shred.payload.as_slice());
            proof {
                assert(shred@ == start.shreds[i]);
                assert(self@.shreds =~= pending.remove(i));
                assert(self@.shreds =~= start.shreds.restrict(Set::new(|k: u32| i + 1 <= k)));
                assert(batch@ =~= start.payloads(first as int, i as int) + shred@.payload);
            }
            i = i + 1;
        }
        self.cursor = end + 1;
        self.batches_emitted = self.batches_emitted + 1;
        proof {
            assert(self@ =~= start.without_batch(end as int));
            assert(!self@.has(gap));
        }
        batch
    }

    /// Whether a batch has ended with the last shred of the slot.
    pub fn is_complete(&self) -> (complete: bool)
        ensures
            complete == self@.complete(),
    {
        match self.last_index {
            Some(last) => self.cursor > last,
            None => false,
        }
    }

    /// The number of batches that have been taken out.
    pub fn batches_emitted(&self) -> (n: usize)
        ensures
            n == self@.batches_emitted,
    {
        self.batches_emitted
    }

    /// The index at which the next batch starts.
    pub fn cursor(&self) -> (cursor: u32)
        ensures
            cursor == self@.cursor,
    {
        self.cursor
    }

    /// Whether the shred `index` has arrived and no batch has used it yet.
    pub fn is_pending(&self, index: u32) -> (r: bool)
        ensures
            r == self@.has(index as int),
    {
        self.shreds.contains_key(&index)
    }

    /// The number of shreds that no batch has used yet.
    pub fn pending_shreds(&self) -> (n: usize)
        ensures
            n == self@.shreds.len(),
    {
        proof {
            assert(self@.shreds.dom() =~= self.shreds@.dom());
        }
        self.shreds.len()
    }
}

/// Draining moves the cursor forward only, takes out exactly the shreds between
/// the old cursor and the new one, keeps all others, and hands out their
/// payloads in the order of their indices, with no byte lost or repeated.
pub proof fn draining_conserves_payloads(state: AssemblerState)
    requires
        state.wf(),
    ensures
        ({
            let (batches, rest) = state.drained();
            &&& state.cursor <= rest.cursor <= u32::MAX + 1
            &&& batches.flatten() == state.payloads(state.cursor as int, rest.cursor as int)
            &&& forall|k: int| state.cursor <= k < rest.cursor ==> #[trigger] state.has(k)
            &&& rest.shreds == state.shreds.restrict(Set::new(|k: u32| rest.cursor <= k))
            &&& rest.batches_emitted == state.batches_emitted + batches.len()
            &&& rest.slot == state.slot
            &&& rest.last_index == state.last_index
        }),
    decreases u32::MAX + 1 - state.cursor,
{
    let (batches, rest) = state.drained();
    if exists|end: int| state.batch_ends_at(end) {
        let end = choose|end: int| state.batch_ends_at(end);
        let next = state.without_batch(end);
        assert(state.has(end));
        if end == u32::MAX {
            lemma_nothing_past_the_last_index(next);
        } else {
            draining_conserves_payloads(next);
        }
        let first = state.payloads(state.cursor as int, end + 1);
        assert(batches =~= seq![first] + next.drained().0);
        assert(batches.drop_first() =~= next.drained().0);
        assert forall|k: u32| end + 1 <= k < rest.cursor implies state.shreds[k]
            == #[trigger] next.shreds[k] by {
            assert(next.has(k as int));
        }
        lemma_payloads_kept(state, next, end + 1, rest.cursor as int);
        lemma_payloads_split(state, state.cursor as int, end + 1, rest.cursor as int);
        assert forall|k: int| state.cursor <= k < rest.cursor implies #[trigger] state.has(k) by {
            if k > end {
                assert(next.has(k));
            }
        }
        assert(rest.shreds =~= state.shreds.restrict(Set::new(|k: u32| rest.cursor <= k)));
    } else {
        assert(rest.shreds =~= state.shreds.restrict(Set::new(|k: u32| rest.cursor <= k)));
    }
}

proof fn lemma_nothing_past_the_last_index(state: AssemblerState)
    requires
        state.cursor > u32::MAX,
    ensures
        state.drained() == (Seq::<Seq<u8>>::empty(), state),
{
    assert forall|e: int| !state.batch_ends_at(e) by {}
}

proof fn lemma_payloads_split(state: AssemblerState, a: int, b: int, c: int)
    requires
        a <= b <= c,
    ensures
        state.payloads(a, c) == state.payloads(a, b) + state.payloads(b, c),
    decreases c - b,
{
    if b < c {
        lemma_payloads_split(state, a, b, c - 1);
        assert(state.payloads(a, c) =~= state.payloads(a, b) + state.payloads(b, c));
    } else {
        assert(state.payloads(a, c) =~= state.payloads(a, b) + state.payloads(b, c));
    }
}

/// Two assemblers that hold the same shreds in `from..to` have the same
/// payloads there.
proof fn lemma_payloads_kept(a: AssemblerState, b: AssemblerState, from: int, to: int)
    requires
        0 <= from,
        to <= u32::MAX + 1,
        forall|k: u32| from <= k < to ==> a.shreds[k] == #[trigger] b.shreds[k],
    ensures
        a.payloads(from, to) == b.payloads(from, to),
    decreases to - from,
{
    if from < to {
        lemma_payloads_kept(a, b, from, to - 1);
        assert(a.shreds[(to - 1) as u32] == b.shreds[(to - 1) as u32]);
    }
}

/// Draining takes out all it can: a second draining gives no batch and changes
/// nothing.
pub proof fn draining_is_exhaustive(state: AssemblerState)
    ensures
        state.drained().1.drained() == (Seq::<Seq<u8>>::empty(), state.drained().1),
    decreases u32::MAX + 1 - state.cursor,
{
    if exists|end: int| state.batch_ends_at(end) {
        let end = choose|end: int| state.batch_ends_at(end);
        draining_is_exhaustive(state.without_batch(end));
    }
}

/// `a` and `b` differ at most in the index of the last shred of the slot.
pub open spec fn same_but_last_index(a: AssemblerState, b: AssemblerState) -> bool {
    a == (AssemblerState { last_index: a.last_index, ..b })
}

/// Which batches come out does not depend on the known end of the slot.
proof fn lemma_last_index_moves_no_batch(a: AssemblerState, b: AssemblerState)
    requires
        same_but_last_index(a, b),
    ensures
        a.drained().0 == b.drained().0,
        same_but_last_index(a.drained().1, b.drained().1),
    decreases u32::MAX + 1 - a.cursor,
{
    assert forall|e: int| #[trigger] a.batch_ends_at(e) == b.batch_ends_at(e) by {
        assert forall|k: int| #[trigger] a.has(k) == b.has(k) by {}
        assert forall|k: int| #[trigger] a.marks_end(k) == b.marks_end(k) by {}
        if a.batch_ends_at(e) {
            assert forall|k: int| b.cursor <= k < e implies #[trigger] b.has(k) && !b.marks_end(
                k,
            ) by {
                assert(a.has(k));
            }
        }
        if b.batch_ends_at(e) {
            assert forall|k: int| a.cursor <= k < e implies #[trigger] a.has(k) && !a.marks_end(
                k,
            ) by {
                assert(b.has(k));
            }
        }
    }
    if exists|end: int| a.batch_ends_at(end) {
        let end = choose|end: int| a.batch_ends_at(end);
        let other = choose|end: int| b.batch_ends_at(end);
        assert(b.batch_ends_at(end));
        lemma_batch_end_unique(b, end, other);
        assert(same_but_last_index(a.without_batch(end), b.without_batch(end)));
        lemma_last_index_moves_no_batch(a.without_batch(end), b.without_batch(end));
        lemma_payloads_kept(a, b, a.cursor as int, end + 1);
        assert(a.drained().1 == a.without_batch(end).drained().1);
        assert(b.drained().1 == b.without_batch(end).drained().1);
    } else {
        assert forall|e: int| !#[trigger] b.batch_ends_at(e) by {
            assert(!a.batch_ends_at(e));
        }
        assert(a.drained() == (Seq::<Seq<u8>>::empty(), a));
        assert(b.drained() == (Seq::<Seq<u8>>::empty(), b));
    }
}

/// The stream of batches does not depend on when it is read: draining before a
/// shred arrives and again after gives the same batches, in the same order, as
/// draining once after, and leaves the same shreds behind.
pub proof fn draining_early_changes_nothing(state: AssemblerState, shred: ShredContents)
    ensures
        state.with_shred(shred).drained().0 == state.drained().0 + state.drained().1.with_shred(
            shred,
        ).drained().0,
        same_but_last_index(
            state.with_shred(shred).drained().1,
            state.drained().1.with_shred(shred).drained().1,
        ),
    decreases u32::MAX + 1 - state.cursor,
{
    let later = state.with_shred(shred);
    if exists|end: int| state.batch_ends_at(end) {
        let end = choose|end: int| state.batch_ends_at(end);
        let next = state.without_batch(end);
        assert forall|k: int| state.cursor <= k <= end implies #[trigger] later.has(k)
            && later.marks_end(k) == state.marks_end(k) && later.shreds[k as u32]
            == state.shreds[k as u32] by {
            assert(state.has(k));
        }
        assert(later.batch_ends_at(end));
        lemma_batch_end_unique(later, end, choose|e: int| later.batch_ends_at(e));
        assert forall|k: u32| state.cursor <= k < end + 1 implies later.shreds[k]
            == #[trigger] state.shreds[k] by {
            assert(later.has(k as int));
        }
        lemma_payloads_kept(later, state, state.cursor as int, end + 1);
        assert(later.without_batch(end).shreds =~= next.with_shred(shred).shreds);
        lemma_last_index_moves_no_batch(later.without_batch(end), next.with_shred(shred));
        draining_early_changes_nothing(next, shred);
        assert(later.drained().0 =~= state.drained().0 + state.drained().1.with_shred(
            shred,
        ).drained().0);
    } else {
        assert(later.drained().0 =~= state.drained().0 + state.drained().1.with_shred(
            shred,
        ).drained().0);
    }
}

/// The order in which two shreds arrive makes no difference, unless they
/// contradict each other: two new shreds with one index that are not equal, or
/// two that both claim, at different indices, to end the slot.
pub proof fn arrival_order_is_irrelevant(
    state: AssemblerState,
    a: ShredContents,
    b: ShredContents,
)
    requires
        a.index == b.index && a.index >= state.cursor && !state.shreds.contains_key(a.index)
            ==> a == b,
        a.index >= state.cursor && b.index >= state.cursor && ends_slot(a.flags) && ends_slot(
            b.flags,
        ) ==> a.index == b.index,
    ensures
        state.with_shred(a).with_shred(b) == state.with_shred(b).with_shred(a),
{
    assert(state.with_shred(a).with_shred(b).shreds =~= state.with_shred(b).with_shred(a).shreds);
}

/// A second shred with the index of an earlier one replaces nothing and brings
/// out no other batch. Where it claims to end the slot only if the first did,
/// it changes nothing at all.
pub proof fn duplicate_is_ignored(
    state: AssemblerState,
    first: ShredContents,
    second: ShredContents,
)
    requires
        first.index == second.index,
    ensures
        same_but_last_index(state.with_shred(first).with_shred(second), state.with_shred(first)),
        state.with_shred(first).with_shred(second).drained().0 == state.with_shred(
            first,
        ).drained().0,
        (ends_slot(second.flags) ==> ends_slot(first.flags)) ==> state.with_shred(first).with_shred(
            second,
        ) == state.with_shred(first),
{
    lemma_last_index_moves_no_batch(
        state.with_shred(first).with_shred(second),
        state.with_shred(first),
    );
}

/// A shred that has left in a batch never comes back: a later copy of it
/// changes nothing.
pub proof fn drained_shred_is_ignored(state: AssemblerState, shred: ShredContents)
    requires
        state.wf(),
        state.cursor <= shred.index,
        state.shreds.contains_key(shred.index),
        !state.drained().1.shreds.contains_key(shred.index),
    ensures
        state.drained().1.with_shred(shred) == state.drained().1,
{
    draining_conserves_payloads(state);
}

/// A slot that is complete stays complete: draining does not undo it, nor does
/// a shred, unless that shred claims to end the slot later.
pub proof fn complete_slot_stays_complete(state: AssemblerState, shred: ShredContents)
    requires
        state.wf(),
        state.complete(),
    ensures
        state.drained().1.complete(),
        state.with_shred(shred).complete() == !(ends_slot(shred.flags) && shred.index
            >= state.cursor),
{
    draining_conserves_payloads(state);
}

/// Arrivals keep the assembler well-formed, and so does draining where the
/// cursor stays a `u32`.
pub proof fn assembler_stays_well_formed(state: AssemblerState, shred: ShredContents)
    requires
        state.wf(),
    ensures
        state.with_shred(shred).wf(),
        state.has_gap() ==> state.drained().1.wf() && state.drained().1.has_gap(),
{
    let (batches, rest) = state.drained();
    draining_conserves_payloads(state);
    batches_take_room(state);
    if state.has_gap() {
        let gap = choose|k: int| state.cursor <= k <= u32::MAX && !#[trigger] state.has(k);
        assert(!rest.has(gap));
        assert(rest.cursor <= gap);
    }
}

/// What several arrivals do: they keep the assembler well-formed and the cursor
/// where it is, and add no other shreds.
pub proof fn arrivals_add_only_their_shreds(state: AssemblerState, shreds: Seq<ShredContents>)
    ensures
        state.wf() ==> state.with_shreds(shreds).wf(),
        state.with_shreds(shreds).slot == state.slot,
        state.with_shreds(shreds).cursor == state.cursor,
        state.with_shreds(shreds).batches_emitted == state.batches_emitted,
        forall|k: int| #[trigger]
            state.with_shreds(shreds).has(k) ==> state.has(k) || exists|j: int|
                0 <= j < shreds.len() && (#[trigger] shreds[j]).index == k,
        forall|k: int|
            #![trigger state.with_shreds(shreds).has(k)]
            state.has(k) ==> state.with_shreds(shreds).has(k),
    decreases shreds.len(),
{
    if shreds.len() > 0 {
        arrivals_add_only_their_shreds(state, shreds.drop_last());
        let before = state.with_shreds(shreds.drop_last());
        lemma_arrival_keeps_wf(before, shreds.last());
        assert forall|k: int| #[trigger] state.with_shreds(shreds).has(k) implies state.has(k)
            || exists|j: int| 0 <= j < shreds.len() && (#[trigger] shreds[j]).index == k by {
            if before.has(k) {
                if !state.has(k) {
                    let j = choose|j: int|
                        0 <= j < shreds.drop_last().len() && (
                        #[trigger] shreds.drop_last()[j]).index == k;
                    assert(shreds[j].index == k);
                }
            } else {
                assert(shreds[shreds.len() - 1].index == k);
            }
        }
        assert forall|k: int|
            #![trigger state.with_shreds(shreds).has(k)]
            state.has(k) implies state.with_shreds(shreds).has(k) by {
            assert(before.has(k));
        }
    }
}

proof fn lemma_arrival_keeps_wf(state: AssemblerState, shred: ShredContents)
    ensures
        state.wf() ==> state.with_shred(shred).wf(),
{
}

/// Every batch moves the cursor by at least one, and only a batch moves it.
pub proof fn batches_take_room(state: AssemblerState)
    ensures
        state.cursor + state.drained().0.len() <= state.drained().1.cursor,
        state.drained().0.len() == 0 ==> state.drained().1 == state,
    decreases u32::MAX + 1 - state.cursor,
{
    if exists|end: int| state.batch_ends_at(end) {
        let end = choose|end: int| state.batch_ends_at(end);
        batches_take_room(state.without_batch(end));
    }
}

} // verus!
