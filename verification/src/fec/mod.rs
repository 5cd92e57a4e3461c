//! Forward error correction: from shreds to the entry batches of their slots.

pub mod fec_set;
pub mod fec_set_laws;
pub mod reed_solomon;
mod retain;
pub mod slot_assembler;
pub mod slot_laws;
pub mod tracker_laws;

use crate::shred::{ParsedShred, ShredView};
use fec_set::{
    counts_are_exact, exact_counts_leave_room, shred_contents, FecError, FecSet, FecSetState,
    RecoveredShred, ShredContents,
};
use retain::{retain_elements, retain_entries};
use slot_assembler::{
    arrivals_add_only_their_shreds, batch_bytes, batches_take_room, draining_conserves_payloads,
    AssemblerState, SlotAssembler,
};
use std::collections::{HashMap, HashSet};
use vstd::prelude::*;

verus! {

/// What an [`IngestResult`] holds.
#[verifier::ext_equal]
pub enum IngestOutcome {
    Pending,
    Batches { slot: u64, batches: Seq<Seq<u8>>, slot_complete: bool },
}

/// What came of a shred: nothing yet, or entry batches of its slot.
pub enum IngestResult {
    Pending,
    Batches { slot: u64, batches: Vec<Vec<u8>>, slot_complete: bool },
}

impl View for IngestResult {
    type V = IngestOutcome;

    open spec fn view(&self) -> IngestOutcome {
        match *self {
            IngestResult::Pending => IngestOutcome::Pending,
            IngestResult::Batches { slot, batches, slot_complete } => IngestOutcome::Batches {
                slot,
                batches: batch_bytes(batches@),
                slot_complete,
            },
        }
    }
}

/// What a [`FecTracker`] holds. An erasure set is known by its slot and its
/// index in the slot.
#[verifier::ext_equal]
pub struct TrackerState {
    /// The sets that are not complete.
    pub sets: Map<(u64, u32), FecSetState>,
    /// The sets that were complete.
    pub completed: Set<(u64, u32)>,
    /// The slots of which a set was complete, but not the slot.
    pub slots: Map<u64, AssemblerState>,
    /// The slots that were complete.
    pub completed_slots: Set<u64>,
    /// The highest slot of which a shred has arrived.
    pub max_slot: u64,
    /// How many slots behind the highest one are kept.
    pub eviction_threshold: u64,
    /// The last set whose missing data shreds could not be recovered, and why,
    /// until that is taken out.
    pub failure: Option<((u64, u32), FecError)>,
}

impl TrackerState {
    /// The tracker to which no shred has come.
    pub open spec fn fresh(eviction_threshold: u64) -> Self {
        TrackerState {
            sets: Map::empty(),
            completed: Set::empty(),
            slots: Map::empty(),
            completed_slots: Set::empty(),
            max_slot: 0,
            eviction_threshold,
            failure: None,
        }
    }

    /// Without what belongs to slots that lie too far behind the highest one.
    pub open spec fn evicted(self) -> Self {
        if self.max_slot < self.eviction_threshold {
            self
        } else {
            let cutoff = self.max_slot - self.eviction_threshold;
            TrackerState {
                sets: self.sets.restrict(Set::new(|key: (u64, u32)| key.0 >= cutoff)),
                completed: self.completed.intersect(Set::new(|key: (u64, u32)| key.0 >= cutoff)),
                slots: self.slots.restrict(Set::new(|slot: u64| slot >= cutoff)),
                completed_slots: self.completed_slots.intersect(
                    Set::new(|slot: u64| slot >= cutoff),
                ),
                ..self
            }
        }
    }

    /// After a shred of `slot` has been seen.
    pub open spec fn observed(self, slot: u64) -> Self {
        if slot > self.max_slot {
            (TrackerState { max_slot: slot, ..self }).evicted()
        } else {
            self
        }
    }

    /// The set or its slot was complete.
    pub open spec fn finished(self, key: (u64, u32)) -> bool {
        self.completed.contains(key) || self.completed_slots.contains(key.0)
    }

    /// The erasure set `key` as far as it has arrived.
    pub open spec fn set_at(self, key: (u64, u32)) -> FecSetState {
        if self.sets.contains_key(key) {
            self.sets[key]
        } else {
            FecSetState::fresh(key.0, key.1)
        }
    }

    /// The assembler of `slot`.
    pub open spec fn assembler_at(self, slot: u64) -> AssemblerState {
        if self.slots.contains_key(slot) {
            self.slots[slot]
        } else {
            AssemblerState::fresh(slot)
        }
    }

    /// After the data shreds `shreds` of `slot` have been recovered: the batches
    /// that can be taken out then are handed out, and a complete slot is closed.
    pub open spec fn with_recovered(self, slot: u64, shreds: Seq<ShredContents>) -> (
        Self,
        IngestOutcome,
    ) {
        let (batches, rest) = self.assembler_at(slot).with_shreds(shreds).drained();
        let next = if rest.complete() {
            TrackerState {
                slots: self.slots.remove(slot),
                completed_slots: self.completed_slots.insert(slot),
                ..self
            }
        } else {
            TrackerState { slots: self.slots.insert(slot, rest), ..self }
        };
        let outcome = if batches.len() == 0 {
            IngestOutcome::Pending
        } else {
            IngestOutcome::Batches { slot, batches, slot_complete: rest.complete() }
        };
        (next, outcome)
    }

    /// With the set `key` closed.
    pub open spec fn with_set_closed(self, key: (u64, u32)) -> Self {
        TrackerState {
            sets: self.sets.remove(key),
            completed: self.completed.insert(key),
            ..self
        }
    }

    /// After `shred` has arrived. It is filed in its set unless that set or its
    /// slot was complete. A set that is complete now is closed, and what it
    /// recovers goes to its slot; where it cannot recover, that is noted.
    pub open spec fn with_shred(self, shred: ShredView) -> (Self, IngestOutcome) {
        let key = (shred.header().slot, shred.header().fec_set_index);
        let seen = self.observed(key.0);
        let set = seen.set_at(key).with_shred(shred);
        if seen.finished(key) {
            (seen, IngestOutcome::Pending)
        } else if !set.complete() {
            (
                TrackerState { sets: seen.sets.insert(key, set), ..seen },
                IngestOutcome::Pending,
            )
        } else {
            match set.trimmed().recovered() {
                Ok(shreds) => seen.with_set_closed(key).with_recovered(key.0, shreds),
                Err(e) => (
                    TrackerState {
                        failure: Some((key, e)),
                        ..seen.with_set_closed(key)
                    },
                    IngestOutcome::Pending,
                ),
            }
        }
    }

    /// The set of `shred` after it has arrived.
    pub open spec fn set_with(self, shred: ShredView) -> FecSetState {
        self.set_at((shred.header().slot, shred.header().fec_set_index)).with_shred(shred)
    }

    /// The set of `shred` is complete with it, and recovers its missing data
    /// shreds.
    pub open spec fn recovers_with(self, shred: ShredView) -> bool {
        &&& !self.finished((shred.header().slot, shred.header().fec_set_index))
        &&& self.set_with(shred).complete()
        &&& self.set_with(shred).trimmed().recovers()
    }

    /// A shred of the slot after the cursor is neither pending nor missing in
    /// the trimmed set `set`.
    pub open spec fn gap_beyond(assembler: AssemblerState, set: FecSetState) -> bool {
        exists|k: int|
            {
                &&& assembler.cursor <= k <= u32::MAX
                &&& !#[trigger] assembler.has(k)
                &&& !set.misses(k)
            }
    }

    /// All indices that come up with `shred` are numbers of their types: the
    /// place of the shred in its set, the indices of the data shreds that its
    /// set recovers, and the index after the shreds of the slot.
    pub open spec fn accepts(self, shred: ShredView) -> bool {
        let key = (shred.header().slot, shred.header().fec_set_index);
        let set = self.set_at(key).with_shred(shred);
        !self.finished(key) ==> {
            &&& shred matches ShredView::Data { common, .. } ==> self.set_at(key).place_of(
                common.index,
            ) < usize::MAX
            &&& set.complete() ==> set.reassembles()
            &&& set.complete() && set.trimmed().recovers() ==> Self::gap_beyond(
                self.assembler_at(key.0),
                set.trimmed(),
            )
        }
    }

    /// The sets are filed under their keys with exact counts, and none of them
    /// is complete; the assemblers are filed under their slots, well-formed, with
    /// room for the cursor, and none of their slots is complete.
    pub open spec fn wf(self) -> bool {
        &&& forall|key: (u64, u32)| #[trigger]
            self.sets.contains_key(key) ==> {
                &&& self.sets[key].slot == key.0
                &&& self.sets[key].fec_set_index == key.1
                &&& self.sets[key].tight()
                &&& !self.sets[key].complete()
                &&& !self.completed.contains(key)
            }
        &&& forall|slot: u64| #[trigger]
            self.slots.contains_key(slot) ==> {
                &&& self.slots[slot].slot == slot
                &&& self.slots[slot].wf()
                &&& self.slots[slot].has_gap()
                &&& !self.slots[slot].complete()
                &&& !self.completed_slots.contains(slot)
            }
    }
}

/// The number under which the set `fec_set_index` of `slot` is filed.
spec fn packed(key: (u64, u32)) -> u128 {
    (key.0 * 4294967296 + key.1) as u128
}

/// The set that is filed under the number `k`.
spec fn unpacked(k: u128) -> (u64, u32) {
    ((k / 4294967296) as u64, (k % 4294967296) as u32)
}

/// `k` is the number of a set.
spec fn is_packed(k: u128) -> bool {
    k < 79228162514264337593543950336
}

proof fn lemma_packed()
    ensures
        forall|key: (u64, u32)|
            #![trigger packed(key)]
            unpacked(packed(key)) == key && is_packed(packed(key)) && packed(key) == key.0
                * 4294967296 + key.1 && packed(key) / 4294967296 == key.0,
        forall|k: u128| #![trigger unpacked(k)] is_packed(k) ==> packed(unpacked(k)) == k,
{
}

/// The number under which the set `fec_set_index` of `slot` is filed.
fn pack(slot: u64, fec_set_index: u32) -> (k: u128)
    ensures
        k == packed((slot, fec_set_index)),
{
    slot as u128 * 4294967296 + fec_set_index as u128
}

/// Follows all erasure sets and slots of which shreds arrive.
pub struct FecTracker {
    sets: HashMap<u128, FecSet>,
    completed: HashSet<u128>,
    slots: HashMap<u64, SlotAssembler>,
    completed_slots: HashSet<u64>,
    max_slot: u64,
    eviction_threshold: u64,
    failure: Option<((u64, u32), FecError)>,
}

impl View for FecTracker {
    type V = TrackerState;

    closed spec fn view(&self) -> TrackerState {
        TrackerState {
            sets: Map::new(
                |key: (u64, u32)| self.sets@.contains_key(packed(key)),
                |key: (u64, u32)| self.sets@[packed(key)]@,
            ),
            completed: Set::new(|key: (u64, u32)| self.completed@.contains(packed(key))),
            slots: self.slots@.map_values(|assembler: SlotAssembler| assembler@),
            completed_slots: self.completed_slots@,
            max_slot: self.max_slot,
            eviction_threshold: self.eviction_threshold,
            failure: self.failure,
        }
    }
}

impl FecTracker {
    /// The numbers of the sets are such, and what the tracker holds is
    /// well-formed.
    pub closed spec fn wf(&self) -> bool {
        &&& forall|k: u128| self.sets@.contains_key(k) ==> is_packed(k)
        &&& forall|k: u128| self.completed@.contains(k) ==> is_packed(k)
        &&& self@.wf()
    }

    /// A tracker that keeps `eviction_threshold` slots behind the highest one.
    pub fn new(eviction_threshold: u64) -> (tracker: Self)
        ensures
            tracker@ == TrackerState::fresh(eviction_threshold),
            tracker.wf(),
            tracker@.wf(),
    {
        let tracker = FecTracker {
            sets: HashMap::new(),
            completed: HashSet::new(),
            slots: HashMap::new(),
            completed_slots: HashSet::new(),
            max_slot: 0,
            eviction_threshold,
            failure: None,
        };
        assert(tracker@ =~= TrackerState::fresh(eviction_threshold));
        tracker
    }

    /// Drops what belongs to slots that lie too far behind the highest one.
    fn evict_stale(&mut self)
        requires
            old(self).wf(),
        ensures
            final(self)@ == old(self)@.evicted(),
            final(self).wf(),
    {
        if self.max_slot < self.eviction_threshold {
            return;
        }
        let cutoff: u64 = self.max_slot - self.eviction_threshold;
        let ghost kept_sets = Set::new(|k: u128| k / 4294967296 >= cutoff);
        let ghost kept_slots = Set::new(|slot: u64| slot >= cutoff);
        let keep_set = |k: u128| -> (keep: bool)
            ensures
                keep == (k / 4294967296 >= cutoff),
        {
            let slot: u128 = k / 4294967296;
            slot >= cutoff as u128
        };
        let keep_slot = |slot: u64| -> (keep: bool)
            ensures
                keep == (slot >= cutoff),
        {
            slot >= cutoff
        };
        retain_entries(&mut self.sets, keep_set, Ghost(kept_sets));
        retain_elements(&mut self.completed, keep_set, Ghost(kept_sets));
        retain_entries(&mut self.slots, keep_slot, Ghost(kept_slots));
        retain_elements(&mut self.completed_slots, keep_slot, Ghost(kept_slots));
        proof {
            lemma_packed();
            assert(self@.sets =~= old(self)@.evicted().sets);
            assert(self@.completed =~= old(self)@.evicted().completed);
            assert(self@.slots =~= old(self)@.evicted().slots);
            assert(self@.completed_slots =~= old(self)@.evicted().completed_slots);
            assert(self@ =~= old(self)@.evicted());
        }
    }

    /// Takes out the erasure set `fec_set_index` of `slot`, or a new one.
    fn take_set(&mut self, slot: u64, fec_set_index: u32) -> (set: FecSet)
        requires
            old(self).wf(),
        ensures
            set@ == old(self)@.set_at((slot, fec_set_index)),
            final(self)@ == (TrackerState {
                sets: old(self)@.sets.remove((slot, fec_set_index)),
                ..old(self)@
            }),
            final(self).wf(),
    {
        let k: u128 = pack(slot, fec_set_index);
        proof {
            lemma_packed();
        }
        let found = self.sets.remove(&k);
        assert(self@.sets =~= old(self)@.sets.remove((slot, fec_set_index)));
        assert(self@ =~= (TrackerState {
            sets: old(self)@.sets.remove((slot, fec_set_index)),
            ..old(self)@
        }));
        match found {
            Some(set) => set,
            None => FecSet::new(slot, fec_set_index),
        }
    }

    /// Hands the recovered data shreds `shreds` to `slot`, and hands out the
    /// entry batches that can be taken out then. A slot that is complete is
    /// closed.
    pub fn deliver_recovered(&mut self, slot: u64, shreds: Vec<RecoveredShred>) -> (result:
        IngestResult)
        requires
            old(self).wf(),
            !old(self)@.completed_slots.contains(slot),
            old(self)@.assembler_at(slot).with_shreds(shred_contents(shreds@)).has_gap(),
        ensures
            final(self)@ == old(self)@.with_recovered(slot, shred_contents(shreds@)).0,
            result@ == old(self)@.with_recovered(slot, shred_contents(shreds@)).1,
            final(self).wf(),
    {
        let ghost contents = shred_contents(shreds@);
        let ghost start = self@.assembler_at(slot);
        let mut assembler = match self.slots.remove(&slot) {
            Some(assembler) => assembler,
            None => SlotAssembler::new(slot),
        };
        assert(assembler@ == start);
        for shred in it: shreds.into_iter()
            invariant
                it.seq() == shreds@,
                contents == shred_contents(shreds@),
                assembler@.wf(),
                assembler@ == start.with_shreds(contents.take(it.index() as int)),
        {
            proof {
                let i = it.index() as int;
                assert(contents.take(i + 1).drop_last() =~= contents.take(i));
                assert(contents.take(i + 1).last() == shred@);
            }
            assembler.insert(shred);
        }
        assert(contents.take(contents.len() as int) =~= contents);
        proof {
            arrivals_add_only_their_shreds(start, contents);
            draining_conserves_payloads(start.with_shreds(contents));
        }
        let batches = assembler.drain_batches();
        let slot_complete: bool = assembler.is_complete();
        if slot_complete {
            self.completed_slots.insert(slot);
        } else {
            self.slots.insert(slot, assembler);
        }
        proof {
            let next = old(self)@.with_recovered(slot, contents).0;
            assert(self@.slots =~= next.slots);
            assert(self@ =~= next);
            assert(batch_bytes(batches@).len() == batches@.len());
        }
        if batches.is_empty() {
            IngestResult::Pending
        } else {
            IngestResult::Batches { slot, batches, slot_complete }
        }
    }

    /// Files a shred in its erasure set, unless that set or its slot was
    /// complete. Where the set is complete now, its missing data shreds are
    /// recovered, as they are in the codeword to which the set belongs, and handed
    /// to the slot, and the entry batches that can be taken out then are handed
    /// out.
    pub fn ingest(&mut self, shred: &ParsedShred) -> (result: IngestResult)
        requires
            old(self).wf(),
            old(self)@.accepts(shred@),
        ensures
            final(self)@ == old(self)@.with_shred(shred@).0,
            result@ == old(self)@.with_shred(shred@).1,
            old(self)@.recovers_with(shred@) ==> exists|shreds: Seq<ShredContents>| #[trigger]
                old(self)@.set_with(shred@).trimmed().faithful(shreds) && (
                    final(self)@,
                    result@,
                ) == old(self)@.observed(shred@.header().slot).with_set_closed(
                    (shred@.header().slot, shred@.header().fec_set_index),
                ).with_recovered(shred@.header().slot, shreds),
            final(self).wf(),
            final(self)@.wf(),
    {
        let slot: u64 = shred.slot();
        let fec_idx: u32 = shred.fec_set_index();
        let k: u128 = pack(slot, fec_idx);
        let ghost key = (slot, fec_idx);
        proof {
            lemma_packed();
            shred_keeps_its_own_slot(self@, slot);
        }
        if slot > self.max_slot {
            self.max_slot = slot;
            self.evict_stale();
        }
        let ghost seen = self@;
        assert(seen == old(self)@.observed(slot));
        if self.completed.contains(&k) || self.completed_slots.contains(&slot) {
            return IngestResult::Pending;
        }
        assert(!seen.finished(key));
        let mut set = self.take_set(slot, fec_idx);
        proof {
            set.places_are_countable();
            counts_are_exact(set@, shred@);
            exact_counts_leave_room(set@, shred@);
        }
        if !set.insert(shred) {
            let ghost taken = self@.sets;
            let ghost filed = set@;
            self.sets.insert(k, set);
            proof {
                assert(self@.sets =~= taken.insert(key, filed));
                assert(taken.insert(key, filed) =~= seen.sets.insert(key, filed));
                assert(self@ =~= old(self)@.with_shred(shred@).0);
            }
            return IngestResult::Pending;
        }
        self.completed.insert(k);
        assert(self@ =~= seen.with_set_closed(key)) by {
            assert(self@.completed =~= seen.completed.insert(key));
        }
        let ghost full = set@;
        match set.reassemble() {
            Ok(shreds) => {
                proof {
                    assert(seen.assembler_at(slot).has_gap()) by {
                        if !seen.slots.contains_key(slot) {
                            assert(!AssemblerState::fresh(slot).has(0));
                        }
                    }
                    lemma_gap_stays(
                        seen.assembler_at(slot),
                        full.trimmed(),
                        shred_contents(shreds@),
                    );
                    assert(full == old(self)@.set_with(shred@));
                    assert(full.trimmed().faithful(shred_contents(shreds@)));
                }
                self.deliver_recovered(slot, shreds)
            },
            Err(e) => {
                self.failure = Some(((slot, fec_idx), e));
                assert(self@.sets =~= seen.with_set_closed(key).sets);
                assert(self@ =~= old(self)@.with_shred(shred@).0);
                IngestResult::Pending
            },
        }
    }

    /// Whether [`FecTracker::ingest`] can be called with `shred`: all indices that
    /// come up with it are numbers of their types.
    pub fn can_ingest(&self, shred: &ParsedShred) -> (r: bool)
        requires
            self.wf(),
        ensures
            r == self@.accepts(shred@),
    {
        let slot: u64 = shred.slot();
        let fec_idx: u32 = shred.fec_set_index();
        let k: u128 = pack(slot, fec_idx);
        let ghost key = (slot, fec_idx);
        proof {
            lemma_packed();
        }
        if self.completed.contains(&k) || self.completed_slots.contains(&slot) {
            return true;
        }
        if shred.is_data() && shred.index().saturating_sub(fec_idx) as usize == usize::MAX {
            return false;
        }
        let fresh = FecSet::new(slot, fec_idx);
        let set: &FecSet = match self.sets.get(&k) {
            Some(set) => set,
            None => &fresh,
        };
        proof {
            assert(set@ == self@.set_at(key));
            set.places_are_countable();
            counts_are_exact(set@, shred@);
            exact_counts_leave_room(set@, shred@);
        }
        if !set.would_complete(shred) {
            return true;
        }
        let mut set: FecSet = set.copy();
        set.insert(shred);
        if !set.can_reassemble() {
            return false;
        }
        if !set.can_recover() {
            return true;
        }
        match self.slots.get(&slot) {
            Some(assembler) => {
                assert(self@.slots.contains_key(slot));
                has_gap_beyond(assembler, &set)
            },
            None => has_gap_beyond(&SlotAssembler::new(slot), &set),
        }
    }

    /// The number of erasure sets that are not complete.
    pub fn active_sets(&self) -> (n: usize)
        requires
            self.wf(),
        ensures
            n == self@.sets.len(),
    {
        proof {
            lemma_packed();
            let numbers = self.sets@.dom();
            let keys = self@.sets.dom();
            let f = |k: u128| unpacked(k);
            assert(numbers.map(f) =~= keys) by {
                assert forall|key: (u64, u32)| keys.contains(key) implies numbers.map(f).contains(
                    key,
                ) by {
                    assert(numbers.contains(packed(key)) && f(packed(key)) == key);
                }
            }
            assert(vstd::relations::injective_on(f, numbers));
            vstd::set_lib::lemma_map_size(numbers, keys, f);
        }
        self.sets.len()
    }

    /// Takes out the last failed recovery that was not taken out yet: the slot and
    /// the index of the set, and why it failed.
    pub fn take_failure(&mut self) -> (failure: Option<((u64, u32), FecError)>)
        requires
            old(self).wf(),
        ensures
            failure == old(self)@.failure,
            final(self)@ == (TrackerState { failure: None, ..old(self)@ }),
            final(self).wf(),
    {
        let failure = self.failure;
        self.failure = None;
        assert(self@ =~= (TrackerState { failure: None, ..old(self)@ }));
        failure
    }

    /// What a well-formed tracker holds is well-formed.
    pub proof fn state_is_well_formed(&self)
        requires
            self.wf(),
        ensures
            self@.wf(),
    {
    }

    /// The number of slots of which a set was complete, but not the slot.
    pub fn active_slots(&self) -> (n: usize)
        ensures
            n == self@.slots.len(),
    {
        assert(self@.slots.dom() =~= self.slots@.dom());
        self.slots.len()
    }
}

/// Whether a shred of the slot after the cursor is neither pending nor missing in
/// `set`.
fn has_gap_beyond(assembler: &SlotAssembler, set: &FecSet) -> (r: bool)
    requires
        assembler@.wf(),
    ensures
        r == TrackerState::gap_beyond(assembler@, set@.trimmed()),
{
    let mut idx: u32 = assembler.cursor();
    while assembler.is_pending(idx) || set.is_missing(idx)
        invariant
            assembler@.cursor <= idx,
            forall|k: int|
                assembler@.cursor <= k < idx ==> #[trigger] assembler@.has(k)
                    || set@.trimmed().misses(k),
        decreases u32::MAX - idx,
    {
        if idx == u32::MAX {
            return false;
        }
        idx = idx + 1;
    }
    assert(!assembler@.has(idx as int));
    true
}

/// The shreds that a set recovers leave the gap that lies beyond them.
proof fn lemma_gap_stays(
    assembler: AssemblerState,
    set: FecSetState,
    shreds: Seq<ShredContents>,
)
    requires
        set.lists_missing(shreds),
        assembler.has_gap(),
        set.recovers() ==> TrackerState::gap_beyond(assembler, set),
        set.recovers() || set.all_data_present(),
    ensures
        assembler.with_shreds(shreds).has_gap(),
{
    arrivals_add_only_their_shreds(assembler, shreds);
    let after = assembler.with_shreds(shreds);
    if set.all_data_present() {
        let k = choose|k: int| assembler.cursor <= k <= u32::MAX && !#[trigger] assembler.has(k);
        assert(!after.has(k));
    } else {
        let k = choose|k: int|
            {
                &&& assembler.cursor <= k <= u32::MAX
                &&& !#[trigger] assembler.has(k)
                &&& !set.misses(k)
            };
        assert(!after.has(k));
    }
}

/// A shred evicts nothing of its own slot.
pub proof fn shred_keeps_its_own_slot(state: TrackerState, slot: u64)
    ensures
        forall|index: u32|
            #![trigger state.set_at((slot, index))]
            #![trigger state.observed(slot).set_at((slot, index))]
            state.observed(slot).set_at((slot, index)) == state.set_at((slot, index)),
        forall|index: u32|
            #![trigger state.finished((slot, index))]
            #![trigger state.observed(slot).finished((slot, index))]
            state.observed(slot).finished((slot, index)) == state.finished((slot, index)),
        state.observed(slot).assembler_at(slot) == state.assembler_at(slot),
{
}

/// A shred of a set or a slot that was complete gives nothing and is not filed.
pub proof fn finished_set_is_closed(state: TrackerState, shred: ShredView)
    requires
        state.finished((shred.header().slot, shred.header().fec_set_index)),
    ensures
        state.with_shred(shred) == (
            state.observed(shred.header().slot),
            IngestOutcome::Pending,
        ),
{
    shred_keeps_its_own_slot(state, shred.header().slot);
}

/// A set gives its batches once: after the shred that completes it, no later
/// shred of it gives anything or changes what the tracker holds.
pub proof fn set_is_delivered_once(state: TrackerState, shred: ShredView, later: ShredView)
    requires
        state.set_at((shred.header().slot, shred.header().fec_set_index)).with_shred(
            shred,
        ).complete(),
        later.header().slot == shred.header().slot,
        later.header().fec_set_index == shred.header().fec_set_index,
    ensures
        ({
            let next = state.with_shred(shred).0;
            next.with_shred(later) == (next, IngestOutcome::Pending)
        }),
{
    shred_keeps_its_own_slot(state, shred.header().slot);
}

/// The tracker knows the highest slot of which a shred has arrived, and keeps its
/// eviction threshold.
pub proof fn max_slot_is_the_highest(state: TrackerState, shred: ShredView)
    ensures
        state.with_shred(shred).0.max_slot == if shred.header().slot > state.max_slot {
            shred.header().slot
        } else {
            state.max_slot
        },
        state.with_shred(shred).0.eviction_threshold == state.eviction_threshold,
{
}

/// After a shred of a new highest slot, all that the tracker holds belongs to
/// slots that lie at most the eviction threshold behind it.
pub proof fn old_slots_are_forgotten(state: TrackerState, shred: ShredView)
    requires
        shred.header().slot > state.max_slot,
    ensures
        ({
            let slot = shred.header().slot;
            let next = state.with_shred(shred).0;
            let kept = |s: u64| s + state.eviction_threshold >= slot;
            &&& forall|key: (u64, u32)| #[trigger] next.sets.contains_key(key) ==> kept(key.0)
            &&& forall|key: (u64, u32)| #[trigger] next.completed.contains(key) ==> kept(key.0)
            &&& forall|s: u64| #[trigger] next.slots.contains_key(s) ==> kept(s)
            &&& forall|s: u64| #[trigger] next.completed_slots.contains(s) ==> kept(s)
        }),
{
}

/// A shred changes nothing of another slot that is not evicted, and the batches
/// that it gives are of its own slot.
pub proof fn other_slots_are_untouched(state: TrackerState, shred: ShredView, slot: u64)
    requires
        slot != shred.header().slot,
        shred.header().slot <= state.max_slot || slot + state.eviction_threshold
            >= shred.header().slot,
    ensures
        ({
            let next = state.with_shred(shred).0;
            &&& forall|index: u32|
                {
                    &&& (#[trigger] next.sets.contains_key((slot, index)))
                        == state.sets.contains_key((slot, index))
                    &&& next.set_at((slot, index)) == state.set_at((slot, index))
                }
            &&& forall|index: u32|
                (#[trigger] next.completed.contains((slot, index))) == state.completed.contains(
                    (slot, index),
                )
            &&& next.slots.contains_key(slot) == state.slots.contains_key(slot)
            &&& next.assembler_at(slot) == state.assembler_at(slot)
            &&& next.completed_slots.contains(slot) == state.completed_slots.contains(slot)
            &&& state.with_shred(shred).1 matches IngestOutcome::Batches { slot: s, .. } ==> s
                == shred.header().slot
        }),
{
}

/// A slot is handed out in order: the batches that come out of recovered shreds
/// carry on where the last ones have ended, and hold the payloads of the
/// shreds from there to the new cursor, with no byte lost or repeated.
pub proof fn batches_carry_on(state: TrackerState, slot: u64, shreds: Seq<ShredContents>)
    requires
        state.wf(),
    ensures
        ({
            let start = state.assembler_at(slot).with_shreds(shreds);
            let rest = start.drained().1;
            let (next, outcome) = state.with_recovered(slot, shreds);
            &&& start.cursor == state.assembler_at(slot).cursor
            &&& !rest.complete() ==> next.assembler_at(slot).cursor == rest.cursor
            &&& outcome matches IngestOutcome::Batches { batches, .. } ==> batches.flatten()
                == start.payloads(start.cursor as int, rest.cursor as int)
            &&& outcome is Pending <==> rest.cursor == start.cursor
        }),
{
    let start = state.assembler_at(slot).with_shreds(shreds);
    arrivals_add_only_their_shreds(state.assembler_at(slot), shreds);
    draining_conserves_payloads(start);
    batches_take_room(start);
}

/// A slot that is reported complete is closed: no later shred of it gives anything
/// or changes what the tracker holds.
pub proof fn complete_slot_is_closed(state: TrackerState, shred: ShredView, later: ShredView)
    requires
        state.with_shred(shred).1 matches IngestOutcome::Batches { slot_complete, .. }
            && slot_complete,
        later.header().slot == shred.header().slot,
    ensures
        ({
            let next = state.with_shred(shred).0;
            &&& next.completed_slots.contains(shred.header().slot)
            &&& !next.slots.contains_key(shred.header().slot)
            &&& next.with_shred(later) == (next, IngestOutcome::Pending)
        }),
{
}

} // verus!
