//! What the tracker does with a shred, in terms of what it holds.

use crate::fec::fec_set::FecSetState;
use crate::fec::fec_set_laws::{calls_on_a_set_are_possible, filled, shards_are_counted};
use crate::fec::slot_assembler::AssemblerState;
use crate::fec::{IngestOutcome, IngestResult, TrackerState};
use crate::shred::ShredView;
use vstd::prelude::*;

verus! {

/// A new tracker holds nothing.
pub proof fn new_tracker_holds_nothing(eviction_threshold: u64, key: (u64, u32), slot: u64)
    ensures
        ({
            let state = TrackerState::fresh(eviction_threshold);
            &&& !state.sets.contains_key(key)
            &&& !state.completed.contains(key)
            &&& !state.slots.contains_key(slot)
            &&& !state.completed_slots.contains(slot)
            &&& state.max_slot == 0
            &&& state.eviction_threshold == eviction_threshold
            &&& state.failure is None
        }),
{
}

/// Eviction is exact. A shred of a new highest slot drops all that belongs to slots
/// further behind it than the threshold, and no more; any other shred drops nothing.
/// Of another set or slot than its own a shred changes nothing else.
pub proof fn eviction_is_exact(
    state: TrackerState,
    shred: ShredView,
    key: (u64, u32),
    slot: u64,
)
    ensures
        ({
            let own = shred.header().slot;
            let next = state.with_shred(shred).0;
            let kept = |s: u64| own <= state.max_slot || s + state.eviction_threshold >= own;
            &&& key != (own, shred.header().fec_set_index) ==> {
                &&& next.sets.contains_key(key) <==> state.sets.contains_key(key) && kept(key.0)
                &&& next.sets.contains_key(key) ==> next.sets[key] == state.sets[key]
                &&& next.completed.contains(key) <==> state.completed.contains(key) && kept(key.0)
            }
            &&& slot != own ==> {
                &&& next.slots.contains_key(slot) <==> state.slots.contains_key(slot) && kept(slot)
                &&& next.slots.contains_key(slot) ==> next.slots[slot] == state.slots[slot]
                &&& next.completed_slots.contains(slot) <==> state.completed_slots.contains(slot)
                    && kept(slot)
            }
            &&& next.max_slot == if own > state.max_slot {
                own
            } else {
                state.max_slot
            }
            &&& next.eviction_threshold == state.eviction_threshold
        }),
{
}

/// What becomes of a shred of a set that is still open. Its set takes it in, from
/// what the set held before. As long as fewer shreds than data shreds are there, the
/// set waits. Else the set is closed. Where its recovery fails, that is noted and
/// the slot keeps what it had. Else the recovered shreds arrive at the slot one after
/// the other, the slot is drained, and all batches that come out are handed out; the
/// slot is closed exactly where it is complete, and that is reported with them.
pub proof fn open_sets_take_shreds_in(state: TrackerState, shred: ShredView)
    requires
        !state.completed.contains((shred.header().slot, shred.header().fec_set_index)),
        !state.completed_slots.contains(shred.header().slot),
    ensures
        ({
            let slot = shred.header().slot;
            let key = (slot, shred.header().fec_set_index);
            let (next, outcome) = state.with_shred(shred);
            let before = if state.sets.contains_key(key) {
                state.sets[key]
            } else {
                FecSetState::fresh(key.0, key.1)
            };
            let set = before.with_shred(shred);
            let assembler = if state.slots.contains_key(slot) {
                state.slots[slot]
            } else {
                AssemblerState::fresh(slot)
            };
            let enough = set.num_data is Some && set.data_count + set.coding_count
                >= set.num_data->0;
            &&& !enough ==> {
                &&& outcome is Pending
                &&& next.sets.contains_key(key)
                &&& next.sets[key] == set
                &&& !next.completed.contains(key)
                &&& next.slots.contains_key(slot) == state.slots.contains_key(slot)
                &&& next.slots.contains_key(slot) ==> next.slots[slot] == state.slots[slot]
                &&& !next.completed_slots.contains(slot)
                &&& next.failure == state.failure
            }
            &&& enough ==> !next.sets.contains_key(key) && next.completed.contains(key)
            &&& enough && set.trimmed().recovered() is Err ==> {
                &&& outcome is Pending
                &&& next.failure == Some((key, set.trimmed().recovered()->Err_0))
                &&& next.slots.contains_key(slot) == state.slots.contains_key(slot)
                &&& next.slots.contains_key(slot) ==> next.slots[slot] == state.slots[slot]
                &&& !next.completed_slots.contains(slot)
            }
            &&& enough && set.trimmed().recovered() is Ok ==> {
                let arrived = assembler.with_shreds(set.trimmed().recovered()->Ok_0);
                let (batches, rest) = arrived.drained();
                let complete = rest.last_index is Some && rest.last_index->0 < rest.cursor;
                &&& batches.len() == 0 ==> outcome is Pending
                &&& batches.len() > 0 ==> outcome == (IngestOutcome::Batches {
                    slot,
                    batches,
                    slot_complete: complete,
                })
                &&& next.completed_slots.contains(slot) == complete
                &&& next.slots.contains_key(slot) == !complete
                &&& !complete ==> next.slots[slot] == rest
                &&& next.failure == state.failure
            }
        }),
{
}

/// A shred of a set or a slot that was complete gives nothing, and leaves both as
/// they are.
pub proof fn closed_sets_stay_as_they_are(state: TrackerState, shred: ShredView)
    requires
        state.completed.contains((shred.header().slot, shred.header().fec_set_index))
            || state.completed_slots.contains(shred.header().slot),
    ensures
        ({
            let slot = shred.header().slot;
            let key = (slot, shred.header().fec_set_index);
            let (next, outcome) = state.with_shred(shred);
            &&& outcome is Pending
            &&& next.sets.contains_key(key) == state.sets.contains_key(key)
            &&& next.sets.contains_key(key) ==> next.sets[key] == state.sets[key]
            &&& next.completed.contains(key) == state.completed.contains(key)
            &&& next.slots.contains_key(slot) == state.slots.contains_key(slot)
            &&& next.slots.contains_key(slot) ==> next.slots[slot] == state.slots[slot]
            &&& next.completed_slots.contains(slot) == state.completed_slots.contains(slot)
            &&& next.failure == state.failure
        }),
{
}

/// Shreds are accepted where their place and the indices of their set and slot are
/// numbers of their types.
pub proof fn ordinary_shreds_are_accepted(state: TrackerState, shred: ShredView)
    requires
        ({
            let key = (shred.header().slot, shred.header().fec_set_index);
            let before = if state.sets.contains_key(key) {
                state.sets[key]
            } else {
                FecSetState::fresh(key.0, key.1)
            };
            let set = before.with_shred(shred);
            &&& before.fec_set_index == key.1
            &&& shred.header().index - key.1 < usize::MAX
            &&& set.data_count <= set.trimmed().data.len()
            &&& key.1 + set.trimmed().data.len() <= u32::MAX
            &&& state.slots.contains_key(key.0) ==> state.slots[key.0].cursor <= u32::MAX
                && !state.slots[key.0].shreds.contains_key(u32::MAX)
        }),
    ensures
        state.accepts(shred),
{
    let key = (shred.header().slot, shred.header().fec_set_index);
    let set = state.set_at(key).with_shred(shred);
    calls_on_a_set_are_possible(set, shred);
    assert(!state.assembler_at(key.0).has(u32::MAX as int));
    assert(!set.trimmed().misses(u32::MAX as int));
}

/// The states that a tracker can be in: every set is filed under its slot and its
/// index, with exact counts, and is neither complete nor closed; every assembler is
/// filed under its slot, well-formed, with an index to spare, and its slot is neither
/// complete nor closed.
pub proof fn states_of_a_tracker(state: TrackerState)
    ensures
        state.wf() <==> {
            &&& forall|key: (u64, u32)| #[trigger]
                state.sets.contains_key(key) ==> {
                    let set = state.sets[key];
                    &&& set.slot == key.0
                    &&& set.fec_set_index == key.1
                    &&& set.data_count == filled(set.data).len()
                    &&& set.coding_count == filled(set.coding).len()
                    &&& !(set.num_data is Some && set.data_count + set.coding_count
                        >= set.num_data->0)
                    &&& !state.completed.contains(key)
                }
            &&& forall|slot: u64| #[trigger]
                state.slots.contains_key(slot) ==> {
                    let assembler = state.slots[slot];
                    &&& assembler.slot == slot
                    &&& assembler.wf()
                    &&& assembler.has_gap()
                    &&& !(assembler.last_index is Some && assembler.last_index->0
                        < assembler.cursor)
                    &&& !state.completed_slots.contains(slot)
                }
        },
{
    assert forall|set: FecSetState| #[trigger]
        set.tight() <==> set.data_count == filled(set.data).len() && set.coding_count == filled(
            set.coding,
        ).len() by {
        shards_are_counted(set.data);
        shards_are_counted(set.coding);
    }
    if state.wf() {
        assert forall|key: (u64, u32)| #[trigger] state.sets.contains_key(key) implies {
            let set = state.sets[key];
            &&& set.data_count == filled(set.data).len()
            &&& set.coding_count == filled(set.coding).len()
        } by {
            assert(state.sets[key].tight());
        }
    }
}

/// What came of a shred is seen whole.
pub proof fn outcomes_are_seen_whole(result: IngestResult, i: int)
    ensures
        result is Pending <==> result@ is Pending,
        result matches IngestResult::Batches { slot, batches, slot_complete } ==> {
            &&& result@->slot == slot
            &&& result@->slot_complete == slot_complete
            &&& result@->batches.len() == batches@.len()
            &&& 0 <= i < batches@.len() ==> result@->batches[i] == batches@[i]@
        },
{
}

} // verus!
