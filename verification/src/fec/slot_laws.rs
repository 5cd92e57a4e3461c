//! What an assembler does, in terms of the shreds, their flags and their payloads.

use crate::fec::fec_set::{RecoveredShred, ShredContents};
use crate::fec::slot_assembler::{
    batch_bytes, batches_take_room, draining_is_exhaustive, AssemblerState,
};
use crate::shred::laws::boundary_bits;
use vstd::prelude::*;

verus! {

/// The first shred from `from` on whose flags end a batch, where that of `end`
/// do.
proof fn first_end(state: AssemblerState, from: int, end: int) -> (first: int)
    requires
        0 <= from <= end <= u32::MAX,
        (state.shreds[end as u32].flags / 64) % 2 == 1,
    ensures
        from <= first <= end,
        (state.shreds[first as u32].flags / 64) % 2 == 1,
        forall|k: int|
            from <= k < first ==> (#[trigger] state.shreds[k as u32].flags / 64) % 2 != 1,
    decreases end - from,
{
    if (state.shreds[from as u32].flags / 64) % 2 == 1 {
        from
    } else {
        let first = first_end(state, from + 1, end);
        assert forall|k: int| from <= k < first implies (#[trigger] state.shreds[
            k as u32].flags / 64) % 2 != 1 by {
            assert(k == from || from + 1 <= k);
        }
        first
    }
}

/// A shred that ends a batch comes out with its batch as soon as all shreds from the
/// cursor up to it are there, however many they are: draining gives a batch, and
/// the cursor lies beyond it.
pub proof fn whole_runs_are_drained(state: AssemblerState, end: int)
    requires
        state.cursor <= end <= u32::MAX,
        forall|k: u32| state.cursor <= k <= end ==> #[trigger] state.shreds.contains_key(k),
        (state.shreds[end as u32].flags / 64) % 2 == 1,
    ensures
        state.drained().0.len() >= 1,
        state.drained().1.cursor > end,
    decreases u32::MAX + 1 - state.cursor,
{
    let first = first_end(state, state.cursor as int, end);
    assert forall|k: int| state.cursor <= k <= end implies #[trigger] state.has(k) by {
        assert(state.shreds.contains_key(k as u32));
    }
    assert forall|k: int| state.cursor <= k <= first implies #[trigger] state.marks_end(k) == (k
        == first) by {
        assert(state.has(k));
        boundary_bits(state.shreds[k as u32].flags);
    }
    assert forall|k: int| state.cursor <= k < first implies #[trigger] state.has(k)
        && !state.marks_end(k) by {
        assert(state.marks_end(k) == (k == first));
    }
    assert(state.marks_end(first));
    assert(state.batch_ends_at(first));
    let chosen = choose|e: int| state.batch_ends_at(e);
    assert(chosen == first) by {
        if chosen < first {
            assert(state.marks_end(chosen) == (chosen == first));
        }
        if first < chosen {
            assert(state.has(first) && !state.marks_end(first));
        }
    }
    let next = state.without_batch(first);
    batches_take_room(next);
    if first < end {
        assert forall|k: u32| next.cursor <= k <= end implies #[trigger] next.shreds.contains_key(
            k,
        ) by {
            assert(state.shreds.contains_key(k));
        }
        assert(state.shreds.contains_key(end as u32));
        assert(next.shreds[end as u32] == state.shreds[end as u32]);
        whole_runs_are_drained(next, end);
    }
}

/// After draining, no shred that ends a batch is left in the run of pending shreds
/// from the cursor on, however long that run is.
pub proof fn no_end_is_left_behind(state: AssemblerState, end: int)
    requires
        state.drained().1.cursor <= end <= u32::MAX,
        forall|k: u32|
            state.drained().1.cursor <= k <= end ==> #[trigger] state.drained().1.shreds.contains_key(
                k,
            ),
    ensures
        (state.drained().1.shreds[end as u32].flags / 64) % 2 == 0,
{
    let rest = state.drained().1;
    draining_is_exhaustive(state);
    if (rest.shreds[end as u32].flags / 64) % 2 == 1 {
        whole_runs_are_drained(rest, end);
    }
}

/// The payloads of the shreds `from..to`, joined.
pub open spec fn joined_payloads(shreds: Map<u32, ShredContents>, from: int, to: int) -> Seq<u8> {
    Seq::new((to - from) as nat, |k: int| shreds[(from + k) as u32].payload).flatten()
}

/// What a batch of the shreds `from..to` holds are their payloads, joined.
pub proof fn payloads_are_joined(state: AssemblerState, from: int, to: int)
    requires
        0 <= from <= to,
    ensures
        state.payloads(from, to) == joined_payloads(state.shreds, from, to),
    decreases to - from,
{
    let parts = Seq::new((to - from) as nat, |k: int| state.shreds[(from + k) as u32].payload);
    if from == to {
        assert(parts.flatten() =~= Seq::empty());
    } else {
        payloads_are_joined(state, from, to - 1);
        let front = Seq::new(
            (to - 1 - from) as nat,
            |k: int| state.shreds[(from + k) as u32].payload,
        );
        let last = state.shreds[(to - 1) as u32].payload;
        front.lemma_flatten_push(last);
        assert(parts =~= front.push(last));
    }
}

/// `batch` consists of the shreds `from..to`: all of them are there, the last is the
/// only one whose flags end a batch, and its bytes are their payloads, joined.
pub open spec fn is_cut_from(
    shreds: Map<u32, ShredContents>,
    from: int,
    to: int,
    batch: Seq<u8>,
) -> bool {
    &&& 0 <= from < to <= u32::MAX + 1
    &&& batch == joined_payloads(shreds, from, to)
    &&& forall|k: u32|
        from <= k < to ==> {
            &&& #[trigger] shreds.contains_key(k)
            &&& (shreds[k].flags / 64) % 2 == (if k + 1 == to {
                1int
            } else {
                0
            })
        }
}

/// What is cut from the shreds that are left was there before.
proof fn lemma_cut_before(
    all: Map<u32, ShredContents>,
    left: Map<u32, ShredContents>,
    from: int,
    to: int,
    batch: Seq<u8>,
)
    requires
        is_cut_from(left, from, to, batch),
        forall|k: u32| #[trigger]
            left.contains_key(k) ==> all.contains_key(k) && all[k] == left[k],
    ensures
        is_cut_from(all, from, to, batch),
{
    assert(Seq::new((to - from) as nat, |k: int| left[(from + k) as u32].payload) =~= Seq::new(
        (to - from) as nat,
        |k: int| all[(from + k) as u32].payload,
    )) by {
        assert forall|k: int| 0 <= k < to - from implies #[trigger] left[(from + k) as u32] == all[(
        from + k) as u32] by {
            assert(left.contains_key((from + k) as u32));
        }
    }
    assert forall|k: u32| from <= k < to implies {
        &&& #[trigger] all.contains_key(k)
        &&& (all[k].flags / 64) % 2 == (if k + 1 == to {
            1int
        } else {
            0
        })
    } by {
        assert(left.contains_key(k));
    }
}

/// Where the batches are cut: the first from the cursor on, each next one from where
/// the last has ended. Each consists of consecutive pending shreds, its last shred is
/// the only one of it whose flags end a batch, and its bytes are the payloads of its
/// shreds, joined. The cursor is left at the end of the last batch, and the shreds
/// from there on, and no others, stay pending.
pub proof fn batches_are_cut_at_the_flags(state: AssemblerState) -> (cuts: Seq<int>)
    requires
        state.wf(),
    ensures
        ({
            let (batches, rest) = state.drained();
            &&& cuts.len() == batches.len() + 1
            &&& cuts[0] == state.cursor
            &&& cuts[batches.len() as int] == rest.cursor
            &&& rest.batches_emitted == state.batches_emitted + batches.len()
            &&& rest.last_index == state.last_index
            &&& rest.slot == state.slot
            &&& forall|k: u32|
                {
                    &&& #[trigger] rest.shreds.contains_key(k) <==> state.shreds.contains_key(k)
                        && rest.cursor <= k
                    &&& rest.shreds.contains_key(k) ==> rest.shreds[k] == state.shreds[k]
                }
            &&& forall|i: int|
                0 <= i < batches.len() ==> is_cut_from(
                    state.shreds,
                    cuts[i],
                    cuts[i + 1],
                    #[trigger] batches[i],
                )
        }),
    decreases u32::MAX + 1 - state.cursor,
{
    let (batches, rest) = state.drained();
    if exists|end: int| state.batch_ends_at(end) {
        let end = choose|end: int| state.batch_ends_at(end);
        let next = state.without_batch(end);
        assert(state.has(end));
        let more = next.drained().0;
        let first = state.payloads(state.cursor as int, end + 1);
        assert(batches =~= seq![first] + more);
        let later = if end == u32::MAX {
            assert forall|e: int| !next.batch_ends_at(e) by {}
            seq![next.cursor as int]
        } else {
            batches_are_cut_at_the_flags(next)
        };
        let cuts = seq![state.cursor as int] + later;
        payloads_are_joined(state, state.cursor as int, end + 1);
        assert forall|k: u32| state.cursor <= k < end + 1 implies {
            &&& #[trigger] state.shreds.contains_key(k)
            &&& (state.shreds[k].flags / 64) % 2 == (if k + 1 == end + 1 {
                1int
            } else {
                0
            })
        } by {
            boundary_bits(state.shreds[k].flags);
            assert(state.has(k as int));
            if k < end {
                assert(!state.marks_end(k as int));
            } else {
                assert(state.marks_end(k as int));
            }
        }
        assert(first == joined_payloads(state.shreds, state.cursor as int, end + 1));
        assert(is_cut_from(state.shreds, state.cursor as int, end + 1, first));
        assert forall|i: int| 0 <= i < batches.len() implies is_cut_from(
            state.shreds,
            cuts[i],
            cuts[i + 1],
            #[trigger] batches[i],
        ) by {
            if i > 0 {
                let j = i - 1;
                assert(batches[i] == more[j]);
                lemma_cut_before(state.shreds, next.shreds, later[j], later[j + 1], more[j]);
            }
        }
        batches_take_room(next);
        assert forall|k: u32|
            {
                &&& #[trigger] rest.shreds.contains_key(k) <==> state.shreds.contains_key(k)
                    && rest.cursor <= k
                &&& rest.shreds.contains_key(k) ==> rest.shreds[k] == state.shreds[k]
            } by {
            assert(next.shreds.contains_key(k) <==> state.shreds.contains_key(k) && end < k);
        }
        cuts
    } else {
        seq![state.cursor as int]
    }
}

/// What the arrival of one shred changes: a shred before the cursor nothing; another
/// its own entry, where there was none, and the end of the slot, where its two
/// highest flags say that it is the last.
pub proof fn arrival_files_one_shred(state: AssemblerState, shred: ShredContents, k: u32)
    ensures
        ({
            let after = state.with_shred(shred);
            let new = shred.index >= state.cursor;
            &&& after.shreds.contains_key(k) <==> state.shreds.contains_key(k) || (new && k
                == shred.index)
            &&& state.shreds.contains_key(k) ==> after.shreds[k] == state.shreds[k]
            &&& new && k == shred.index && !state.shreds.contains_key(k) ==> after.shreds[k]
                == shred
            &&& after.last_index == if new && shred.flags >= 192 {
                Some(shred.index)
            } else {
                state.last_index
            }
            &&& after.slot == state.slot
            &&& after.cursor == state.cursor
            &&& after.batches_emitted == state.batches_emitted
        }),
{
    boundary_bits(shred.flags);
}

/// Several arrivals are arrivals one after the other.
pub proof fn arrivals_come_one_by_one(
    state: AssemblerState,
    shreds: Seq<ShredContents>,
    shred: ShredContents,
)
    ensures
        state.with_shreds(Seq::empty()) == state,
        state.with_shreds(shreds.push(shred)) == state.with_shreds(shreds).with_shred(shred),
{
    assert(shreds.push(shred).drop_last() =~= shreds);
}

/// Of several arrivals every shred that was not pending and does not lie before the
/// cursor is filed, the first of those with its index.
pub proof fn first_arrival_is_filed(
    state: AssemblerState,
    shreds: Seq<ShredContents>,
    j: int,
)
    requires
        0 <= j < shreds.len(),
        shreds[j].index >= state.cursor,
        !state.shreds.contains_key(shreds[j].index),
        forall|i: int| 0 <= i < j ==> (#[trigger] shreds[i]).index != shreds[j].index,
    ensures
        state.with_shreds(shreds).shreds.contains_key(shreds[j].index),
        state.with_shreds(shreds).shreds[shreds[j].index] == shreds[j],
    decreases shreds.len(),
{
    let front = shreds.drop_last();
    let k = shreds[j].index;
    crate::fec::slot_assembler::arrivals_add_only_their_shreds(state, front);
    arrival_files_one_shred(state.with_shreds(front), shreds.last(), k);
    if j < front.len() {
        assert forall|i: int| 0 <= i < j implies (#[trigger] front[i]).index != k by {
            assert(shreds[i].index != k);
        }
        first_arrival_is_filed(state, front, j);
    } else {
        assert(!state.with_shreds(front).has(k as int)) by {
            if state.with_shreds(front).has(k as int) {
                let i = choose|i: int|
                    0 <= i < front.len() && (#[trigger] front[i]).index == k as int;
                assert(shreds[i].index == k);
            }
        }
    }
}

/// A slot is complete exactly where its last shred is known and lies before the
/// cursor; draining is possible exactly where an index from the cursor on is not
/// pending; and the states that an assembler can be in are these.
pub proof fn states_of_an_assembler(state: AssemblerState)
    ensures
        state.complete() <==> state.last_index is Some && state.last_index->0 < state.cursor,
        state.has_gap() <==> exists|k: u32|
            state.cursor <= k && !#[trigger] state.shreds.contains_key(k),
        state.wf() <==> {
            &&& state.cursor <= u32::MAX
            &&& state.batches_emitted <= state.cursor
            &&& forall|k: u32| #[trigger]
                state.shreds.contains_key(k) ==> state.cursor <= k && state.shreds[k].index == k
        },
{
    if state.has_gap() {
        let k = choose|k: int| state.cursor <= k <= u32::MAX && !#[trigger] state.has(k);
        assert(!state.shreds.contains_key(k as u32));
    }
    if exists|k: u32| state.cursor <= k && !#[trigger] state.shreds.contains_key(k) {
        let k = choose|k: u32| state.cursor <= k && !#[trigger] state.shreds.contains_key(k);
        assert(!state.has(k as int));
    }
}

/// A new assembler holds nothing.
pub proof fn new_assembler_holds_nothing(slot: u64, k: u32)
    ensures
        AssemblerState::fresh(slot).slot == slot,
        !AssemblerState::fresh(slot).shreds.contains_key(k),
        AssemblerState::fresh(slot).cursor == 0,
        AssemblerState::fresh(slot).last_index is None,
        AssemblerState::fresh(slot).batches_emitted == 0,
{
}

/// A batch is seen as its bytes, and a shred as its fields.
pub proof fn batches_and_shreds_are_seen_whole(
    batches: Seq<Vec<u8>>,
    shred: RecoveredShred,
    i: int,
)
    requires
        0 <= i < batches.len(),
    ensures
        batch_bytes(batches).len() == batches.len(),
        batch_bytes(batches)[i] == batches[i]@,
        shred@.index == shred.index,
        shred@.flags == shred.flags,
        shred@.payload == shred.payload@,
{
}

} // verus!
