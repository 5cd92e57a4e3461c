//! What an erasure set does, in terms of its shreds and their bytes.

use crate::decimal::decimal;
use crate::fec::fec_set::{
    collecting_gives_the_missing_shreds, erasure_shard, first_excess, flags_in_shard,
    lemma_reconstructable, payload_in_shard, same_outcome, shred_contents, FecError, FecSetState, RecoveredShred,
    ShredContents,
};
use crate::fec::reed_solomon::{all_present, count_present, is_codeword, shard_bytes};
use crate::shred::coding_header::CodingHeader;
use crate::shred::common_header::{CommonHeader, ShredVariant};
use crate::shred::data_header::DataHeader;
use crate::shred::laws::numbers_are_little_endian;
use crate::shred::ShredView;
use vstd::prelude::*;

verus! {

/// What is at place `i`, if anything.
pub open spec fn held(raws: Seq<Option<Seq<u8>>>, i: int) -> Option<Seq<u8>> {
    if 0 <= i < raws.len() {
        raws[i]
    } else {
        None
    }
}

/// How many bytes of Merkle proof a shred of the variant ends with.
pub open spec fn proof_bytes(variant: Option<ShredVariant>) -> nat {
    match variant {
        Some(ShredVariant::MerkleCode { proof_size, .. }) => 20 * proof_size as nat,
        Some(ShredVariant::MerkleData { proof_size, .. }) => 20 * proof_size as nat,
        _ => 0,
    }
}

/// The places at which something is.
pub open spec fn filled(raws: Seq<Option<Seq<u8>>>) -> Set<int> {
    Set::new(|i: int| 0 <= i < raws.len() && raws[i] is Some)
}

/// A new set holds nothing.
pub proof fn new_set_holds_nothing(slot: u64, fec_set_index: u32)
    ensures
        ({
            let set = FecSetState::fresh(slot, fec_set_index);
            &&& set.slot == slot
            &&& set.fec_set_index == fec_set_index
            &&& set.num_data is None
            &&& set.num_coding is None
            &&& set.variant is None
            &&& set.data.len() == 0
            &&& set.coding.len() == 0
            &&& set.data_count == 0
            &&& set.coding_count == 0
        }),
{
}

/// What the arrival of a data shred changes: its own place, at its distance from the
/// first index of the set, where nothing was; the count, by one, in that case; the
/// variant, where it was not known. Every other place keeps what it has.
pub proof fn data_shred_takes_its_place(
    state: FecSetState,
    common: CommonHeader,
    data: DataHeader,
    raw: Seq<u8>,
    q: int,
)
    requires
        0 <= q,
    ensures
        ({
            let after = state.with_shred(ShredView::Data { common, data, raw });
            let place: int = if common.index < state.fec_set_index {
                0
            } else {
                common.index - state.fec_set_index
            };
            let new = held(state.data, place) is None;
            &&& after == state.with_data(common.variant, common.index, raw)
            &&& held(after.data, q) == if q == place && new {
                Some(raw)
            } else {
                held(state.data, q)
            }
            &&& after.data.len() == if place < state.data.len() {
                state.data.len() as int
            } else {
                place + 1
            }
            &&& after.data_count == state.data_count + (if new {
                1nat
            } else {
                0
            })
            &&& after.variant == if state.variant is None {
                Some(common.variant)
            } else {
                state.variant
            }
            &&& after.coding == state.coding
            &&& after.coding_count == state.coding_count
            &&& after.num_data == state.num_data
            &&& after.num_coding == state.num_coding
            &&& after.slot == state.slot
            &&& after.fec_set_index == state.fec_set_index
        }),
{
}

/// What the arrival of a coding shred changes: its own position, where nothing was;
/// the count, by one, in that case; the variant and the shape, where they were not
/// known. Every other place keeps what it has, and a new shape has its places.
pub proof fn coding_shred_takes_its_position(
    state: FecSetState,
    common: CommonHeader,
    coding: CodingHeader,
    raw: Seq<u8>,
    q: int,
)
    requires
        0 <= q,
    ensures
        ({
            let after = state.with_shred(ShredView::Coding { common, coding, raw });
            let new = held(state.coding, coding.position as int) is None;
            let shaped = state.num_data is None;
            &&& after == state.with_coding(common.variant, coding, raw)
            &&& held(after.coding, q) == if q == coding.position && new {
                Some(raw)
            } else {
                held(state.coding, q)
            }
            &&& held(after.data, q) == held(state.data, q)
            &&& after.data.len() == if shaped && state.data.len() < coding.num_data_shreds {
                coding.num_data_shreds as nat
            } else {
                state.data.len()
            }
            &&& after.coding.len() >= state.coding.len()
            &&& after.coding.len() > coding.position
            &&& shaped ==> after.coding.len() >= coding.num_coding_shreds
            &&& after.coding_count == state.coding_count + (if new {
                1nat
            } else {
                0
            })
            &&& after.num_data == if shaped {
                Some(coding.num_data_shreds)
            } else {
                state.num_data
            }
            &&& after.num_coding == if shaped {
                Some(coding.num_coding_shreds)
            } else {
                state.num_coding
            }
            &&& after.variant == if state.variant is None {
                Some(common.variant)
            } else {
                state.variant
            }
            &&& after.data_count == state.data_count
            &&& after.slot == state.slot
            &&& after.fec_set_index == state.fec_set_index
        }),
{
}

/// A set is complete exactly where its shape is known and as many shreds have arrived
/// as it has data shreds, whichever they are.
pub proof fn any_shreds_complete_a_set(state: FecSetState)
    ensures
        state.complete() <==> state.num_data is Some && state.data_count + state.coding_count
            >= state.num_data->0,
{
}

/// The recovery looks at exactly the places of the shape. Without a shape these are
/// the places that there are, as far as a `u16` counts them.
pub proof fn recovery_looks_at_the_shape(state: FecSetState, i: int)
    ensures
        ({
            let t = state.trimmed();
            &&& t.data.len() == if state.num_data is Some {
                state.num_data->0 as int
            } else {
                state.data.len() as int % 65536
            }
            &&& t.coding.len() == if state.num_coding is Some {
                state.num_coding->0 as int
            } else {
                state.coding.len() as int % 65536
            }
            &&& 0 <= i < t.data.len() ==> t.data[i] == held(state.data, i)
            &&& 0 <= i < t.coding.len() ==> t.coding[i] == held(state.coding, i)
            &&& t.slot == state.slot
            &&& t.fec_set_index == state.fec_set_index
            &&& t.num_data == state.num_data
            &&& t.num_coding == state.num_coding
            &&& t.variant == state.variant
            &&& t.data_count == state.data_count
            &&& t.coding_count == state.coding_count
        }),
{
}

/// The number of shards that are there is the number of places at which one is.
pub proof fn shards_are_counted(raws: Seq<Option<Seq<u8>>>)
    ensures
        filled(raws).finite(),
        count_present(raws) == filled(raws).len(),
    decreases raws.len(),
{
    if raws.len() == 0 {
        assert(filled(raws) =~= Set::empty());
    } else {
        let front = raws.drop_last();
        let last = raws.len() - 1;
        shards_are_counted(front);
        assert(!filled(front).contains(last));
        if raws.last() is Some {
            assert(filled(raws) =~= filled(front).insert(last));
        } else {
            assert(filled(raws) =~= filled(front));
        }
    }
}

/// The excess is that of the first shred that is longer than the overhead, in full;
/// 0 where there is none.
proof fn lemma_first_excess(raws: Seq<Option<Seq<u8>>>, overhead: nat, j: int)
    requires
        0 <= j <= raws.len(),
        forall|k: int|
            0 <= k < j && (#[trigger] raws[k]) is Some ==> raws[k]->0.len() <= overhead,
        j < raws.len() ==> raws[j] is Some && raws[j]->0.len() > overhead,
    ensures
        first_excess(raws, overhead) == if j < raws.len() {
            raws[j]->0.len() - overhead
        } else {
            0
        },
    decreases raws.len(),
{
    if raws.len() > 0 && j > 0 {
        let rest = raws.drop_first();
        assert forall|k: int| 0 <= k < j - 1 && (#[trigger] rest[k]) is Some implies rest[
            k]->0.len() <= overhead by {
            assert(rest[k] == raws[k + 1]);
        }
        assert(raws[0] is Some ==> raws[0]->0.len() <= overhead);
        lemma_first_excess(rest, overhead, j - 1);
    }
}

/// The shard size is the whole length of the first coding shred that is longer than
/// its headers and its proof, less these: 89 bytes and the proof.
pub proof fn coding_shred_tells_the_shard_size(state: FecSetState, j: int)
    requires
        0 <= j < state.coding.len(),
        state.coding[j] is Some,
        state.coding[j]->0.len() > 89 + proof_bytes(state.variant),
        forall|k: int|
            0 <= k < j && (#[trigger] state.coding[k]) is Some ==> state.coding[k]->0.len() <= 89
                + proof_bytes(state.variant),
    ensures
        state.shard_size() == state.coding[j]->0.len() - 89 - proof_bytes(state.variant),
{
    lemma_first_excess(state.coding, 89 + proof_bytes(state.variant), j);
}

/// Where no coding shred is longer than its headers and its proof, the shard size is
/// the whole length of the first data shred that is longer than its signature and its
/// proof, less these: 64 bytes and the proof. Where there is none either, the size
/// is 0.
pub proof fn data_shred_tells_the_shard_size(state: FecSetState, j: int)
    requires
        forall|k: int|
            0 <= k < state.coding.len() && (#[trigger] state.coding[k]) is Some
                ==> state.coding[k]->0.len() <= 89 + proof_bytes(state.variant),
        0 <= j <= state.data.len(),
        forall|k: int|
            0 <= k < j && (#[trigger] state.data[k]) is Some ==> state.data[k]->0.len() <= 64
                + proof_bytes(state.variant),
        j < state.data.len() ==> state.data[j] is Some && state.data[j]->0.len() > 64 + proof_bytes(
            state.variant,
        ),
    ensures
        state.shard_size() == if j < state.data.len() {
            state.data[j]->0.len() - 64 - proof_bytes(state.variant)
        } else {
            0
        },
{
    lemma_first_excess(
        state.coding,
        89 + proof_bytes(state.variant),
        state.coding.len() as int,
    );
    lemma_first_excess(state.data, 64 + proof_bytes(state.variant), j);
}

/// An erasure shard has its full size: each byte is that of the shred at its distance
/// from the offset, and 0 beyond the end of the shred.
pub proof fn shard_has_the_bytes_of_its_shred(raw: Seq<u8>, offset: nat, size: nat, k: int)
    requires
        0 <= k < size,
    ensures
        erasure_shard(raw, offset as int, size).len() == size,
        offset + k < raw.len() ==> erasure_shard(raw, offset as int, size)[k] == raw[offset + k],
        offset + k >= raw.len() ==> erasure_shard(raw, offset as int, size)[k] == 0,
{
}

/// The shards of a set: those of the data shreds, from byte 64 on, and after them
/// those of the coding shreds, from byte 89 on; one is there exactly where its shred
/// is.
pub proof fn set_has_the_shards_of_its_shreds(state: FecSetState, i: int)
    requires
        0 <= i < state.data.len() + state.coding.len(),
    ensures
        state.shards().len() == state.data.len() + state.coding.len(),
        ({
            let raw = if i < state.data.len() {
                state.data[i]
            } else {
                state.coding[i - state.data.len()]
            };
            let offset: nat = if i < state.data.len() {
                64
            } else {
                89
            };
            &&& state.shards()[i] is Some <==> raw is Some
            &&& raw is Some ==> {
                &&& state.shards()[i]->0.len() == state.shard_size()
                &&& forall|k: int|
                    0 <= k < state.shard_size() ==> (#[trigger] state.shards()[i]->0[k]) == (if offset
                        + k < raw->0.len() {
                        raw->0[offset + k]
                    } else {
                        0
                    })
            }
        }),
{
}

/// What is read from an erasure shard: the flags are byte 21; the payload starts at
/// byte 24 and ends 64 bytes before the size in bytes 22 and 23, or at the end of
/// the shard.
pub proof fn shard_is_read_in_full(shard: Seq<u8>)
    ensures
        flags_in_shard(shard) == if shard.len() > 21 {
            shard[21]
        } else {
            0
        },
        shard.len() < 24 ==> payload_in_shard(shard) == Seq::<u8>::empty(),
        shard.len() >= 24 ==> {
            let size = shard[22] + 256 * shard[23];
            let end = if size - 64 <= shard.len() {
                size - 64
            } else {
                shard.len() as int
            };
            payload_in_shard(shard) == if end <= 24 {
                Seq::<u8>::empty()
            } else {
                shard.subrange(24, end)
            }
        },
{
    numbers_are_little_endian(shard, 22);
}

/// A missing shred is read from the shard at its place, under the index of that
/// place.
pub proof fn missing_shred_is_read_from_its_shard(state: FecSetState, place: int, shard: Seq<u8>)
    requires
        0 <= place,
        state.fec_set_index + place <= u32::MAX,
    ensures
        state.shred_at(place, shard).index == state.fec_set_index + place,
        state.shred_at(place, shard).flags == flags_in_shard(shard),
        state.shred_at(place, shard).payload == payload_in_shard(shard),
{
}

/// What comes of a recovery, for a set with exactly the places of its shape. Nothing
/// is recovered where no data shred is missing. It fails where no shred tells the
/// size of the shards, and where the code has no coding shreds, more than 256 shreds,
/// or fewer shreds than data shreds. Else every missing data shred is given, read
/// from the shard at its place.
pub proof fn outcome_of_a_recovery(state: FecSetState)
    requires
        state.missing_indices_fit(),
        state.rebuilt().len() == state.data.len() + state.coding.len(),
    ensures
        ({
            let whole = forall|i: int|
                0 <= i < state.data.len() ==> (#[trigger] state.data[i]) is Some;
            let possible = {
                &&& state.coding.len() > 0
                &&& state.data.len() + state.coding.len() <= 256
                &&& filled(state.data).len() + filled(state.coding).len() >= state.data.len()
            };
            let outcome = state.recovered();
            &&& whole ==> outcome == Ok::<Seq<ShredContents>, FecError>(Seq::empty())
            &&& !whole && state.shard_size() == 0 ==> outcome == Err::<
                Seq<ShredContents>,
                FecError,
            >(FecError::UnknownShardSize)
            &&& !whole && state.shard_size() > 0 && !possible ==> outcome == Err::<
                Seq<ShredContents>,
                FecError,
            >(FecError::RecoveryFailed)
            &&& !whole && state.shard_size() > 0 && possible ==> outcome is Ok && {
                let shreds = outcome->Ok_0;
                &&& shreds.len() + filled(state.data).len() == state.data.len()
                &&& forall|i: int|
                    0 <= i < state.data.len() && (#[trigger] state.data[i]) is None
                        ==> shreds.contains(state.shred_at(i, state.rebuilt()[i]))
            }
            &&& state.recovers() <==> !whole && state.shard_size() > 0 && possible
        }),
{
    shards_are_counted(state.data);
    shards_are_counted(state.coding);
    collecting_gives_the_missing_shreds(state, state.rebuilt());
    if state.shard_size() > 0 {
        lemma_reconstructable(state);
    }
}

/// When the calls on a set are possible: there is room for a shred where the counts
/// are below their limit, and for its place; and a recovery is possible where no more
/// data shreds have arrived than the set has, and all its indices are `u32`s.
pub proof fn calls_on_a_set_are_possible(state: FecSetState, shred: ShredView)
    ensures
        state.data_count < usize::MAX && state.coding_count < usize::MAX && (shred is Data
            ==> shred.header().index - state.fec_set_index < usize::MAX) ==> state.room_for(shred),
        state.data_count <= state.trimmed().data.len() && state.fec_set_index
            + state.trimmed().data.len() <= u32::MAX + 1 ==> state.reassembles(),
        state.fec_set_index + state.data.len() <= u32::MAX + 1 ==> state.missing_indices_fit(),
{
}

/// A data shred is missing exactly where its place is one of the set and empty.
pub proof fn missing_means_empty(state: FecSetState, index: int)
    ensures
        state.misses(index) <==> 0 <= index - state.fec_set_index < state.data.len() && held(
            state.data,
            index - state.fec_set_index,
        ) is None,
{
}

/// Results are seen whole: as many shreds, each with its fields, or the same error.
pub proof fn results_are_seen_whole(
    result: Result<Vec<RecoveredShred>, FecError>,
    expected: Result<Seq<ShredContents>, FecError>,
    raws: Seq<Option<Vec<u8>>>,
    i: int,
)
    requires
        same_outcome(result, expected),
    ensures
        result is Ok <==> expected is Ok,
        result is Err ==> result->Err_0 == expected->Err_0,
        result is Ok ==> {
            &&& result->Ok_0@.len() == expected->Ok_0.len()
            &&& 0 <= i < result->Ok_0@.len() ==> {
                &&& result->Ok_0@[i].index == expected->Ok_0[i].index
                &&& result->Ok_0@[i].flags == expected->Ok_0[i].flags
                &&& result->Ok_0@[i].payload@ == expected->Ok_0[i].payload
            }
        },
        shard_bytes(raws).len() == raws.len(),
        0 <= i < raws.len() ==> {
            &&& shard_bytes(raws)[i] is Some <==> raws[i] is Some
            &&& raws[i] is Some ==> shard_bytes(raws)[i]->0 == raws[i]->0@
        },
{
    if result is Ok && 0 <= i < result->Ok_0@.len() {
        assert(shred_contents(result->Ok_0@)[i] == result->Ok_0@[i]@);
    }
    if result is Ok {
        assert(shred_contents(result->Ok_0@).len() == result->Ok_0@.len());
    }
}

/// Recovery gives back what was sent, in full. Let `raws` be the data shreds and
/// `codes` the coding shreds of a set as they were sent, all coding shreds of one
/// length and all data shreds 25 bytes shorter, and let their parts before the proof
/// and after the signature, or the coding header, be one codeword. Where the set
/// holds some of these shreds, and among them a coding shred, its shards are as long
/// as these parts, and each data shred that it recovers has the flags of the one that
/// was sent with its index and the whole payload of that one, from byte 88 to the
/// size in its header.
pub proof fn sent_shreds_come_back_whole(
    state: FecSetState,
    raws: Seq<Seq<u8>>,
    codes: Seq<Seq<u8>>,
    length: nat,
    full: Seq<Seq<u8>>,
    shreds: Seq<ShredContents>,
)
    requires
        raws.len() == state.data.len(),
        codes.len() == state.coding.len(),
        length > 89 + proof_bytes(state.variant),
        forall|i: int| 0 <= i < raws.len() ==> (#[trigger] raws[i]).len() == length - 25,
        forall|i: int|
            0 <= i < raws.len() ==> 88 <= (#[trigger] raws[i])[86] + 256 * raws[i][87] <= length
                - 25 - proof_bytes(state.variant),
        forall|i: int| 0 <= i < codes.len() ==> (#[trigger] codes[i]).len() == length,
        is_codeword(raws.len(), codes.len(), full),
        forall|i: int|
            0 <= i < raws.len() ==> full[i] == (#[trigger] raws[i]).subrange(
                64,
                length - 25 - proof_bytes(state.variant),
            ),
        forall|i: int|
            0 <= i < codes.len() ==> full[raws.len() + i] == (#[trigger] codes[i]).subrange(
                89,
                length - proof_bytes(state.variant),
            ),
        forall|i: int|
            0 <= i < raws.len() && (#[trigger] state.data[i]) is Some ==> state.data[i]->0
                == raws[i],
        forall|i: int|
            0 <= i < codes.len() && (#[trigger] state.coding[i]) is Some ==> state.coding[i]->0
                == codes[i],
        exists|i: int| 0 <= i < codes.len() && (#[trigger] state.coding[i]) is Some,
        state.faithful(shreds),
    ensures
        state.shard_size() == length - 89 - proof_bytes(state.variant),
        forall|j: int|
            0 <= j < shreds.len() ==> {
                let place = (#[trigger] shreds[j]).index - state.fec_set_index;
                let raw = raws[place];
                &&& 0 <= place < raws.len()
                &&& state.data[place] is None
                &&& shreds[j].flags == raw[85]
                &&& shreds[j].payload == raw.subrange(88, raw[86] + 256 * raw[87])
            },
{
    let proof_len = proof_bytes(state.variant);
    let size = (length - 89 - proof_len) as nat;
    let some = choose|i: int| 0 <= i < codes.len() && (#[trigger] state.coding[i]) is Some;
    let first = first_there(state.coding, 0, some);
    coding_shred_tells_the_shard_size(state, first);
    assert(state.shard_size() == size);
    let shards = state.shards();
    assert forall|i: int| 0 <= i < shards.len() && (#[trigger] shards[i]) is Some implies shards[
        i]->0 == full[i] by {
        set_has_the_shards_of_its_shreds(state, i);
        if i < raws.len() {
            assert(state.data[i] is Some);
            assert(raws[i].len() == length - 25);
            assert(full[i] == raws[i].subrange(64, length - 25 - proof_len));
            assert(shards[i]->0 =~= full[i]);
        } else {
            let c = i - raws.len();
            assert(state.coding[c] is Some);
            assert(codes[c].len() == length);
            assert(full[raws.len() + c] == codes[c].subrange(89, length - proof_len));
            assert(shards[i]->0 =~= full[i]);
        }
    }
    assert(state.belongs_to(full));
    assert forall|j: int| 0 <= j < shreds.len() implies {
        let place = (#[trigger] shreds[j]).index - state.fec_set_index;
        let raw = raws[place];
        &&& 0 <= place < raws.len()
        &&& state.data[place] is None
        &&& shreds[j].flags == raw[85]
        &&& shreds[j].payload == raw.subrange(88, raw[86] + 256 * raw[87])
    } by {
        let place = shreds[j].index - state.fec_set_index;
        assert(state.misses(shreds[j].index as int));
        let raw = raws[place];
        let shard = full[place];
        assert(raw.len() == length - 25);
        assert(88 <= raw[86] + 256 * raw[87]);
        assert(shard == raw.subrange(64, length - 25 - proof_len));
        assert(shreds[j] == state.shred_at(place, shard));
        shard_is_read_in_full(shard);
        assert(shard[21] == raw[85] && shard[22] == raw[86] && shard[23] == raw[87]);
        assert(shreds[j].payload =~= raw.subrange(88, raw[86] + 256 * raw[87]));
    }
}

/// The first place at which something is.
proof fn first_there(raws: Seq<Option<Seq<u8>>>, from: int, some: int) -> (first: int)
    requires
        0 <= from <= some < raws.len(),
        raws[some] is Some,
    ensures
        from <= first <= some,
        raws[first] is Some,
        forall|k: int| from <= k < first ==> (#[trigger] raws[k]) is None,
    decreases some - from,
{
    if raws[from] is Some {
        from
    } else {
        let first = first_there(raws, from + 1, some);
        assert forall|k: int| from <= k < first implies (#[trigger] raws[k]) is None by {
            assert(k == from || from + 1 <= k);
        }
        first
    }
}

/// Shards of which none is missing are those that they are made of.
pub proof fn shards_that_are_there(shards: Seq<Seq<u8>>, i: int)
    requires
        0 <= i < shards.len(),
    ensures
        all_present(shards).len() == shards.len(),
        all_present(shards)[i] == Some(shards[i]),
{
}

/// What the errors say. The one on a shred that stays missing names its place, in
/// decimal, between the same words for every place.
pub proof fn errors_name_their_places(index: usize)
    ensures
        FecError::UnknownShardSize.text()
            == "Cannot determine erasure shard size for RS recovery"@,
        FecError::RecoveryFailed.text() == "RS recovery failed"@,
        (FecError::StillMissing { index }).text() == "Data shard "@ + decimal(index as nat)
            + " still missing after recovery"@,
{
}

} // verus!
