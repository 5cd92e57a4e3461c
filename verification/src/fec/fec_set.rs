//! One erasure set: the data and coding shreds of it that have arrived, and the
//! recovery of the data shreds that have not.

use crate::decimal::{decimal, to_decimal};
use crate::fec::reed_solomon::{
    all_present, count_present, drawn_from, is_codeword, reconstructable, reconstructed_shards,
    recover_shards, shard_bytes, shards_have_len, MAX_SHARDS,
};
use crate::shred::coding_header::{CodingHeader, CODING_PAYLOAD_OFFSET};
use crate::shred::common_header::{ShredVariant, SIGNATURE_SIZE};
use crate::shred::data_header::{DataHeader, DATA_PAYLOAD_OFFSET};
use crate::shred::le::{le_u16_at, le_value, read_u16};
use crate::shred::{ParsedShred, ShredView};
use vstd::prelude::*;
use vstd::string::StringExecFns;

verus! {

/// Where the erasure-coded part of a data shred begins.
pub const DATA_ERASURE_OFFSET: usize = SIGNATURE_SIZE;

/// Where the erasure-coded part of a coding shred begins.
pub const CODING_ERASURE_OFFSET: usize = CODING_PAYLOAD_OFFSET;

/// Where the payload of a data shred begins in its erasure shard.
pub const SHARD_PAYLOAD_START: usize = DATA_PAYLOAD_OFFSET - DATA_ERASURE_OFFSET;

/// Where the size field of a data shred lies in its erasure shard.
pub const SHARD_SIZE_FIELD: usize = SHARD_PAYLOAD_START - 2;

/// Where the flags of a data shred lie in its erasure shard.
pub const SHARD_FLAGS_FIELD: usize = 21;

/// Why the missing data shreds of an erasure set could not be recovered.
#[derive(Debug, Clone, Copy, PartialEq, Eq, Structural)]
pub enum FecError {
    /// No shred is long enough to tell the length of the erasure shards.
    UnknownShardSize,
    /// The code cannot recover the missing shards from those that are there.
    RecoveryFailed,
    /// A data shred is still missing after the recovery.
    StillMissing { index: usize },
}

impl FecError {
    /// What the error says of itself.
    pub open spec fn text(self) -> Seq<char> {
        match self {
            FecError::UnknownShardSize => "Cannot determine erasure shard size for RS recovery"@,
            FecError::RecoveryFailed => "RS recovery failed"@,
            FecError::StillMissing { index } => "Data shard "@ + decimal(index as nat)
                + " still missing after recovery"@,
        }
    }

    /// The error in words.
    pub fn message(&self) -> (message: String)
        ensures
            message@ == self.text(),
    {
        match *self {
            FecError::UnknownShardSize => String::from_str(
                "Cannot determine erasure shard size for RS recovery",
            ),
            FecError::RecoveryFailed => String::from_str("RS recovery failed"),
            FecError::StillMissing { index } => {
                let mut message: String = String::from_str("Data shard ");
                let number: String = to_decimal(index);
                message.append(number.as_str());
                message.append(" still missing after recovery");
                message
            },
        }
    }
}

/// What a [`RecoveredShred`] holds.
#[verifier::ext_equal]
pub struct ShredContents {
    pub index: u32,
    pub flags: u8,
    pub payload: Seq<u8>,
}

/// A data shred, reduced to what the assembly of a slot needs.
#[derive(Debug)]
pub struct RecoveredShred {
    pub index: u32,
    pub flags: u8,
    pub payload: Vec<u8>,
}

impl View for RecoveredShred {
    type V = ShredContents;

    open spec fn view(&self) -> ShredContents {
        ShredContents { index: self.index, flags: self.flags, payload: self.payload@ }
    }
}

/// What each of the shreds holds.
pub open spec fn shred_contents(shreds: Seq<RecoveredShred>) -> Seq<ShredContents> {
    Seq::new(shreds.len(), |i: int| shreds[i]@)
}

/// `result` is an error and `expected` the same, or `result` has the shreds of
/// `expected`.
pub open spec fn same_outcome(
    result: Result<Vec<RecoveredShred>, FecError>,
    expected: Result<Seq<ShredContents>, FecError>,
) -> bool {
    match (result, expected) {
        (Ok(shreds), Ok(contents)) => shred_contents(shreds@) == contents,
        (Err(e), Err(f)) => e == f,
        _ => false,
    }
}

/// `raws` with exactly `n` places: what lies beyond is dropped, and new places
/// are empty.
pub open spec fn resized(raws: Seq<Option<Seq<u8>>>, n: nat) -> Seq<Option<Seq<u8>>> {
    Seq::new(
        n,
        |i: int|
            if i < raws.len() {
                raws[i]
            } else {
                None
            },
    )
}

/// `raws` with at least `n` places.
pub open spec fn grown(raws: Seq<Option<Seq<u8>>>, n: nat) -> Seq<Option<Seq<u8>>> {
    if raws.len() < n {
        resized(raws, n)
    } else {
        raws
    }
}

/// Nothing has arrived for place `i`.
pub open spec fn vacant(raws: Seq<Option<Seq<u8>>>, i: int) -> bool {
    i >= raws.len() || raws[i] is None
}

/// `raws` after `raw` has arrived for place `i`: what was there first stays.
pub open spec fn placed(raws: Seq<Option<Seq<u8>>>, i: int, raw: Seq<u8>) -> Seq<
    Option<Seq<u8>>,
> {
    if vacant(raws, i) {
        grown(raws, (i + 1) as nat).update(i, Some(raw))
    } else {
        raws
    }
}

/// How much longer than `overhead` the first shred is that is longer at all; 0
/// if there is none.
pub open spec fn first_excess(raws: Seq<Option<Seq<u8>>>, overhead: nat) -> nat
    decreases raws.len(),
{
    if raws.len() == 0 {
        0
    } else if raws[0] is Some && raws[0]->0.len() > overhead {
        (raws[0]->0.len() - overhead) as nat
    } else {
        first_excess(raws.drop_first(), overhead)
    }
}

/// The `size` bytes of `raw` from `offset` on, with zeros where `raw` has ended.
pub open spec fn erasure_shard(raw: Seq<u8>, offset: int, size: nat) -> Seq<u8> {
    Seq::new(
        size,
        |i: int|
            if offset + i < raw.len() {
                raw[offset + i]
            } else {
                0
            },
    )
}

/// The erasure shard of each shred.
pub open spec fn erasure_shards(raws: Seq<Option<Seq<u8>>>, offset: int, size: nat) -> Seq<
    Option<Seq<u8>>,
> {
    Seq::new(
        raws.len(),
        |i: int|
            match raws[i] {
                Some(raw) => Some(erasure_shard(raw, offset, size)),
                None => None,
            },
    )
}

/// The flags of the data shred whose erasure shard this is.
pub open spec fn flags_in_shard(shard: Seq<u8>) -> u8 {
    if SHARD_FLAGS_FIELD < shard.len() {
        shard[SHARD_FLAGS_FIELD as int]
    } else {
        0
    }
}

/// Where the payload ends in an erasure shard: at the size that the shred gives,
/// or at the end of the shard.
pub open spec fn payload_end_in_shard(shard: Seq<u8>) -> int {
    let end = le_u16_at(shard, SHARD_SIZE_FIELD as int) - DATA_ERASURE_OFFSET;
    if end <= shard.len() {
        end
    } else {
        shard.len() as int
    }
}

/// The payload of the data shred whose erasure shard this is.
pub open spec fn payload_in_shard(shard: Seq<u8>) -> Seq<u8> {
    if shard.len() < SHARD_PAYLOAD_START || payload_end_in_shard(shard) <= SHARD_PAYLOAD_START {
        Seq::empty()
    } else {
        shard.subrange(SHARD_PAYLOAD_START as int, payload_end_in_shard(shard))
    }
}

/// What a [`FecSet`] holds.
#[verifier::ext_equal]
pub struct FecSetState {
    pub slot: u64,
    pub fec_set_index: u32,
    /// The number of data shreds, once a coding shred has told it.
    pub num_data: Option<u16>,
    /// The number of coding shreds, once a coding shred has told it.
    pub num_coding: Option<u16>,
    /// The variant of the first shred.
    pub variant: Option<ShredVariant>,
    /// The data shreds by their place in the set.
    pub data: Seq<Option<Seq<u8>>>,
    /// The coding shreds by their position.
    pub coding: Seq<Option<Seq<u8>>>,
    pub data_count: nat,
    pub coding_count: nat,
}

impl FecSetState {
    /// The erasure set of which nothing has arrived.
    pub open spec fn fresh(slot: u64, fec_set_index: u32) -> Self {
        FecSetState {
            slot,
            fec_set_index,
            num_data: None,
            num_coding: None,
            variant: None,
            data: Seq::empty(),
            coding: Seq::empty(),
            data_count: 0,
            coding_count: 0,
        }
    }

    /// The place of the data shred `index` in the set.
    pub open spec fn place_of(self, index: u32) -> int {
        if index >= self.fec_set_index {
            index - self.fec_set_index
        } else {
            0
        }
    }

    /// With the variant of the first shred known.
    pub open spec fn with_variant(self, variant: ShredVariant) -> Self {
        if self.variant is None {
            FecSetState { variant: Some(variant), ..self }
        } else {
            self
        }
    }

    /// With the shape of the set known. The first coding shred tells it.
    pub open spec fn with_shape(self, coding: CodingHeader) -> Self {
        if self.num_data is None {
            FecSetState {
                num_data: Some(coding.num_data_shreds),
                num_coding: Some(coding.num_coding_shreds),
                data: grown(self.data, coding.num_data_shreds as nat),
                coding: grown(self.coding, coding.num_coding_shreds as nat),
                ..self
            }
        } else {
            self
        }
    }

    /// After a data shred has arrived.
    pub open spec fn with_data(self, variant: ShredVariant, index: u32, raw: Seq<u8>) -> Self {
        let place = self.place_of(index);
        FecSetState {
            data: placed(self.data, place, raw),
            data_count: if vacant(self.data, place) {
                self.data_count + 1
            } else {
                self.data_count
            },
            ..self.with_variant(variant)
        }
    }

    /// After a coding shred has arrived.
    pub open spec fn with_coding(
        self,
        variant: ShredVariant,
        header: CodingHeader,
        raw: Seq<u8>,
    ) -> Self {
        let shaped = self.with_variant(variant).with_shape(header);
        FecSetState {
            coding: placed(shaped.coding, header.position as int, raw),
            coding_count: if vacant(self.coding, header.position as int) {
                self.coding_count + 1
            } else {
                self.coding_count
            },
            ..shaped
        }
    }

    /// After a shred has arrived.
    pub open spec fn with_shred(self, shred: ShredView) -> Self {
        match shred {
            ShredView::Data { common, raw, .. } => self.with_data(
                common.variant,
                common.index,
                raw,
            ),
            ShredView::Coding { common, coding, raw } => self.with_coding(
                common.variant,
                coding,
                raw,
            ),
        }
    }

    /// The shape of the set is known, and at least as many shreds have arrived
    /// as the set has data shreds.
    pub open spec fn complete(self) -> bool {
        self.num_data matches Some(n) && self.data_count + self.coding_count >= n
    }

    /// There is a place for the data shred `index`, and for the count of it.
    pub open spec fn room_for_data(self, index: u32) -> bool {
        &&& self.place_of(index) < usize::MAX
        &&& vacant(self.data, self.place_of(index)) ==> self.data_count < usize::MAX
    }

    /// There is room for the count of the coding shred at `position`.
    pub open spec fn room_for_coding(self, position: u16) -> bool {
        vacant(self.coding, position as int) ==> self.coding_count < usize::MAX
    }

    /// There is room for the shred.
    pub open spec fn room_for(self, shred: ShredView) -> bool {
        match shred {
            ShredView::Data { common, .. } => self.room_for_data(common.index),
            ShredView::Coding { coding, .. } => self.room_for_coding(coding.position),
        }
    }

    /// The counts are the numbers of shreds that are there.
    pub open spec fn tight(self) -> bool {
        &&& self.data_count == count_present(self.data)
        &&& self.coding_count == count_present(self.coding)
    }

    /// The number of data shreds with which the recovery reckons. As long as no
    /// coding shred has told it, it is the number of places, as a `u16`.
    pub open spec fn data_places(self) -> nat {
        match self.num_data {
            Some(n) => n as nat,
            None => self.data.len() % 65536,
        }
    }

    /// The number of coding shreds with which the recovery reckons.
    pub open spec fn coding_places(self) -> nat {
        match self.num_coding {
            Some(n) => n as nat,
            None => self.coding.len() % 65536,
        }
    }

    /// With exactly the places of the shape of the set.
    pub open spec fn trimmed(self) -> Self {
        FecSetState {
            data: resized(self.data, self.data_places()),
            coding: resized(self.coding, self.coding_places()),
            ..self
        }
    }

    /// No data shred is missing.
    pub open spec fn all_data_present(self) -> bool {
        forall|i: int| 0 <= i < self.data.len() ==> (#[trigger] self.data[i]) is Some
    }

    /// The length of the Merkle proofs in this set.
    pub open spec fn proof_len(self) -> nat {
        match self.variant {
            Some(variant) => variant.proof_len(),
            None => 0,
        }
    }

    /// The length of the erasure shards, which the first shred tells that is
    /// longer than its headers and its proof; coding shreds come first.
    pub open spec fn shard_size(self) -> nat {
        let by_coding = first_excess(self.coding, CODING_ERASURE_OFFSET as nat + self.proof_len());
        if by_coding > 0 {
            by_coding
        } else {
            first_excess(self.data, DATA_ERASURE_OFFSET as nat + self.proof_len())
        }
    }

    /// The erasure shards of the set, data shards first.
    pub open spec fn shards(self) -> Seq<Option<Seq<u8>>> {
        erasure_shards(self.data, DATA_ERASURE_OFFSET as int, self.shard_size())
            + erasure_shards(self.coding, CODING_ERASURE_OFFSET as int, self.shard_size())
    }

    /// Data shreds are missing and the code can recover them.
    pub open spec fn recovers(self) -> bool {
        &&& !self.all_data_present()
        &&& self.shard_size() > 0
        &&& reconstructable(self.data.len(), self.coding.len(), self.shards())
    }

    /// The data shred at `place`, read from its erasure shard.
    pub open spec fn shred_at(self, place: int, shard: Seq<u8>) -> ShredContents {
        ShredContents {
            index: (self.fec_set_index + place) as u32,
            flags: flags_in_shard(shard),
            payload: payload_in_shard(shard),
        }
    }

    /// The data shreds that are missing among the first `n`, in order, read from
    /// the erasure shards `shards`.
    pub open spec fn collected(self, shards: Seq<Option<Seq<u8>>>, n: int) -> Result<
        Seq<ShredContents>,
        FecError,
    >
        decreases n,
    {
        if n <= 0 {
            Ok(Seq::empty())
        } else {
            match self.collected(shards, n - 1) {
                Err(e) => Err(e),
                Ok(before) => match (self.data[n - 1], shards[n - 1]) {
                    (Some(_), _) => Ok(before),
                    (None, Some(shard)) => Ok(before.push(self.shred_at(n - 1, shard))),
                    (None, None) => Err(FecError::StillMissing { index: (n - 1) as usize }),
                },
            }
        }
    }

    /// All erasure shards of the trimmed set, as the code gives them from those
    /// that are there.
    pub open spec fn rebuilt(self) -> Seq<Seq<u8>> {
        reconstructed_shards(self.data.len(), self.coding.len(), self.shards())
    }

    /// The missing data shreds of a trimmed set.
    pub open spec fn recovered(self) -> Result<Seq<ShredContents>, FecError> {
        if self.all_data_present() {
            Ok(Seq::empty())
        } else if self.shard_size() == 0 {
            Err(FecError::UnknownShardSize)
        } else if !reconstructable(self.data.len(), self.coding.len(), self.shards()) {
            Err(FecError::RecoveryFailed)
        } else {
            self.collected(all_present(self.rebuilt()), self.data.len() as int)
        }
    }

    /// The data shred `index` is missing in the trimmed set.
    pub open spec fn misses(self, index: int) -> bool {
        0 <= index - self.fec_set_index < self.data.len() && self.data[index
            - self.fec_set_index] is None
    }

    /// `shreds` are the missing data shreds: each of them once, in the order of
    /// their indices, and no other.
    pub open spec fn lists_missing(self, shreds: Seq<ShredContents>) -> bool {
        &&& shreds.len() + count_present(self.data) == self.data.len()
        &&& forall|j: int, k: int|
            0 <= j < k < shreds.len() ==> (#[trigger] shreds[j]).index < (#[trigger] shreds[k]).index
        &&& forall|j: int|
            0 <= j < shreds.len() ==> self.misses((#[trigger] shreds[j]).index as int)
    }

    /// Each of `shreds` is read from the erasure shard of `full` at its place.
    pub open spec fn read_from(self, shreds: Seq<ShredContents>, full: Seq<Seq<u8>>) -> bool {
        forall|j: int|
            0 <= j < shreds.len() ==> {
                let place = (#[trigger] shreds[j]).index - self.fec_set_index;
                shreds[j] == self.shred_at(place, full[place])
            }
    }

    /// `full` is a codeword of the shape of the set, and the erasure shards that
    /// are there are drawn from it.
    pub open spec fn belongs_to(self, full: Seq<Seq<u8>>) -> bool {
        is_codeword(self.data.len(), self.coding.len(), full) && drawn_from(self.shards(), full)
    }

    /// `shreds` are the missing data shreds, as they are in every codeword to
    /// which the set belongs.
    pub open spec fn faithful(self, shreds: Seq<ShredContents>) -> bool {
        &&& self.lists_missing(shreds)
        &&& forall|full: Seq<Seq<u8>>| #[trigger]
            self.belongs_to(full) ==> self.read_from(shreds, full)
    }

    /// The indices of the missing data shreds of a trimmed set are `u32`s.
    pub open spec fn missing_indices_fit(self) -> bool {
        forall|i: int|
            0 <= i < self.data.len() && (#[trigger] self.data[i]) is None ==> self.fec_set_index + i
                <= u32::MAX
    }

    /// Where a recovery takes place, no more data shreds have arrived than the
    /// set has, and the missing ones have an index.
    pub open spec fn reassembles(self) -> bool {
        self.trimmed().recovers() ==> self.data_count <= self.data_places()
            && self.trimmed().missing_indices_fit()
    }
}

/// The shreds of one erasure set that have arrived.
#[derive(Debug)]
pub struct FecSet {
    pub slot: u64,
    pub fec_set_index: u32,
    num_data: Option<u16>,
    num_coding: Option<u16>,
    variant: Option<ShredVariant>,
    data_raws: Vec<Option<Vec<u8>>>,
    coding_raws: Vec<Option<Vec<u8>>>,
    data_count: usize,
    coding_count: usize,
}

impl View for FecSet {
    type V = FecSetState;

    closed spec fn view(&self) -> FecSetState {
        FecSetState {
            slot: self.slot,
            fec_set_index: self.fec_set_index,
            num_data: self.num_data,
            num_coding: self.num_coding,
            variant: self.variant,
            data: shard_bytes(self.data_raws@),
            coding: shard_bytes(self.coding_raws@),
            data_count: self.data_count as nat,
            coding_count: self.coding_count as nat,
        }
    }
}

/// Adds empty places until there are at least `n`.
fn grow(raws: &mut Vec<Option<Vec<u8>>>, n: usize)
    ensures
        shard_bytes(final(raws)@) == grown(shard_bytes(old(raws)@), n as nat),
        final(raws)@.len() == if old(raws)@.len() < n {
            n as nat
        } else {
            old(raws)@.len()
        },
{
    while raws.len() < n
        invariant
            old(raws)@.len() <= raws@.len(),
            raws@.len() <= n || raws@.len() == old(raws)@.len(),
            shard_bytes(raws@) == grown(shard_bytes(old(raws)@), raws@.len()),
        decreases n - raws@.len(),
    {
        let ghost before = raws@;
        raws.push(None);
        assert(shard_bytes(raws@) =~= shard_bytes(before).push(None));
        assert(shard_bytes(raws@) =~= grown(shard_bytes(old(raws)@), raws@.len()));
    }
    assert(shard_bytes(raws@) =~= grown(shard_bytes(old(raws)@), n as nat));
}

/// Drops or adds places until there are exactly `n`.
fn resize(raws: &mut Vec<Option<Vec<u8>>>, n: usize)
    ensures
        shard_bytes(final(raws)@) == resized(shard_bytes(old(raws)@), n as nat),
        final(raws)@.len() == n,
{
    if raws.len() > n {
        raws.truncate(n);
        assert(shard_bytes(raws@) =~= resized(shard_bytes(old(raws)@), n as nat));
    } else {
        grow(raws, n);
        assert(shard_bytes(raws@) =~= resized(shard_bytes(old(raws)@), n as nat));
    }
}

/// Puts `raw` at place `i` unless something is there; whether it did so.
fn place(raws: &mut Vec<Option<Vec<u8>>>, i: usize, raw: Vec<u8>) -> (new: bool)
    requires
        i < usize::MAX,
    ensures
        shard_bytes(final(raws)@) == placed(shard_bytes(old(raws)@), i as int, raw@),
        new == vacant(shard_bytes(old(raws)@), i as int),
{
    grow(raws, i + 1);
    let ghost before = shard_bytes(raws@);
    if raws[i].is_none() {
        raws[i] = Some(raw);
        proof {
            assert(before[i as int] is None);
            assert(shard_bytes(raws@) =~= before.update(i as int, Some(raw@)));
        }
        true
    } else {
        proof {
            assert(before[i as int] is Some);
        }
        false
    }
}

/// A copy of the shreds.
fn copy_raws(raws: &Vec<Option<Vec<u8>>>) -> (copy: Vec<Option<Vec<u8>>>)
    ensures
        shard_bytes(copy@) == shard_bytes(raws@),
{
    let mut copy: Vec<Option<Vec<u8>>> = Vec::new();
    let mut i: usize = 0;
    assert(shard_bytes(copy@) =~= shard_bytes(raws@).take(0));
    while i < raws.len()
        invariant
            i <= raws@.len(),
            shard_bytes(copy@) == shard_bytes(raws@).take(i as int),
        decreases raws@.len() - i,
    {
        let ghost before = copy@;
        let one: Option<Vec<u8>> = match &raws[i] {
            Some(raw) => {
                let bytes: Vec<u8> = raw.clone();
                assert(bytes@ =~= raw@);
                Some(bytes)
            },
            None => None,
        };
        copy.push(one);
        i = i + 1;
        proof {
            let all = shard_bytes(raws@);
            assert(shard_bytes(copy@) =~= shard_bytes(before).push(all[i - 1]));
            assert(all.take(i as int) =~= all.take(i - 1).push(all[i - 1]));
        }
    }
    assert(shard_bytes(raws@).take(i as int) =~= shard_bytes(raws@));
    copy
}

/// How much longer than `overhead` the first of the first `n` shreds is that is
/// longer at all; 0 if there is none.
fn first_excess_of(raws: &Vec<Option<Vec<u8>>>, n: usize, overhead: usize) -> (excess: usize)
    ensures
        excess == first_excess(resized(shard_bytes(raws@), n as nat), overhead as nat),
{
    let ghost all = resized(shard_bytes(raws@), n as nat);
    let mut i: usize = 0;
    assert(all.skip(0) =~= all);
    while i < n
        invariant
            i <= n,
            all == resized(shard_bytes(raws@), n as nat),
            first_excess(all, overhead as nat) == first_excess(
                all.skip(i as int),
                overhead as nat,
            ),
        decreases n - i,
    {
        proof {
            assert(all.skip(i as int).drop_first() =~= all.skip(i + 1));
            assert(all.skip(i as int)[0] == all[i as int]);
        }
        if i < raws.len() {
            if let Some(raw) = &raws[i] {
                if raw.len() > overhead {
                    return raw.len() - overhead;
                }
            }
        }
        i = i + 1;
    }
    0
}

/// Appends the erasure shard of each shred.
fn push_erasure_shards(
    shards: &mut Vec<Option<Vec<u8>>>,
    raws: &Vec<Option<Vec<u8>>>,
    offset: usize,
    size: usize,
)
    ensures
        shard_bytes(final(shards)@) == shard_bytes(old(shards)@) + erasure_shards(
            shard_bytes(raws@),
            offset as int,
            size as nat,
        ),
{
    let ghost all = erasure_shards(shard_bytes(raws@), offset as int, size as nat);
    let mut i: usize = 0;
    assert(shard_bytes(shards@) =~= shard_bytes(old(shards)@) + all.take(0));
    while i < raws.len()
        invariant
            i <= raws@.len(),
            all == erasure_shards(shard_bytes(raws@), offset as int, size as nat),
            shard_bytes(shards@) == shard_bytes(old(shards)@) + all.take(i as int),
        decreases raws@.len() - i,
    {
        let ghost before = shards@;
        let shard: Option<Vec<u8>> = match &raws[i] {
            Some(raw) => Some(FecSet::extract_erasure_shard(raw.as_slice(), offset, size)),
            None => None,
        };
        shards.push(shard);
        i = i + 1;
        proof {
            assert(shard_bytes(shards@) =~= shard_bytes(before).push(all[i - 1]));
            assert(all.take(i as int) =~= all.take(i - 1).push(all[i - 1]));
            assert(shard_bytes(shards@) =~= shard_bytes(old(shards)@) + all.take(i as int));
        }
    }
    assert(all.take(i as int) =~= all);
}

/// The number of shreds that are there among the first `n` places.
fn count_first(raws: &Vec<Option<Vec<u8>>>, n: usize) -> (count: usize)
    ensures
        count == count_present(resized(shard_bytes(raws@), n as nat)),
        count <= n,
{
    let ghost all = resized(shard_bytes(raws@), n as nat);
    let mut count: usize = 0;
    let mut i: usize = 0;
    while i < n
        invariant
            count <= i <= n,
            all == resized(shard_bytes(raws@), n as nat),
            count == count_present(all.take(i as int)),
        decreases n - i,
    {
        proof {
            assert(all.take(i + 1).drop_last() =~= all.take(i as int));
            assert(all.take(i + 1).last() == all[i as int]);
        }
        if i < raws.len() && raws[i].is_some() {
            count = count + 1;
        }
        i = i + 1;
    }
    assert(all.take(n as int) =~= all);
    count
}

proof fn lemma_count_concat(a: Seq<Option<Seq<u8>>>, b: Seq<Option<Seq<u8>>>)
    ensures
        count_present(a + b) == count_present(a) + count_present(b),
    decreases b.len(),
{
    if b.len() == 0 {
        assert(a + b =~= a);
    } else {
        assert((a + b).drop_last() =~= a + b.drop_last());
        lemma_count_concat(a, b.drop_last());
    }
}

/// A shred is there exactly where its erasure shard is.
proof fn lemma_count_erasure_shards(raws: Seq<Option<Seq<u8>>>, offset: int, size: nat)
    ensures
        count_present(erasure_shards(raws, offset, size)) == count_present(raws),
    decreases raws.len(),
{
    if raws.len() > 0 {
        assert(erasure_shards(raws, offset, size).drop_last() =~= erasure_shards(
            raws.drop_last(),
            offset,
            size,
        ));
        lemma_count_erasure_shards(raws.drop_last(), offset, size);
    }
}

/// When the erasure shards of a set can be reconstructed.
pub(crate) proof fn lemma_reconstructable(state: FecSetState)
    requires
        state.shard_size() > 0,
    ensures
        reconstructable(state.data.len(), state.coding.len(), state.shards()) <==> {
            &&& 0 < state.data.len()
            &&& 0 < state.coding.len()
            &&& state.data.len() + state.coding.len() <= MAX_SHARDS
            &&& state.data.len() <= count_present(state.data) + count_present(state.coding)
        },
{
    let size = state.shard_size();
    let data = erasure_shards(state.data, DATA_ERASURE_OFFSET as int, size);
    let coding = erasure_shards(state.coding, CODING_ERASURE_OFFSET as int, size);
    lemma_count_concat(data, coding);
    lemma_count_erasure_shards(state.data, DATA_ERASURE_OFFSET as int, size);
    lemma_count_erasure_shards(state.coding, CODING_ERASURE_OFFSET as int, size);
    assert(shards_have_len(state.shards(), size));
}

/// Once a shard is missing, no later one makes up for it.
proof fn lemma_first_error_stays(
    state: FecSetState,
    shards: Seq<Option<Seq<u8>>>,
    i: int,
    n: int,
)
    requires
        0 <= i <= n,
        state.collected(shards, i) is Err,
    ensures
        state.collected(shards, n) == state.collected(shards, i),
    decreases n - i,
{
    if i < n {
        lemma_first_error_stays(state, shards, i, n - 1);
    }
}

impl FecSet {
    /// An erasure set of which no shred has arrived.
    pub fn new(slot: u64, fec_set_index: u32) -> (set: Self)
        ensures
            set@ == FecSetState::fresh(slot, fec_set_index),
    {
        let set = FecSet {
            slot,
            fec_set_index,
            num_data: None,
            num_coding: None,
            variant: None,
            data_raws: Vec::new(),
            coding_raws: Vec::new(),
            data_count: 0,
            coding_count: 0,
        };
        assert(set@ =~= FecSetState::fresh(slot, fec_set_index));
        set
    }

    /// The places are counted by `usize`s.
    pub proof fn places_are_countable(&self)
        ensures
            self@.data.len() <= usize::MAX,
            self@.coding.len() <= usize::MAX,
    {
        assert(self.data_raws@.len() == self.data_raws.len());
        assert(self.coding_raws@.len() == self.coding_raws.len());
    }

    /// Whether [`FecSet::insert_data`] can be called with `index`.
    pub fn has_room_for_data(&self, index: u32) -> (r: bool)
        ensures
            r == self@.room_for_data(index),
    {
        let place: usize = index.saturating_sub(self.fec_set_index) as usize;
        let new: bool = place >= self.data_raws.len() || self.data_raws[place].is_none();
        place < usize::MAX && (!new || self.data_count < usize::MAX)
    }

    /// Whether [`FecSet::insert_coding`] can be called with `position`.
    pub fn has_room_for_coding(&self, position: u16) -> (r: bool)
        ensures
            r == self@.room_for_coding(position),
    {
        let place: usize = position as usize;
        let new: bool = place >= self.coding_raws.len() || self.coding_raws[place].is_none();
        !new || self.coding_count < usize::MAX
    }

    /// Files a data shred; whether the set is complete now. Of two shreds for
    /// one place the first stays.
    pub fn insert_data(&mut self, variant: ShredVariant, index: u32, raw: Vec<u8>) -> (complete:
        bool)
        requires
            old(self)@.room_for_data(index),
        ensures
            final(self)@ == old(self)@.with_data(variant, index, raw@),
            complete == final(self)@.complete(),
    {
        if self.variant.is_none() {
            self.variant = Some(variant);
        }
        let local_idx: usize = index.saturating_sub(self.fec_set_index) as usize;
        if place(&mut self.data_raws, local_idx, raw) {
            self.data_count = self.data_count + 1;
        }
        assert(self@ =~= old(self)@.with_data(variant, index, raw@));
        self.is_complete()
    }

    /// Files a coding shred; whether the set is complete now. The first coding
    /// shred tells the shape of the set. Of two shreds for one position the first
    /// stays.
    pub fn insert_coding(
        &mut self,
        variant: ShredVariant,
        coding: &CodingHeader,
        raw: Vec<u8>,
    ) -> (complete: bool)
        requires
            old(self)@.room_for_coding(coding.position),
        ensures
            final(self)@ == old(self)@.with_coding(variant, *coding, raw@),
            complete == final(self)@.complete(),
    {
        if self.variant.is_none() {
            self.variant = Some(variant);
        }
        self.set_fec_params(coding);
        let position: usize = coding.position as usize;
        if place(&mut self.coding_raws, position, raw) {
            self.coding_count = self.coding_count + 1;
        }
        assert(self@ =~= old(self)@.with_coding(variant, *coding, raw@));
        self.is_complete()
    }

    /// Files a shred; whether the set is complete now.
    pub fn insert(&mut self, shred: &ParsedShred) -> (complete: bool)
        requires
            old(self)@.room_for(shred@),
        ensures
            final(self)@ == old(self)@.with_shred(shred@),
            complete == final(self)@.complete(),
    {
        match shred {
            ParsedShred::Data { common, raw, .. } => {
                let copy: Vec<u8> = raw.clone();
                assert(copy@ =~= raw@);
                self.insert_data(common.variant, common.index, copy)
            },
            ParsedShred::Coding { common, coding, raw } => {
                let copy: Vec<u8> = raw.clone();
                assert(copy@ =~= raw@);
                self.insert_coding(common.variant, coding, copy)
            },
        }
    }

    /// Whether enough shreds have arrived to have all data shreds.
    pub fn is_complete(&self) -> (complete: bool)
        ensures
            complete == self@.complete(),
    {
        match self.num_data {
            None => false,
            Some(num_data) => {
                let num_data: usize = num_data as usize;
                self.data_count >= num_data || self.coding_count >= num_data - self.data_count
            },
        }
    }

    /// Takes the shape of the set from the first coding shred.
    fn set_fec_params(&mut self, coding: &CodingHeader)
        ensures
            final(self)@ == old(self)@.with_shape(*coding),
    {
        if self.num_data.is_none() {
            self.num_data = Some(coding.num_data_shreds);
            self.num_coding = Some(coding.num_coding_shreds);
            grow(&mut self.data_raws, coding.num_data_shreds as usize);
            grow(&mut self.coding_raws, coding.num_coding_shreds as usize);
        }
        assert(self@ =~= old(self)@.with_shape(*coding));
    }

    /// The number of data shreds with which the recovery reckons.
    fn data_places(&self) -> (n: usize)
        ensures
            n == self@.data_places(),
            n <= 65535,
    {
        match self.num_data {
            Some(n) => n as usize,
            None => self.data_raws.len() % 65536,
        }
    }

    /// The number of coding shreds with which the recovery reckons.
    fn coding_places(&self) -> (n: usize)
        ensures
            n == self@.coding_places(),
            n <= 65535,
    {
        match self.num_coding {
            Some(n) => n as usize,
            None => self.coding_raws.len() % 65536,
        }
    }

    /// The length of the Merkle proofs in this set.
    fn proof_bytes(&self) -> (n: usize)
        ensures
            n == self@.proof_len(),
            n <= 5100,
    {
        match self.variant {
            Some(variant) => variant.merkle_proof_bytes(),
            None => 0,
        }
    }

    /// The length of the erasure shards, as the shreds tell it; 0 where none
    /// does.
    pub fn compute_erasure_shard_size(&self) -> (size: usize)
        ensures
            size == self@.shard_size(),
    {
        let size: usize = self.shard_size_within(self.data_raws.len(), self.coding_raws.len());
        proof {
            assert(resized(self@.data, self@.data.len()) =~= self@.data);
            assert(resized(self@.coding, self@.coding.len()) =~= self@.coding);
        }
        size
    }

    /// The length of the erasure shards, as the shreds at the first `num_data` and
    /// `num_coding` places tell it; 0 where none does.
    fn shard_size_within(&self, num_data: usize, num_coding: usize) -> (size: usize)
        ensures
            size == (FecSetState {
                data: resized(self@.data, num_data as nat),
                coding: resized(self@.coding, num_coding as nat),
                ..self@
            }).shard_size(),
    {
        let proof_bytes: usize = self.proof_bytes();
        let by_coding: usize = first_excess_of(
            &self.coding_raws,
            num_coding,
            CODING_ERASURE_OFFSET + proof_bytes,
        );
        if by_coding > 0 {
            return by_coding;
        }
        first_excess_of(&self.data_raws, num_data, DATA_ERASURE_OFFSET + proof_bytes)
    }

    /// The `shard_size` bytes of `raw` from `offset` on, with zeros where `raw`
    /// has ended.
    pub fn extract_erasure_shard(raw: &[u8], offset: usize, shard_size: usize) -> (shard: Vec<u8>)
        ensures
            shard@ == erasure_shard(raw@, offset as int, shard_size as nat),
    {
        let mut shard: Vec<u8> = Vec::new();
        let len: usize = raw.len();
        let avail: usize = len.saturating_sub(offset);
        let mut i: usize = 0;
        while i < shard_size
            invariant
                i <= shard_size,
                len == raw@.len(),
                avail == if len >= offset {
                    len - offset
                } else {
                    0
                },
                shard@ == erasure_shard(raw@, offset as int, i as nat),
            decreases shard_size - i,
        {
            if i < avail {
                shard.push(raw[offset + i]);
            } else {
                shard.push(0);
            }
            i = i + 1;
            assert(shard@ =~= erasure_shard(raw@, offset as int, i as nat));
        }
        shard
    }

    /// The flags of the data shred whose erasure shard this is.
    pub fn extract_flags_from_erasure_shard(shard: &[u8]) -> (flags: u8)
        ensures
            flags == flags_in_shard(shard@),
    {
        if SHARD_FLAGS_FIELD < shard.len() {
            shard[SHARD_FLAGS_FIELD]
        } else {
            0
        }
    }

    /// The payload of the data shred whose erasure shard this is.
    pub fn extract_payload_from_erasure_shard(shard: &[u8]) -> (payload: Vec<u8>)
        ensures
            payload@ == payload_in_shard(shard@),
    {
        if shard.len() < SHARD_PAYLOAD_START {
            return Vec::new();
        }
        let size: usize = read_u16(shard, SHARD_SIZE_FIELD) as usize;
        let mut end: usize = size.saturating_sub(DATA_ERASURE_OFFSET);
        if end > shard.len() {
            end = shard.len();
        }
        if end <= SHARD_PAYLOAD_START {
            return Vec::new();
        }
        vstd::slice::slice_to_vec(vstd::slice::slice_subrange(shard, SHARD_PAYLOAD_START, end))
    }

    /// Whether no data shred of the trimmed set is missing.
    fn has_all_data(&self) -> (r: bool)
        ensures
            r == self@.trimmed().all_data_present(),
    {
        let n: usize = self.data_places();
        let ghost data = self@.trimmed().data;
        let mut i: usize = 0;
        while i < n
            invariant
                i <= n,
                data == self@.trimmed().data,
                data.len() == n,
                forall|j: int| 0 <= j < i ==> (#[trigger] data[j]) is Some,
            decreases n - i,
        {
            if i >= self.data_raws.len() || self.data_raws[i].is_none() {
                assert(data[i as int] is None);
                return false;
            }
            assert(data[i as int] is Some);
            i = i + 1;
        }
        true
    }

    /// The missing data shreds, in order, read from the erasure shards `shards`,
    /// data shards first. It fails on the first missing data shred whose erasure
    /// shard is missing too.
    pub fn collect_recovered(&self, shards: &Vec<Option<Vec<u8>>>) -> (result: Result<
        Vec<RecoveredShred>,
        FecError,
    >)
        requires
            self@.data.len() <= shards@.len(),
            self@.data_count <= self@.data.len(),
            self@.missing_indices_fit(),
        ensures
            same_outcome(
                result,
                self@.collected(shard_bytes(shards@), self@.data.len() as int),
            ),
    {
        let num_data: usize = self.data_raws.len();
        let mut result: Vec<RecoveredShred> = Vec::with_capacity(num_data - self.data_count);
        let ghost state = self@;
        let ghost bytes = shard_bytes(shards@);
        let mut i: usize = 0;
        assert(shred_contents(result@) =~= Seq::empty());
        while i < num_data
            invariant
                i <= num_data,
                state == self@,
                bytes == shard_bytes(shards@),
                num_data == self.data_raws@.len(),
                num_data == state.data.len(),
                num_data <= shards@.len(),
                state.missing_indices_fit(),
                state.collected(bytes, i as int) == Ok::<_, FecError>(shred_contents(result@)),
            decreases num_data - i,
        {
            let ghost before = result@;
            proof {
                assert(state.data[i as int] is Some <==> self.data_raws@[i as int] is Some);
            }
            if self.data_raws[i].is_none() {
                match &shards[i] {
                    Some(shard) => {
                        let recovered = RecoveredShred {
                            index: self.fec_set_index + i as u32,
                            flags: Self::extract_flags_from_erasure_shard(shard.as_slice()),
                            payload: Self::extract_payload_from_erasure_shard(shard.as_slice()),
                        };
                        result.push(recovered);
                        proof {
                            assert(recovered@ == state.shred_at(i as int, shard@));
                            assert(shred_contents(result@) =~= shred_contents(before).push(
                                recovered@,
                            ));
                        }
                    },
                    None => {
                        proof {
                            lemma_first_error_stays(state, bytes, i + 1, num_data as int);
                        }
                        return Err(FecError::StillMissing { index: i });
                    },
                }
            }
            i = i + 1;
        }
        Ok(result)
    }

    /// Whether data shreds are missing and the code can recover them.
    pub fn can_recover(&self) -> (r: bool)
        ensures
            r == self@.trimmed().recovers(),
    {
        let ghost state = self@.trimmed();
        let num_data: usize = self.data_places();
        let num_coding: usize = self.coding_places();
        if self.has_all_data() || self.shard_size_within(num_data, num_coding) == 0 {
            return false;
        }
        let present: usize = count_first(&self.data_raws, num_data) + count_first(
            &self.coding_raws,
            num_coding,
        );
        proof {
            lemma_reconstructable(state);
            if num_data == 0 {
                assert(state.all_data_present());
            }
        }
        num_coding > 0 && num_data + num_coding <= MAX_SHARDS && present >= num_data
    }

    /// Whether the data shred `index` belongs to the set and has not arrived.
    pub fn is_missing(&self, index: u32) -> (r: bool)
        ensures
            r == self@.trimmed().misses(index as int),
    {
        if index < self.fec_set_index {
            return false;
        }
        let place: usize = (index - self.fec_set_index) as usize;
        place < self.data_places() && (place >= self.data_raws.len()
            || self.data_raws[place].is_none())
    }

    /// Whether [`FecSet::reassemble`] can be called: where a recovery takes
    /// place, no more data shreds have arrived than the set has, and the indices
    /// of the missing ones are `u32`s.
    pub fn can_reassemble(&self) -> (r: bool)
        ensures
            r == self@.reassembles(),
    {
        let ghost state = self@.trimmed();
        if !self.can_recover() {
            return true;
        }
        let num_data: usize = self.data_places();
        if self.data_count > num_data {
            return false;
        }
        let mut i: usize = 0;
        while i < num_data
            invariant
                i <= num_data <= 65535,
                state == self@.trimmed(),
                state.recovers(),
                num_data == state.data.len(),
                forall|j: int|
                    0 <= j < i && (#[trigger] state.data[j]) is None ==> state.fec_set_index + j
                        <= u32::MAX,
            decreases num_data - i,
        {
            let missing: bool = i >= self.data_raws.len() || self.data_raws[i].is_none();
            assert(missing == (state.data[i as int] is None));
            if missing && self.fec_set_index > u32::MAX - i as u32 {
                assert(!state.missing_indices_fit());
                return false;
            }
            i = i + 1;
        }
        true
    }

    /// Whether the set is complete once `shred` has arrived.
    pub fn would_complete(&self, shred: &ParsedShred) -> (r: bool)
        requires
            self@.room_for(shred@),
        ensures
            r == self@.with_shred(shred@).complete(),
    {
        let mut num_data: Option<u16> = self.num_data;
        let mut data_count: usize = self.data_count;
        let mut coding_count: usize = self.coding_count;
        match shred {
            ParsedShred::Data { common, .. } => {
                let place: usize = common.index.saturating_sub(self.fec_set_index) as usize;
                if place >= self.data_raws.len() || self.data_raws[place].is_none() {
                    data_count = data_count + 1;
                }
            },
            ParsedShred::Coding { coding, .. } => {
                let position: usize = coding.position as usize;
                if position >= self.coding_raws.len() || self.coding_raws[position].is_none() {
                    coding_count = coding_count + 1;
                }
                if num_data.is_none() {
                    num_data = Some(coding.num_data_shreds);
                }
            },
        }
        match num_data {
            None => false,
            Some(n) => data_count >= n as usize || coding_count >= n as usize - data_count,
        }
    }

    /// A copy of the set.
    pub fn copy(&self) -> (set: FecSet)
        ensures
            set@ == self@,
    {
        FecSet {
            slot: self.slot,
            fec_set_index: self.fec_set_index,
            num_data: self.num_data,
            num_coding: self.num_coding,
            variant: self.variant,
            data_raws: copy_raws(&self.data_raws),
            coding_raws: copy_raws(&self.coding_raws),
            data_count: self.data_count,
            coding_count: self.coding_count,
        }
    }

    /// The data shreds of the set that have not arrived, in order, recovered
    /// from those that have; none where all have arrived. The set is trimmed to
    /// its shape.
    pub fn reassemble(&mut self) -> (result: Result<Vec<RecoveredShred>, FecError>)
        requires
            old(self)@.reassembles(),
        ensures
            final(self)@ == old(self)@.trimmed(),
            same_outcome(result, old(self)@.trimmed().recovered()),
            result is Ok <==> old(self)@.trimmed().all_data_present()
                || old(self)@.trimmed().recovers(),
            result matches Ok(shreds) ==> old(self)@.trimmed().faithful(shred_contents(shreds@)),
            old(self)@.trimmed().recovers() ==> old(self)@.trimmed().rebuilt().len()
                == old(self)@.trimmed().data.len() + old(self)@.trimmed().coding.len(),
    {
        let num_data: usize = self.data_places();
        let num_coding: usize = self.coding_places();
        resize(&mut self.data_raws, num_data);
        resize(&mut self.coding_raws, num_coding);
        let ghost state = self@;
        proof {
            assert(state =~= old(self)@.trimmed());
            assert(num_data % 65536 == num_data && num_coding % 65536 == num_coding);
            assert(state.trimmed() =~= state);
        }
        if self.has_all_data() {
            let none: Vec<RecoveredShred> = Vec::new();
            proof {
                assert(shred_contents(none@) =~= Seq::empty());
                lemma_count_all(state.data);
            }
            return Ok(none);
        }
        let shard_size: usize = self.compute_erasure_shard_size();
        if shard_size == 0 {
            return Err(FecError::UnknownShardSize);
        }
        let mut shards: Vec<Option<Vec<u8>>> = Vec::with_capacity(num_data + num_coding);
        push_erasure_shards(&mut shards, &self.data_raws, DATA_ERASURE_OFFSET, shard_size);
        push_erasure_shards(&mut shards, &self.coding_raws, CODING_ERASURE_OFFSET, shard_size);
        assert(shard_bytes(shards@) =~= state.shards());
        assert(shards@.len() == num_data + num_coding) by {
            assert(shard_bytes(shards@).len() == num_data + num_coding);
        }
        match recover_shards(num_data, num_coding, &mut shards) {
            Ok(()) => {
                proof {
                    assert(state.recovers());
                    assert(shard_bytes(shards@).len() == num_data + num_coding);
                    collecting_gives_the_missing_shreds(
                        state,
                        reconstructed_shards(
                            num_data as nat,
                            num_coding as nat,
                            state.shards(),
                        ),
                    );
                }
                self.collect_recovered(&shards)
            },
            Err(e) => Err(e),
        }
    }
}

proof fn lemma_count_vacant(n: nat)
    ensures
        count_present(Seq::new(n, |i: int| None::<Seq<u8>>)) == 0,
    decreases n,
{
    if n > 0 {
        let places = Seq::new(n, |i: int| None::<Seq<u8>>);
        assert(places.drop_last() =~= Seq::new((n - 1) as nat, |i: int| None::<Seq<u8>>));
        lemma_count_vacant((n - 1) as nat);
    }
}

/// New places are empty.
proof fn lemma_count_grown(raws: Seq<Option<Seq<u8>>>, n: nat)
    ensures
        count_present(grown(raws, n)) == count_present(raws),
        raws.len() <= n ==> count_present(resized(raws, n)) == count_present(raws),
{
    if raws.len() <= n {
        let more = Seq::new((n - raws.len()) as nat, |i: int| None::<Seq<u8>>);
        assert(resized(raws, n) =~= raws + more);
        lemma_count_concat(raws, more);
        lemma_count_vacant((n - raws.len()) as nat);
    }
}

proof fn lemma_count_filled(raws: Seq<Option<Seq<u8>>>, i: int, raw: Seq<u8>)
    requires
        0 <= i < raws.len(),
        raws[i] is None,
    ensures
        count_present(raws.update(i, Some(raw))) == count_present(raws) + 1,
    decreases raws.len(),
{
    let after = raws.update(i, Some(raw));
    if i == raws.len() - 1 {
        assert(after.drop_last() =~= raws.drop_last());
    } else {
        assert(after.drop_last() =~= raws.drop_last().update(i, Some(raw)));
        lemma_count_filled(raws.drop_last(), i, raw);
    }
}

/// A shred that is placed counts where its place was empty.
proof fn lemma_count_placed(raws: Seq<Option<Seq<u8>>>, i: int, raw: Seq<u8>)
    requires
        0 <= i,
    ensures
        count_present(placed(raws, i, raw)) == count_present(raws) + if vacant(raws, i) {
            1nat
        } else {
            0nat
        },
{
    if vacant(raws, i) {
        lemma_count_grown(raws, (i + 1) as nat);
        lemma_count_filled(grown(raws, (i + 1) as nat), i, raw);
    }
}

proof fn lemma_count_at_most_places(raws: Seq<Option<Seq<u8>>>)
    ensures
        count_present(raws) <= raws.len(),
        (exists|i: int| 0 <= i < raws.len() && (#[trigger] raws[i]) is None) ==> count_present(raws)
            < raws.len(),
    decreases raws.len(),
{
    if raws.len() > 0 {
        lemma_count_at_most_places(raws.drop_last());
        if exists|i: int| 0 <= i < raws.len() && (#[trigger] raws[i]) is None {
            let i = choose|i: int| 0 <= i < raws.len() && (#[trigger] raws[i]) is None;
            if i < raws.len() - 1 {
                assert(raws.drop_last()[i] is None);
            }
        }
    }
}

proof fn lemma_count_all(raws: Seq<Option<Seq<u8>>>)
    requires
        forall|i: int| 0 <= i < raws.len() ==> (#[trigger] raws[i]) is Some,
    ensures
        count_present(raws) == raws.len(),
    decreases raws.len(),
{
    if raws.len() > 0 {
        lemma_count_all(raws.drop_last());
    }
}

/// The counts of a set are the numbers of distinct shreds that have arrived:
/// that holds of a new set, and every shred keeps it true.
pub proof fn counts_are_exact(state: FecSetState, shred: ShredView)
    ensures
        FecSetState::fresh(state.slot, state.fec_set_index).tight(),
        state.tight() ==> state.with_shred(shred).tight(),
{
    match shred {
        ShredView::Data { common, raw, .. } => {
            lemma_count_placed(state.data, state.place_of(common.index), raw);
        },
        ShredView::Coding { common, coding, raw } => {
            let shaped = state.with_variant(common.variant).with_shape(coding);
            lemma_count_grown(state.data, coding.num_data_shreds as nat);
            lemma_count_grown(state.coding, coding.num_coding_shreds as nat);
            lemma_count_placed(shaped.coding, coding.position as int, raw);
        },
    }
}

/// A set whose counts are exact has room for every shred whose place is one.
pub proof fn exact_counts_leave_room(state: FecSetState, shred: ShredView)
    requires
        state.tight(),
        state.data.len() <= usize::MAX,
        state.coding.len() <= usize::MAX,
        shred matches ShredView::Data { common, .. } ==> state.place_of(common.index) < usize::MAX,
    ensures
        state.room_for(shred),
{
    lemma_count_at_most_places(state.data);
    lemma_count_at_most_places(state.coding);
    match shred {
        ShredView::Data { common, .. } => {
            let place = state.place_of(common.index);
            if vacant(state.data, place) && place < state.data.len() {
                assert(state.data[place] is None);
            }
        },
        ShredView::Coding { coding, .. } => {
            let position = coding.position as int;
            if vacant(state.coding, position) && position < state.coding.len() {
                assert(state.coding[position] is None);
            }
        },
    }
}

/// Of two data shreds for one place, and of two coding shreds for one position,
/// the second changes nothing.
pub proof fn first_shred_stays(state: FecSetState, first: ShredView, second: ShredView)
    requires
        match (first, second) {
            (ShredView::Data { common: a, .. }, ShredView::Data { common: b, .. }) =>
                state.place_of(a.index) == state.place_of(b.index),
            (ShredView::Coding { coding: a, .. }, ShredView::Coding { coding: b, .. }) => a.position
                == b.position,
            _ => false,
        },
    ensures
        state.with_shred(first).with_shred(second) == state.with_shred(first),
{
}

/// A complete set stays complete, whatever arrives.
pub proof fn complete_set_stays_complete(state: FecSetState, shred: ShredView)
    requires
        state.complete(),
    ensures
        state.with_shred(shred).complete(),
{
}

/// The order in which two shreds arrive makes no difference, unless they
/// contradict each other: in the variant or the shape of a set that did not know
/// it, or in the bytes for one empty place.
pub proof fn set_order_is_irrelevant(state: FecSetState, a: ShredView, b: ShredView)
    requires
        state.variant is None ==> a.header().variant == b.header().variant,
        match (a, b) {
            (ShredView::Data { common: x, .. }, ShredView::Data { common: y, .. }) =>
                state.place_of(x.index) == state.place_of(y.index) && vacant(
                    state.data,
                    state.place_of(x.index),
                ) ==> a.bytes() == b.bytes(),
            (ShredView::Coding { coding: x, .. }, ShredView::Coding { coding: y, .. }) => {
                &&& x.position == y.position && vacant(state.coding, x.position as int)
                    ==> a.bytes() == b.bytes()
                &&& state.num_data is None ==> x.num_data_shreds == y.num_data_shreds
                    && x.num_coding_shreds == y.num_coding_shreds
            },
            _ => true,
        },
    ensures
        state.with_shred(a).with_shred(b) == state.with_shred(b).with_shred(a),
{
    let ab = state.with_shred(a).with_shred(b);
    let ba = state.with_shred(b).with_shred(a);
    assert(ab.data =~= ba.data);
    assert(ab.coding =~= ba.coding);
}

/// Reading the erasure shards of a set gives every missing data shred once, in
/// the order of the indices, and no other: the shred at each missing place is
/// read from the erasure shard at that place.
pub proof fn collecting_gives_the_missing_shreds(state: FecSetState, shards: Seq<Seq<u8>>)
    requires
        state.data.len() <= shards.len(),
        state.missing_indices_fit(),
    ensures
        state.collected(all_present(shards), state.data.len() as int) matches Ok(shreds) && {
            &&& state.lists_missing(shreds)
            &&& forall|place: int|
                0 <= place < state.data.len() && (#[trigger] state.data[place]) is None
                    ==> shreds.contains(state.shred_at(place, shards[place]))
            &&& state.read_from(shreds, shards)
        },
{
    lemma_collected(state, shards, state.data.len() as int);
    assert(state.data.take(state.data.len() as int) =~= state.data);
    let shreds = state.collected(all_present(shards), state.data.len() as int)->Ok_0;
    assert forall|place: int|
        0 <= place < state.data.len() && (#[trigger] state.data[place]) is None implies shreds.contains(
        state.shred_at(place, shards[place]),
    ) by {
        assert(shreds.contains(state.shred_at(place, shards[place])));
    }
}

proof fn lemma_collected(state: FecSetState, shards: Seq<Seq<u8>>, n: int)
    requires
        0 <= n <= state.data.len(),
        state.data.len() <= shards.len(),
        state.missing_indices_fit(),
    ensures
        state.collected(all_present(shards), n) matches Ok(shreds) && {
            &&& shreds.len() + count_present(state.data.take(n)) == n
            &&& forall|j: int, k: int|
                0 <= j < k < shreds.len() ==> (#[trigger] shreds[j]).index < (
                #[trigger] shreds[k]).index
            &&& forall|place: int|
                0 <= place < n && (#[trigger] state.data[place]) is None ==> shreds.contains(
                    state.shred_at(place, shards[place]),
                )
            &&& forall|j: int|
                0 <= j < shreds.len() ==> {
                    let place = (#[trigger] shreds[j]).index - state.fec_set_index;
                    &&& 0 <= place < n
                    &&& state.data[place] is None
                    &&& shreds[j] == state.shred_at(place, shards[place])
                }
        },
    decreases n,
{
    if n > 0 {
        lemma_collected(state, shards, n - 1);
        assert(state.data.take(n).drop_last() =~= state.data.take(n - 1));
        let before = state.collected(all_present(shards), n - 1)->Ok_0;
        let after = state.collected(all_present(shards), n)->Ok_0;
        if state.data[n - 1] is None {
            let last = state.shred_at(n - 1, shards[n - 1]);
            assert(after == before.push(last));
            assert(after[before.len() as int] == last);
            assert forall|place: int|
                0 <= place < n && (#[trigger] state.data[place]) is None implies after.contains(
                state.shred_at(place, shards[place]),
            ) by {
                if place < n - 1 {
                    let j = choose|j: int|
                        0 <= j < before.len() && before[j] == state.shred_at(place, shards[place]);
                    assert(after[j] == before[j]);
                }
            }
        }
    }
}

/// A set that is complete has all its data shreds or can recover them: where its
/// counts are exact, no shred lies outside the shape, the code has coding shreds
/// and takes that many shards, and some shred tells the shard size.
pub proof fn complete_set_is_recoverable(state: FecSetState)
    requires
        state.tight(),
        state.complete(),
        state.data.len() <= state.data_places(),
        state.coding.len() <= state.coding_places(),
        0 < state.coding_places(),
        state.data_places() + state.coding_places() <= MAX_SHARDS,
        state.trimmed().shard_size() > 0,
    ensures
        state.trimmed().all_data_present() || state.trimmed().recovers(),
{
    lemma_count_grown(state.data, state.data_places());
    lemma_count_grown(state.coding, state.coding_places());
    lemma_reconstructable(state.trimmed());
}

/// What recovery would give for a data shred is what that shred carries: its
/// erasure shard has its flags and, where the shard reaches as far as the size in
/// the header, its payload.
pub proof fn erasure_shard_carries_the_shred(raw: Seq<u8>, shard_size: nat)
    requires
        DataHeader::in_bytes(raw) is Some,
        SHARD_PAYLOAD_START <= shard_size,
    ensures
        ({
            let header = DataHeader::in_bytes(raw)->0;
            let shard = erasure_shard(raw, DATA_ERASURE_OFFSET as int, shard_size);
            &&& flags_in_shard(shard) == header.flags
            &&& header.size <= DATA_PAYLOAD_OFFSET ==> payload_in_shard(shard) == Seq::<u8>::empty()
            &&& DATA_PAYLOAD_OFFSET <= header.size <= raw.len() && header.size
                <= DATA_ERASURE_OFFSET + shard_size ==> payload_in_shard(shard) == raw.subrange(
                DATA_PAYLOAD_OFFSET as int,
                header.size as int,
            )
        }),
{
    let header = DataHeader::in_bytes(raw)->0;
    let shard = erasure_shard(raw, DATA_ERASURE_OFFSET as int, shard_size);
    reveal_with_fuel(le_value, 3);
    assert(shard[22] == raw[86] && shard[23] == raw[87]);
    assert(le_u16_at(shard, SHARD_SIZE_FIELD as int) == header.size);
    if DATA_PAYLOAD_OFFSET <= header.size <= raw.len() && header.size <= DATA_ERASURE_OFFSET
        + shard_size {
        assert(payload_in_shard(shard) =~= raw.subrange(
            DATA_PAYLOAD_OFFSET as int,
            header.size as int,
        ));
    }
}

/// The shreds that a set recovers are those that were sent: where `raws` are the
/// data shreds of the set as they were sent, their erasure shards are the data
/// shards of the codeword `full`, and the set belongs to `full`, each shred has the
/// flags and the payload of the one that was sent with its index.
pub proof fn recovered_shreds_are_those_sent(
    state: FecSetState,
    raws: Seq<Seq<u8>>,
    full: Seq<Seq<u8>>,
    shreds: Seq<ShredContents>,
)
    requires
        raws.len() == state.data.len(),
        SHARD_PAYLOAD_START <= state.shard_size(),
        forall|i: int|
            0 <= i < raws.len() ==> {
                let header = DataHeader::in_bytes(#[trigger] raws[i]);
                &&& header is Some
                &&& DATA_PAYLOAD_OFFSET <= header->0.size <= raws[i].len()
                &&& header->0.size <= DATA_ERASURE_OFFSET + state.shard_size()
                &&& full[i] == erasure_shard(
                    raws[i],
                    DATA_ERASURE_OFFSET as int,
                    state.shard_size(),
                )
            },
        state.belongs_to(full),
        state.faithful(shreds),
    ensures
        forall|j: int|
            0 <= j < shreds.len() ==> {
                let raw = raws[(#[trigger] shreds[j]).index - state.fec_set_index];
                let header = DataHeader::in_bytes(raw)->0;
                &&& shreds[j].flags == header.flags
                &&& shreds[j].payload == raw.subrange(
                    DATA_PAYLOAD_OFFSET as int,
                    header.size as int,
                )
            },
{
    assert forall|j: int| 0 <= j < shreds.len() implies {
        let raw = raws[(#[trigger] shreds[j]).index - state.fec_set_index];
        let header = DataHeader::in_bytes(raw)->0;
        &&& shreds[j].flags == header.flags
        &&& shreds[j].payload == raw.subrange(DATA_PAYLOAD_OFFSET as int, header.size as int)
    } by {
        let place = shreds[j].index - state.fec_set_index;
        assert(state.misses(shreds[j].index as int));
        erasure_shard_carries_the_shred(raws[place], state.shard_size());
    }
}

} // verus!
