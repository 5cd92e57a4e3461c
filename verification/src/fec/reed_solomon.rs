//! Recovery of missing shards with the Reed-Solomon code over GF(2^8).

use crate::fec::fec_set::FecError;
use vstd::prelude::*;

verus! {

/// The error type of the Reed-Solomon codec.
#[verifier::external_type_specification]
#[verifier::external_body]
pub struct ExReedSolomonError(reed_solomon_erasure::Error);

/// The most shards that one erasure set can have: the order of GF(2^8).
pub const MAX_SHARDS: usize = 256;

/// The bytes of each shard that is there.
pub open spec fn shard_bytes(shards: Seq<Option<Vec<u8>>>) -> Seq<Option<Seq<u8>>> {
    Seq::new(
        shards.len(),
        |i: int|
            match shards[i] {
                Some(shard) => Some(shard@),
                None => None,
            },
    )
}

/// Shards of which none is missing.
pub open spec fn all_present(shards: Seq<Seq<u8>>) -> Seq<Option<Seq<u8>>> {
    shards.map_values(|shard: Seq<u8>| Some(shard))
}

/// The number of shards that are there.
pub open spec fn count_present(shards: Seq<Option<Seq<u8>>>) -> nat
    decreases shards.len(),
{
    if shards.len() == 0 {
        0
    } else {
        count_present(shards.drop_last()) + if shards.last() is Some {
            1nat
        } else {
            0nat
        }
    }
}

/// All shards that are there have the length `len`.
pub open spec fn shards_have_len(shards: Seq<Option<Seq<u8>>>, len: nat) -> bool {
    forall|i: int|
        0 <= i < shards.len() && (#[trigger] shards[i]) is Some ==> shards[i]->0.len() == len
}

/// The code has this shape, the shards that are there have one length, not 0,
/// and they are at least as many as the data shards.
pub open spec fn reconstructable(
    num_data: nat,
    num_coding: nat,
    shards: Seq<Option<Seq<u8>>>,
) -> bool {
    &&& 0 < num_data
    &&& 0 < num_coding
    &&& num_data + num_coding <= MAX_SHARDS
    &&& num_data <= count_present(shards)
    &&& exists|len: nat| 0 < len && #[trigger] shards_have_len(shards, len)
}

/// All shards of the set, data shards first, as the code with `num_data` data
/// shards and `num_coding` coding shards gives them from those in `shards`.
pub uninterp spec fn reconstructed_shards(
    num_data: nat,
    num_coding: nat,
    shards: Seq<Option<Seq<u8>>>,
) -> Seq<Seq<u8>>;

/// The data shards of `full`, without the coding shards.
pub open spec fn data_only(num_data: nat, full: Seq<Seq<u8>>) -> Seq<Option<Seq<u8>>> {
    Seq::new(
        full.len(),
        |i: int|
            if i < num_data {
                Some(full[i])
            } else {
                None
            },
    )
}

/// `full` are the data shards of a set and the coding shards that the code gives
/// for them.
pub open spec fn is_codeword(num_data: nat, num_coding: nat, full: Seq<Seq<u8>>) -> bool {
    &&& full.len() == num_data + num_coding
    &&& reconstructable(num_data, num_coding, data_only(num_data, full))
    &&& reconstructed_shards(num_data, num_coding, data_only(num_data, full)) == full
}

/// Every shard that is there is the one of `full` at its place.
pub open spec fn drawn_from(shards: Seq<Option<Seq<u8>>>, full: Seq<Seq<u8>>) -> bool {
    &&& shards.len() == full.len()
    &&& forall|i: int|
        0 <= i < shards.len() && (#[trigger] shards[i]) is Some ==> shards[i]->0 == full[i]
}

/// Calls `reed_solomon_erasure::galois_8::ReedSolomon::new` for the shape of the
/// code and `ReedSolomon::reconstruct` on the shards.
///
/// It is trusted that these succeed on exactly the reconstructable inputs; that
/// on success all shards are there, those that were there before as they were
/// and the others of the same length, with bytes that depend on the arguments
/// alone; that shards drawn from one codeword give back that codeword, since any
/// `num_data` rows of the code's matrix are invertible; and that on an error no
/// shard changes. Which bytes a recovered shard has is otherwise left to the name
/// `reconstructed_shards`.
#[verifier::external_body]
fn rs_reconstruct(
    num_data: usize,
    num_coding: usize,
    shards: &mut Vec<Option<Vec<u8>>>,
) -> (result: Result<(), reed_solomon_erasure::Error>)
    requires
        old(shards)@.len() == num_data + num_coding,
    ensures
        result is Ok <==> reconstructable(
            num_data as nat,
            num_coding as nat,
            shard_bytes(old(shards)@),
        ),
        result is Err ==> shard_bytes(final(shards)@) == shard_bytes(old(shards)@),
        result is Ok ==> {
            let before = shard_bytes(old(shards)@);
            let after = reconstructed_shards(num_data as nat, num_coding as nat, before);
            &&& after.len() == before.len()
            &&& shard_bytes(final(shards)@) == all_present(after)
            &&& forall|i: int|
                0 <= i < before.len() && before[i] is Some ==> #[trigger] after[i] == before[i]->0
            &&& forall|len: nat|
                shards_have_len(before, len) ==> #[trigger] shards_have_len(
                    shard_bytes(final(shards)@),
                    len,
                )
            &&& forall|full: Seq<Seq<u8>>| #[trigger]
                is_codeword(num_data as nat, num_coding as nat, full) && drawn_from(before, full)
                    ==> after == full
        },
{
    let code = reed_solomon_erasure::galois_8::ReedSolomon::new(num_data, num_coding)?;
    code.reconstruct(shards)
}

/// Fills in the shards that are missing, the `num_data` data shards first and
/// then the `num_coding` coding shards. Where the code cannot do that, the
/// shards stay as they are.
pub fn recover_shards(
    num_data: usize,
    num_coding: usize,
    shards: &mut Vec<Option<Vec<u8>>>,
) -> (result: Result<(), FecError>)
    requires
        old(shards)@.len() == num_data + num_coding,
    ensures
        result is Ok <==> reconstructable(
            num_data as nat,
            num_coding as nat,
            shard_bytes(old(shards)@),
        ),
        result matches Err(e) ==> e == FecError::RecoveryFailed && shard_bytes(final(shards)@)
            == shard_bytes(old(shards)@),
        result is Ok ==> {
            let before = shard_bytes(old(shards)@);
            let after = reconstructed_shards(num_data as nat, num_coding as nat, before);
            &&& after.len() == before.len()
            &&& shard_bytes(final(shards)@) == all_present(after)
            &&& forall|i: int|
                0 <= i < before.len() && before[i] is Some ==> #[trigger] after[i] == before[i]->0
            &&& forall|len: nat|
                shards_have_len(before, len) ==> #[trigger] shards_have_len(
                    shard_bytes(final(shards)@),
                    len,
                )
            &&& forall|full: Seq<Seq<u8>>| #[trigger]
                is_codeword(num_data as nat, num_coding as nat, full) && drawn_from(before, full)
                    ==> after == full
        },
{
    match rs_reconstruct(num_data, num_coding, shards) {
        Ok(()) => Ok(()),
        Err(_) => Err(FecError::RecoveryFailed),
    }
}

} // verus!
