//! Base 58 with the alphabet of Bitcoin.

use vstd::prelude::*;

verus! {

/// The digits of base 58, in order of their values.
pub open spec fn alphabet() -> Seq<char> {
    "123456789ABCDEFGHJKLMNPQRSTUVWXYZabcdefghijkmnopqrstuvwxyz"@
}

/// The number that the bytes write, the most significant byte first.
pub open spec fn big_endian(bytes: Seq<u8>) -> nat
    decreases bytes.len(),
{
    if bytes.len() == 0 {
        0
    } else {
        big_endian(bytes.drop_last()) * 256 + bytes.last() as nat
    }
}

/// The digits of `n` without leading zeros; none for 0.
pub open spec fn digits(n: nat) -> Seq<char>
    decreases n,
{
    if n == 0 {
        Seq::empty()
    } else {
        digits(n / 58).push(alphabet()[(n % 58) as int])
    }
}

/// How many zero bytes come first.
pub open spec fn leading_zeros(bytes: Seq<u8>) -> nat
    decreases bytes.len(),
{
    if bytes.len() == 0 || bytes[0] != 0 {
        0
    } else {
        1 + leading_zeros(bytes.drop_first())
    }
}

/// The bytes in base 58: a `1` for each leading zero byte, then the digits of the
/// number that the bytes write.
pub open spec fn base58(bytes: Seq<u8>) -> Seq<char> {
    Seq::new(leading_zeros(bytes), |i: int| '1') + digits(big_endian(bytes))
}

/// Calls `bs58::encode` on a signature and `EncodeBuilder::into_string` on what
/// it gives.
///
/// It is trusted that the string is the signature in base 58, with the default
/// alphabet of `bs58`, which is that of Bitcoin.
#[verifier::external_body]
pub(crate) fn encode_signature(signature: &[u8; 64]) -> (text: String)
    ensures
        text@ == base58(signature@),
{
    bs58::encode(signature).into_string()
}

/// The number that digits write in the given base, the most significant digit first.
pub open spec fn value_of(digits: Seq<nat>, base: nat) -> nat
    decreases digits.len(),
{
    if digits.len() == 0 {
        0
    } else {
        value_of(digits.drop_last(), base) * base + digits.last()
    }
}

proof fn lemma_zeros_count_nothing(zeros: nat, rest: Seq<nat>, base: nat)
    ensures
        value_of(Seq::new(zeros, |i: int| 0nat) + rest, base) == value_of(rest, base),
    decreases zeros + rest.len(),
{
    let all = Seq::new(zeros, |i: int| 0nat) + rest;
    if rest.len() > 0 {
        assert(all.drop_last() =~= Seq::new(zeros, |i: int| 0nat) + rest.drop_last());
        lemma_zeros_count_nothing(zeros, rest.drop_last(), base);
    } else if zeros > 0 {
        let fewer = (zeros - 1) as nat;
        assert(all.drop_last() =~= Seq::new(fewer, |i: int| 0nat) + rest);
        lemma_zeros_count_nothing(fewer, rest, base);
        assert(0 * base == 0) by (nonlinear_arith);
    }
}

/// The values of the digits of `n`.
proof fn digit_values(n: nat) -> (values: Seq<nat>)
    ensures
        values.len() == digits(n).len(),
        forall|i: int| 0 <= i < values.len() ==> (#[trigger] values[i]) < 58,
        forall|i: int| 0 <= i < values.len() ==> #[trigger] digits(n)[i] == alphabet()[values[i] as int],
        values.len() > 0 ==> values[0] != 0,
        values.len() > 0 <==> n > 0,
        value_of(values, 58) == n,
    decreases n,
{
    if n == 0 {
        Seq::empty()
    } else {
        let front = digit_values(n / 58);
        let values = front.push(n % 58);
        assert(values.drop_last() =~= front);
        values
    }
}

/// Base 58 writes the number that the bytes write, and their leading zeros: each
/// character is one of the 58 of the alphabet; their values, in base 58, and the bytes,
/// in base 256, are the same number; and there are as many leading zeros among the
/// values as among the bytes.
pub proof fn base58_writes_the_bytes(bytes: Seq<u8>, zeros: nat) -> (values: Seq<nat>)
    requires
        zeros <= bytes.len(),
        forall|i: int| 0 <= i < zeros ==> (#[trigger] bytes[i]) == 0,
        zeros < bytes.len() ==> bytes[zeros as int] != 0,
    ensures
        values.len() == base58(bytes).len(),
        forall|i: int|
            0 <= i < values.len() ==> (#[trigger] values[i]) < 58 && base58(bytes)[i]
                == "123456789ABCDEFGHJKLMNPQRSTUVWXYZabcdefghijkmnopqrstuvwxyz"@[values[i] as int],
        value_of(values, 58) == value_of(bytes.map_values(|b: u8| b as nat), 256),
        zeros <= values.len(),
        forall|i: int| 0 <= i < zeros ==> (#[trigger] values[i]) == 0,
        zeros < values.len() ==> values[zeros as int] != 0,
{
    reveal_strlit("123456789ABCDEFGHJKLMNPQRSTUVWXYZabcdefghijkmnopqrstuvwxyz");
    lemma_leading_zeros(bytes, zeros);
    lemma_big_endian(bytes);
    let tail = digit_values(big_endian(bytes));
    let values = Seq::new(zeros, |i: int| 0nat) + tail;
    lemma_zeros_count_nothing(zeros, tail, 58);
    assert forall|i: int| 0 <= i < values.len() implies (#[trigger] values[i]) < 58 && base58(
        bytes,
    )[i] == alphabet()[values[i] as int] by {
        if i >= zeros {
            assert(values[i] == tail[i - zeros]);
            assert(base58(bytes)[i] == digits(big_endian(bytes))[i - zeros]);
        }
    }
    values
}

proof fn lemma_leading_zeros(bytes: Seq<u8>, zeros: nat)
    requires
        zeros <= bytes.len(),
        forall|i: int| 0 <= i < zeros ==> (#[trigger] bytes[i]) == 0,
        zeros < bytes.len() ==> bytes[zeros as int] != 0,
    ensures
        leading_zeros(bytes) == zeros,
    decreases bytes.len(),
{
    if zeros > 0 {
        assert(bytes[0] == 0);
        let rest = bytes.drop_first();
        assert forall|i: int| 0 <= i < zeros - 1 implies (#[trigger] rest[i]) == 0 by {
            assert(bytes[i + 1] == 0);
        }
        lemma_leading_zeros(rest, (zeros - 1) as nat);
    }
}

proof fn lemma_big_endian(bytes: Seq<u8>)
    ensures
        big_endian(bytes) == value_of(bytes.map_values(|b: u8| b as nat), 256),
    decreases bytes.len(),
{
    let values = bytes.map_values(|b: u8| b as nat);
    if bytes.len() > 0 {
        lemma_big_endian(bytes.drop_last());
        assert(values.drop_last() =~= bytes.drop_last().map_values(|b: u8| b as nat));
    }
}

} // verus!
