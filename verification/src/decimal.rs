//! Numbers in decimal.

use crate::base58::value_of;
use vstd::prelude::*;
use vstd::string::{StrSliceExecFns, StringExecFns};

verus! {

/// The decimal digits, in order of their values.
pub open spec fn decimal_digits() -> Seq<char> {
    "0123456789"@
}

/// `n` in decimal, without leading zeros.
pub open spec fn decimal(n: nat) -> Seq<char>
    decreases n,
{
    let last = seq![decimal_digits()[(n % 10) as int]];
    if n < 10 {
        last
    } else {
        decimal(n / 10) + last
    }
}

/// Writes `n` in decimal.
pub fn to_decimal(n: usize) -> (text: String)
    ensures
        text@ == decimal(n as nat),
    decreases n,
{
    proof {
        reveal_strlit("0123456789");
    }
    let digit: usize = n % 10;
    let last = "0123456789".substring_char(digit, digit + 1);
    assert(last@ =~= seq![decimal_digits()[digit as int]]);
    if n < 10 {
        String::from_str(last)
    } else {
        let mut text: String = to_decimal(n / 10);
        text.append(last);
        text
    }
}

/// A number in decimal is read back as the number: its characters are digits, their
/// values in base 10 make up the number, and the first is no 0 but for the number 0.
pub proof fn decimal_writes_the_number(n: nat) -> (values: Seq<nat>)
    ensures
        values.len() == decimal(n).len(),
        values.len() > 0,
        forall|i: int|
            0 <= i < values.len() ==> (#[trigger] values[i]) < 10 && decimal(n)[i]
                == "0123456789"@[values[i] as int],
        value_of(values, 10) == n,
        values[0] == 0 ==> n == 0,
    decreases n,
{
    let last = n % 10;
    reveal_with_fuel(value_of, 2);
    if n < 10 {
        let values = seq![last];
        assert(values.drop_last() =~= Seq::empty());
        values
    } else {
        let front = decimal_writes_the_number(n / 10);
        let values = front.push(last);
        assert(values.drop_last() =~= front);
        values
    }
}

} // verus!
