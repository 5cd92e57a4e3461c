//! Little-endian integers in a byte string.

use vstd::prelude::*;

verus! {

/// The little-endian number in the `n` bytes of `s` from `at` on.
pub open spec fn le_value(s: Seq<u8>, at: int, n: nat) -> nat
    decreases n,
{
    if n == 0 {
        0
    } else {
        s[at] as nat + 256 * le_value(s, at + 1, (n - 1) as nat)
    }
}

/// The `u16` in the bytes of `s` from `at` on.
pub open spec fn le_u16_at(s: Seq<u8>, at: int) -> u16 {
    le_value(s, at, 2) as u16
}

/// The `u32` in the bytes of `s` from `at` on.
pub open spec fn le_u32_at(s: Seq<u8>, at: int) -> u32 {
    le_value(s, at, 4) as u32
}

/// The `u64` in the bytes of `s` from `at` on.
pub open spec fn le_u64_at(s: Seq<u8>, at: int) -> u64 {
    le_value(s, at, 8) as u64
}

/// Reads the little-endian `u16` at `at`.
pub fn read_u16(s: &[u8], at: usize) -> (value: u16)
    requires
        at + 2 <= s@.len(),
    ensures
        value == le_value(s@, at as int, 2),
        value == le_u16_at(s@, at as int),
{
    reveal_with_fuel(le_value, 3);
    s[at] as u16 + 256 * (s[at + 1] as u16)
}

/// Reads the little-endian `u32` at `at`.
pub fn read_u32(s: &[u8], at: usize) -> (value: u32)
    requires
        at + 4 <= s@.len(),
    ensures
        value == le_value(s@, at as int, 4),
        value == le_u32_at(s@, at as int),
{
    reveal_with_fuel(le_value, 5);
    s[at] as u32 + 256 * (s[at + 1] as u32) + 65536 * (s[at + 2] as u32) + 16777216 * (s[at
        + 3] as u32)
}

/// Reads the little-endian `u64` at `at`.
pub fn read_u64(s: &[u8], at: usize) -> (value: u64)
    requires
        at + 8 <= s@.len(),
    ensures
        value == le_value(s@, at as int, 8),
        value == le_u64_at(s@, at as int),
{
    assert(s@.len() == s.len());
    let low: u32 = read_u32(s, at);
    let high: u32 = read_u32(s, at + 4);
    proof {
        reveal_with_fuel(le_value, 9);
    }
    low as u64 + 4294967296 * (high as u64)
}

} // verus!
