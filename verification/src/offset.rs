//! Moving an unsigned coordinate by a signed amount.

use vstd::prelude::*;

verus! {

/// The value of `value` when its 32 bits are read as a two's-complement
/// signed integer.
pub open spec fn signed(value: u32) -> int {
    if value <= i32::MAX {
        value as int
    } else {
        value as int - 0x1_0000_0000
    }
}

/// Where `value` lands after moving by `delta`: the signed reading of
/// `value` plus `delta`, provided that sum is a non-negative `i32`.
pub open spec fn shifted(value: u32, delta: i32) -> Option<u32> {
    let sum = signed(value) + delta;
    if 0 <= sum <= i32::MAX {
        Some(sum as u32)
    } else {
        None
    }
}

/// Adds a signed `delta` to `value`, giving `None` when the result would
/// be negative or would not fit in an `i32`.
pub fn add_u32(value: u32, delta: i32) -> (result: Option<u32>)
    ensures
        result == shifted(value, delta),
{
    let base: i64 = if value <= 0x7fff_ffff {
        value as i64
    } else {
        value as i64 - 0x1_0000_0000
    };
    let sum: i64 = base + delta as i64;
    if sum < 0 || sum > 0x7fff_ffff {
        None
    } else {
        Some(sum as u32)
    }
}

/// For coordinates below 2^31 the move is ordinary integer addition.
pub proof fn lemma_shifted_small(value: u32, delta: i32)
    requires
        value <= i32::MAX,
    ensures
        shifted(value, delta) == (if 0 <= value + delta <= i32::MAX {
            Some((value + delta) as u32)
        } else {
            None
        }),
{
}

/// Moving by zero keeps every coordinate below 2^31 where it is.
pub proof fn lemma_shifted_zero(value: u32)
    requires
        value <= i32::MAX,
    ensures
        shifted(value, 0) == Some(value),
{
}

} // verus!
