//! Integer helpers shared by the rest of the crate.

use vstd::prelude::*;

verus! {

/// The quotient `dividend / divisor` rounded up to the next integer.
pub open spec fn ceil_div(dividend: int, divisor: int) -> int
    recommends
        dividend >= 0,
        divisor > 0,
{
    if dividend == 0 {
        0
    } else {
        (dividend - 1) / divisor + 1
    }
}

/// Computes `dividend / divisor`, rounded up to the next integer.
pub fn ceil_divide(dividend: u64, divisor: u64) -> (quotient: u64)
    requires
        divisor > 0,
    ensures
        quotient == ceil_div(dividend as int, divisor as int),
{
    if dividend == 0 {
        0
    } else {
        (dividend - 1) / divisor + 1
    }
}

} // verus!
