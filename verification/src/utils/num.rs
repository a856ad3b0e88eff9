//! Integers at the limits of the machine.

use vstd::prelude::*;

verus! {

/// `x` brought into the range of `i32`: values beyond a limit become the
/// limit.
pub open spec fn clamp_i32(x: int) -> i32 {
    if x > i32::MAX {
        i32::MAX
    } else if x < i32::MIN {
        i32::MIN
    } else {
        x as i32
    }
}

/// `a + b`, kept within `i32`.
pub fn saturating_sum(a: i32, b: i32) -> (r: i32)
    ensures
        r == clamp_i32(a + b),
{
    let total: i64 = a as i64 + b as i64;
    if total > i32::MAX as i64 {
        i32::MAX
    } else if total < i32::MIN as i64 {
        i32::MIN
    } else {
        total as i32
    }
}

} // verus!
