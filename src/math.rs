//! Integer helpers shared by the simulation: absolute values, squares and
//! the integer square root used for speeds and collision times.
use vstd::prelude::*;

verus! {

/// `r` is the integer square root of `n`, rounded down.
pub open spec fn is_floor_sqrt(n: int, r: int) -> bool {
    0 <= r && r * r <= n && n < (r + 1) * (r + 1)
}

/// Absolute value of a coordinate or velocity component.
pub fn abs(num: i64) -> (r: u64)
    ensures
        r as int == if num < 0 { -num } else { num as int },
{
    if num < 0 {
        (0i128 - num as i128) as u64
    } else {
        num as u64
    }
}

/// The square of a coordinate or velocity component, computed without
/// any risk of overflow.
pub fn pow2(num: i64) -> (r: i128)
    ensures
        r == num * num,
{
    assert(-0x8000_0000_0000_0000 <= num * num <= 0x4000_0000_0000_0000_0000_0000_0000_0000)
        by (nonlinear_arith)
        requires -0x8000_0000_0000_0000 <= num < 0x8000_0000_0000_0000;
    (num as i128) * (num as i128)
}

/// Integer square root, rounded down. It stands in for the reciprocal
/// square root approximation of floating-point firmware: the result is
/// exact, `r * r <= num < (r + 1) * (r + 1)`.
pub fn fast_sqrt(num: u128) -> (r: u64)
    ensures
        is_floor_sqrt(num as int, r as int),
{
    let mut lo: u128 = 0;
    let mut hi: u128 = 0x1_0000_0000_0000_0000;
    assert(hi * hi == 0x1_0000_0000_0000_0000_0000_0000_0000_0000int) by (nonlinear_arith)
        requires hi == 0x1_0000_0000_0000_0000u128;
    while hi - lo > 1
        invariant
            lo < hi <= 0x1_0000_0000_0000_0000,
            lo * lo <= num,
            num < hi * hi,
        decreases hi - lo,
    {
        let mid: u128 = lo + (hi - lo) / 2;
        assert(mid * mid < 0x1_0000_0000_0000_0000_0000_0000_0000_0000) by (nonlinear_arith)
            requires mid < 0x1_0000_0000_0000_0000;
        if mid * mid <= num {
            lo = mid;
        } else {
            hi = mid;
        }
    }
    assert(hi == lo + 1);
    lo as u64
}

} // verus!
