//! Small arithmetic that the schedulers share.

use vstd::prelude::*;

verus! {

/// The smaller of two numbers.
pub open spec fn min_of(a: int, b: int) -> int {
    if a <= b {
        a
    } else {
        b
    }
}

/// The larger of two numbers.
pub open spec fn max_of(a: int, b: int) -> int {
    if a >= b {
        a
    } else {
        b
    }
}

/// `x` moved into the range from `low` to `high`.
pub open spec fn clamped(x: int, low: int, high: int) -> int {
    if x < low {
        low
    } else if x > high {
        high
    } else {
        x
    }
}

/// The quotient rounded up.
pub open spec fn ceil_div(a: int, b: int) -> int {
    if a % b == 0 {
        a / b
    } else {
        a / b + 1
    }
}

/// The smaller of two numbers.
pub fn min_usize(a: usize, b: usize) -> (m: usize)
    ensures
        m == min_of(a as int, b as int),
{
    if a <= b {
        a
    } else {
        b
    }
}

/// The larger of two numbers.
pub fn max_usize(a: usize, b: usize) -> (m: usize)
    ensures
        m == max_of(a as int, b as int),
{
    if a >= b {
        a
    } else {
        b
    }
}

/// `x` moved into the range from `low` to `high`.
pub fn clamp_usize(x: usize, low: usize, high: usize) -> (c: usize)
    requires
        low <= high,
    ensures
        c == clamped(x as int, low as int, high as int),
{
    if x < low {
        low
    } else if x > high {
        high
    } else {
        x
    }
}

/// The quotient rounded up.
pub fn div_ceil_usize(a: usize, b: usize) -> (q: usize)
    requires
        b > 0,
    ensures
        q == ceil_div(a as int, b as int),
{
    let q: usize = a / b;
    if a % b == 0 {
        q
    } else {
        proof {
            vstd::arithmetic::div_mod::lemma_fundamental_div_mod(a as int, b as int);
            vstd::arithmetic::div_mod::lemma_div_pos_is_pos(a as int, b as int);
            let quotient = a as int / b as int;
            assert(quotient <= b * quotient) by (nonlinear_arith)
                requires
                    b >= 1,
                    quotient >= 0,
            ;
        }
        q + 1
    }
}

/// The product, or the largest machine number where it does not fit.
pub fn saturating_product(a: usize, b: usize) -> (p: usize)
    ensures
        p == min_of(a * b, usize::MAX as int),
{
    proof {
        assert(a * b >= 0) by (nonlinear_arith);
    }
    match a.checked_mul(b) {
        Some(p) => p,
        None => usize::MAX,
    }
}

/// The product, or the largest number of this width where it does not fit.
pub fn saturating_product_u128(a: u128, b: u128) -> (p: u128)
    ensures
        p == min_of(a * b, u128::MAX as int),
{
    proof {
        assert(a * b >= 0) by (nonlinear_arith);
    }
    match a.checked_mul(b) {
        Some(p) => p,
        None => u128::MAX,
    }
}

/// The smaller of two numbers is one of them and exceeds neither, and the larger is one
/// of them and falls short of neither.
pub proof fn law_extremes(a: int, b: int)
    ensures
        min_of(a, b) <= a && min_of(a, b) <= b,
        min_of(a, b) == a || min_of(a, b) == b,
        max_of(a, b) >= a && max_of(a, b) >= b,
        max_of(a, b) == a || max_of(a, b) == b,
        min_of(a, b) + max_of(a, b) == a + b,
{
}

/// A number inside the range stays, one below it becomes the lower end, and one above it
/// the upper end.
pub proof fn law_clamping(x: int, low: int, high: int)
    requires
        low <= high,
    ensures
        low <= clamped(x, low, high) <= high,
        low <= x <= high ==> clamped(x, low, high) == x,
        x <= low ==> clamped(x, low, high) == low,
        x >= high ==> clamped(x, low, high) == high,
{
}

/// The quotient rounded up is the smallest number of parts of size `b` that hold `a`.
pub proof fn law_rounding_up(a: int, b: int)
    requires
        a >= 0,
        b > 0,
    ensures
        ceil_div(a, b) * b >= a,
        (ceil_div(a, b) - 1) * b < a,
        ceil_div(a, b) >= 0,
{
    vstd::arithmetic::div_mod::lemma_fundamental_div_mod(a, b);
    vstd::arithmetic::div_mod::lemma_div_pos_is_pos(a, b);
    let q = a / b;
    let r = a % b;
    assert(q * b == b * q && (q + 1) * b == b * q + b && (q - 1) * b == b * q - b)
        by (nonlinear_arith);
}

} // verus!
