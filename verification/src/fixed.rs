//! Integer helpers for arithmetic in thousandths.
//!
//! Every quantity of the engine (a coordinate, a speed, a fullness, a rate) is
//! an integer that counts thousandths of its unit. Intermediate results are
//! computed exactly in wide integers; a result that is stored is first clamped
//! to the range of its type, and a quotient is rounded toward zero unless it
//! is said to be rounded to the nearest integer.

use vstd::prelude::*;

verus! {

/// `v` clamped to the range of `i32`.
pub open spec fn clamp_i32(v: int) -> int {
    if v < i32::MIN {
        i32::MIN as int
    } else if v > i32::MAX {
        i32::MAX as int
    } else {
        v
    }
}

/// `v` clamped to the range of `u32`.
pub open spec fn clamp_u32(v: int) -> int {
    if v < 0 {
        0
    } else if v > u32::MAX {
        u32::MAX as int
    } else {
        v
    }
}

/// The quotient of `a` by a positive `b`, rounded toward zero.
pub open spec fn trunc_div(a: int, b: int) -> int
    recommends
        b > 0,
{
    if a >= 0 {
        a / b
    } else {
        -((-a) / b)
    }
}

/// The quotient of `a` by a positive `b`, rounded to the nearest integer,
/// and away from zero where it lies halfway between two.
pub open spec fn round_div(a: int, b: int) -> int
    recommends
        b > 0,
{
    if a >= 0 {
        (2 * a + b) / (2 * b)
    } else {
        -((2 * (-a) + b) / (2 * b))
    }
}

/// The magnitude of `v`.
pub open spec fn abs(v: int) -> int {
    if v < 0 {
        -v
    } else {
        v
    }
}

/// The largest `r` with `r * r <= n`, and 0 for a negative `n`.
pub open spec fn floor_sqrt(n: int) -> int
    decreases n,
{
    if n <= 0 {
        0
    } else {
        let r = floor_sqrt(n - 1);
        if (r + 1) * (r + 1) <= n {
            r + 1
        } else {
            r
        }
    }
}

/// The smallest `r >= 0` with `n <= r * r`.
pub open spec fn ceil_sqrt(n: int) -> int {
    let r = floor_sqrt(n);
    if r * r >= n {
        r
    } else {
        r + 1
    }
}

/// `floor_sqrt(n)` is the integer square root of a non-negative `n`.
pub proof fn lemma_floor_sqrt_bounds(n: int)
    requires
        n >= 0,
    ensures
        floor_sqrt(n) >= 0,
        floor_sqrt(n) * floor_sqrt(n) <= n,
        n < (floor_sqrt(n) + 1) * (floor_sqrt(n) + 1),
    decreases n,
{
    if n > 0 {
        lemma_floor_sqrt_bounds(n - 1);
        let r = floor_sqrt(n - 1);
        assert((r + 2) * (r + 2) == (r + 1) * (r + 1) + 2 * r + 3) by (nonlinear_arith);
    }
}

/// Only one integer lies between the two bounds of `lemma_floor_sqrt_bounds`.
pub proof fn lemma_floor_sqrt_unique(n: int, r: int)
    requires
        r >= 0,
        r * r <= n,
        n < (r + 1) * (r + 1),
    ensures
        r == floor_sqrt(n),
{
    lemma_floor_sqrt_bounds(n);
    let s = floor_sqrt(n);
    assert(r == s) by (nonlinear_arith)
        requires
            r >= 0,
            s >= 0,
            r * r <= n,
            n < (r + 1) * (r + 1),
            s * s <= n,
            n < (s + 1) * (s + 1),
    ;
}

/// `ceil_sqrt(n)` is the least non-negative integer whose square reaches `n`.
pub proof fn lemma_ceil_sqrt_bounds(n: int)
    requires
        n >= 0,
    ensures
        ceil_sqrt(n) >= 0,
        n <= ceil_sqrt(n) * ceil_sqrt(n),
        n > 0 ==> ceil_sqrt(n) >= 1 && (ceil_sqrt(n) - 1) * (ceil_sqrt(n) - 1) < n,
        floor_sqrt(n) <= ceil_sqrt(n) <= floor_sqrt(n) + 1,
{
    lemma_floor_sqrt_bounds(n);
    let r = floor_sqrt(n);
    if n > 0 && r * r >= n {
        assert(r >= 1 && (r - 1) * (r - 1) < n) by (nonlinear_arith)
            requires
                r >= 0,
                r * r == n,
                n > 0,
        ;
    }
}

/// A quotient rounded toward zero is no larger in magnitude than what was
/// divided.
pub proof fn lemma_trunc_div_within(a: int, b: int)
    requires
        b > 0,
    ensures
        abs(trunc_div(a, b)) <= abs(a),
        a >= 0 ==> trunc_div(a, b) >= 0,
        a <= 0 ==> trunc_div(a, b) <= 0,
{
    let m = abs(a);
    let q = m / b;
    assert(0 <= q <= m) by (nonlinear_arith)
        requires
            q == m / b,
            m >= 0,
            b > 0,
    ;
}

/// A quotient rounded to the nearest integer has the sign of what was
/// divided, and stays within `m` if what was divided stays within `m * b`.
pub proof fn lemma_round_div_within(a: int, b: int, m: int)
    requires
        b > 0,
        m >= 0,
        abs(a) <= m * b,
    ensures
        abs(round_div(a, b)) <= m,
        a >= 0 ==> round_div(a, b) >= 0,
        a <= 0 ==> round_div(a, b) <= 0,
{
    let n = abs(a);
    let q = (2 * n + b) / (2 * b);
    assert(0 <= q <= m) by (nonlinear_arith)
        requires
            q == (2 * n + b) / (2 * b),
            0 <= n <= m * b,
            b > 0,
            m >= 0,
    ;
    assert(n == 0 ==> q == 0) by (nonlinear_arith)
        requires
            q == (2 * n + b) / (2 * b),
            b > 0,
    ;
}

/// A quotient rounded to the nearest integer is off by at most one half:
/// `|q * b - a| <= b / 2`.
pub proof fn lemma_round_div_error(a: int, b: int)
    requires
        b > 0,
    ensures
        -b <= 2 * (round_div(a, b) * b) - 2 * a <= b,
{
    let n = abs(a);
    let q = (2 * n + b) / (2 * b);
    assert(-b <= 2 * (q * b) - 2 * n <= b) by (nonlinear_arith)
        requires
            q == (2 * n + b) / (2 * b),
            b > 0,
            n >= 0,
    ;
    if a < 0 {
        assert((-q) * b == -(q * b)) by (nonlinear_arith);
    }
}

/// The quotient of `a` by `b`, rounded to the nearest integer.
pub fn div_round(a: i128, b: i128) -> (q: i128)
    requires
        b > 0,
        -0x1000_0000_0000_0000_0000_0000_0000 <= a <= 0x1000_0000_0000_0000_0000_0000_0000,
        b <= 0x1000_0000_0000_0000_0000_0000_0000,
    ensures
        q == round_div(a as int, b as int),
{
    if a >= 0 {
        (2 * a + b) / (2 * b)
    } else {
        -((2 * (-a) + b) / (2 * b))
    }
}

/// Clamps a wide integer to the range of `i32`.
pub fn saturate_i32(v: i128) -> (r: i32)
    ensures
        r == clamp_i32(v as int),
{
    if v < -2147483648i128 {
        i32::MIN
    } else if v > 2147483647i128 {
        i32::MAX
    } else {
        v as i32
    }
}

/// Clamps a wide integer to the range of `u32`.
pub fn saturate_u32(v: i128) -> (r: u32)
    ensures
        r == clamp_u32(v as int),
{
    if v < 0i128 {
        0u32
    } else if v > 4294967295i128 {
        u32::MAX
    } else {
        v as u32
    }
}

/// The integer square root of `n`.
pub fn isqrt(n: u128) -> (r: u64)
    ensures
        r == floor_sqrt(n as int),
{
    let mut lo: u128 = 0;
    let mut hi: u128 = 0x1_0000_0000_0000_0000u128;
    assert(hi * hi > n) by (nonlinear_arith)
        requires
            hi == 0x1_0000_0000_0000_0000u128,
            n <= u128::MAX,
    ;
    while hi - lo > 1
        invariant
            lo < hi <= 0x1_0000_0000_0000_0000u128,
            lo * lo <= n,
            n < hi * hi,
        decreases hi - lo,
    {
        let mid: u128 = lo + (hi - lo) / 2;
        assert(mid * mid <= u128::MAX) by (nonlinear_arith)
            requires
                mid <= 0xFFFF_FFFF_FFFF_FFFFu128,
        ;
        if mid * mid <= n {
            lo = mid;
        } else {
            hi = mid;
        }
    }
    proof {
        lemma_floor_sqrt_unique(n as int, lo as int);
    }
    lo as u64
}

/// The least `r` with `n <= r * r`.
pub fn isqrt_up(n: u128) -> (r: u128)
    ensures
        r == ceil_sqrt(n as int),
{
    let root: u128 = isqrt(n) as u128;
    proof {
        lemma_floor_sqrt_bounds(n as int);
        assert(root * root <= u128::MAX) by (nonlinear_arith)
            requires
                root <= 0xFFFF_FFFF_FFFF_FFFFu128,
        ;
    }
    if root * root >= n {
        root
    } else {
        root + 1
    }
}

} // verus!
