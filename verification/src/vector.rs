//! Two-dimensional vectors: points and displacements in thousandths, and
//! directions of length one million.

use vstd::prelude::*;
use crate::fixed::{
    abs, ceil_sqrt, clamp_i32, div_round, floor_sqrt, isqrt, isqrt_up, lemma_ceil_sqrt_bounds,
    lemma_floor_sqrt_bounds, lemma_round_div_error, lemma_round_div_within, round_div,
    saturate_i32, trunc_div,
};

verus! {

/// A point, a displacement or a direction of the plane. The components of a
/// point or a displacement count thousandths; a direction has length one
/// million.
#[derive(Clone, Copy, PartialEq, Eq, Debug, Structural)]
pub struct Vec2 {
    pub x: i32,
    pub y: i32,
}

/// The vector with both components zero.
pub open spec fn zero() -> Vec2 {
    Vec2 { x: 0, y: 0 }
}

/// The component-wise sum, each component clamped to `i32`.
pub open spec fn sum(a: Vec2, b: Vec2) -> Vec2 {
    Vec2 { x: clamp_i32(a.x + b.x) as i32, y: clamp_i32(a.y + b.y) as i32 }
}

/// The component-wise difference, each component clamped to `i32`.
pub open spec fn difference(a: Vec2, b: Vec2) -> Vec2 {
    Vec2 { x: clamp_i32(a.x - b.x) as i32, y: clamp_i32(a.y - b.y) as i32 }
}

/// The opposite vector, each component clamped to `i32`.
pub open spec fn negated(a: Vec2) -> Vec2 {
    Vec2 { x: clamp_i32(-a.x) as i32, y: clamp_i32(-a.y) as i32 }
}

/// The exact squared distance between two points.
pub open spec fn dist_sq(a: Vec2, b: Vec2) -> int {
    (a.x - b.x) * (a.x - b.x) + (a.y - b.y) * (a.y - b.y)
}

/// The distance between two points, rounded down.
pub open spec fn dist(a: Vec2, b: Vec2) -> int {
    floor_sqrt(dist_sq(a, b))
}

/// `v * num / den`: each component rounded toward zero, then clamped to `i32`.
pub open spec fn scaled(v: Vec2, num: int, den: int) -> Vec2
    recommends
        den > 0,
{
    Vec2 {
        x: clamp_i32(trunc_div(v.x * num, den)) as i32,
        y: clamp_i32(trunc_div(v.y * num, den)) as i32,
    }
}

/// The length of `v` in steps of `10^-9`, rounded up.
pub open spec fn fine_length(v: Vec2) -> int {
    ceil_sqrt(v.norm_sq() * 1_000_000_000_000_000_000)
}

/// The direction of `v`: the vector of length one million that points the
/// way of `v`, each component rounded to the nearest integer; and zero for
/// the zero vector. The length of `v` is taken in steps of `10^-9`, so the
/// direction of a short vector is as exact as that of a long one.
pub open spec fn normalized(v: Vec2) -> Vec2 {
    if v.x == 0 && v.y == 0 {
        zero()
    } else {
        Vec2 {
            x: round_div(v.x * 1_000_000_000_000_000, fine_length(v)) as i32,
            y: round_div(v.y * 1_000_000_000_000_000, fine_length(v)) as i32,
        }
    }
}

/// `v` if it is no longer than `max`, else `v` shortened to at most `max`
/// along its own direction.
pub open spec fn clamped_length(v: Vec2, max: int) -> Vec2
    recommends
        max >= 0,
{
    if v.norm_sq() <= max * max {
        v
    } else {
        scaled(v, max, ceil_sqrt(v.norm_sq()))
    }
}

impl Vec2 {
    /// The exact squared length.
    pub open spec fn norm_sq(self) -> int {
        self.x * self.x + self.y * self.y
    }

    /// The length, rounded down.
    pub open spec fn length(self) -> int {
        floor_sqrt(self.norm_sq())
    }

    /// The vector with the given components.
    pub fn new(x: i32, y: i32) -> (v: Vec2)
        ensures
            v == (Vec2 { x, y }),
    {
        Vec2 { x, y }
    }

    /// The zero vector.
    pub fn origin() -> (v: Vec2)
        ensures
            v == zero(),
    {
        Vec2 { x: 0, y: 0 }
    }

    /// Whether both components are zero.
    pub fn is_zero(self) -> (r: bool)
        ensures
            r == (self == zero()),
    {
        self.x == 0 && self.y == 0
    }

    /// The sum with `other`; each component stops at the ends of `i32`.
    pub fn plus(self, other: Vec2) -> (r: Vec2)
        ensures
            r == sum(self, other),
    {
        Vec2 {
            x: saturate_i32(self.x as i128 + other.x as i128),
            y: saturate_i32(self.y as i128 + other.y as i128),
        }
    }

    /// The difference to `other`; each component stops at the ends of `i32`.
    pub fn minus(self, other: Vec2) -> (r: Vec2)
        ensures
            r == difference(self, other),
    {
        Vec2 {
            x: saturate_i32(self.x as i128 - other.x as i128),
            y: saturate_i32(self.y as i128 - other.y as i128),
        }
    }

    /// The opposite vector; the opposite of the least `i32` is the greatest.
    pub fn opposite(self) -> (r: Vec2)
        ensures
            r == negated(self),
    {
        Vec2 { x: saturate_i32(-(self.x as i128)), y: saturate_i32(-(self.y as i128)) }
    }

    /// The squared length; it is below `2^63`.
    pub fn length_squared(self) -> (r: u128)
        ensures
            r == self.norm_sq(),
            r <= 0x8000_0000_0000_0000u128,
    {
        let x: i128 = self.x as i128;
        let y: i128 = self.y as i128;
        proof {
            lemma_square_bound(x as int, 0x8000_0000);
            lemma_square_bound(y as int, 0x8000_0000);
        }
        (x * x + y * y) as u128
    }

    /// The length, rounded down; it is below `2^32`.
    pub fn floor_length(self) -> (r: u64)
        ensures
            r == self.length(),
            r < 0x1_0000_0000u64,
    {
        let n: u128 = self.length_squared();
        let r: u64 = isqrt(n);
        proof {
            lemma_floor_sqrt_bounds(n as int);
            lemma_square_root_below(r as int, n + 1, 0x1_0000_0000);
        }
        r
    }

    /// The squared distance to `other`; it is below `2^65`.
    pub fn distance_squared(self, other: Vec2) -> (r: u128)
        ensures
            r == dist_sq(self, other),
            r <= 0x2_0000_0000_0000_0000u128,
    {
        let dx: i128 = self.x as i128 - other.x as i128;
        let dy: i128 = self.y as i128 - other.y as i128;
        proof {
            lemma_square_bound(dx as int, 0x1_0000_0000);
            lemma_square_bound(dy as int, 0x1_0000_0000);
        }
        (dx * dx + dy * dy) as u128
    }

    /// The distance to `other`, rounded down; it is below `2^33`.
    pub fn distance(self, other: Vec2) -> (r: u64)
        ensures
            r == dist(self, other),
            r < 0x2_0000_0000u64,
    {
        let n: u128 = self.distance_squared(other);
        let r: u64 = isqrt(n);
        proof {
            lemma_floor_sqrt_bounds(n as int);
            lemma_square_root_below(r as int, n + 1, 0x2_0000_0000);
        }
        r
    }

    /// `self * num / den`, rounded toward zero and clamped.
    pub fn scale(self, num: i64, den: i64) -> (r: Vec2)
        requires
            den > 0,
        ensures
            r == scaled(self, num as int, den as int),
    {
        let n: i128 = num as i128;
        let d: i128 = den as i128;
        proof {
            lemma_product_bound(self.x as int, n as int, 0x8000_0000, 0x8000_0000_0000_0000);
            lemma_product_bound(self.y as int, n as int, 0x8000_0000, 0x8000_0000_0000_0000);
        }
        Vec2 {
            x: saturate_i32((self.x as i128 * n) / d),
            y: saturate_i32((self.y as i128 * n) / d),
        }
    }

    /// The direction of `self`, a vector whose length is one million, give
    /// or take one; zero for zero. No component is beyond one million.
    pub fn normalize_or_zero(self) -> (r: Vec2)
        ensures
            r == normalized(self),
            -1_000_000 <= r.x <= 1_000_000,
            -1_000_000 <= r.y <= 1_000_000,
            self != zero() ==> 999_998_000_001 <= r.norm_sq() <= 1_000_002_000_001,
    {
        if self.is_zero() {
            Vec2 { x: 0, y: 0 }
        } else {
            let n: u128 = self.length_squared() * 1_000_000_000_000_000_000;
            let len: u128 = isqrt_up(n);
            proof {
                lemma_normalized_within(self);
                lemma_normalized_length(self);
                lemma_ceil_sqrt_bounds(n as int);
                lemma_norm_sq_positive(self);
                lemma_square_root_below(
                    len as int - 1,
                    n as int,
                    0x4000_0000_0000_0000,
                );
            }
            let x: i128 = div_round(self.x as i128 * 1_000_000_000_000_000, len as i128);
            let y: i128 = div_round(self.y as i128 * 1_000_000_000_000_000, len as i128);
            Vec2 { x: x as i32, y: y as i32 }
        }
    }

    /// `self`, shortened to at most `max` if it is longer.
    pub fn clamp_length_max(self, max: u64) -> (r: Vec2)
        ensures
            r == clamped_length(self, max as int),
            r.norm_sq() <= max * max,
            r.norm_sq() <= self.norm_sq(),
    {
        let n: u128 = self.length_squared();
        let m: u128 = max as u128;
        proof {
            lemma_square_bound(m as int, 0xFFFF_FFFF_FFFF_FFFF);
            lemma_clamped_length(self, max as int);
        }
        if n <= m * m {
            self
        } else {
            let len: u128 = isqrt_up(n);
            proof {
                lemma_ceil_sqrt_bounds(n as int);
                lemma_square_root_below(len as int - 1, 0x8000_0000_0000_0000, 0x1_0000_0000);
                lemma_square_root_below(m as int, n as int, 0x1_0000_0000);
            }
            self.scale(max as i64, len as i64)
        }
    }
}

/// Clamping the length gives a vector no longer than `max` and no longer than
/// the vector itself, and turns no component around.
pub proof fn lemma_clamped_length(v: Vec2, max: int)
    requires
        max >= 0,
    ensures
        clamped_length(v, max).norm_sq() <= max * max,
        clamped_length(v, max).norm_sq() <= v.norm_sq(),
        v.x >= 0 ==> 0 <= clamped_length(v, max).x <= v.x,
        v.x <= 0 ==> v.x <= clamped_length(v, max).x <= 0,
        v.y >= 0 ==> 0 <= clamped_length(v, max).y <= v.y,
        v.y <= 0 ==> v.y <= clamped_length(v, max).y <= 0,
{
    let n = v.norm_sq();
    if n > max * max {
        lemma_norm_sq_positive(v);
        lemma_ceil_sqrt_bounds(n);
        let len = ceil_sqrt(n);
        assert(max < len) by (nonlinear_arith)
            requires
                n > max * max,
                n <= len * len,
                max >= 0,
                len >= 0,
        ;
        lemma_scaled_within(v, max, len);
        lemma_scaled_shorter(v, max, len);
    }
}

/// No component of a direction is beyond one million, and each has the sign
/// of the component it comes from.
pub proof fn lemma_normalized_within(v: Vec2)
    ensures
        -1_000_000 <= normalized(v).x <= 1_000_000,
        -1_000_000 <= normalized(v).y <= 1_000_000,
        v.x >= 0 ==> normalized(v).x >= 0,
        v.x <= 0 ==> normalized(v).x <= 0,
        v.y >= 0 ==> normalized(v).y >= 0,
        v.y <= 0 ==> normalized(v).y <= 0,
        v != zero() ==> normalized(v).x == round_div(v.x * 1_000_000_000_000_000, fine_length(v))
            && normalized(v).y == round_div(v.y * 1_000_000_000_000_000, fine_length(v)),
{
    if v != zero() {
        lemma_norm_sq_positive(v);
        let n = v.norm_sq() * 1_000_000_000_000_000_000;
        lemma_ceil_sqrt_bounds(n);
        let len = fine_length(v);
        let fx = abs(v.x as int) * 1_000_000_000;
        let fy = abs(v.y as int) * 1_000_000_000;
        assert(fx * fx + fy * fy == n) by (nonlinear_arith)
            requires
                fx == abs(v.x as int) * 1_000_000_000,
                fy == abs(v.y as int) * 1_000_000_000,
                n == (v.x * v.x + v.y * v.y) * 1_000_000_000_000_000_000,
        ;
        assert(fx <= len && fy <= len) by (nonlinear_arith)
            requires
                fx >= 0,
                fy >= 0,
                len >= 0,
                fx * fx + fy * fy <= len * len,
        ;
        assert(abs(v.x * 1_000_000_000_000_000) == fx * 1_000_000);
        assert(abs(v.y * 1_000_000_000_000_000) == fy * 1_000_000);
        lemma_round_div_within(v.x * 1_000_000_000_000_000, len, 1_000_000);
        lemma_round_div_within(v.y * 1_000_000_000_000_000, len, 1_000_000);
    }
}

/// A direction has length one million, give or take one: the squared length
/// of `normalized(v)` lies between the squares of `999_999` and `1_000_001`
/// for every `v` but zero.
pub proof fn lemma_normalized_length(v: Vec2)
    requires
        v != zero(),
    ensures
        999_998_000_001 <= normalized(v).norm_sq() <= 1_000_002_000_001,
{
    lemma_normalized_within(v);
    lemma_norm_sq_positive(v);
    let s = v.norm_sq();
    let n = s * 1_000_000_000_000_000_000;
    lemma_ceil_sqrt_bounds(n);
    let l = fine_length(v);
    let a = v.x * 1_000_000_000_000_000;
    let b = v.y * 1_000_000_000_000_000;
    let p = round_div(a, l);
    let q = round_div(b, l);
    assert(normalized(v).norm_sq() == p * p + q * q);
    lemma_round_div_error(a, l);
    lemma_round_div_error(b, l);
    let d1 = 2 * (p * l) - 2 * a;
    let d2 = 2 * (q * l) - 2 * b;
    let square = a * a + b * b;
    assert(square == n * 1_000_000_000_000) by (nonlinear_arith)
        requires
            a == v.x * 1_000_000_000_000_000,
            b == v.y * 1_000_000_000_000_000,
            square == a * a + b * b,
            n == (v.x * v.x + v.y * v.y) * 1_000_000_000_000_000_000,
    ;
    assert(l >= 1_000_000_000) by (nonlinear_arith)
        requires
            l >= 0,
            n <= l * l,
            n >= 1_000_000_000_000_000_000,
    ;
    let ll = l * l;
    assert(ll > 0) by (nonlinear_arith)
        requires
            ll == l * l,
            l >= 1,
    ;
    let t = a * d1 + b * d2;
    let reach = abs(a) + abs(b);
    assert(reach * reach <= 2 * square) by (nonlinear_arith)
        requires
            reach == abs(a) + abs(b),
            square == a * a + b * b,
    ;
    assert(reach <= 1_500_000 * l) by (nonlinear_arith)
        requires
            reach >= 0,
            l >= 0,
            reach * reach <= 2 * square,
            square == n * 1_000_000_000_000,
            n <= l * l,
    ;
    assert(-(reach * l) <= t <= reach * l) by (nonlinear_arith)
        requires
            t == a * d1 + b * d2,
            reach == abs(a) + abs(b),
            -l <= d1 <= l,
            -l <= d2 <= l,
            l >= 0,
    ;
    assert(reach * l <= 1_500_000 * ll) by (nonlinear_arith)
        requires
            reach <= 1_500_000 * l,
            ll == l * l,
            l >= 0,
    ;
    let px = p * l;
    let qx = q * l;
    assert(4 * (px * px) == 4 * (a * a) + 4 * (a * d1) + d1 * d1) by (nonlinear_arith)
        requires
            2 * px == 2 * a + d1,
    ;
    assert(4 * (qx * qx) == 4 * (b * b) + 4 * (b * d2) + d2 * d2) by (nonlinear_arith)
        requires
            2 * qx == 2 * b + d2,
    ;
    assert(px * px == (p * p) * ll) by (nonlinear_arith)
        requires
            px == p * l,
            ll == l * l,
    ;
    assert(qx * qx == (q * q) * ll) by (nonlinear_arith)
        requires
            qx == q * l,
            ll == l * l,
    ;
    let whole = 4 * ((p * p + q * q) * ll);
    assert((p * p + q * q) * ll == (p * p) * ll + (q * q) * ll) by (nonlinear_arith);
    assert(whole == 4 * square + 4 * t + d1 * d1 + d2 * d2);
    assert(0 <= d1 * d1 <= ll && 0 <= d2 * d2 <= ll) by (nonlinear_arith)
        requires
            -l <= d1 <= l,
            -l <= d2 <= l,
            ll == l * l,
    ;
    assert(4 * square <= 4_000_000_000_000 * ll);
    assert(whole <= 4_000_008_000_004 * ll);
    assert(4 * square > 4_000_000_000_000 * ((l - 1) * (l - 1)));
    let short = (l - 1) * (l - 1);
    assert(4_000_000_000_000 * short - 6_000_000 * ll >= 3_999_992_000_004 * ll) by (
    nonlinear_arith)
        requires
            ll == l * l,
            short == (l - 1) * (l - 1),
            l >= 1_000_000_000,
    ;
    assert(whole >= 3_999_992_000_004 * ll);
    let result = p * p + q * q;
    assert(999_998_000_001 <= result <= 1_000_002_000_001) by (nonlinear_arith)
        requires
            whole == 4 * (result * ll),
            ll > 0,
            whole <= 4_000_008_000_004 * ll,
            whole >= 3_999_992_000_004 * ll,
    ;
}

/// A square is bounded by the square of a bound on the magnitude.
pub proof fn lemma_square_bound(v: int, bound: int)
    requires
        -bound <= v <= bound,
    ensures
        0 <= v * v <= bound * bound,
{
    assert(0 <= v * v <= bound * bound) by (nonlinear_arith)
        requires
            -bound <= v <= bound,
    ;
}

/// A product is bounded by the product of bounds on the magnitudes.
pub proof fn lemma_product_bound(a: int, b: int, bound_a: int, bound_b: int)
    requires
        -bound_a <= a <= bound_a,
        -bound_b <= b <= bound_b,
    ensures
        -(bound_a * bound_b) <= a * b <= bound_a * bound_b,
{
    assert(-(bound_a * bound_b) <= a * b <= bound_a * bound_b) by (nonlinear_arith)
        requires
            -bound_a <= a <= bound_a,
            -bound_b <= b <= bound_b,
    ;
}

/// An integer whose square is below a square is below its root.
pub proof fn lemma_square_root_below(r: int, n: int, bound: int)
    requires
        0 <= r,
        0 <= bound,
        r * r < n,
        n <= bound * bound,
    ensures
        r < bound,
{
    assert(r < bound) by (nonlinear_arith)
        requires
            0 <= r,
            0 <= bound,
            r * r < n,
            n <= bound * bound,
    ;
}

/// Only the zero vector has squared length zero.
pub proof fn lemma_norm_sq_positive(v: Vec2)
    ensures
        v.norm_sq() >= 0,
        v.norm_sq() == 0 <==> v == zero(),
{
    assert(v.x * v.x >= 0 && (v.x * v.x == 0 <==> v.x == 0)) by (nonlinear_arith);
    assert(v.y * v.y >= 0 && (v.y * v.y == 0 <==> v.y == 0)) by (nonlinear_arith);
}

/// Rounding toward zero never lengthens: `|a * m / l| * l <= |a| * m`.
pub proof fn lemma_trunc_div_shrinks(a: int, m: int, l: int)
    requires
        m >= 0,
        l > 0,
    ensures
        abs(trunc_div(a * m, l)) * l <= abs(a) * m,
        a >= 0 ==> trunc_div(a * m, l) >= 0,
        a <= 0 ==> trunc_div(a * m, l) <= 0,
{
    let p = a * m;
    assert(a >= 0 ==> p >= 0) by (nonlinear_arith)
        requires
            p == a * m,
            m >= 0,
    ;
    assert(a <= 0 ==> p <= 0) by (nonlinear_arith)
        requires
            p == a * m,
            m >= 0,
    ;
    assert(abs(a) * m == abs(p)) by (nonlinear_arith)
        requires
            p == a * m,
            m >= 0,
    ;
    let q = abs(p) / l;
    assert(q * l <= abs(p) && q >= 0) by (nonlinear_arith)
        requires
            q == abs(p) / l,
            l > 0,
            abs(p) >= 0,
    ;
    assert(abs(trunc_div(p, l)) == q);
}

/// Scaling by `m / l`, where `l` is at least the length of `v`, gives a vector
/// no longer than `m`, and no component needs clamping.
pub proof fn lemma_scaled_within(v: Vec2, m: int, l: int)
    requires
        m >= 0,
        l > 0,
        v.norm_sq() <= l * l,
        m <= l || m <= 0x7FFF_FFFF,
    ensures
        scaled(v, m, l).x == trunc_div(v.x * m, l),
        scaled(v, m, l).y == trunc_div(v.y * m, l),
        scaled(v, m, l).norm_sq() <= m * m,
{
    let p = trunc_div(v.x * m, l);
    let q = trunc_div(v.y * m, l);
    lemma_trunc_div_shrinks(v.x as int, m, l);
    lemma_trunc_div_shrinks(v.y as int, m, l);
    let a = abs(p);
    let c = abs(q);
    let b = abs(v.x as int);
    let d = abs(v.y as int);
    assert(b * b + d * d == v.x * v.x + v.y * v.y) by (nonlinear_arith)
        requires
            b == abs(v.x as int),
            d == abs(v.y as int),
    ;
    lemma_shrunk_pair(a, b, c, d, l, m);
    assert(a * a == p * p && c * c == q * q) by (nonlinear_arith)
        requires
            a == abs(p),
            c == abs(q),
    ;
    assert(a <= m && c <= m) by (nonlinear_arith)
        requires
            a >= 0,
            c >= 0,
            m >= 0,
            a * a + c * c <= m * m,
    ;
    if m <= l {
        assert(a <= b) by (nonlinear_arith)
            requires
                a * l <= b * m,
                0 <= m <= l,
                l > 0,
                a >= 0,
                b >= 0,
        ;
        assert(c <= d) by (nonlinear_arith)
            requires
                c * l <= d * m,
                0 <= m <= l,
                l > 0,
                c >= 0,
                d >= 0,
        ;
    }
    assert(clamp_i32(p) == p);
    assert(clamp_i32(q) == q);
}

/// Scaling by `m / l` with `m <= l` lengthens no component.
pub proof fn lemma_scaled_shorter(v: Vec2, m: int, l: int)
    requires
        0 <= m <= l,
        l > 0,
    ensures
        abs(scaled(v, m, l).x as int) <= abs(v.x as int),
        abs(scaled(v, m, l).y as int) <= abs(v.y as int),
        v.x >= 0 ==> scaled(v, m, l).x >= 0,
        v.x <= 0 ==> scaled(v, m, l).x <= 0,
        v.y >= 0 ==> scaled(v, m, l).y >= 0,
        v.y <= 0 ==> scaled(v, m, l).y <= 0,
        scaled(v, m, l).norm_sq() <= v.norm_sq(),
{
    let p = trunc_div(v.x * m, l);
    let q = trunc_div(v.y * m, l);
    lemma_trunc_div_shrinks(v.x as int, m, l);
    lemma_trunc_div_shrinks(v.y as int, m, l);
    let a = abs(p);
    let c = abs(q);
    let b = abs(v.x as int);
    let d = abs(v.y as int);
    assert(a <= b) by (nonlinear_arith)
        requires
            a * l <= b * m,
            0 <= m <= l,
            l > 0,
            a >= 0,
            b >= 0,
    ;
    assert(c <= d) by (nonlinear_arith)
        requires
            c * l <= d * m,
            0 <= m <= l,
            l > 0,
            c >= 0,
            d >= 0,
    ;
    assert(clamp_i32(p) == p);
    assert(clamp_i32(q) == q);
    assert(p * p <= v.x * v.x) by (nonlinear_arith)
        requires
            a == abs(p),
            b == abs(v.x as int),
            a <= b,
    ;
    assert(q * q <= v.y * v.y) by (nonlinear_arith)
        requires
            c == abs(q),
            d == abs(v.y as int),
            c <= d,
    ;
}

/// If `a * l <= b * m`, `c * l <= d * m` and `(b, d)` is no longer than `l`,
/// then `(a, c)` is no longer than `m`.
pub proof fn lemma_shrunk_pair(a: int, b: int, c: int, d: int, l: int, m: int)
    requires
        a >= 0,
        b >= 0,
        c >= 0,
        d >= 0,
        l > 0,
        m >= 0,
        a * l <= b * m,
        c * l <= d * m,
        b * b + d * d <= l * l,
    ensures
        a * a + c * c <= m * m,
{
    assert((a * l) * (a * l) <= (b * m) * (b * m)) by (nonlinear_arith)
        requires
            0 <= a * l <= b * m,
    ;
    assert((c * l) * (c * l) <= (d * m) * (d * m)) by (nonlinear_arith)
        requires
            0 <= c * l <= d * m,
    ;
    assert(0 <= a * l && 0 <= c * l) by (nonlinear_arith)
        requires
            a >= 0,
            c >= 0,
            l > 0,
    ;
    assert((a * l) * (a * l) == (a * a) * (l * l)) by (nonlinear_arith);
    assert((c * l) * (c * l) == (c * c) * (l * l)) by (nonlinear_arith);
    assert((b * m) * (b * m) + (d * m) * (d * m) == (b * b + d * d) * (m * m)) by (nonlinear_arith);
    assert((b * b + d * d) * (m * m) <= (l * l) * (m * m)) by (nonlinear_arith)
        requires
            b * b + d * d <= l * l,
    ;
    let s = a * a + c * c;
    let ll = l * l;
    let mm = m * m;
    assert(ll > 0) by (nonlinear_arith)
        requires
            ll == l * l,
            l > 0,
    ;
    assert(s * ll == (a * a) * ll + (c * c) * ll) by (nonlinear_arith)
        requires
            s == a * a + c * c,
    ;
    assert(s * ll <= mm * ll) by (nonlinear_arith)
        requires
            s * ll == (a * a) * ll + (c * c) * ll,
            (a * a) * ll + (c * c) * ll <= (b * b + d * d) * mm,
            (b * b + d * d) * mm <= ll * mm,
    ;
    assert(s <= mm) by (nonlinear_arith)
        requires
            s * ll <= mm * ll,
            ll > 0,
    ;
}

} // verus!
