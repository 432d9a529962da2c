use vstd::arithmetic::div_mod::{
    lemma_div_by_multiple, lemma_div_is_ordered, lemma_div_is_ordered_by_denominator,
};
use vstd::prelude::*;

verus! {

/// Fixed-point scale: one unit of the plane (a pixel) is `ONE` steps.
pub const ONE: i64 = 65536;

/// `ONE * ONE`, the scale of a product of two fixed-point values.
pub const ONE_SQUARED: i128 = 4294967296;

/// Largest magnitude of a vector component that `normalize` accepts.
pub const VEC_LIMIT: i64 = 4398046511104;

/// A point or a vector of the plane, in fixed-point steps.
#[derive(Clone, Copy, PartialEq, Eq, Structural, Debug)]
pub struct Vec2 {
    pub x: i64,
    pub y: i64,
}

pub open spec fn abs(a: int) -> int {
    if a >= 0 {
        a
    } else {
        -a
    }
}

/// Both components of `v` are at most `limit` in magnitude.
pub open spec fn within(v: Vec2, limit: int) -> bool {
    abs(v.x as int) <= limit && abs(v.y as int) <= limit
}

/// The square root of `n`, rounded down.
pub open spec fn floor_sqrt(n: nat) -> nat
    decreases n,
{
    if n == 0 {
        0
    } else {
        let r = floor_sqrt((n - 1) as nat);
        if (r + 1) * (r + 1) <= n {
            r + 1
        } else {
            r
        }
    }
}

/// Division that rounds toward zero, for a positive divisor.
pub open spec fn div_trunc(a: int, d: int) -> int {
    if a >= 0 {
        a / d
    } else {
        -((-a) / d)
    }
}

/// The squared Euclidean length of `v`.
pub open spec fn length_squared(v: Vec2) -> int {
    v.x * v.x + v.y * v.y
}

/// The length of `v` in steps of `1 / ONE` of a fixed-point unit, rounded down.
pub open spec fn fine_length(v: Vec2) -> nat {
    floor_sqrt((length_squared(v) * ONE_SQUARED) as nat)
}

/// `v` scaled to length `ONE` (up to rounding toward zero), or the zero vector for
/// the zero vector.
pub open spec fn normalized(v: Vec2) -> Vec2 {
    let len = fine_length(v);
    if len == 0 {
        Vec2 { x: 0, y: 0 }
    } else {
        Vec2 {
            x: div_trunc(v.x * ONE_SQUARED, len as int) as i64,
            y: div_trunc(v.y * ONE_SQUARED, len as int) as i64,
        }
    }
}

pub proof fn lemma_floor_sqrt_bounds(n: nat)
    ensures
        floor_sqrt(n) * floor_sqrt(n) <= n < (floor_sqrt(n) + 1) * (floor_sqrt(n) + 1),
    decreases n,
{
    if n > 0 {
        lemma_floor_sqrt_bounds((n - 1) as nat);
        let r = floor_sqrt((n - 1) as nat);
        assert((r + 1) * (r + 1) < (r + 2) * (r + 2)) by (nonlinear_arith);
        if (r + 1) * (r + 1) <= n {
            assert(floor_sqrt(n) == r + 1);
            assert(n < (r + 2) * (r + 2));
        } else {
            assert(floor_sqrt(n) == r);
            assert(r * r <= n);
        }
    } else {
        assert(floor_sqrt(0) == 0);
        assert(0 * 0 == 0 && 1 * 1 == 1) by (nonlinear_arith);
    }
}

/// Only one natural number `r` has `r * r <= n < (r + 1) * (r + 1)`.
pub proof fn lemma_floor_sqrt_unique(n: nat, r: nat)
    requires
        r * r <= n < (r + 1) * (r + 1),
    ensures
        floor_sqrt(n) == r,
{
    lemma_floor_sqrt_bounds(n);
    let s = floor_sqrt(n);
    if s < r {
        assert((s + 1) * (s + 1) <= r * r) by (nonlinear_arith)
            requires
                s + 1 <= r,
        ;
    } else if r < s {
        assert((r + 1) * (r + 1) <= s * s) by (nonlinear_arith)
            requires
                r + 1 <= s,
        ;
    }
}

/// A root is at least any `k` whose square is at most `n`.
pub proof fn lemma_floor_sqrt_at_least(n: nat, k: nat)
    requires
        k * k <= n,
    ensures
        k <= floor_sqrt(n),
{
    lemma_floor_sqrt_bounds(n);
    let s = floor_sqrt(n);
    if s < k {
        assert((s + 1) * (s + 1) <= k * k) by (nonlinear_arith)
            requires
                s + 1 <= k,
        ;
    }
}

/// The square root of `n`, rounded down.
pub fn isqrt(n: u128) -> (r: u128)
    ensures
        r == floor_sqrt(n as nat),
{
    let mut lo: u128 = 0;
    let mut hi: u128 = 0x1_0000_0000_0000_0000;
    assert(n < hi * hi) by (nonlinear_arith)
        requires
            hi == 0x1_0000_0000_0000_0000u128,
            n <= u128::MAX,
    ;
    while hi - lo > 1
        invariant
            lo < hi <= 0x1_0000_0000_0000_0000u128,
            lo * lo <= n < hi * hi,
        decreases hi - lo,
    {
        let mid: u128 = lo + (hi - lo) / 2;
        assert(mid * mid < 0x1_0000_0000_0000_0000_0000_0000_0000_0000int) by (nonlinear_arith)
            requires
                mid < 0x1_0000_0000_0000_0000u128,
        ;
        if mid * mid <= n {
            lo = mid;
        } else {
            hi = mid;
        }
    }
    proof {
        lemma_floor_sqrt_unique(n as nat, lo as nat);
    }
    lo
}

/// `a / d` rounded toward zero.
pub fn div_toward_zero(a: i128, d: u128) -> (r: i128)
    requires
        d > 0,
        abs(a as int) < 0x4000_0000_0000_0000_0000_0000_0000_0000,
    ensures
        r == div_trunc(a as int, d as int),
        abs(r as int) <= abs(a as int),
{
    if a >= 0 {
        proof {
            lemma_div_is_ordered_by_denominator(a as int, 1, d as int);
        }
        ((a as u128) / d) as i128
    } else {
        let m: u128 = (-a) as u128;
        proof {
            lemma_div_is_ordered_by_denominator(m as int, 1, d as int);
        }
        -((m / d) as i128)
    }
}

/// The normalized vector has components at most `ONE` in magnitude.
pub proof fn lemma_normalized_bounded(v: Vec2)
    ensures
        within(normalized(v), ONE as int),
        fine_length(v) == 0 <==> v == (Vec2 { x: 0, y: 0 }),
        fine_length(v) != 0 ==> abs(div_trunc(v.x * ONE_SQUARED, fine_length(v) as int)) <= ONE,
        fine_length(v) != 0 ==> abs(div_trunc(v.y * ONE_SQUARED, fine_length(v) as int)) <= ONE,
{
    let n = length_squared(v) * ONE_SQUARED;
    let ax = abs(v.x as int);
    let ay = abs(v.y as int);
    lemma_square_of_abs(v.x as int);
    lemma_square_of_abs(v.y as int);
    assert(n >= 0 && (ax * ONE) * (ax * ONE) <= n && (ay * ONE) * (ay * ONE) <= n)
        by (nonlinear_arith)
        requires
            n == (v.x * v.x + v.y * v.y) * ONE_SQUARED,
            ax * ax == v.x * v.x,
            ay * ay == v.y * v.y,
            ONE_SQUARED == ONE * ONE,
    ;
    let len = fine_length(v);
    lemma_floor_sqrt_bounds(n as nat);
    lemma_floor_sqrt_at_least(n as nat, (ax * ONE) as nat);
    lemma_floor_sqrt_at_least(n as nat, (ay * ONE) as nat);
    if v != (Vec2 { x: 0, y: 0 }) {
        assert(ax >= 1 || ay >= 1);
        assert(ax * ONE >= ONE || ay * ONE >= ONE) by (nonlinear_arith)
            requires
                ax >= 1 || ay >= 1,
        ;
        assert(len >= ONE);
        lemma_bound_one_component(v.x as int, len as int);
        lemma_bound_one_component(v.y as int, len as int);
    } else {
        assert(n == 0);
        lemma_floor_sqrt_unique(0, 0);
    }
}

proof fn lemma_square_of_abs(a: int)
    ensures
        abs(a) * abs(a) == a * a,
        abs(a) >= 0,
{
    if a < 0 {
        assert((-a) * (-a) == a * a) by (nonlinear_arith);
    }
}

proof fn lemma_bound_one_component(c: int, len: int)
    requires
        len >= abs(c) * ONE,
        len >= 1,
    ensures
        abs(div_trunc(c * ONE_SQUARED, len)) <= ONE,
{
    let a = abs(c);
    assert(abs(c * ONE_SQUARED) == a * ONE_SQUARED) by (nonlinear_arith)
        requires
            a == abs(c),
    ;
    assert(a * ONE_SQUARED >= 0) by (nonlinear_arith)
        requires
            a >= 0,
    ;
    assert(abs(div_trunc(c * ONE_SQUARED, len)) == (a * ONE_SQUARED) / len) by {
        lemma_div_is_ordered_by_denominator(a * ONE_SQUARED, 1, len);
        assert(0 <= (a * ONE_SQUARED) / len) by (nonlinear_arith)
            requires
                a * ONE_SQUARED >= 0,
                len >= 1,
        ;
    }
    if a > 0 {
        assert(a * ONE >= 1) by (nonlinear_arith)
            requires
                a > 0,
        ;
        lemma_div_is_ordered_by_denominator(a * ONE_SQUARED, a * ONE, len);
        assert(a * ONE_SQUARED == ONE * (a * ONE)) by (nonlinear_arith)
            requires
                ONE_SQUARED == ONE * ONE,
        ;
        lemma_div_by_multiple(ONE as int, a * ONE);
    }
}

/// Scales `v` to length `ONE`, rounding toward zero; the zero vector stays zero.
pub fn normalize(v: Vec2) -> (r: Vec2)
    requires
        within(v, VEC_LIMIT as int),
    ensures
        r == normalized(v),
        within(r, ONE as int),
{
    proof {
        lemma_normalized_bounded(v);
    }
    let x = v.x as i128;
    let y = v.y as i128;
    assert(0 <= x * x <= 0x100_0000_0000_0000_0000_0000int) by (nonlinear_arith)
        requires
            abs(x as int) <= VEC_LIMIT,
    ;
    assert(0 <= y * y <= 0x100_0000_0000_0000_0000_0000int) by (nonlinear_arith)
        requires
            abs(y as int) <= VEC_LIMIT,
    ;
    let sum: i128 = x * x + y * y;
    assert(sum * ONE_SQUARED <= 0x200_0000_0000_0000_0000_0000_0000_0000int) by (nonlinear_arith)
        requires
            0 <= sum <= 0x200_0000_0000_0000_0000_0000int,
    ;
    let sq: u128 = (sum as u128) * (ONE_SQUARED as u128);
    let len = isqrt(sq);
    if len == 0 {
        Vec2 { x: 0, y: 0 }
    } else {
        assert(abs(x * ONE_SQUARED) <= VEC_LIMIT * ONE_SQUARED) by (nonlinear_arith)
            requires
                abs(x as int) <= VEC_LIMIT,
        ;
        assert(abs(y * ONE_SQUARED) <= VEC_LIMIT * ONE_SQUARED) by (nonlinear_arith)
            requires
                abs(y as int) <= VEC_LIMIT,
        ;
        let rx = div_toward_zero(x * ONE_SQUARED, len);
        let ry = div_toward_zero(y * ONE_SQUARED, len);
        Vec2 { x: rx as i64, y: ry as i64 }
    }
}

/// `a * rate / ONE`, rounded toward zero: `a` scaled by a fraction of `ONE`.
pub open spec fn scaled(a: int, rate: int) -> int {
    div_trunc(a * rate, ONE as int)
}

/// Scales `a` by `rate / ONE`, rounding toward zero. The result lies between zero
/// and `a`.
pub fn scale(a: i64, rate: i64) -> (r: i64)
    requires
        abs(a as int) <= VEC_LIMIT * 4,
        0 <= rate <= ONE,
    ensures
        r == scaled(a as int, rate as int),
        a >= 0 ==> 0 <= r <= a,
        a < 0 ==> a <= r <= 0,
{
    let m: i128 = if a >= 0 { a as i128 } else { -(a as i128) };
    assert(0 <= m * rate <= m * ONE) by (nonlinear_arith)
        requires
            0 <= m,
            0 <= rate <= ONE,
    ;
    assert(m * ONE <= VEC_LIMIT * 4 * ONE) by (nonlinear_arith)
        requires
            0 <= m <= VEC_LIMIT * 4,
    ;
    let q: i128 = (m * (rate as i128)) / (ONE as i128);
    proof {
        lemma_div_is_ordered(m * rate, m * ONE, ONE as int);
        lemma_div_by_multiple(m as int, ONE as int);
        lemma_div_is_ordered_by_denominator(m * rate, 1, ONE as int);
        assert((a as int) * rate == if a >= 0 { m * rate } else { -(m * rate) }) by (nonlinear_arith)
            requires
                m == abs(a as int),
        ;
    }
    if a >= 0 {
        q as i64
    } else {
        -(q as i64)
    }
}

/// A component of at most `ONE` in magnitude, scaled by a rate of at most `ONE`,
/// stays at most `ONE` in magnitude.
pub proof fn lemma_scaled_bounded(a: int, rate: int)
    requires
        -ONE <= a <= ONE,
        0 <= rate <= ONE,
    ensures
        -ONE <= scaled(a, rate) <= ONE,
{
    let m = abs(a);
    assert(0 <= m * rate <= ONE * ONE) by (nonlinear_arith)
        requires
            0 <= m <= ONE,
            0 <= rate <= ONE,
    ;
    lemma_div_is_ordered(m * rate, ONE * ONE, ONE as int);
    lemma_div_by_multiple(ONE as int, ONE as int);
    lemma_div_is_ordered_by_denominator(m * rate, 1, ONE as int);
    assert(a * rate == if a >= 0 { m * rate } else { -(m * rate) }) by (nonlinear_arith)
        requires
            m == abs(a),
    ;
}

} // verus!
