//! Scalar helpers shared by the whole simulation: truncating division as the
//! hardware performs it, integer square roots, clamps, and the toroidal
//! wrapping primitives used at the simulated rectangle's boundary.
use vstd::prelude::*;

verus! {

/// Magnitude of a mathematical integer.
pub open spec fn int_abs(a: int) -> int {
    if a >= 0 {
        a
    } else {
        -a
    }
}

/// Quotient of `a / b` rounded toward zero, the semantics of `/` on the
/// machine's signed integers (spec-level `/` rounds toward negative
/// infinity when `a` is negative).
pub open spec fn div_t(a: int, b: int) -> int
    recommends
        b > 0,
{
    if a >= 0 {
        a / b
    } else {
        -((-a) / b)
    }
}

/// `r` is the integer square root of `n`, rounded down.
pub open spec fn is_sqrt_floor(r: int, n: int) -> bool {
    &&& 0 <= r
    &&& r * r <= n
    &&& n < (r + 1) * (r + 1)
}

/// The integer square root of `n`, rounded down.
pub open spec fn sqrt_floor(n: int) -> int {
    choose|r: int| is_sqrt_floor(r, n)
}

/// The square-root floor of a number is unique, so any witness of
/// [`is_sqrt_floor`] equals [`sqrt_floor`].
pub proof fn lemma_sqrt_floor_unique(r: int, n: int)
    requires
        is_sqrt_floor(r, n),
    ensures
        r == sqrt_floor(n),
{
    let s = sqrt_floor(n);
    assert(is_sqrt_floor(s, n));
    assert(is_sqrt_floor(r, n) && is_sqrt_floor(s, n) ==> r == s) by (nonlinear_arith);
}

/// Computes the integer square root: the greatest `r` with `r * r <= n`.
pub fn isqrt(n: u64) -> (r: u64)
    ensures
        is_sqrt_floor(r as int, n as int),
        r == sqrt_floor(n as int),
{
    let mut lo: u64 = 0;
    let mut hi: u64 = 4294967296;
    while lo + 1 < hi
        invariant
            lo < hi <= 4294967296,
            lo * lo <= n,
            n < hi * hi,
        decreases hi - lo,
    {
        let mid: u64 = lo + (hi - lo) / 2;
        proof {
            assert(mid < 4294967296);
            assert(mid * mid < 18446744073709551615u64) by (nonlinear_arith)
                requires
                    mid < 4294967296u64,
            ;
        }
        if mid * mid <= n {
            lo = mid;
        } else {
            hi = mid;
        }
    }
    proof {
        lemma_sqrt_floor_unique(lo as int, n as int);
    }
    lo
}

/// Integer square root for the wide intermediate values that squared vector
/// norms produce.
pub fn isqrt_wide(n: u128) -> (r: u64)
    requires
        n < 19342813113834066795298816,  // (2^42)^2
    ensures
        is_sqrt_floor(r as int, n as int),
        r == sqrt_floor(n as int),
{
    let mut lo: u128 = 0;
    let mut hi: u128 = 4398046511104;  // 2^42
    while lo + 1 < hi
        invariant
            lo < hi <= 4398046511104,
            lo * lo <= n,
            n < hi * hi,
        decreases hi - lo,
    {
        let mid: u128 = lo + (hi - lo) / 2;
        proof {
            assert(mid < 4398046511104);
            assert(mid * mid < 19342813113834066795298816u128) by (nonlinear_arith)
                requires
                    mid < 4398046511104u128,
            ;
        }
        if mid * mid <= n {
            lo = mid;
        } else {
            hi = mid;
        }
    }
    proof {
        assert(lo * lo < 19342813113834066795298816);
        assert(lo < 4398046511104) by (nonlinear_arith)
            requires
                lo * lo < 19342813113834066795298816u128,
        ;
        lemma_sqrt_floor_unique(lo as int, n as int);
    }
    lo as u64
}

/// Every non-negative number has a square-root floor, so [`sqrt_floor`]
/// really denotes it.
pub proof fn lemma_sqrt_floor_exists(n: int)
    requires
        n >= 0,
    ensures
        is_sqrt_floor(sqrt_floor(n), n),
    decreases n,
{
    if n == 0 {
        assert(is_sqrt_floor(0, 0)) by (nonlinear_arith);
        lemma_sqrt_floor_unique(0, 0);
    } else {
        lemma_sqrt_floor_exists(n - 1);
        let r = sqrt_floor(n - 1);
        if (r + 1) * (r + 1) <= n {
            assert(is_sqrt_floor(r + 1, n)) by (nonlinear_arith)
                requires
                    is_sqrt_floor(r, n - 1) && (r + 1) * (r + 1) <= n,
            ;
            lemma_sqrt_floor_unique(r + 1, n);
        } else {
            assert(is_sqrt_floor(r, n));
            lemma_sqrt_floor_unique(r, n);
        }
    }
}

/// A number whose square is at most `n_sq` is at most the square root of
/// `n_sq` in magnitude.
pub proof fn lemma_abs_le_sqrt(x: int, n_sq: int, n: int)
    requires
        is_sqrt_floor(n, n_sq),
        x * x <= n_sq,
    ensures
        int_abs(x) <= n,
{
    assert(x * x <= n_sq < (n + 1) * (n + 1) && n >= 0 ==> int_abs(x) <= n) by (nonlinear_arith);
}

/// Dividing a value of magnitude at most `b * c` by `b` gives a quotient of
/// magnitude at most `c`.
pub proof fn lemma_div_t_bound(a: int, b: int, c: int)
    requires
        b > 0,
        c >= 0,
        int_abs(a) <= b * c,
    ensures
        int_abs(div_t(a, b)) <= c,
{
    vstd::arithmetic::div_mod::lemma_div_by_multiple(c, b);
    assert(c * b == b * c) by (nonlinear_arith);
    if a >= 0 {
        vstd::arithmetic::div_mod::lemma_div_is_ordered(a, b * c, b);
        vstd::arithmetic::div_mod::lemma_div_pos_is_pos(a, b);
    } else {
        vstd::arithmetic::div_mod::lemma_div_is_ordered(-a, b * c, b);
        vstd::arithmetic::div_mod::lemma_div_pos_is_pos(-a, b);
    }
}

/// Truncating division by a positive divisor keeps the numerator's sign
/// and never grows the magnitude.
pub proof fn lemma_div_t_sign(a: int, b: int)
    requires
        b > 0,
    ensures
        a >= 0 ==> div_t(a, b) >= 0,
        a <= 0 ==> div_t(a, b) <= 0,
        int_abs(div_t(a, b)) <= int_abs(a),
{
    if a >= 0 {
        vstd::arithmetic::div_mod::lemma_div_pos_is_pos(a, b);
        vstd::arithmetic::div_mod::lemma_div_nonincreasing(a, b);
    } else {
        vstd::arithmetic::div_mod::lemma_div_pos_is_pos(-a, b);
        vstd::arithmetic::div_mod::lemma_div_nonincreasing(-a, b);
    }
}

/// The truncating quotient times its divisor undershoots the dividend's
/// magnitude by less than one divisor: the two-sided product bound of
/// integer division.
pub proof fn lemma_div_t_mul_bounds(a: int, b: int)
    requires
        b > 0,
    ensures
        int_abs(div_t(a, b)) * b <= int_abs(a),
        (int_abs(div_t(a, b)) + 1) * b > int_abs(a),
{
    let m = int_abs(a);
    vstd::arithmetic::div_mod::lemma_fundamental_div_mod(m, b);
    vstd::arithmetic::div_mod::lemma_mod_bound(m, b);
    vstd::arithmetic::div_mod::lemma_div_pos_is_pos(m, b);
    assert(int_abs(div_t(a, b)) == m / b);
    assert((m / b) * b == b * (m / b) && (m / b + 1) * b == b * (m / b) + b) by (nonlinear_arith);
}

/// How the truncating quotient relates to the Euclidean one: they agree
/// on non-negative numerators, and truncation rounds up by at most one
/// step on negative ones.
pub proof fn lemma_div_t_props(a: int, b: int)
    requires
        b > 0,
    ensures
        a / b <= div_t(a, b) <= a / b + 1,
        a >= 0 ==> div_t(a, b) == a / b,
        a < 0 ==> div_t(a, b) <= 0,
{
    if a < 0 {
        let q = (-a) / b;
        let s = (-a) % b;
        vstd::arithmetic::div_mod::lemma_fundamental_div_mod(-a, b);
        vstd::arithmetic::div_mod::lemma_mod_bound(-a, b);
        vstd::arithmetic::div_mod::lemma_div_pos_is_pos(-a, b);
        assert((-q) * b == -(q * b) && (-q - 1) * b == -(q * b) - b) by (nonlinear_arith);
        if s == 0 {
            vstd::arithmetic::div_mod::lemma_fundamental_div_mod_converse(a, b, -q, 0);
        } else {
            vstd::arithmetic::div_mod::lemma_fundamental_div_mod_converse(a, b, -q - 1, b - s);
        }
    }
}

/// Truncating division with a positive divisor, related to the spec-level
/// Euclidean quotient through [`div_t`].
pub fn div_q(a: i64, b: i64) -> (r: i64)
    requires
        b > 0,
    ensures
        r == div_t(a as int, b as int),
        int_abs(r as int) <= int_abs(a as int),
{
    proof {
        if a >= 0 {
            vstd::arithmetic::div_mod::lemma_div_nonincreasing(a as int, b as int);
            vstd::arithmetic::div_mod::lemma_div_pos_is_pos(a as int, b as int);
        } else {
            vstd::arithmetic::div_mod::lemma_div_nonincreasing(-(a as int), b as int);
            vstd::arithmetic::div_mod::lemma_div_pos_is_pos(-(a as int), b as int);
        }
    }
    a / b
}

/// Truncating division on the wide machine word, for intermediate
/// products too large for the narrow one.
pub fn div_q_wide(a: i128, b: i128) -> (r: i128)
    requires
        b > 0,
    ensures
        r == div_t(a as int, b as int),
        int_abs(r as int) <= int_abs(a as int),
{
    proof {
        if a >= 0 {
            vstd::arithmetic::div_mod::lemma_div_nonincreasing(a as int, b as int);
            vstd::arithmetic::div_mod::lemma_div_pos_is_pos(a as int, b as int);
        } else {
            vstd::arithmetic::div_mod::lemma_div_nonincreasing(-(a as int), b as int);
            vstd::arithmetic::div_mod::lemma_div_pos_is_pos(-(a as int), b as int);
        }
    }
    a / b
}

/// Euclidean remainder with a positive modulus: the result is always in
/// `[0, m)`.
pub fn mod_e(a: i64, m: i64) -> (r: i64)
    requires
        m > 0,
        a > i64::MIN + m,
    ensures
        r == (a as int) % (m as int),
        0 <= r < m,
{
    let t = a % m;
    proof {
        vstd::arithmetic::div_mod::lemma_mod_bound(a as int, m as int);
        if a < 0 {
            let na = -(a as int);
            vstd::arithmetic::div_mod::lemma_fundamental_div_mod(na, m as int);
            vstd::arithmetic::div_mod::lemma_mod_bound(na, m as int);
            let q = na / (m as int);
            let s = na % (m as int);
            assert((-q) * (m as int) == -(q * (m as int))) by (nonlinear_arith);
            assert((-q - 1) * (m as int) == -(q * (m as int)) - m) by (nonlinear_arith);
            if s == 0 {
                vstd::arithmetic::div_mod::lemma_fundamental_div_mod_converse_mod(
                    a as int,
                    m as int,
                    -q,
                    0,
                );
            } else {
                vstd::arithmetic::div_mod::lemma_fundamental_div_mod_converse_mod(
                    a as int,
                    m as int,
                    -q - 1,
                    m - s,
                );
            }
        }
    }
    if t < 0 {
        t + m
    } else {
        t
    }
}

/// Magnitude of a machine integer.
pub fn abs_i(a: i64) -> (r: i64)
    requires
        a > i64::MIN,
    ensures
        r == int_abs(a as int),
{
    if a < 0 {
        -a
    } else {
        a
    }
}

/// Clamps `x` into the inclusive interval `[lo, hi]`.
pub fn clamp_i(x: i64, lo: i64, hi: i64) -> (r: i64)
    requires
        lo <= hi,
    ensures
        r == if x < lo {
            lo
        } else if x > hi {
            hi
        } else {
            x
        },
{
    if x < lo {
        lo
    } else if x > hi {
        hi
    } else {
        x
    }
}

/// The edge-snap wrap: a value that reaches the upper bound reappears at
/// the lower bound and vice versa (bounds inclusive).
pub open spec fn spec_toroidal_clamp(v: int, inf: int, sup: int) -> int {
    if v >= sup {
        inf
    } else if v <= inf {
        sup
    } else {
        v
    }
}

/// The edge-snap wrap with exclusive bounds: only values strictly outside
/// `[inf, sup]` are sent to the opposite bound.
pub open spec fn spec_toroidal_clamp_exclusive(v: int, inf: int, sup: int) -> int {
    if v > sup {
        inf
    } else if v < inf {
        sup
    } else {
        v
    }
}

/// Sends a value that left `[inf, sup]` back to the opposite edge,
/// treating the bounds themselves as already outside.
pub fn toroidal_clamp(value: &mut i64, inf: i64, sup: i64)
    ensures
        *final(value) == spec_toroidal_clamp(*old(value) as int, inf as int, sup as int),
{
    if *value >= sup {
        *value = inf;
    } else if *value <= inf {
        *value = sup;
    }
}

/// Sends a value that left `[inf, sup]` back to the opposite edge, keeping
/// values on the bounds where they are.
pub fn toroidal_clamp_exclusive(value: &mut i64, inf: i64, sup: i64)
    ensures
        *final(value) == spec_toroidal_clamp_exclusive(*old(value) as int, inf as int, sup as int),
{
    if *value > sup {
        *value = inf;
    } else if *value < inf {
        *value = sup;
    }
}

/// [`toroidal_clamp`] with the interval given as its two inclusive ends,
/// upper end first.
pub fn toroidal_clamp_range(value: &mut i64, start: i64, end: i64)
    ensures
        *final(value) == spec_toroidal_clamp(*old(value) as int, end as int, start as int),
{
    toroidal_clamp(value, end, start);
}

/// [`toroidal_clamp_exclusive`] with the interval given as its two ends,
/// upper end first.
pub fn toroidal_clamp_exclusive_range(value: &mut i64, start: i64, end: i64)
    ensures
        *final(value) == spec_toroidal_clamp_exclusive(*old(value) as int, end as int, start as int),
{
    toroidal_clamp_exclusive(value, end, start);
}

/// Where a coordinate lands after modular wrapping into `[-bound, bound)`:
/// the position predicted by reducing it modulo the interval's extent.
pub open spec fn spec_wrap(x: int, bound: int) -> int
    recommends
        bound > 0,
{
    (x + bound) % (2 * bound) - bound
}

/// Wraps a coordinate into `[-bound, bound)` by reducing it modulo the
/// extent `2 * bound`: an exit across one edge reappears at the opposite
/// edge, overshoot preserved.
pub fn wrap_coordinate(x: i64, bound: i64) -> (r: i64)
    requires
        0 < bound <= 2 * crate::POS_LIMIT,
        int_abs(x as int) <= i64::MAX - 4 * crate::POS_LIMIT,
    ensures
        r == spec_wrap(x as int, bound as int),
        -bound <= r < bound,
{
    let m = mod_e(x + bound, 2 * bound);
    m - bound
}

} // verus!
