//! Plain integer 2D vectors: positions, velocities and steering
//! contributions are all values of [`Vec2I`], measured in thousandths of a
//! pixel so that every operation is exact integer arithmetic.
use vstd::prelude::*;
use crate::math::{
    abs_i, div_q, div_t, int_abs, is_sqrt_floor, isqrt_wide, lemma_abs_le_sqrt, lemma_div_t_bound,
    lemma_sqrt_floor_exists, lemma_sqrt_floor_unique, sqrt_floor,
};

verus! {

/// Largest component magnitude on which a norm may be computed.
pub const NORM_INPUT_LIMIT: i64 = 2000000000000;

/// Largest component magnitude for squared distances: the squared norm of
/// such a difference still fits the machine word.
pub const DIST_INPUT_LIMIT: i64 = 1500000000;

/// Largest factor a vector may be rescaled to.
pub const RESCALE_LIMIT: i64 = 3000000;

/// Largest component magnitude on which a norm clamp may be computed.
pub const CLAMP_INPUT_LIMIT: i64 = 100000000000;

/// Largest bound a norm clamp may be asked for.
pub const CLAMP_MAX_LIMIT: i64 = 40000000;

/// Upper bound on the norm of any vector inside [`NORM_INPUT_LIMIT`].
pub const NORM_LIMIT: i64 = 2900000000000;

/// A 2D vector with integer components.
#[derive(Clone, Copy, PartialEq, Eq, Structural, Debug)]
pub struct Vec2I {
    pub x: i64,
    pub y: i64,
}

impl Vec2I {
    /// Squared Euclidean norm.
    pub open spec fn spec_norm_sq(self) -> int {
        self.x * self.x + self.y * self.y
    }

    /// Euclidean norm, rounded down to an integer.
    pub open spec fn spec_norm(self) -> int {
        sqrt_floor(self.spec_norm_sq())
    }

    /// Both components have magnitude at most `b`.
    pub open spec fn spec_in_box(self, b: int) -> bool {
        int_abs(self.x as int) <= b && int_abs(self.y as int) <= b
    }

    /// The vector rescaled by the exact ratio `num / den`, each component
    /// rounded toward zero.
    pub open spec fn spec_scale_div(self, num: int, den: int) -> Vec2I
        recommends
            den > 0,
    {
        Vec2I { x: div_t(self.x * num, den) as i64, y: div_t(self.y * num, den) as i64 }
    }

    /// The vector rescaled to norm `target` (up to rounding); the zero
    /// vector has no direction and is left as it is.
    pub open spec fn spec_scaled_to(self, target: int) -> Vec2I {
        if self.spec_norm_sq() == 0 {
            self
        } else {
            self.spec_scale_div(target, self.spec_norm())
        }
    }

    /// The vector with its norm clamped to at most `m`, direction kept.
    pub open spec fn spec_clamp_norm_max(self, m: int) -> Vec2I {
        if self.spec_norm_sq() <= m * m {
            self
        } else {
            self.spec_scale_div(m, self.spec_norm())
        }
    }

    pub fn new(x: i64, y: i64) -> (r: Vec2I)
        ensures
            r == (Vec2I { x, y }),
    {
        Vec2I { x, y }
    }

    pub fn zero() -> (r: Vec2I)
        ensures
            r == (Vec2I { x: 0i64, y: 0i64 }),
    {
        Vec2I { x: 0, y: 0 }
    }

    /// Componentwise sum.
    pub fn plus(self, o: Vec2I) -> (r: Vec2I)
        requires
            i64::MIN <= self.x + o.x <= i64::MAX,
            i64::MIN <= self.y + o.y <= i64::MAX,
        ensures
            r == (Vec2I { x: (self.x + o.x) as i64, y: (self.y + o.y) as i64 }),
    {
        Vec2I { x: self.x + o.x, y: self.y + o.y }
    }

    /// Componentwise difference.
    pub fn minus(self, o: Vec2I) -> (r: Vec2I)
        requires
            i64::MIN <= self.x - o.x <= i64::MAX,
            i64::MIN <= self.y - o.y <= i64::MAX,
        ensures
            r == (Vec2I { x: (self.x - o.x) as i64, y: (self.y - o.y) as i64 }),
    {
        Vec2I { x: self.x - o.x, y: self.y - o.y }
    }

    /// The opposite vector.
    pub fn neg(self) -> (r: Vec2I)
        requires
            self.x > i64::MIN,
            self.y > i64::MIN,
        ensures
            r == (Vec2I { x: (-self.x) as i64, y: (-self.y) as i64 }),
    {
        Vec2I { x: -self.x, y: -self.y }
    }

    /// Squared Euclidean distance to `o`.
    pub fn dist_sq(self, o: Vec2I) -> (r: i64)
        requires
            int_abs(self.x - o.x) <= DIST_INPUT_LIMIT,
            int_abs(self.y - o.y) <= DIST_INPUT_LIMIT,
        ensures
            r == (Vec2I {
                x: (self.x - o.x) as i64,
                y: (self.y - o.y) as i64,
            }).spec_norm_sq(),
            r >= 0,
    {
        let dx = self.x - o.x;
        let dy = self.y - o.y;
        proof {
            assert(0 <= dx * dx <= 2250000000000000000 && 0 <= dy * dy <= 2250000000000000000)
                by (nonlinear_arith)
                requires
                    int_abs(dx as int) <= DIST_INPUT_LIMIT && int_abs(dy as int)
                        <= DIST_INPUT_LIMIT,
            ;
        }
        dx * dx + dy * dy
    }

    /// Squared Euclidean norm, on a machine word wide enough never to
    /// overflow for admissible components.
    pub fn norm_sq_wide(self) -> (r: u128)
        requires
            self.spec_in_box(NORM_INPUT_LIMIT as int),
        ensures
            r == self.spec_norm_sq(),
            r <= 8000000000000000000000000u128,
    {
        let ax = abs_i(self.x);
        let ay = abs_i(self.y);
        proof {
            assert(ax * ax == self.x * self.x && ay * ay == self.y * self.y) by (nonlinear_arith)
                requires
                    ax == int_abs(self.x as int) && ay == int_abs(self.y as int),
            ;
            assert((ax as u128) * (ax as u128) + (ay as u128) * (ay as u128)
                <= 8000000000000000000000000u128) by (nonlinear_arith)
                requires
                    0 <= ax <= NORM_INPUT_LIMIT && 0 <= ay <= NORM_INPUT_LIMIT,
            ;
        }
        (ax as u128) * (ax as u128) + (ay as u128) * (ay as u128)
    }

    /// Euclidean norm, rounded down.
    pub fn norm(self) -> (r: i64)
        requires
            self.spec_in_box(NORM_INPUT_LIMIT as int),
        ensures
            r == self.spec_norm(),
            is_sqrt_floor(r as int, self.spec_norm_sq()),
            0 <= r <= NORM_LIMIT,
            int_abs(self.x as int) <= r && int_abs(self.y as int) <= r,
    {
        let ax = abs_i(self.x);
        let ay = abs_i(self.y);
        proof {
            assert(ax * ax == self.x * self.x && ay * ay == self.y * self.y) by (nonlinear_arith)
                requires
                    ax == int_abs(self.x as int) && ay == int_abs(self.y as int),
            ;
            assert((ax as u128) * (ax as u128) + (ay as u128) * (ay as u128)
                <= 8000000000000000000000000u128) by (nonlinear_arith)
                requires
                    0 <= ax <= NORM_INPUT_LIMIT && 0 <= ay <= NORM_INPUT_LIMIT,
            ;
        }
        let n_sq: u128 = (ax as u128) * (ax as u128) + (ay as u128) * (ay as u128);
        let r = isqrt_wide(n_sq);
        proof {
            assert(n_sq == self.spec_norm_sq());
            lemma_sqrt_floor_unique(r as int, self.spec_norm_sq());
            assert(r * r <= n_sq <= 8000000000000000000000000u128);
            assert(r <= 2900000000000u64) by (nonlinear_arith)
                requires
                    r * r <= 8000000000000000000000000u128,
            ;
            assert(self.x * self.x >= 0 && self.y * self.y >= 0) by (nonlinear_arith);
            lemma_abs_le_sqrt(self.x as int, self.spec_norm_sq(), r as int);
            lemma_abs_le_sqrt(self.y as int, self.spec_norm_sq(), r as int);
        }
        r as i64
    }

    /// Rescales by the exact ratio `num / den`, rounding toward zero.
    pub fn scale_div(self, num: i64, den: i64) -> (r: Vec2I)
        requires
            den > 0,
            int_abs(self.x * num) <= i64::MAX,
            int_abs(self.y * num) <= i64::MAX,
        ensures
            r == self.spec_scale_div(num as int, den as int),
            int_abs(r.x as int) <= int_abs(self.x * num),
            int_abs(r.y as int) <= int_abs(self.y * num),
    {
        Vec2I { x: div_q(self.x * num, den), y: div_q(self.y * num, den) }
    }

    /// Rescales the vector to norm `target` (up to rounding); the zero
    /// vector is returned unchanged.
    pub fn scaled_to(self, target: i64) -> (r: Vec2I)
        requires
            self.spec_in_box(NORM_INPUT_LIMIT as int),
            0 <= target <= RESCALE_LIMIT,
        ensures
            r == self.spec_scaled_to(target as int),
            r.spec_in_box(target as int),
    {
        let n = self.norm();
        if n == 0 {
            proof {
                assert(self.x == 0 && self.y == 0) by (nonlinear_arith)
                    requires
                        is_sqrt_floor(0, self.x * self.x + self.y * self.y),
                ;
                assert(self.spec_norm_sq() == 0) by (nonlinear_arith)
                    requires
                        self.x == 0i64 && self.y == 0i64,
                ;
            }
            self
        } else {
            proof {
                assert(int_abs(self.x * target) <= (n as int) * (target as int) && int_abs(
                    self.y * target,
                ) <= (n as int) * (target as int)) by (nonlinear_arith)
                    requires
                        int_abs(self.x as int) <= n && int_abs(self.y as int) <= n && target >= 0,
                ;
                assert((n as int) * (target as int) <= i64::MAX) by (nonlinear_arith)
                    requires
                        0 <= n <= NORM_LIMIT && 0 <= target <= RESCALE_LIMIT,
                ;
                lemma_div_t_bound(self.x * target, n as int, target as int);
                lemma_div_t_bound(self.y * target, n as int, target as int);
                assert(self.spec_norm_sq() != 0) by (nonlinear_arith)
                    requires
                        is_sqrt_floor(n as int, self.spec_norm_sq()) && n >= 1,
                ;
            }
            self.scale_div(target, n)
        }
    }

    /// The vector rescaled to norm `target` with sub-unit precision: a
    /// vector whose norm is below one million units is first magnified,
    /// so that the truncating rescale misses the target norm by at most
    /// two units however short the vector was.
    pub open spec fn spec_rescale_to(self, target: int) -> Vec2I {
        if self.spec_norm() < 1000000 {
            (Vec2I { x: (self.x * 1000000) as i64, y: (self.y * 1000000) as i64 }).spec_scaled_to(
                target,
            )
        } else {
            self.spec_scaled_to(target)
        }
    }

    /// Rescales the vector (which must have a direction) to norm
    /// `target`, with the rescaled norm pinned into `[target - 2,
    /// target]`.
    pub fn rescale_to(self, target: i64) -> (r: Vec2I)
        requires
            self.spec_norm_sq() > 0,
            self.spec_in_box(NORM_INPUT_LIMIT as int),
            0 <= target <= 1000000,
        ensures
            r == self.spec_rescale_to(target as int),
            r.spec_in_box(target as int),
            0 <= r.spec_norm() <= target,
            target >= 2 ==> r.spec_norm() >= target - 2,
    {
        let n = self.norm();
        proof {
            assert(n >= 1) by (nonlinear_arith)
                requires
                    is_sqrt_floor(n as int, self.spec_norm_sq()) && self.spec_norm_sq() > 0,
            ;
        }
        if n < 1000000 {
            let m = Vec2I { x: self.x * 1000000, y: self.y * 1000000 };
            proof {
                assert(m.spec_norm_sq() == 1000000000000 * self.spec_norm_sq() && m.spec_norm_sq()
                    > 0) by (nonlinear_arith)
                    requires
                        m.x == self.x * 1000000 && m.y == self.y * 1000000 && self.spec_norm_sq()
                            > 0,
                ;
            }
            let n2 = m.norm();
            proof {
                assert(n2 >= 1000000) by (nonlinear_arith)
                    requires
                        is_sqrt_floor(n2 as int, m.spec_norm_sq()) && m.spec_norm_sq()
                            == 1000000000000 * self.spec_norm_sq() && self.spec_norm_sq() >= 1,
                ;
                lemma_scale_div_norm_band(m, target as int);
                assert(m.spec_scaled_to(target as int) == m.spec_scale_div(
                    target as int,
                    m.spec_norm(),
                ));
            }
            m.scaled_to(target)
        } else {
            proof {
                lemma_scale_div_norm_band(self, target as int);
                assert(self.spec_scaled_to(target as int) == self.spec_scale_div(
                    target as int,
                    self.spec_norm(),
                ));
            }
            self.scaled_to(target)
        }
    }

    /// Clamps the norm to at most `m`, keeping the direction.
    pub fn clamp_norm_max(self, m: i64) -> (r: Vec2I)
        requires
            self.spec_in_box(CLAMP_INPUT_LIMIT as int),
            0 <= m <= CLAMP_MAX_LIMIT,
        ensures
            r == self.spec_clamp_norm_max(m as int),
            r.spec_in_box(m as int),
    {
        let ax = abs_i(self.x);
        let ay = abs_i(self.y);
        proof {
            assert(ax * ax == self.x * self.x && ay * ay == self.y * self.y) by (nonlinear_arith)
                requires
                    ax == int_abs(self.x as int) && ay == int_abs(self.y as int),
            ;
            assert((ax as u128) * (ax as u128) + (ay as u128) * (ay as u128)
                <= 8000000000000000000000000u128) by (nonlinear_arith)
                requires
                    0 <= ax <= NORM_INPUT_LIMIT && 0 <= ay <= NORM_INPUT_LIMIT,
            ;
        }
        let n_sq: u128 = (ax as u128) * (ax as u128) + (ay as u128) * (ay as u128);
        proof {
            assert((m as u128) * (m as u128) <= 1600000000000000u128) by (nonlinear_arith)
                requires
                    0 <= m <= CLAMP_MAX_LIMIT,
            ;
        }
        let m_sq: u128 = (m as u128) * (m as u128);
        if n_sq <= m_sq {
            proof {
                assert(self.x * self.x >= 0 && self.y * self.y >= 0) by (nonlinear_arith);
                assert(int_abs(self.x as int) <= m && int_abs(self.y as int) <= m)
                    by (nonlinear_arith)
                    requires
                        m >= 0 && self.x * self.x + self.y * self.y <= (m as int) * (m as int),
                ;
            }
            self
        } else {
            let n = self.norm();
            proof {
                assert(n >= 1) by (nonlinear_arith)
                    requires
                        is_sqrt_floor(n as int, self.spec_norm_sq()) && self.spec_norm_sq() > (
                        m as int) * (m as int) && m >= 0,
                ;
                assert(self.spec_norm_sq() <= 2 * (CLAMP_INPUT_LIMIT as int) * (
                CLAMP_INPUT_LIMIT as int)) by (nonlinear_arith)
                    requires
                        int_abs(self.x as int) <= CLAMP_INPUT_LIMIT as int && int_abs(
                            self.y as int,
                        ) <= CLAMP_INPUT_LIMIT as int,
                ;
                assert(n <= 150000000000i64) by (nonlinear_arith)
                    requires
                        is_sqrt_floor(n as int, self.spec_norm_sq()) && self.spec_norm_sq() <= 2 * (
                        CLAMP_INPUT_LIMIT as int) * (CLAMP_INPUT_LIMIT as int) && CLAMP_INPUT_LIMIT
                            == 100000000000i64,
                ;
                assert(int_abs(self.x * m) <= (n as int) * (m as int) && int_abs(self.y * m) <= (
                n as int) * (m as int)) by (nonlinear_arith)
                    requires
                        int_abs(self.x as int) <= n && int_abs(self.y as int) <= n && m >= 0,
                ;
                assert((n as int) * (m as int) <= i64::MAX) by (nonlinear_arith)
                    requires
                        0 <= n <= 150000000000i64 && 0 <= m <= CLAMP_MAX_LIMIT && CLAMP_MAX_LIMIT
                            == 40000000i64,
                ;
                lemma_div_t_bound(self.x * m, n as int, m as int);
                lemma_div_t_bound(self.y * m, n as int, m as int);
            }
            self.scale_div(m, n)
        }
    }
}

/// Rescaling a vector by the exact ratio `target / norm` lands the
/// result's norm in `[target - 2, target]`: each truncated component
/// loses less than one unit, and the norm's own rounding costs at most
/// one more.
pub proof fn lemma_scale_div_norm_band(v: Vec2I, t: int)
    requires
        v.spec_norm() >= 1000,
        0 <= t <= v.spec_norm(),
        t <= 3000000,
    ensures
        ({
            let r = v.spec_scale_div(t, v.spec_norm());
            &&& 0 <= r.spec_norm() <= t
            &&& t >= 2 ==> r.spec_norm() >= t - 2
            &&& r.spec_in_box(t)
        }),
{
    let x = v.x as int;
    let y = v.y as int;
    let nsq = v.spec_norm_sq();
    let n = v.spec_norm();
    assert(x * x >= 0 && y * y >= 0) by (nonlinear_arith);
    lemma_sqrt_floor_exists(nsq);
    assert(is_sqrt_floor(n, nsq));
    lemma_abs_le_sqrt(x, nsq, n);
    lemma_abs_le_sqrt(y, nsq, n);
    let rx = div_t(x * t, n);
    let ry = div_t(y * t, n);
    assert(int_abs(x * t) <= n * t && int_abs(y * t) <= n * t) by (nonlinear_arith)
        requires
            int_abs(x) <= n && int_abs(y) <= n && t >= 0,
    ;
    lemma_div_t_bound(x * t, n, t);
    lemma_div_t_bound(y * t, n, t);
    let r = v.spec_scale_div(t, n);
    assert(int_abs(rx) <= t && int_abs(ry) <= t);
    assert(r.x == rx && r.y == ry && r.spec_norm_sq() == rx * rx + ry * ry);
    crate::math::lemma_div_t_mul_bounds(x * t, n);
    crate::math::lemma_div_t_mul_bounds(y * t, n);
    let nsr = r.spec_norm_sq();
    assert(int_abs(x * t) == int_abs(x) * t && int_abs(y * t) == int_abs(y) * t)
        by (nonlinear_arith)
        requires
            t >= 0,
    ;
    assert(n * n * (rx * rx) <= (x * x) * (t * t) && n * n * (ry * ry) <= (y * y) * (t * t))
        by (nonlinear_arith)
        requires
            int_abs(rx) * n <= int_abs(x) * t && int_abs(ry) * n <= int_abs(y) * t && n >= 1 && t
                >= 0,
    ;
    assert(n * n * nsr <= (t * t) * nsq) by (nonlinear_arith)
        requires
            n * n * (rx * rx) <= (x * x) * (t * t) && n * n * (ry * ry) <= (y * y) * (t * t) && nsq
                == x * x + y * y && nsr == rx * rx + ry * ry,
    ;
    assert(nsr >= 0) by (nonlinear_arith)
        requires
            nsr == rx * rx + ry * ry,
    ;
    assert(nsr < (t + 1) * (t + 1)) by (nonlinear_arith)
        requires
            n * n * nsr <= (t * t) * nsq && nsq < (n + 1) * (n + 1) && 0 <= t <= n && n >= 1
                && nsr >= 0,
    ;
    lemma_sqrt_floor_exists(nsr);
    assert(r.spec_norm() == sqrt_floor(nsr));
    assert(sqrt_floor(nsr) <= t && sqrt_floor(nsr) >= 0) by (nonlinear_arith)
        requires
            is_sqrt_floor(sqrt_floor(nsr), nsr) && nsr < (t + 1) * (t + 1) && t >= 0,
    ;
    if t >= 2 {
        assert(n * n * (rx * rx) >= (x * x) * (t * t) - 2 * n * (int_abs(x) * t) && n * n * (ry
            * ry) >= (y * y) * (t * t) - 2 * n * (int_abs(y) * t)) by (nonlinear_arith)
            requires
                (int_abs(rx) + 1) * n > int_abs(x) * t && (int_abs(ry) + 1) * n > int_abs(y) * t
                    && n >= 1 && t >= 0,
        ;
        let s = int_abs(x) + int_abs(y);
        assert(s * s <= 2 * nsq && s >= 0) by (nonlinear_arith)
            requires
                nsq == x * x + y * y && s == int_abs(x) + int_abs(y),
        ;
        let ax = int_abs(x);
        let ay = int_abs(y);
        assert(2 * n * (ax * t) + 2 * n * (ay * t) == 2 * n * t * s) by (nonlinear_arith)
            requires
                s == ax + ay,
        ;
        assert(n * n * nsr == n * n * (rx * rx) + n * n * (ry * ry)) by (nonlinear_arith)
            requires
                nsr == rx * rx + ry * ry,
        ;
        assert((t * t) * nsq == (x * x) * (t * t) + (y * y) * (t * t)) by (nonlinear_arith)
            requires
                nsq == x * x + y * y,
        ;
        assert(n * n * nsr >= (t * t) * nsq - 2 * n * t * s);
        assert((t * t) * nsq >= (t * t) * (n * n)) by (nonlinear_arith)
            requires
                nsq >= n * n && t >= 0,
        ;
        assert(n * n * nsr >= (t * t) * (n * n) - 2 * n * t * s);
        if t >= 4 {
            assert(2 * s <= 3 * n) by (nonlinear_arith)
                requires
                    s >= 0 && s * s <= 2 * nsq && nsq < (n + 1) * (n + 1) && n >= 1000,
            ;
            assert(nsr >= (t - 2) * (t - 2)) by (nonlinear_arith)
                requires
                    n * n * nsr >= (t * t) * (n * n) - 2 * n * t * s && 2 * s <= 3 * n && 4 <= t
                        <= n && n >= 1000 && s >= 0,
            ;
        } else if t == 3 {
            assert(nsr >= 1) by (nonlinear_arith)
                requires
                    (int_abs(rx) + 1) * n > int_abs(x) * t && (int_abs(ry) + 1) * n > int_abs(y)
                        * t && t == 3 && nsq >= n * n && nsq == x * x + y * y && nsr == rx * rx
                        + ry * ry && n >= 1 && int_abs(x) <= n && int_abs(y) <= n,
            ;
            assert(nsr >= (t - 2) * (t - 2));
        } else {
            assert(nsr >= (t - 2) * (t - 2)) by (nonlinear_arith)
                requires
                    t == 2 && nsr >= 0,
            ;
        }
        assert(sqrt_floor(nsr) >= t - 2) by (nonlinear_arith)
            requires
                is_sqrt_floor(sqrt_floor(nsr), nsr) && nsr >= (t - 2) * (t - 2) && t >= 2,
        ;
    }
}

} // verus!
