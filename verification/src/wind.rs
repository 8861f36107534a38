//! Wind currents: a cubic Bezier path with a propagation speed and an
//! influence radius. The curve is sampled uniformly at a fixed resolution
//! (no closed-form projection); an agent near the curve is advected along
//! the tangent at the nearest sampled point.
use vstd::prelude::*;
use crate::config::WIND_SPEED_CAP;
use crate::math::{div_q, div_t, int_abs, lemma_div_t_bound};
use crate::vec2::Vec2I;
use crate::POS_LIMIT;

verus! {

/// A curve-shaped zone that pushes agents along its tangent.
#[derive(Clone, Debug)]
pub struct WindCurrent {
    pub wind_speed: i64,
    pub radius: i64,
    pub control_points: [Vec2I; 4],
    pub resolution: usize,
}

impl WindCurrent {
    /// Control points inside the world, non-negative influence radius and
    /// speed, and a usable sampling resolution.
    pub open spec fn wf(self) -> bool {
        &&& forall|i: int| 0 <= i < 4 ==> (#[trigger] self.control_points@[i]).spec_in_box(
            POS_LIMIT as int,
        )
        &&& 0 <= self.radius <= 2 * POS_LIMIT
        &&& 0 <= self.wind_speed <= WIND_SPEED_CAP
        &&& 1 <= self.resolution <= 1000
    }

    /// Numerator of the Bezier point at parameter `i / n`, scaled by
    /// `n^3`: the exact integer form of the cubic Bernstein sum.
    pub open spec fn spec_bezier_num(self, i: int) -> (int, int) {
        let n = self.resolution as int;
        let a = n - i;
        let p0 = self.control_points@[0];
        let p1 = self.control_points@[1];
        let p2 = self.control_points@[2];
        let p3 = self.control_points@[3];
        (
            a * a * a * p0.x + 3 * a * a * i * p1.x + 3 * a * i * i * p2.x + i * i * i * p3.x,
            a * a * a * p0.y + 3 * a * a * i * p1.y + 3 * a * i * i * p2.y + i * i * i * p3.y,
        )
    }

    /// The sampled curve point at parameter `i / n`, rounded toward zero.
    pub open spec fn spec_point_at(self, i: int) -> Vec2I {
        let n = self.resolution as int;
        let num = self.spec_bezier_num(i);
        Vec2I { x: div_t(num.0, n * n * n) as i64, y: div_t(num.1, n * n * n) as i64 }
    }

    /// The curve's derivative at parameter `i / n`, each component
    /// rounded toward zero: the direction of travel at the sample.
    pub open spec fn spec_tangent_at(self, i: int) -> Vec2I {
        let n = self.resolution as int;
        let num = self.spec_tangent_num(i);
        Vec2I { x: div_t(num.0, n * n) as i64, y: div_t(num.1, n * n) as i64 }
    }

    /// Numerator of the curve's derivative at parameter `i / n`, scaled
    /// by `n^2`: its direction is the exact tangent direction at the
    /// sample.
    pub open spec fn spec_tangent_num(self, i: int) -> (int, int) {
        let n = self.resolution as int;
        let a = n - i;
        let p0 = self.control_points@[0];
        let p1 = self.control_points@[1];
        let p2 = self.control_points@[2];
        let p3 = self.control_points@[3];
        (
            3 * a * a * (p1.x - p0.x) + 6 * a * i * (p2.x - p1.x) + 3 * i * i * (p3.x - p2.x),
            3 * a * a * (p1.y - p0.y) + 6 * a * i * (p2.y - p1.y) + 3 * i * i * (p3.y - p2.y),
        )
    }

    /// Squared distance from a position to the sample at `i`.
    pub open spec fn spec_sample_dist_sq(self, position: Vec2I, i: int) -> int {
        let pt = self.spec_point_at(i);
        (position.x - pt.x) * (position.x - pt.x) + (position.y - pt.y) * (position.y - pt.y)
    }

    /// A current along the given control points, influencing agents
    /// within `radius`, sampled at the standard resolution.
    pub fn new(speed: i64, radius: i64, control_points: [Vec2I; 4]) -> (r: WindCurrent)
        requires
            0 <= speed <= WIND_SPEED_CAP,
            0 <= radius <= 2 * POS_LIMIT,
            forall|i: int| 0 <= i < 4 ==> (#[trigger] control_points@[i]).spec_in_box(
                POS_LIMIT as int,
            ),
        ensures
            r == (WindCurrent { wind_speed: speed, radius, control_points, resolution: 100usize }),
            r.wf(),
    {
        WindCurrent { wind_speed: speed, radius, control_points, resolution: 100 }
    }

    /// How many arrows a debug overlay draws along the curve: the square
    /// root of the sampling resolution.
    pub fn arrow_resolution(&self) -> (r: usize)
        requires
            self.wf(),
        ensures
            crate::math::is_sqrt_floor(r as int, self.resolution as int),
    {
        let r = crate::math::isqrt(self.resolution as u64);
        proof {
            assert(r <= 1000) by (nonlinear_arith)
                requires
                    r * r <= 1000u64,
            ;
        }
        r as usize
    }

    /// The curve's control points.
    pub fn control_points(&self) -> (r: [Vec2I; 4])
        ensures
            r == self.control_points,
    {
        self.control_points
    }

    /// The sampled curve point at parameter `i / resolution`.
    pub fn position_at(&self, i: usize) -> (r: Vec2I)
        requires
            self.wf(),
            i <= self.resolution,
        ensures
            r == self.spec_point_at(i as int),
            r.spec_in_box(POS_LIMIT as int),
    {
        let n = self.resolution as i64;
        let iv = i as i64;
        let a = n - iv;
        let p0 = self.control_points[0];
        let p1 = self.control_points[1];
        let p2 = self.control_points[2];
        let p3 = self.control_points[3];
        proof {
            assert(0 <= a * a <= 1000000 && 0 <= a * a * a <= 1000000000 && 0 <= 3 * a * a
                <= 3000000 && 0 <= 3 * a * a * iv <= 3000000000 && 0 <= 3 * a * iv <= 3000000 && 0
                <= 3 * a * iv * iv <= 3000000000 && 0 <= iv * iv * iv <= 1000000000 && 0 <= iv
                * iv <= 1000000)
                by (nonlinear_arith)
                requires
                    0 <= iv <= n <= 1000 && a == n - iv,
            ;
            assert(a * a * a + 3 * a * a * iv + 3 * a * iv * iv + iv * iv * iv == n * n * n && 1
                <= n * n <= 1000000 && 1 <= n * n * n <= 1000000000) by (nonlinear_arith)
                requires
                    1 <= n <= 1000 && a == n - iv && 0 <= iv <= n,
            ;
        }
        let c0 = a * a * a;
        let c1 = 3 * a * a * iv;
        let c2 = 3 * a * iv * iv;
        let c3 = iv * iv * iv;
        proof {
            assert(int_abs(c0 * p0.x) <= c0 * (POS_LIMIT as int) && int_abs(c1 * p1.x) <= c1 * (
            POS_LIMIT as int) && int_abs(c2 * p2.x) <= c2 * (POS_LIMIT as int) && int_abs(
                c3 * p3.x,
            ) <= c3 * (POS_LIMIT as int)) by (nonlinear_arith)
                requires
                    0 <= c0 && 0 <= c1 && 0 <= c2 && 0 <= c3 && int_abs(p0.x as int)
                        <= POS_LIMIT as int && int_abs(p1.x as int) <= POS_LIMIT as int && int_abs(
                        p2.x as int,
                    ) <= POS_LIMIT as int && int_abs(p3.x as int) <= POS_LIMIT as int,
            ;
            assert(int_abs(c0 * p0.y) <= c0 * (POS_LIMIT as int) && int_abs(c1 * p1.y) <= c1 * (
            POS_LIMIT as int) && int_abs(c2 * p2.y) <= c2 * (POS_LIMIT as int) && int_abs(
                c3 * p3.y,
            ) <= c3 * (POS_LIMIT as int)) by (nonlinear_arith)
                requires
                    0 <= c0 && 0 <= c1 && 0 <= c2 && 0 <= c3 && int_abs(p0.y as int)
                        <= POS_LIMIT as int && int_abs(p1.y as int) <= POS_LIMIT as int && int_abs(
                        p2.y as int,
                    ) <= POS_LIMIT as int && int_abs(p3.y as int) <= POS_LIMIT as int,
            ;
        }
        let nx = c0 * p0.x + c1 * p1.x + c2 * p2.x + c3 * p3.x;
        let ny = c0 * p0.y + c1 * p1.y + c2 * p2.y + c3 * p3.y;
        let n3 = n * n * n;
        proof {
            assert(int_abs(nx as int) <= n3 * (POS_LIMIT as int) && int_abs(ny as int) <= n3 * (
            POS_LIMIT as int));
            lemma_div_t_bound(nx as int, n3 as int, POS_LIMIT as int);
            lemma_div_t_bound(ny as int, n3 as int, POS_LIMIT as int);
        }
        Vec2I { x: div_q(nx, n3), y: div_q(ny, n3) }
    }

    /// The curve's derivative at sample `i`: the direction an agent in
    /// the current is advected along.
    pub fn velocity_at(&self, i: usize) -> (r: Vec2I)
        requires
            self.wf(),
            i <= self.resolution,
        ensures
            r == self.spec_tangent_at(i as int),
            r.spec_in_box(192000000),
    {
        let n = self.resolution as i64;
        let iv = i as i64;
        let a = n - iv;
        let p0 = self.control_points[0];
        let p1 = self.control_points[1];
        let p2 = self.control_points[2];
        let p3 = self.control_points[3];
        proof {
            assert(0 <= 3 * a * a <= 3000000 && 0 <= 6 * a * iv <= 6000000 && 0 <= 3 * iv * iv
                <= 3000000) by (nonlinear_arith)
                requires
                    0 <= iv <= n <= 1000 && a == n - iv,
            ;
            assert(int_abs(3 * a * a * (p1.x - p0.x)) <= 48000000000000 && int_abs(
                6 * a * iv * (p2.x - p1.x),
            ) <= 96000000000000 && int_abs(3 * iv * iv * (p3.x - p2.x)) <= 48000000000000
                && int_abs(3 * a * a * (p1.y - p0.y)) <= 48000000000000 && int_abs(
                6 * a * iv * (p2.y - p1.y),
            ) <= 96000000000000 && int_abs(3 * iv * iv * (p3.y - p2.y)) <= 48000000000000)
                by (nonlinear_arith)
                requires
                    0 <= 3 * a * a <= 3000000 && 0 <= 6 * a * iv <= 6000000 && 0 <= 3 * iv * iv
                        <= 3000000 && int_abs(p0.x as int) <= POS_LIMIT as int && int_abs(
                        p1.x as int,
                    ) <= POS_LIMIT as int && int_abs(p2.x as int) <= POS_LIMIT as int && int_abs(
                        p3.x as int,
                    ) <= POS_LIMIT as int && int_abs(p0.y as int) <= POS_LIMIT as int && int_abs(
                        p1.y as int,
                    ) <= POS_LIMIT as int && int_abs(p2.y as int) <= POS_LIMIT as int && int_abs(
                        p3.y as int,
                    ) <= POS_LIMIT as int && POS_LIMIT == 8000000i64,
            ;
        }
        let nx = 3 * a * a * (p1.x - p0.x) + 6 * a * iv * (p2.x - p1.x) + 3 * iv * iv * (p3.x
            - p2.x);
        let ny = 3 * a * a * (p1.y - p0.y) + 6 * a * iv * (p2.y - p1.y) + 3 * iv * iv * (p3.y
            - p2.y);
        proof {
            assert(1 <= n * n <= 1000000 && 3 * a * a + 6 * a * iv + 3 * iv * iv == 3 * (n * n))
                by (nonlinear_arith)
                requires
                    0 <= iv <= n && 1 <= n <= 1000 && a == n - iv,
            ;
            assert(int_abs(3 * a * a * (p1.x - p0.x)) <= (3 * a * a) * 32000000 && int_abs(
                6 * a * iv * (p2.x - p1.x),
            ) <= (6 * a * iv) * 32000000 && int_abs(3 * iv * iv * (p3.x - p2.x)) <= (3 * iv * iv)
                * 32000000 && int_abs(3 * a * a * (p1.y - p0.y)) <= (3 * a * a) * 32000000
                && int_abs(6 * a * iv * (p2.y - p1.y)) <= (6 * a * iv) * 32000000 && int_abs(
                3 * iv * iv * (p3.y - p2.y),
            ) <= (3 * iv * iv) * 32000000) by (nonlinear_arith)
                requires
                    0 <= 3 * a * a && 0 <= 6 * a * iv && 0 <= 3 * iv * iv && int_abs(
                        p1.x - p0.x,
                    ) <= 32000000 && int_abs(p2.x - p1.x) <= 32000000 && int_abs(p3.x - p2.x)
                        <= 32000000 && int_abs(p1.y - p0.y) <= 32000000 && int_abs(p2.y - p1.y)
                        <= 32000000 && int_abs(p3.y - p2.y) <= 32000000,
            ;
            assert(int_abs(nx as int) <= (n * n) * 192000000 && int_abs(ny as int) <= (n * n)
                * 192000000) by (nonlinear_arith)
                requires
                    int_abs(nx as int) <= 192000000000000 && int_abs(ny as int)
                        <= 192000000000000 && 3 * a * a + 6 * a * iv + 3 * iv * iv == 3 * (n * n)
                        && int_abs(3 * a * a * (p1.x - p0.x)) <= (3 * a * a) * 32000000 && int_abs(
                        6 * a * iv * (p2.x - p1.x),
                    ) <= (6 * a * iv) * 32000000 && int_abs(3 * iv * iv * (p3.x - p2.x)) <= (3 * iv
                        * iv) * 32000000 && int_abs(3 * a * a * (p1.y - p0.y)) <= (3 * a * a)
                        * 32000000 && int_abs(6 * a * iv * (p2.y - p1.y)) <= (6 * a * iv)
                        * 32000000 && int_abs(3 * iv * iv * (p3.y - p2.y)) <= (3 * iv * iv)
                        * 32000000 && nx == 3 * a * a * (p1.x - p0.x) + 6 * a * iv * (p2.x - p1.x)
                        + 3 * iv * iv * (p3.x - p2.x) && ny == 3 * a * a * (p1.y - p0.y) + 6 * a
                        * iv * (p2.y - p1.y) + 3 * iv * iv * (p3.y - p2.y) && 0 <= 3 * a * a && 0
                        <= 6 * a * iv && 0 <= 3 * iv * iv,
            ;
            lemma_div_t_bound(nx as int, (n * n) as int, 192000000);
            lemma_div_t_bound(ny as int, (n * n) as int, 192000000);
        }
        Vec2I { x: div_q(nx, n * n), y: div_q(ny, n * n) }
    }

    /// What the scan of the first `k` samples finds: the earliest sample
    /// at minimal distance among those within the radius.
    pub open spec fn spec_closest(self, position: Vec2I, k: int) -> Option<(usize, i64, Vec2I)>
        decreases k,
    {
        if k <= 0 {
            Option::None
        } else {
            let prev = self.spec_closest(position, k - 1);
            let d = self.spec_sample_dist_sq(position, k - 1);
            let r_sq = (self.radius as int) * (self.radius as int);
            let threshold = match prev {
                Option::Some((_, bd, _)) => if bd < r_sq {
                    bd as int
                } else {
                    r_sq
                },
                Option::None => r_sq,
            };
            if d < threshold {
                Option::Some(((k - 1) as usize, d as i64, self.spec_point_at(k - 1)))
            } else {
                prev
            }
        }
    }

    /// The closest sampled curve point within the influence radius, as
    /// (sample index, squared distance, sampled point): the earliest
    /// sample at minimal distance, or nothing when no sample comes within
    /// the radius.
    pub fn closest(&self, position: Vec2I) -> (r: Option<(usize, i64, Vec2I)>)
        requires
            self.wf(),
            position.spec_in_box(2 * POS_LIMIT as int),
        ensures
            r == self.spec_closest(position, self.resolution as int),
            ({
                match r {
                    Option::Some((i, d_sq, pt)) => {
                        &&& i < self.resolution
                        &&& pt == self.spec_point_at(i as int)
                        &&& d_sq == self.spec_sample_dist_sq(position, i as int)
                        &&& d_sq < self.radius * self.radius
                        &&& forall|j: int|
                            0 <= j < self.resolution ==> #[trigger] self.spec_sample_dist_sq(
                                position,
                                j,
                            ) >= d_sq
                        &&& forall|j: int|
                            0 <= j < i ==> #[trigger] self.spec_sample_dist_sq(position, j) > d_sq
                    },
                    Option::None => forall|j: int|
                        0 <= j < self.resolution ==> #[trigger] self.spec_sample_dist_sq(
                            position,
                            j,
                        ) >= self.radius * self.radius,
                }
            }),
    {
        let n = self.resolution;
        proof {
            assert(0 <= self.radius * self.radius <= 1000000000000000) by (nonlinear_arith)
                requires
                    0 <= self.radius <= 2 * POS_LIMIT && POS_LIMIT == 8000000i64,
            ;
        }
        let r_sq: i64 = self.radius * self.radius;
        let mut best: Option<(usize, i64, Vec2I)> = None;
        let mut i: usize = 0;
        while i < n
            invariant
                i <= n,
                n == self.resolution,
                self.wf(),
                position.spec_in_box(2 * POS_LIMIT as int),
                r_sq == self.radius * self.radius,
                best == self.spec_closest(position, i as int),
                ({
                    match best {
                        Option::Some((bi, bd, bpt)) => {
                            &&& bi < i
                            &&& bpt == self.spec_point_at(bi as int)
                            &&& bd == self.spec_sample_dist_sq(position, bi as int)
                            &&& bd < r_sq
                            &&& forall|j: int|
                                0 <= j < i ==> #[trigger] self.spec_sample_dist_sq(position, j)
                                    >= bd
                            &&& forall|j: int|
                                0 <= j < bi ==> #[trigger] self.spec_sample_dist_sq(position, j)
                                    > bd
                        },
                        Option::None => forall|j: int|
                            0 <= j < i ==> #[trigger] self.spec_sample_dist_sq(position, j)
                                >= r_sq,
                    }
                }),
            decreases n - i,
        {
            let pt = self.position_at(i);
            let d_sq = position.dist_sq(pt);
            proof {
                assert(d_sq == self.spec_sample_dist_sq(position, i as int));
            }
            let threshold = match best {
                Some((_, bd, _)) => {
                    if bd < r_sq {
                        bd
                    } else {
                        r_sq
                    }
                },
                None => r_sq,
            };
            if d_sq < threshold {
                best = Some((i, d_sq, pt));
            }
            i = i + 1;
        }
        best
    }
}

} // verus!
