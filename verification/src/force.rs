//! Force fields: a point source with a signed charge. The charge's
//! magnitude is the influence radius, its sign picks push or pull; the
//! magnitude decays smoothly (along a circular arc, not linearly) to zero
//! at the radius.
use vstd::prelude::*;
use crate::math::{abs_i, div_q, div_t, int_abs, isqrt, lemma_div_t_bound, sqrt_floor};
use crate::vec2::Vec2I;
use crate::{POS_LIMIT, UNIT};

verus! {

/// Largest speed the falloff may be scaled by: the norm of a velocity
/// whose components sit at the speed cap.
pub const PUSH_SPEED_LIMIT: i64 = 1000000;

/// A radial push or pull source.
#[derive(Clone, Copy, PartialEq, Eq, Structural, Debug)]
pub struct ForceField {
    pub charge: i64,
}

impl ForceField {
    /// A usable charge: not zero (its magnitude is a radius) and inside
    /// the world scale.
    pub open spec fn wf(self) -> bool {
        1 <= int_abs(self.charge as int) <= 2 * POS_LIMIT
    }

    pub fn new(charge: i64) -> (r: ForceField)
        ensures
            r == (ForceField { charge }),
    {
        ForceField { charge }
    }
}

/// The falloff factor at distance `d` from a field of radius `c`, scaled
/// by [`UNIT`]: one at the centre, zero at the radius, decaying along a
/// circular arc.
pub open spec fn spec_falloff(d: int, c: int) -> int
    recommends
        0 <= d <= c,
        1 <= c,
{
    let q = (d * (UNIT as int)) / c;
    (UNIT as int) - sqrt_floor((UNIT as int) * (UNIT as int) - ((UNIT as int) - q) * ((
    UNIT as int) - q))
}

/// The push a force field gives an agent: nothing beyond the charge's
/// radius; inside it, away from (or, for a negative charge, toward) the
/// field along the offset direction — or along the agent's own heading
/// when it stands exactly on the field — scaled by the agent's speed and
/// the falloff.
pub open spec fn spec_force_field_push(
    position: Vec2I,
    velocity: Vec2I,
    speed: int,
    field: ForceField,
    field_pos: Vec2I,
) -> Vec2I {
    let dx = position.x - field_pos.x;
    let dy = position.y - field_pos.y;
    let d_sq = dx * dx + dy * dy;
    let d = sqrt_floor(d_sq);
    let c = int_abs(field.charge as int);
    if d > c {
        Vec2I { x: 0i64, y: 0i64 }
    } else {
        let offset = Vec2I { x: dx as i64, y: dy as i64 };
        let dir = if d_sq == 0 {
            velocity.spec_scaled_to(UNIT as int)
        } else {
            offset.spec_scaled_to(UNIT as int)
        };
        let f = spec_falloff(d, c);
        let px = div_t(dir.x * speed * f, (UNIT as int) * (UNIT as int));
        let py = div_t(dir.y * speed * f, (UNIT as int) * (UNIT as int));
        if field.charge >= 0 {
            Vec2I { x: px as i64, y: py as i64 }
        } else {
            Vec2I { x: (-px) as i64, y: (-py) as i64 }
        }
    }
}

/// Computes [`spec_force_field_push`].
pub fn force_field_push(
    position: Vec2I,
    velocity: Vec2I,
    speed: i64,
    field: &ForceField,
    field_pos: Vec2I,
) -> (r: Vec2I)
    requires
        field.wf(),
        position.spec_in_box(POS_LIMIT as int),
        field_pos.spec_in_box(POS_LIMIT as int),
        velocity.spec_in_box(crate::config::SPEED_RANGE_HI as int),
        0 <= speed <= PUSH_SPEED_LIMIT,
    ensures
        r == spec_force_field_push(position, velocity, speed as int, *field, field_pos),
        r.spec_in_box(speed as int),
{
    let offset = position.minus(field_pos);
    let d_sq = position.dist_sq(field_pos);
    proof {
        assert(d_sq <= 1024000000000000) by (nonlinear_arith)
            requires
                d_sq == offset.x * offset.x + offset.y * offset.y && int_abs(offset.x as int) <= 2
                    * POS_LIMIT as int && int_abs(offset.y as int) <= 2 * POS_LIMIT as int
                    && POS_LIMIT == 8000000i64,
        ;
    }
    let du = isqrt(d_sq as u64);
    proof {
        assert(du <= 32000000u64) by (nonlinear_arith)
            requires
                du * du <= 1024000000000000u64,
        ;
    }
    let d = du as i64;
    proof {
        assert(crate::math::is_sqrt_floor(d as int, d_sq as int));
        assert(d == sqrt_floor(d_sq as int)) by {
            crate::math::lemma_sqrt_floor_unique(d as int, d_sq as int);
        }
    }
    let c = abs_i(field.charge);
    if d > c {
        Vec2I { x: 0, y: 0 }
    } else {
        let dir: Vec2I = if d_sq == 0 {
            velocity.scaled_to(UNIT)
        } else {
            offset.scaled_to(UNIT)
        };
        proof {
            if d_sq == 0 {
                assert(offset.x == 0 && offset.y == 0) by (nonlinear_arith)
                    requires
                        offset.x * offset.x + offset.y * offset.y == 0,
                ;
            }
        }
        let q = div_q(d * UNIT, c);
        proof {
            vstd::arithmetic::div_mod::lemma_div_pos_is_pos(d * (UNIT as int), c as int);
            assert(d * (UNIT as int) <= (UNIT as int) * (c as int)) by (nonlinear_arith)
                requires
                    0 <= d <= c && UNIT == 1000i64,
            ;
            vstd::arithmetic::div_mod::lemma_div_by_multiple(UNIT as int, c as int);
            vstd::arithmetic::div_mod::lemma_div_is_ordered(
                d * (UNIT as int),
                (UNIT as int) * (c as int),
                c as int,
            );
            assert(0 <= q <= UNIT);
        }
        proof {
            assert(0 <= (UNIT - q) * (UNIT - q) <= 1000000) by (nonlinear_arith)
                requires
                    0 <= q <= UNIT && UNIT == 1000i64,
            ;
        }
        let inner = UNIT * UNIT - (UNIT - q) * (UNIT - q);
        let rootu = isqrt(inner as u64);
        proof {
            assert(rootu <= 1000u64) by (nonlinear_arith)
                requires
                    rootu * rootu <= 1000000u64,
            ;
        }
        let root = rootu as i64;
        let f = UNIT - root;
        proof {
            assert(int_abs(dir.x * speed) <= 1000000000 && int_abs(dir.y * speed) <= 1000000000)
                by (nonlinear_arith)
                requires
                    int_abs(dir.x as int) <= 1000 && int_abs(dir.y as int) <= 1000 && 0 <= speed
                        <= PUSH_SPEED_LIMIT && PUSH_SPEED_LIMIT == 1000000i64,
            ;
            assert(int_abs(dir.x * speed * f) <= ((UNIT as int) * (UNIT as int)) * speed
                && int_abs(dir.y * speed * f) <= ((UNIT as int) * (UNIT as int)) * speed)
                by (nonlinear_arith)
                requires
                    int_abs(dir.x * speed) <= 1000000000 && int_abs(dir.y * speed) <= 1000000000
                        && 0 <= f <= 1000 && UNIT == 1000i64 && speed >= 0 && int_abs(dir.x as int)
                        <= 1000 && int_abs(dir.y as int) <= 1000,
            ;
            lemma_div_t_bound(dir.x * speed * f, (UNIT as int) * (UNIT as int), speed as int);
            lemma_div_t_bound(dir.y * speed * f, (UNIT as int) * (UNIT as int), speed as int);
        }
        let px = div_q(dir.x * speed * f, UNIT * UNIT);
        let py = div_q(dir.y * speed * f, UNIT * UNIT);
        if field.charge >= 0 {
            Vec2I { x: px, y: py }
        } else {
            Vec2I { x: -px, y: -py }
        }
    }
}

} // verus!
