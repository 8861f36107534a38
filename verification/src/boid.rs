//! The per-agent state the integrator owns: a velocity vector whose norm
//! is kept inside the configured speed band. The facing angle the renderer
//! needs is the direction of this vector; the rendering collaborator
//! derives it at the boundary.
use vstd::prelude::*;
use crate::config::{BoidConfiguration, SPEED_RANGE_HI};
use crate::math::int_abs;
use crate::vec2::{Vec2I, NORM_INPUT_LIMIT, RESCALE_LIMIT};

verus! {

/// What part an agent plays in the simulation.
#[derive(Clone, Copy, PartialEq, Eq, Structural, Debug)]
pub enum AgentKind {
    /// An ordinary flocking agent.
    Normal,
    /// A hunting agent that prey flees from.
    Predator,
    /// The agent steered from the interface; it may opt out of flocking.
    UserControlled,
}

/// The steering state of one agent.
#[derive(Clone, Copy, PartialEq, Eq, Structural, Debug)]
pub struct Boid {
    pub velocity: Vec2I,
}

/// A velocity passed through the speed clamp: the zero vector has no
/// direction and is sent to the slowest rightward motion, any other vector
/// keeps its direction and has its norm clamped into the speed band —
/// exactly at most `max`, and at most two units below `min` (the cost of
/// truncating the two components to integers).
pub open spec fn spec_set_velocity(v: Vec2I, min: i64, max: i64) -> Vec2I {
    if v.spec_norm_sq() == 0 {
        Vec2I { x: min, y: 0i64 }
    } else if v.spec_norm_sq() < min * min {
        v.spec_rescale_to(min as int)
    } else if v.spec_norm_sq() > max * max {
        v.spec_rescale_to(max as int)
    } else {
        v
    }
}

impl Boid {
    /// The velocity respects the admissible speed range componentwise.
    pub open spec fn wf(self) -> bool {
        self.velocity.spec_in_box(SPEED_RANGE_HI as int)
    }

    pub fn new(velocity: Vec2I) -> (r: Boid)
        ensures
            r == (Boid { velocity }),
    {
        Boid { velocity }
    }

    /// The agent's current velocity vector.
    pub fn velocity(&self) -> (r: Vec2I)
        ensures
            r == self.velocity,
    {
        self.velocity
    }

    /// The agent's current speed: the norm of its velocity.
    pub fn speed(&self) -> (r: i64)
        requires
            self.velocity.spec_in_box(NORM_INPUT_LIMIT as int),
        ensures
            r == self.velocity.spec_norm(),
            crate::math::is_sqrt_floor(r as int, self.velocity.spec_norm_sq()),
            0 <= r,
            int_abs(self.velocity.x as int) <= r && int_abs(self.velocity.y as int) <= r,
    {
        self.velocity.norm()
    }

    /// The same agent rescaled to the given speed, direction kept.
    pub fn with_speed(self, speed: i64) -> (r: Boid)
        requires
            self.velocity.spec_in_box(NORM_INPUT_LIMIT as int),
            0 <= speed <= RESCALE_LIMIT,
        ensures
            r.velocity == self.velocity.spec_scaled_to(speed as int),
            r.velocity.spec_in_box(speed as int),
    {
        Boid { velocity: self.velocity.scaled_to(speed) }
    }

    /// Replaces the velocity, clamping its norm into the configured speed
    /// band while keeping its direction.
    pub fn set_velocity(&mut self, v: Vec2I, config: &BoidConfiguration)
        requires
            config.wf(),
            v.spec_in_box(NORM_INPUT_LIMIT as int),
        ensures
            final(self).velocity == spec_set_velocity(v, config.min_speed, config.max_speed),
            final(self).velocity.spec_in_box(config.max_speed as int),
            config.min_speed - 2 <= final(self).velocity.spec_norm() <= config.max_speed,
            final(self).wf(),
    {
        let min = config.min_speed;
        let max = config.max_speed;
        let n_sq = v.norm_sq_wide();
        proof {
            assert((min as u128) * (min as u128) == (min as int) * (min as int) && (max as u128) * (
            max as u128) == (max as int) * (max as int) && (max as u128) * (max as u128)
                <= 250000000000u128 && (min as u128) * (min as u128) <= 250000000000u128)
                by (nonlinear_arith)
                requires
                    0 <= min <= max <= SPEED_RANGE_HI,
            ;
        }
        if n_sq == 0 {
            proof {
                assert(v.x == 0 && v.y == 0) by (nonlinear_arith)
                    requires
                        v.x * v.x + v.y * v.y == 0,
                ;
                assert(crate::math::is_sqrt_floor(min as int, (min as int) * (min as int)))
                    by (nonlinear_arith)
                    requires
                        min >= 0,
                ;
                crate::math::lemma_sqrt_floor_unique(min as int, (min as int) * (min as int));
                assert((Vec2I { x: min, y: 0i64 }).spec_norm_sq() == (min as int) * (min as int))
                    by (nonlinear_arith);
            }
            self.velocity = Vec2I { x: min, y: 0 };
        } else if n_sq < (min as u128) * (min as u128) {
            self.velocity = v.rescale_to(min);
        } else if n_sq > (max as u128) * (max as u128) {
            self.velocity = v.rescale_to(max);
        } else {
            proof {
                assert(int_abs(v.x as int) <= max && int_abs(v.y as int) <= max)
                    by (nonlinear_arith)
                    requires
                        max >= 0 && v.x * v.x + v.y * v.y <= (max as int) * (max as int),
                ;
                crate::math::lemma_sqrt_floor_exists(v.spec_norm_sq());
                assert(min <= crate::math::sqrt_floor(v.spec_norm_sq()) <= max)
                    by (nonlinear_arith)
                    requires
                        crate::math::is_sqrt_floor(
                            crate::math::sqrt_floor(v.spec_norm_sq()),
                            v.spec_norm_sq(),
                        ) && (min as int) * (min as int) <= v.spec_norm_sq() <= (max as int) * (
                        max as int) && 0 <= min <= max,
                ;
            }
            self.velocity = v;
        }
    }

    /// Adds a steering contribution to the velocity, then clamps the
    /// resulting speed into the configured band.
    pub fn add_velocity(&mut self, dv: Vec2I, config: &BoidConfiguration)
        requires
            config.wf(),
            old(self).wf(),
            dv.spec_in_box(1500000000000),
        ensures
            final(self).velocity == spec_set_velocity(
                Vec2I {
                    x: (old(self).velocity.x + dv.x) as i64,
                    y: (old(self).velocity.y + dv.y) as i64,
                },
                config.min_speed,
                config.max_speed,
            ),
            final(self).velocity.spec_in_box(config.max_speed as int),
            config.min_speed - 2 <= final(self).velocity.spec_norm() <= config.max_speed,
            final(self).wf(),
    {
        let sum = self.velocity.plus(dv);
        self.set_velocity(sum, config);
    }
}

} // verus!
