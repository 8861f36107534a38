//! Core of a 2D flocking simulation: a uniform spatial grid that indexes
//! agent snapshots by position, steering rules (cohesion, separation,
//! alignment, predator flee/hunt, wind advection, force-field push), and an
//! integrator with toroidal boundary wrap.
//!
//! All quantities are measured on integers at sub-pixel resolution: world
//! coordinates, radii and speeds are in thousandths of a pixel ([`UNIT`]),
//! and dimensionless weights are scaled by [`UNIT`] as well. Rendering and
//! input collaborators convert at the boundary.
use vstd::prelude::*;

pub mod boid;
pub mod config;
pub mod force;
pub mod grid;
pub mod math;
pub mod rng;
pub mod rules;
pub mod states;
pub mod systems;
pub mod vec2;
pub mod wind;

verus! {

/// Sub-pixel resolution: one pixel is `UNIT` world units, and a weight of
/// one is `UNIT`. Keeping everything on integers makes the per-tick
/// arithmetic exact.
pub const UNIT: i64 = 1000;

/// Largest coordinate magnitude the simulated rectangle may reach
/// (8000 pixels from the origin in either axis).
pub const POS_LIMIT: i64 = 8000000;

/// Largest agent population a simulation may hold.
pub const POPULATION_LIMIT: usize = 10000;

} // verus!
