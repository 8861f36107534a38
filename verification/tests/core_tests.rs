use boids_core::boid::Boid;
use boids_core::config::{BoidConfiguration, ConfigError, Parametre, SimulationConfiguration};
use boids_core::math::{
    abs_i, clamp_i, div_q, isqrt, mod_e, toroidal_clamp, toroidal_clamp_exclusive,
    toroidal_clamp_exclusive_range, toroidal_clamp_range, wrap_coordinate,
};
use boids_core::vec2::Vec2I;

#[test]
fn isqrt_small_values() {
    assert_eq!(isqrt(0), 0);
    assert_eq!(isqrt(1), 1);
    assert_eq!(isqrt(10), 3);
    assert_eq!(isqrt(999999), 999);
    assert_eq!(isqrt(1000000), 1000);
    assert_eq!(isqrt(u64::MAX), 4294967295);
}

#[test]
fn truncating_division_rounds_toward_zero() {
    assert_eq!(div_q(7, 2), 3);
    assert_eq!(div_q(-7, 2), -3);
    assert_eq!(div_q(-6, 2), -3);
    assert_eq!(div_q(0, 5), 0);
}

#[test]
fn euclidean_remainder_is_nonnegative() {
    assert_eq!(mod_e(7, 5), 2);
    assert_eq!(mod_e(-7, 5), 3);
    assert_eq!(mod_e(-5, 5), 0);
    assert_eq!(mod_e(5, 5), 0);
}

#[test]
fn abs_and_clamp() {
    assert_eq!(abs_i(-3), 3);
    assert_eq!(abs_i(3), 3);
    assert_eq!(clamp_i(5, 0, 10), 5);
    assert_eq!(clamp_i(-5, 0, 10), 0);
    assert_eq!(clamp_i(15, 0, 10), 10);
}

#[test]
fn toroidal_clamp_snaps_to_opposite_edge() {
    let mut x: i64 = 10;
    toroidal_clamp(&mut x, -5, 5);
    assert_eq!(x, -5);
    let mut y: i64 = -10;
    toroidal_clamp(&mut y, -5, 5);
    assert_eq!(y, 5);
    let mut z: i64 = 3;
    toroidal_clamp(&mut z, -5, 5);
    assert_eq!(z, 3);
    // The bounds themselves already wrap.
    let mut w: i64 = 5;
    toroidal_clamp(&mut w, -5, 5);
    assert_eq!(w, -5);
}

#[test]
fn toroidal_clamp_exclusive_keeps_bounds() {
    let mut x: i64 = 5;
    toroidal_clamp_exclusive(&mut x, -5, 5);
    assert_eq!(x, 5);
    let mut y: i64 = 6;
    toroidal_clamp_exclusive(&mut y, -5, 5);
    assert_eq!(y, -5);
}

#[test]
fn toroidal_clamp_range_variants_swap_ends() {
    let mut x: i64 = 10;
    toroidal_clamp_range(&mut x, 5, -5);
    assert_eq!(x, -5);
    let mut y: i64 = 6;
    toroidal_clamp_exclusive_range(&mut y, 5, -5);
    assert_eq!(y, -5);
}

#[test]
fn wrap_coordinate_is_position_mod_extent() {
    // Exits the right edge by five units: reappears five units past the
    // left edge.
    assert_eq!(wrap_coordinate(705, 700), -695);
    // Exits the left edge.
    assert_eq!(wrap_coordinate(-705, 700), 695);
    // Stays inside.
    assert_eq!(wrap_coordinate(123, 700), 123);
    // The upper bound itself wraps to the lower one.
    assert_eq!(wrap_coordinate(700, 700), -700);
}

#[test]
fn vector_norms_and_rescaling() {
    let v = Vec2I { x: 3000, y: 4000 };
    assert_eq!(v.norm(), 5000);
    assert_eq!(v.dist_sq(Vec2I { x: 0, y: 0 }), 25000000);
    let u = v.scaled_to(1000);
    assert_eq!(u, Vec2I { x: 600, y: 800 });
    let c = v.clamp_norm_max(1000);
    assert_eq!(c, Vec2I { x: 600, y: 800 });
    let kept = v.clamp_norm_max(10000);
    assert_eq!(kept, v);
    let zero = Vec2I { x: 0, y: 0 };
    assert_eq!(zero.scaled_to(500), zero);
}

#[test]
fn configuration_defaults_and_accessors() {
    let config = BoidConfiguration::new();
    assert_eq!(config.min_speed, 100000);
    assert_eq!(config.max_speed, 300000);
    assert_eq!(config.average_speed(), 200000);
    assert_eq!(BoidConfiguration::lowest_speed(), 0);
    assert_eq!(BoidConfiguration::highest_speed(), 500000);
    assert_eq!(config.scalar_parametre(Parametre::AvoidanceRadius), 50000);
    assert_eq!(config.scalar_parametre(Parametre::ViewRadius), 100000);
    assert_eq!(config.scalar_parametre(Parametre::CohesionWeight), 250);
    assert_eq!(config.scalar_parametre(Parametre::SeparationWeight), 1000);
    assert_eq!(config.scalar_parametre(Parametre::AlignmentWeight), 125);
    assert_eq!(config.lower_scalar_constant(Parametre::ViewRadius), 1000);
    assert_eq!(config.upper_scalar_constant(Parametre::ViewRadius), 200000);
}

#[test]
fn configuration_rejects_bad_ranges_and_values() {
    let mut config = BoidConfiguration::new();
    // An empty range is rejected.
    assert_eq!(
        config.add_scalar_parametre(Parametre::ViewRadius, 5000, 10000, 2000),
        Err(ConfigError::InvalidRange)
    );
    // A range outside the global bounds is rejected.
    assert_eq!(
        config.add_scalar_parametre(Parametre::ViewRadius, 5000, 0, 90000000),
        Err(ConfigError::InvalidRange)
    );
    // A value outside the range is rejected.
    assert_eq!(
        config.add_scalar_parametre(Parametre::ViewRadius, 500, 1000, 2000),
        Err(ConfigError::ValueOutOfRange)
    );
    // Nothing changed.
    assert_eq!(config.scalar_parametre(Parametre::ViewRadius), 100000);
    // A valid installation goes through.
    assert_eq!(config.add_scalar_parametre(Parametre::ViewRadius, 1500, 1000, 2000), Ok(()));
    assert_eq!(config.scalar_parametre(Parametre::ViewRadius), 1500);
    // Setting only the value respects the stored range.
    assert_eq!(config.set_scalar_parametre(Parametre::ViewRadius, 1800), Ok(()));
    assert_eq!(config.scalar_parametre(Parametre::ViewRadius), 1800);
    assert_eq!(
        config.set_scalar_parametre(Parametre::ViewRadius, 100),
        Err(ConfigError::ValueOutOfRange)
    );
}

#[test]
fn wind_direction_must_be_a_unit_vector() {
    let mut config = BoidConfiguration::new();
    assert_eq!(config.wind_direction(), (-500, -866));
    // A pair on the unit circle (up to component rounding) is accepted.
    assert_eq!(config.set_wind_direction(866, 500), Ok(()));
    assert_eq!(config.wind_direction(), (866, 500));
    assert_eq!(config.set_wind_direction(0, -1000), Ok(()));
    // A vanishing or shrunken direction is rejected and nothing changes.
    assert_eq!(config.set_wind_direction(0, 0), Err(ConfigError::ValueOutOfRange));
    assert_eq!(config.set_wind_direction(500, 500), Err(ConfigError::ValueOutOfRange));
    assert_eq!(config.set_wind_direction(2000, 0), Err(ConfigError::ValueOutOfRange));
    assert_eq!(config.wind_direction(), (0, -1000));
}

#[test]
fn simulation_configuration_bounds() {
    assert_eq!(SimulationConfiguration::min_boids(), 0);
    assert_eq!(SimulationConfiguration::max_boids(), 10000);
    let sim = SimulationConfiguration::default();
    assert_eq!(sim.normal_boids, 100);
    assert_eq!(sim.predators, 1);
    assert_eq!(sim.predator_hunt_weight, 250);
}

#[test]
fn speed_clamp_keeps_direction() {
    let config = BoidConfiguration::new();
    // Too slow: rescaled up to the minimum speed.
    let mut b = Boid::new(Vec2I { x: 50000, y: 0 });
    b.set_velocity(Vec2I { x: 50000, y: 0 }, &config);
    assert_eq!(b.velocity(), Vec2I { x: 100000, y: 0 });
    // Too fast: rescaled down to the maximum speed.
    b.set_velocity(Vec2I { x: 400000, y: 0 }, &config);
    assert_eq!(b.velocity(), Vec2I { x: 300000, y: 0 });
    // In band: unchanged.
    b.set_velocity(Vec2I { x: 200000, y: 0 }, &config);
    assert_eq!(b.velocity(), Vec2I { x: 200000, y: 0 });
    // No direction at all: slowest rightward motion.
    b.set_velocity(Vec2I { x: 0, y: 0 }, &config);
    assert_eq!(b.velocity(), Vec2I { x: 100000, y: 0 });
    // Adding a contribution clamps the sum.
    let mut c = Boid::new(Vec2I { x: 200000, y: 0 });
    c.add_velocity(Vec2I { x: 200000, y: 0 }, &config);
    assert_eq!(c.velocity(), Vec2I { x: 300000, y: 0 });
    assert_eq!(c.speed(), 300000);
    // A builder that rescales to a chosen speed.
    let d = Boid::new(Vec2I { x: 3000, y: 4000 }).with_speed(5000);
    assert_eq!(d.velocity, Vec2I { x: 3000, y: 4000 });
}
