use boids_core::boid::AgentKind;
use boids_core::config::{BoidConfiguration, Parametre};
use boids_core::force::{force_field_push, ForceField};
use boids_core::grid::{SpatialGridBoid, SpatialGridCell};
use boids_core::rules::{
    alignment, cohesion, separation, setup_rules, strong_wind, BoidRuleParametres, BoidRules,
    RuleKind,
};
use boids_core::vec2::Vec2I;
use boids_core::wind::WindCurrent;

fn cell_with(boids: Vec<SpatialGridBoid>) -> SpatialGridCell {
    let mut cell = SpatialGridCell::new(0, 0, 200000, Vec2I { x: -100000, y: -100000 });
    for b in boids {
        cell.push(b);
    }
    cell
}

fn snap(id: u64, x: i64, y: i64, vx: i64, vy: i64) -> SpatialGridBoid {
    SpatialGridBoid::new(id, AgentKind::Normal, Vec2I { x, y }, Vec2I { x: vx, y: vy })
}

fn params_at(id: u64, x: i64, y: i64, vx: i64, vy: i64) -> BoidRuleParametres {
    BoidRuleParametres { id, position: Vec2I { x, y }, velocity: Vec2I { x: vx, y: vy } }
}

#[test]
fn cohesion_steers_toward_neighbour_centre() {
    let config = BoidConfiguration::new();
    // Both neighbours are within the 100-pixel view radius.
    let cell = cell_with(vec![snap(2, 80000, 0, 0, 0), snap(3, 0, 60000, 0, 0)]);
    let p = params_at(1, 0, 0, 0, 0);
    // Centre of the two neighbours is (40, 30) pixels; weight one quarter.
    assert_eq!(cohesion(&p, &cell, &config), Vec2I { x: 10000, y: 7500 });
}

#[test]
fn cohesion_single_neighbour_is_the_centre() {
    let config = BoidConfiguration::new();
    let cell = cell_with(vec![snap(2, 80000, 0, 0, 0)]);
    let p = params_at(1, 0, 0, 0, 0);
    // One neighbour: no averaging divide, the neighbour is the centre.
    assert_eq!(cohesion(&p, &cell, &config), Vec2I { x: 20000, y: 0 });
}

#[test]
fn cohesion_skips_own_snapshot() {
    let config = BoidConfiguration::new();
    let cell = cell_with(vec![snap(1, 90000, 0, 0, 0), snap(2, 80000, 0, 0, 0)]);
    let p = params_at(1, 0, 0, 0, 0);
    assert_eq!(cohesion(&p, &cell, &config), Vec2I { x: 20000, y: 0 });
}

#[test]
fn cohesion_ignores_out_of_view_and_predators() {
    let config = BoidConfiguration::new();
    let p = params_at(1, 0, 0, 0, 0);
    // A flock-mate beyond the 100-pixel view radius pulls nothing.
    let far = cell_with(vec![snap(2, 150000, 0, 0, 0)]);
    assert_eq!(cohesion(&p, &far, &config), Vec2I { x: 0, y: 0 });
    // A cell with nobody else in view pulls nothing either.
    let empty = cell_with(vec![]);
    assert_eq!(cohesion(&p, &empty, &config), Vec2I { x: 0, y: 0 });
    assert_eq!(alignment(&p, &empty, &config), Vec2I { x: 0, y: 0 });
    // A predator in view is no flock-mate for cohesion...
    let pred = SpatialGridBoid::new(
        3,
        AgentKind::Predator,
        Vec2I { x: 80000, y: 0 },
        Vec2I { x: 40000, y: 0 },
    );
    let with_pred = cell_with(vec![pred]);
    assert_eq!(cohesion(&p, &with_pred, &config), Vec2I { x: 0, y: 0 });
    // ...but alignment averages every neighbour in view.
    assert_eq!(alignment(&p, &with_pred, &config), Vec2I { x: 40000 * 125 / 1000, y: 0 });
}

#[test]
fn alignment_steers_toward_mean_velocity() {
    let config = BoidConfiguration::new();
    let cell = cell_with(vec![snap(2, 0, 0, 10000, 0), snap(3, 0, 0, 0, 20000)]);
    let p = params_at(1, 0, 0, 1000, 1000);
    // Mean neighbour velocity (5000, 10000); weight one eighth.
    assert_eq!(alignment(&p, &cell, &config), Vec2I { x: 500, y: 1125 });
}

#[test]
fn alignment_with_full_weight_reaches_the_mean_in_one_step() {
    let mut config = BoidConfiguration::new();
    config.add_scalar_parametre(Parametre::AlignmentWeight, 1000, 0, 1000).unwrap();
    let cell = cell_with(vec![snap(2, 0, 0, 200000, -40000)]);
    let p = params_at(1, 0, 0, 100000, 20000);
    let contribution = alignment(&p, &cell, &config);
    // One step lands exactly on the perceived velocity.
    assert_eq!(p.velocity.x + contribution.x, 200000);
    assert_eq!(p.velocity.y + contribution.y, -40000);
}

#[test]
fn separation_pushes_away_harder_when_closer() {
    let config = BoidConfiguration::new();
    let p = params_at(1, 0, 0, 0, 0);
    // The scenario: separation weight one, avoidance radius 50 pixels.
    // One neighbour ten pixels to the right.
    let near = cell_with(vec![snap(2, 10000, 0, 0, 0)]);
    let push_near = separation(&p, &near, &config);
    assert_eq!(push_near, Vec2I { x: -25000, y: 0 });
    // The same neighbour forty pixels away pushes strictly less.
    let far = cell_with(vec![snap(2, 40000, 0, 0, 0)]);
    let push_far = separation(&p, &far, &config);
    assert_eq!(push_far, Vec2I { x: -1562, y: 0 });
    // The push points from the neighbour toward the agent, and the closer
    // neighbour produces the strictly larger magnitude.
    assert!(push_near.x < 0 && push_far.x < 0);
    assert!(-push_near.x > -push_far.x);
}

#[test]
fn separation_ignores_neighbours_outside_the_radius() {
    let config = BoidConfiguration::new();
    let p = params_at(1, 0, 0, 0, 0);
    let cell = cell_with(vec![snap(2, 60000, 0, 0, 0)]);
    assert_eq!(separation(&p, &cell, &config), Vec2I { x: 0, y: 0 });
}

#[test]
fn separation_coincident_neighbour_uses_fixed_direction() {
    let config = BoidConfiguration::new();
    let p = params_at(1, 0, 0, 0, 0);
    let cell = cell_with(vec![snap(2, 0, 0, 0, 0)]);
    // Magnitude one avoidance-radius-squared per square pixel, straight
    // down (the fixed upward fallback, negated by the push).
    assert_eq!(separation(&p, &cell, &config), Vec2I { x: 0, y: -2500000 });
}

#[test]
fn strong_wind_is_direction_times_speed() {
    let config = BoidConfiguration::new();
    let p = params_at(1, 0, 0, 0, 0);
    let cell = cell_with(vec![]);
    assert_eq!(strong_wind(&p, &cell, &config), Vec2I { x: -50000, y: -86600 });
}

#[test]
fn rule_list_sums_contributions_in_any_registration() {
    let mut rules = BoidRules::new();
    let mut config = BoidConfiguration::new();
    setup_rules(&mut rules, &mut config);
    assert_eq!(rules.rules.len(), 4);
    assert_eq!(rules.rules[0], RuleKind::Cohesion);
    let cell = cell_with(vec![snap(2, 100000, 0, 10000, 0)]);
    let p = params_at(1, 0, 0, 0, 0);
    let total = rules.evaluate(&p, &cell, &config);
    let by_hand = {
        let c = cohesion(&p, &cell, &config);
        let s = separation(&p, &cell, &config);
        let a = alignment(&p, &cell, &config);
        let w = strong_wind(&p, &cell, &config);
        Vec2I { x: c.x + s.x + a.x + w.x, y: c.y + s.y + a.y + w.y }
    };
    assert_eq!(total, by_hand);
}

#[test]
fn bezier_endpoints_are_the_outer_control_points() {
    let pts = [
        Vec2I { x: -10000, y: -200000 },
        Vec2I { x: 30000, y: 20000 },
        Vec2I { x: 350000, y: 30000 },
        Vec2I { x: 390000, y: 80000 },
    ];
    let w = WindCurrent::new(100000, 100000, pts);
    assert_eq!(w.position_at(0), pts[0]);
    assert_eq!(w.position_at(w.resolution), pts[3]);
    assert_eq!(w.control_points(), pts);
    // The square root of the standard resolution.
    assert_eq!(w.arrow_resolution(), 10);
}

#[test]
fn closest_finds_the_nearest_sample_within_radius() {
    // A degenerate curve: every sample sits at the origin.
    let origin = Vec2I { x: 0, y: 0 };
    let w = WindCurrent::new(100000, 100000, [origin, origin, origin, origin]);
    // Fifty pixels away, within the hundred-pixel radius: the first
    // minimal sample wins.
    let hit = w.closest(Vec2I { x: 50000, y: 0 });
    assert_eq!(hit, Some((0, 2500000000, origin)));
    // Outside the radius: no sample qualifies.
    let narrow = WindCurrent::new(100000, 10000, [origin, origin, origin, origin]);
    assert_eq!(narrow.closest(Vec2I { x: 50000, y: 0 }), None);
}

#[test]
fn tangent_follows_the_travel_direction() {
    // A straight rightward curve.
    let pts = [
        Vec2I { x: 0, y: 0 },
        Vec2I { x: 100000, y: 0 },
        Vec2I { x: 200000, y: 0 },
        Vec2I { x: 300000, y: 0 },
    ];
    let w = WindCurrent::new(100000, 100000, pts);
    let t = w.velocity_at(0);
    assert!(t.x > 0);
    assert_eq!(t.y, 0);
}

#[test]
fn force_field_pushes_away_and_decays_to_zero() {
    let field = ForceField::new(120000);
    let field_pos = Vec2I { x: 0, y: 0 };
    let velocity = Vec2I { x: 300000, y: 0 };
    // Halfway into the radius: pushed away along the offset.
    let push = force_field_push(Vec2I { x: 60000, y: 0 }, velocity, 300000, &field, field_pos);
    assert_eq!(push, Vec2I { x: 40200, y: 0 });
    // Exactly at the radius the falloff reaches zero.
    let edge = force_field_push(Vec2I { x: 120000, y: 0 }, velocity, 300000, &field, field_pos);
    assert_eq!(edge, Vec2I { x: 0, y: 0 });
    // Beyond the radius nothing acts.
    let outside = force_field_push(Vec2I { x: 150000, y: 0 }, velocity, 300000, &field, field_pos);
    assert_eq!(outside, Vec2I { x: 0, y: 0 });
    // A negative charge pulls instead.
    let puller = ForceField::new(-120000);
    let pull = force_field_push(Vec2I { x: 60000, y: 0 }, velocity, 300000, &puller, field_pos);
    assert_eq!(pull, Vec2I { x: -40200, y: 0 });
}
