use boids_core::boid::{AgentKind, Boid};
use boids_core::config::{BoidConfiguration, Parametre, SimulationConfiguration};
use boids_core::force::ForceField;
use boids_core::grid::SpatialGrid;
use boids_core::wind::WindCurrent;
use boids_core::systems::{
    setup_boid_parametres, setup_simulation, steer_predator, steer_prey, tick, update_boids,
    update_spatial_grid, wrap_edges, Agent,
};
use boids_core::vec2::Vec2I;

fn world_grid() -> SpatialGrid {
    SpatialGrid::new(5, 7, 200000)
}

fn agent(id: u64, kind: AgentKind, x: i64, y: i64, vx: i64, vy: i64) -> Agent {
    Agent {
        id,
        kind,
        follow_boids: true,
        position: Vec2I { x, y },
        boid: Boid::new(Vec2I { x: vx, y: vy }),
    }
}

#[test]
fn grid_rebuild_partitions_agents() {
    let mut grid = world_grid();
    let agents = vec![
        agent(0, AgentKind::Normal, 0, 0, 100000, 0),
        agent(1, AgentKind::Normal, 140000, 0, 100000, 0),
        agent(2, AgentKind::Predator, 10000, -150000, 0, 100000),
    ];
    update_spatial_grid(&mut grid, &agents);
    let origin = grid.at_world_position(Vec2I { x: 0, y: 0 });
    assert_eq!(origin.cell_boids().len(), 1);
    assert_eq!(origin.cell_boids()[0].id, 0);
    let below = grid.at_world_position(Vec2I { x: 10000, y: -150000 });
    assert_eq!(below.cell_boids().len(), 1);
    assert_eq!(below.cell_boids()[0].id, 2);
    assert!(matches!(below.cell_boids()[0].kind, AgentKind::Predator));
    // A second rebuild replaces, never accumulates.
    update_spatial_grid(&mut grid, &agents);
    assert_eq!(grid.at_world_position(Vec2I { x: 0, y: 0 }).cell_boids().len(), 1);
}

#[test]
fn perception_includes_near_and_excludes_far() {
    // The scenario: view radius 150 pixels, an agent at the origin, one
    // at (140, 0) pixels, and the rectangle ends before (1000, 1000).
    let mut grid = world_grid();
    let config = BoidConfiguration::new();
    let agents = vec![
        agent(0, AgentKind::Normal, 0, 0, 100000, 0),
        agent(1, AgentKind::Normal, 140000, 0, 100000, 0),
    ];
    update_spatial_grid(&mut grid, &agents);
    let view = config.scalar_parametre(Parametre::ViewRadius);
    assert_eq!(view, 100000);
    // With the scenario's radius of 150 pixels:
    let idxs = grid.iter_radius(agents[0].position, 150000);
    let mut seen = Vec::new();
    for i in idxs {
        for b in grid.at_index(i).cell_boids() {
            if b.id != 0 {
                let dx = b.position.x - agents[0].position.x;
                let dy = b.position.y - agents[0].position.y;
                if dx * dx + dy * dy <= 150000i64 * 150000i64 {
                    seen.push(b.id);
                }
            }
        }
    }
    assert_eq!(seen, vec![1]);
    // The far agent of the scenario cannot even stand in this grid.
    assert!(grid.try_at_world_position(Vec2I { x: 1000000, y: 1000000 }).is_none());
}

#[test]
fn update_moves_agents_and_respects_bounds() {
    let mut grid = world_grid();
    let mut config = BoidConfiguration::new();
    setup_boid_parametres(&mut config);
    let sim = SimulationConfiguration::default();
    let mut agents = vec![
        agent(0, AgentKind::Normal, 0, 0, 200000, 0),
        agent(1, AgentKind::Normal, 140000, 0, 200000, 0),
        agent(2, AgentKind::Predator, -300000, 200000, 200000, 0),
    ];
    update_spatial_grid(&mut grid, &agents);
    let no_winds: Vec<WindCurrent> = Vec::new();
    let no_fields: Vec<(Vec2I, ForceField)> = Vec::new();
    update_boids(&mut agents, &no_winds, &no_fields, &config, &sim, &grid, 60);
    wrap_edges(&mut agents, &grid);
    assert_eq!(agents.len(), 3);
    for a in &agents {
        // Everybody still stands in the rectangle.
        assert!(grid.try_index_from_world_position(a.position).is_ok());
        // Speeds stay inside the configured band (up to integer rounding
        // when a slow velocity is rescaled up to the minimum).
        let speed = a.boid.speed();
        assert!(config.min_speed - 2 <= speed && speed <= config.max_speed);
    }
    // Identity and kind survive a tick.
    assert_eq!(agents[2].id, 2);
    assert!(matches!(agents[2].kind, AgentKind::Predator));
}

#[test]
fn opted_out_agent_keeps_its_heading() {
    let mut grid = world_grid();
    let config = BoidConfiguration::new();
    let sim = SimulationConfiguration::default();
    let mut loner = agent(5, AgentKind::UserControlled, 0, 0, 200000, 0);
    loner.follow_boids = false;
    let mut agents = vec![loner, agent(6, AgentKind::Normal, 10000, 0, 200000, 0)];
    update_spatial_grid(&mut grid, &agents);
    let no_winds: Vec<WindCurrent> = Vec::new();
    let no_fields: Vec<(Vec2I, ForceField)> = Vec::new();
    update_boids(&mut agents, &no_winds, &no_fields, &config, &sim, &grid, 60);
    // No steering, no drift: the velocity is only re-clamped, and the
    // position advances by exactly one tick of it.
    assert_eq!(agents[0].boid.velocity(), Vec2I { x: 200000, y: 0 });
    assert_eq!(agents[0].position, Vec2I { x: 200000 / 60, y: 0 });
}

#[test]
fn predator_hunts_the_nearest_prey() {
    let mut grid = world_grid();
    let config = BoidConfiguration::new();
    let sim = SimulationConfiguration::default();
    let agents = vec![
        agent(0, AgentKind::Predator, 0, 0, 100000, 0),
        agent(1, AgentKind::Normal, 50000, 0, 100000, 0),
        agent(2, AgentKind::Normal, -90000, 0, 100000, 0),
    ];
    update_spatial_grid(&mut grid, &agents);
    let no_winds: Vec<WindCurrent> = Vec::new();
    let no_fields: Vec<(Vec2I, ForceField)> = Vec::new();
    let (dv, _off) = steer_predator(&agents[0], &grid, &no_winds, &no_fields, &config, &sim);
    // The nearest prey stands to the right, so the hunt pulls right
    // (beyond the momentum the weight preserves).
    let momentum = sim.predator_hunt_weight * 100000 / 1000;
    assert!(dv.x > momentum - 1);
    // Prey in view flees the predator: pushed away from it.
    let (prey_dv, _) = steer_prey(&agents[1], &grid, &no_winds, &no_fields, &config);
    assert!(prey_dv.x > 0);
}

#[test]
fn wrap_edges_is_position_mod_extent_with_velocity_kept() {
    let grid = world_grid();
    // The wrap band is the half extent minus the safety margin:
    // 700 - 0.1 and 500 - 0.1 pixels.
    let mut agents = vec![
        agent(0, AgentKind::Normal, 705000, 10000, 200000, 0),
        agent(1, AgentKind::Normal, -705000, 0, -200000, 0),
        agent(2, AgentKind::Normal, 123000, -501000, 0, -200000),
        agent(3, AgentKind::Normal, 5000, 5000, 100000, 100000),
    ];
    wrap_edges(&mut agents, &grid);
    // Exited right by 5.1 pixels past the band: reappears on the left at
    // the residue the extent dictates.
    assert_eq!(agents[0].position.x, 705000 - 2 * 699900);
    assert_eq!(agents[0].position.y, 10000);
    assert_eq!(agents[1].position.x, -705000 + 2 * 699900);
    assert_eq!(agents[2].position.y, -501000 + 2 * 499900);
    // An agent inside the band does not move.
    assert_eq!(agents[3].position, Vec2I { x: 5000, y: 5000 });
    // Velocities are untouched by the wrap.
    assert_eq!(agents[0].boid.velocity(), Vec2I { x: 200000, y: 0 });
    assert_eq!(agents[1].boid.velocity(), Vec2I { x: -200000, y: 0 });
}

#[test]
fn constant_velocity_crosses_the_edge_continuously() {
    // An agent moving right at constant speed leaves the right edge and
    // reappears at the left edge with its velocity unchanged.
    let grid = world_grid();
    let mut config = BoidConfiguration::new();
    // Switch the ambient wind off so the motion is pure momentum.
    config.set_scalar_parametre(Parametre::WindSpeed, 0).unwrap();
    let sim = SimulationConfiguration::default();
    let mut agents = vec![agent(0, AgentKind::Normal, 697000, 0, 300000, 0)];
    agents[0].follow_boids = true;
    let mut crossed = false;
    let mut previous_x = agents[0].position.x;
    let no_winds: Vec<WindCurrent> = Vec::new();
    let no_fields: Vec<(Vec2I, ForceField)> = Vec::new();
    for _ in 0..10 {
        let mut g = grid.clone();
        update_spatial_grid(&mut g, &agents);
        update_boids(&mut agents, &no_winds, &no_fields, &config, &sim, &g, 60);
        wrap_edges(&mut agents, &grid);
        let x = agents[0].position.x;
        if x < previous_x {
            // The jump lands exactly one extent to the left of where the
            // motion would have reached.
            assert_eq!(x, previous_x + 300000 / 60 - 2 * 699900);
            crossed = true;
            break;
        }
        assert_eq!(x, previous_x + 300000 / 60);
        previous_x = x;
    }
    assert!(crossed);
    assert_eq!(agents[0].boid.velocity(), Vec2I { x: 300000, y: 0 });
}

#[test]
fn setup_builds_the_population_inside_the_grid() {
    let config = BoidConfiguration::new();
    let sim = SimulationConfiguration::default();
    let grid = world_grid();
    let (agents, winds, fields) = setup_simulation(&config, &sim, &grid);
    assert_eq!(agents.len(), 102);
    for (i, a) in agents.iter().enumerate() {
        assert_eq!(a.id, i as u64);
        // Every random draw landed inside the grid's rectangle.
        assert!(grid.try_index_from_world_position(a.position).is_ok());
    }
    let avg = config.average_speed();
    for a in agents.iter().take(100) {
        assert!(matches!(a.kind, AgentKind::Normal));
        // Every flocking agent starts at the average speed, up to the
        // rounding of the integer grid.
        let speed = a.boid.speed();
        assert!(avg - 2 <= speed && speed <= avg);
    }
    assert!(matches!(agents[100].kind, AgentKind::UserControlled));
    assert_eq!(agents[100].position, Vec2I { x: 0, y: 0 });
    assert_eq!(agents[100].boid.velocity(), Vec2I { x: 0, y: 0 });
    assert!(matches!(agents[101].kind, AgentKind::Predator));
    // Predators start at rest and pick up speed on the first tick.
    assert_eq!(agents[101].boid.velocity(), Vec2I { x: 0, y: 0 });
    assert_eq!(winds.len(), 1);
    assert_eq!(winds[0].wind_speed, 100000);
    assert_eq!(winds[0].radius, 100000);
    assert_eq!(fields.len(), 3);
    assert_eq!(fields[0].1.charge, 120000);
    assert_eq!(fields[2].1.charge, -120000);
}

#[test]
fn random_positions_vary_between_runs() {
    let config = BoidConfiguration::new();
    let sim = SimulationConfiguration::default();
    let grid = world_grid();
    let (first, _, _) = setup_simulation(&config, &sim, &grid);
    let (second, _, _) = setup_simulation(&config, &sim, &grid);
    // One hundred agents drawn twice over a 1400 x 1000 pixel rectangle:
    // identical placements would mean the draws ignore the range.
    let same = first
        .iter()
        .zip(second.iter())
        .filter(|(a, b)| a.position == b.position)
        .count();
    assert!(same < first.len());
}

#[test]
fn many_ticks_keep_every_agent_in_the_world() {
    let config = BoidConfiguration::new();
    let sim = SimulationConfiguration::default();
    let mut grid = world_grid();
    let (mut agents, winds, fields) = setup_simulation(&config, &sim, &grid);
    for _ in 0..120 {
        tick(&mut grid, &mut agents, &winds, &fields, &config, &sim, 60);
    }
    assert_eq!(agents.len(), 102);
    for a in &agents {
        assert!(grid.try_index_from_world_position(a.position).is_ok());
        let speed = a.boid.speed();
        assert!(speed <= config.max_speed);
    }
}
