use boids_core::boid::AgentKind;
use boids_core::grid::{GridError, SpatialGrid, SpatialGridBoid};
use boids_core::vec2::Vec2I;

fn scenario_grid() -> SpatialGrid {
    // Five rows, seven columns of 200-pixel cells: a 1400 x 1000 pixel
    // rectangle centred at the origin.
    SpatialGrid::new(5, 7, 200000)
}

#[test]
fn grid_geometry() {
    let g = scenario_grid();
    assert_eq!(g.rows(), 5);
    assert_eq!(g.columns(), 7);
    assert_eq!(g.cell_size(), 200000);
    assert_eq!(g.grid_size(), Vec2I { x: 1400000, y: 1000000 });
    assert_eq!(g.cells().len(), 35);
    for cell in g.cells() {
        assert_eq!(cell.cell_boids().len(), 0);
        assert_eq!(cell.size(), 200000);
    }
}

#[test]
fn with_cell_size_fits_whole_cells() {
    let g = SpatialGrid::with_cell_size(200000, 1400000, 1000000);
    assert_eq!(g.rows(), 5);
    assert_eq!(g.columns(), 7);
    let h = SpatialGrid::with_cell_size(300000, 1400000, 1000000);
    assert_eq!(h.columns(), 4);
    assert_eq!(h.rows(), 3);
}

#[test]
fn index_round_trip_contains_position() {
    let g = scenario_grid();
    // For positions strictly inside the rectangle, indexing and then
    // looking at the cell's bounding rectangle gets the position back.
    let samples = [
        Vec2I { x: 0, y: 0 },
        Vec2I { x: 140000, y: 0 },
        Vec2I { x: -699999, y: -499999 },
        Vec2I { x: 699999, y: 499999 },
        Vec2I { x: -1, y: -1 },
        Vec2I { x: 199999, y: 199999 },
    ];
    for p in samples {
        let i = g.index_from_world_position(p);
        let cell = g.at_index(i);
        assert!(cell.contains(p));
    }
}

#[test]
fn index_of_origin_and_scenario_agent() {
    let g = scenario_grid();
    // Origin: column 3, row 2 of the row-major layout.
    assert_eq!(g.index_from_world_position(Vec2I { x: 0, y: 0 }), 17);
    // The scenario's second agent at 140 pixels to the right.
    assert_eq!(g.index_from_world_position(Vec2I { x: 140000, y: 0 }), 18);
    let c = g.at(2, 3);
    assert!(c.contains(Vec2I { x: 0, y: 0 }));
    assert_eq!(c.location(), Vec2I { x: 0, y: 0 });
}

#[test]
fn out_of_range_is_an_explicit_not_found() {
    let g = scenario_grid();
    // The scenario's third agent at (1000, 1000) pixels lies outside the
    // 1400 x 1000 rectangle: an explicit not-found, never a wrapped cell.
    let far = Vec2I { x: 1000000, y: 1000000 };
    assert_eq!(g.try_index_from_world_position(far), Err(GridError::OutOfBounds));
    assert!(g.try_at_world_position(far).is_none());
    // The right edge itself is already outside (cells are half-open).
    assert_eq!(
        g.try_index_from_world_position(Vec2I { x: 700000, y: 0 }),
        Err(GridError::OutOfBounds)
    );
    // A position just inside is found.
    assert!(g.try_index_from_world_position(Vec2I { x: 699999, y: 0 }).is_ok());
}

#[test]
fn get_and_at_agree() {
    let g = scenario_grid();
    assert!(g.get(4, 6).is_some());
    assert!(g.get(5, 0).is_none());
    assert!(g.get(0, 7).is_none());
}

#[test]
fn radius_query_covers_near_agents() {
    let g = scenario_grid();
    // The scenario: view radius of 150 pixels around the origin.
    let idxs = g.iter_radius(Vec2I { x: 0, y: 0 }, 150000);
    // Rows 1..=3 by columns 2..=4, row-major.
    assert_eq!(idxs, vec![9, 10, 11, 16, 17, 18, 23, 24, 25]);
    // The cell of the agent at 140 pixels (true distance 140 <= 150) is
    // visited: no false negatives.
    let second = g.index_from_world_position(Vec2I { x: 140000, y: 0 });
    assert!(idxs.contains(&second));
    // The query is a rectangular superset: callers re-check distances.
    let corner = g.at_index(9);
    assert!(!corner.contains(Vec2I { x: 0, y: 0 }));
}

#[test]
fn radius_query_clamps_at_the_boundary() {
    let g = scenario_grid();
    // A window around a corner stays inside the grid.
    let idxs = g.iter_radius(Vec2I { x: -690000, y: -490000 }, 250000);
    assert_eq!(idxs, vec![0, 1, 7, 8]);
    // A window entirely left of the grid still visits column zero, as the
    // saturating index arithmetic dictates.
    let off = g.iter_radius(Vec2I { x: -2000000, y: 0 }, 100000);
    assert_eq!(off, vec![14, 21]);
}

#[test]
fn insert_and_clear_rebuild_cells() {
    let mut g = scenario_grid();
    let b1 = SpatialGridBoid::new(
        1,
        AgentKind::Normal,
        Vec2I { x: 0, y: 0 },
        Vec2I { x: 100000, y: 0 },
    );
    let b2 = SpatialGridBoid::new(
        2,
        AgentKind::Predator,
        Vec2I { x: 140000, y: 0 },
        Vec2I { x: 0, y: 100000 },
    );
    let b3 = SpatialGridBoid::new(
        3,
        AgentKind::Normal,
        Vec2I { x: 10000, y: 10000 },
        Vec2I { x: 0, y: 0 },
    );
    g.insert(b1);
    g.insert(b2);
    g.insert(b3);
    // Agents one and three share the origin cell, in insertion order.
    let origin_cell = g.at_world_position(Vec2I { x: 0, y: 0 });
    assert_eq!(origin_cell.cell_boids().len(), 2);
    assert_eq!(origin_cell.cell_boids()[0].id, 1);
    assert_eq!(origin_cell.cell_boids()[1].id, 3);
    assert_eq!(g.at_index(18).cell_boids().len(), 1);
    assert_eq!(g.at_index(18).cell_boids()[0].id, 2);
    // Clearing empties every cell and keeps the geometry.
    g.clear();
    for cell in g.cells() {
        assert_eq!(cell.cell_boids().len(), 0);
    }
    assert_eq!(g.rows(), 5);
    assert_eq!(g.columns(), 7);
}

#[test]
fn mutable_access_reaches_the_same_cell() {
    let mut g = scenario_grid();
    let b = SpatialGridBoid::new(
        7,
        AgentKind::Normal,
        Vec2I { x: -300000, y: 100000 },
        Vec2I { x: 0, y: 0 },
    );
    let cell = g.at_world_position_mut(Vec2I { x: -300000, y: 100000 });
    cell.push(b);
    assert_eq!(g.at_world_position(Vec2I { x: -300000, y: 100000 }).cell_boids().len(), 1);
    let via_coords = g.at_mut(3, 2);
    assert_eq!(via_coords.row, 3);
    assert_eq!(via_coords.column, 2);
}
