//! The per-tick systems: rebuild the spatial grid from the agent store,
//! steer and integrate every agent against that read-only snapshot, and
//! wrap positions at the simulated rectangle's boundary. The grid rebuild
//! completes before any agent perceives, and each agent writes only its
//! own state, so agents may be stepped in any order (or in parallel by a
//! scheduler that partitions the store).
use vstd::prelude::*;
use crate::boid::{AgentKind, Boid};
use crate::config::{BoidConfiguration, SimulationConfiguration, SPEED_RANGE_HI};
use crate::force::ForceField;
use crate::grid::{SpatialGrid, SpatialGridBoid, SpatialGridCell};
use crate::math::{int_abs, spec_wrap, wrap_coordinate};
use crate::vec2::Vec2I;
use crate::wind::WindCurrent;
use crate::{POPULATION_LIMIT, POS_LIMIT, UNIT};

verus! {

/// The safety margin kept off the boundary when wrapping, so that a
/// wrapped agent never lands exactly on the covered rectangle's edge
/// (a tenth of a pixel).
pub const SAFE_MARGIN: i64 = 100;

/// One agent as the simulation loop owns it.
#[derive(Clone, Copy, PartialEq, Eq, Structural, Debug)]
pub struct Agent {
    pub id: u64,
    pub kind: AgentKind,
    /// Whether a user-controlled agent takes part in flocking; agents of
    /// the other kinds always do.
    pub follow_boids: bool,
    pub position: Vec2I,
    pub boid: Boid,
}

impl Agent {
    /// The agent stands inside the grid's rectangle and its velocity is
    /// inside the admissible speed band.
    pub open spec fn ok_for(self, g: SpatialGrid) -> bool {
        &&& g.spec_in_range(self.position)
        &&& self.boid.wf()
    }

    /// What the grid records of this agent.
    pub open spec fn spec_snapshot(self) -> SpatialGridBoid {
        SpatialGridBoid {
            id: self.id,
            kind: self.kind,
            position: self.position,
            velocity: self.boid.velocity,
        }
    }
}

/// A position inside a well-formed grid's rectangle lies inside the
/// world's coordinate limits.
pub proof fn lemma_in_range_in_box(g: SpatialGrid, p: Vec2I)
    requires
        g.wf(),
        g.spec_in_range(p),
    ensures
        p.spec_in_box(POS_LIMIT as int),
{
    let w = g.spec_width();
    let h = g.spec_height();
    vstd::arithmetic::div_mod::lemma_fundamental_div_mod(w, 2);
    vstd::arithmetic::div_mod::lemma_mod_bound(w, 2);
    vstd::arithmetic::div_mod::lemma_fundamental_div_mod(h, 2);
    vstd::arithmetic::div_mod::lemma_mod_bound(h, 2);
    assert(0 <= w <= 2 * POS_LIMIT && 0 <= h <= 2 * POS_LIMIT) by (nonlinear_arith)
        requires
            1 <= g.columns && 1 <= g.rows && 0 < g.cell_size && w == g.columns * g.cell_size && h
                == g.rows * g.cell_size && g.columns * g.cell_size <= 2 * POS_LIMIT && g.rows
                * g.cell_size <= 2 * POS_LIMIT,
    ;
}

/// The snapshots a cell receives when the grid is rebuilt from the agent
/// store: those of the agents standing in it, in store order.
pub open spec fn spec_cell_contents(agents: Seq<Agent>, g: SpatialGrid, idx: int) -> Seq<
    SpatialGridBoid,
>
    decreases agents.len(),
{
    if agents.len() == 0 {
        Seq::empty()
    } else {
        let rest = spec_cell_contents(agents.drop_last(), g, idx);
        let a = agents.last();
        if g.spec_cell_index_of(a.position) == idx {
            rest.push(a.spec_snapshot())
        } else {
            rest
        }
    }
}

/// Which cell an agent lands in depends on the grid's geometry alone,
/// and so does the whole rebuilt contents.
pub proof fn lemma_cell_contents_congruent(
    agents: Seq<Agent>,
    g1: SpatialGrid,
    g2: SpatialGrid,
    idx: int,
)
    requires
        g1.rows == g2.rows,
        g1.columns == g2.columns,
        g1.cell_size == g2.cell_size,
    ensures
        spec_cell_contents(agents, g1, idx) == spec_cell_contents(agents, g2, idx),
    decreases agents.len(),
{
    if agents.len() > 0 {
        lemma_cell_contents_congruent(agents.drop_last(), g1, g2, idx);
    }
}

/// Total number of snapshots the first `m` cells receive from a rebuild.
pub open spec fn spec_contents_sum(agents: Seq<Agent>, g: SpatialGrid, m: int) -> int
    decreases m,
{
    if m <= 0 {
        0
    } else {
        spec_contents_sum(agents, g, m - 1) + spec_cell_contents(agents, g, m - 1).len()
    }
}

proof fn lemma_contents_sum_empty(g: SpatialGrid, m: int)
    ensures
        spec_contents_sum(Seq::<Agent>::empty(), g, m) == 0,
    decreases m,
{
    if m > 0 {
        lemma_contents_sum_empty(g, m - 1);
    }
}

/// Dropping the last agent removes exactly its own snapshot from the
/// first `m` cells' total (nothing, when its cell lies beyond them).
proof fn lemma_contents_sum_last(agents: Seq<Agent>, g: SpatialGrid, m: int)
    requires
        agents.len() > 0,
    ensures
        spec_contents_sum(agents, g, m) == spec_contents_sum(agents.drop_last(), g, m) + if 0
            <= g.spec_cell_index_of(agents.last().position) < m {
            1int
        } else {
            0int
        },
    decreases m,
{
    if m > 0 {
        lemma_contents_sum_last(agents, g, m - 1);
    }
}

/// A rebuild distributes every agent that stands in the grid into exactly
/// one cell: the cell totals sum to the population.
proof fn lemma_contents_sum_total(agents: Seq<Agent>, g: SpatialGrid)
    requires
        g.wf(),
        forall|i: int| 0 <= i < agents.len() ==> (#[trigger] agents[i]).ok_for(g),
    ensures
        spec_contents_sum(agents, g, g.cells@.len() as int) == agents.len(),
    decreases agents.len(),
{
    let m = g.cells@.len() as int;
    if agents.len() == 0 {
        assert(agents =~= Seq::<Agent>::empty());
        lemma_contents_sum_empty(g, m);
    } else {
        assert(agents.drop_last().len() == agents.len() - 1);
        assert(forall|i: int|
            0 <= i < agents.drop_last().len() ==> (#[trigger] agents.drop_last()[i]).ok_for(g));
        lemma_contents_sum_total(agents.drop_last(), g);
        lemma_contents_sum_last(agents, g, m);
        crate::grid::lemma_grid_index_round_trip(g, agents.last().position);
        assert(g.cells@.len() == g.rows * g.columns);
    }
}

/// Every snapshot a rebuild places is well formed, because every agent it
/// came from was.
proof fn lemma_contents_wf(agents: Seq<Agent>, g: SpatialGrid, idx: int)
    requires
        g.wf(),
        forall|i: int| 0 <= i < agents.len() ==> (#[trigger] agents[i]).ok_for(g),
    ensures
        forall|k: int|
            0 <= k < spec_cell_contents(agents, g, idx).len()
                ==> crate::rules::spec_snap_wf(#[trigger] spec_cell_contents(agents, g, idx)[k]),
    decreases agents.len(),
{
    if agents.len() > 0 {
        assert(forall|i: int|
            0 <= i < agents.drop_last().len() ==> (#[trigger] agents.drop_last()[i]).ok_for(g));
        lemma_contents_wf(agents.drop_last(), g, idx);
        lemma_in_range_in_box(g, agents.last().position);
        let c = spec_cell_contents(agents, g, idx);
        let rest = spec_cell_contents(agents.drop_last(), g, idx);
        if g.spec_cell_index_of(agents.last().position) == idx {
            assert(crate::rules::spec_snap_wf(agents.last().spec_snapshot()));
            assert forall|k: int|
                0 <= k < c.len() implies crate::rules::spec_snap_wf(#[trigger] c[k]) by {
                if k < rest.len() {
                    assert(c[k] == rest[k]);
                } else {
                    assert(c[k] == agents.last().spec_snapshot());
                }
            }
        }
    }
}

/// The cell lengths of a rebuilt grid sum to the rebuild's cell totals.
proof fn lemma_sum_boids_matches_contents(
    cells: Seq<SpatialGridCell>,
    agents: Seq<Agent>,
    g: SpatialGrid,
)
    requires
        forall|j: int|
            0 <= j < cells.len() ==> (#[trigger] cells[j]).boids@ == spec_cell_contents(
                agents,
                g,
                j,
            ),
    ensures
        crate::grid::spec_sum_boids(cells) == spec_contents_sum(agents, g, cells.len() as int),
    decreases cells.len(),
{
    if cells.len() > 0 {
        assert(forall|j: int|
            0 <= j < cells.drop_last().len() ==> (#[trigger] cells.drop_last()[j]).boids@
                == spec_cell_contents(agents, g, j));
        lemma_sum_boids_matches_contents(cells.drop_last(), agents, g);
    }
}

/// A grid just rebuilt from a well-formed agent store holds well-formed
/// snapshots and exactly one snapshot per agent: precisely what the
/// steering phase requires of its snapshot.
pub proof fn lemma_rebuilt_grid_contents_ok(g: SpatialGrid, agents: Seq<Agent>)
    requires
        g.wf(),
        agents.len() <= POPULATION_LIMIT,
        forall|i: int| 0 <= i < agents.len() ==> (#[trigger] agents[i]).ok_for(g),
        forall|j: int|
            0 <= j < g.cells@.len() ==> (#[trigger] g.cells@[j]).boids@ == spec_cell_contents(
                agents,
                g,
                j,
            ),
    ensures
        spec_grid_contents_ok(g),
        crate::grid::spec_sum_boids(g.cells@) == agents.len(),
{
    lemma_sum_boids_matches_contents(g.cells@, agents, g);
    lemma_contents_sum_total(agents, g);
    assert forall|j: int, k: int|
        0 <= j < g.cells@.len() && 0 <= k < g.cells@[j].boids@.len()
        implies crate::rules::spec_snap_wf(#[trigger] g.cells@[j].boids@[k]) by {
        lemma_contents_wf(agents, g, j);
    }
}

/// Empties every cell, then places every agent's snapshot into the cell
/// owning its position — the tick's one global synchronisation point,
/// completed before any agent perceives.
pub fn update_spatial_grid(grid: &mut SpatialGrid, agents: &Vec<Agent>)
    requires
        old(grid).wf(),
        agents@.len() <= POPULATION_LIMIT,
        forall|i: int| 0 <= i < agents@.len() ==> (#[trigger] agents@[i]).ok_for(*old(grid)),
    ensures
        final(grid).wf(),
        final(grid).rows == old(grid).rows && final(grid).columns == old(grid).columns,
        final(grid).cell_size == old(grid).cell_size,
        final(grid).cells@.len() == old(grid).cells@.len(),
        forall|j: int|
            0 <= j < final(grid).cells@.len() ==> (#[trigger] final(grid).cells@[j]).boids@
                == spec_cell_contents(agents@, *final(grid), j),
        spec_grid_contents_ok(*final(grid)),
        crate::grid::spec_sum_boids(final(grid).cells@) == agents@.len(),
{
    grid.clear();
    let ghost g0 = *grid;
    let n = agents.len();
    let mut i: usize = 0;
    while i < n
        invariant
            i <= n,
            n == agents@.len() <= POPULATION_LIMIT,
            grid.wf(),
            grid.rows == g0.rows && grid.columns == g0.columns && grid.cell_size == g0.cell_size,
            grid.cells@.len() == g0.cells@.len(),
            forall|k: int| 0 <= k < agents@.len() ==> (#[trigger] agents@[k]).ok_for(*grid),
            forall|j: int|
                0 <= j < grid.cells@.len() ==> (#[trigger] grid.cells@[j]).boids@
                    == spec_cell_contents(agents@.take(i as int), *grid, j),
        decreases n - i,
    {
        let a = agents[i];
        let snap = SpatialGridBoid::new(a.id, a.kind, a.position, a.boid.velocity());
        let ghost prev = *grid;
        grid.insert(snap);
        proof {
            assert(agents@.take(i + 1).drop_last() =~= agents@.take(i as int));
            assert(agents@.take(i + 1).last() == agents@[i as int]);
            let idx = prev.spec_cell_index_of(a.position);
            assert forall|j: int|
                0 <= j < grid.cells@.len() implies (#[trigger] grid.cells@[j]).boids@
                == spec_cell_contents(agents@.take(i + 1), *grid, j) by {
                lemma_cell_contents_congruent(agents@.take(i as int), prev, *grid, j);
                lemma_cell_contents_congruent(agents@.take(i + 1), prev, *grid, j);
                assert(grid.spec_cell_index_of(a.position) == prev.spec_cell_index_of(a.position));
                if j == idx {
                    assert(grid.cells@[j].boids@ == prev.cells@[j].boids@.push(snap));
                } else {
                    assert(grid.cells@[j] == prev.cells@[j]);
                }
            }
        }
        i = i + 1;
    }
    proof {
        assert(agents@.take(n as int) =~= agents@);
        assert(forall|k: int| 0 <= k < agents@.len() ==> (#[trigger] agents@[k]).ok_for(*grid));
        lemma_rebuilt_grid_contents_ok(*grid, agents@);
    }
}

/// Where an agent stands after the toroidal wrap against a grid: each
/// position coordinate is reduced modulo the extent of the covered
/// interval (shrunk by the safety margin), everything else untouched.
pub open spec fn spec_wrapped_agent(a: Agent, g: SpatialGrid) -> Agent {
    let bx = g.spec_half_w() - SAFE_MARGIN;
    let by = g.spec_half_h() - SAFE_MARGIN;
    Agent {
        position: Vec2I {
            x: spec_wrap(a.position.x as int, bx) as i64,
            y: spec_wrap(a.position.y as int, by) as i64,
        },
        ..a
    }
}

/// Wraps every agent's position back into the simulated rectangle,
/// toroidally: a coordinate that left the (margin-reduced) covered
/// interval reappears at the opposite edge, at the position its residue
/// modulo the interval's extent dictates. Velocities are untouched, so an
/// agent's heading is continuous across the wrap.
pub fn wrap_edges(agents: &mut Vec<Agent>, grid: &SpatialGrid)
    requires
        grid.wf(),
        forall|i: int|
            0 <= i < old(agents)@.len() ==> (#[trigger] old(agents)@[i].position).spec_in_box(
                4 * POS_LIMIT as int,
            ),
    ensures
        final(agents)@.len() == old(agents)@.len(),
        forall|i: int|
            0 <= i < old(agents)@.len() ==> #[trigger] final(agents)@[i] == spec_wrapped_agent(
                old(agents)@[i],
                *grid,
            ),
        forall|i: int|
            0 <= i < final(agents)@.len() ==> grid.spec_in_range(
                (#[trigger] final(agents)@[i]).position,
            ),
{
    let size = grid.grid_size();
    let bx = size.x / 2 - SAFE_MARGIN;
    let by = size.y / 2 - SAFE_MARGIN;
    proof {
        assert(grid.cell_size >= UNIT + 1);
        assert(grid.spec_width() >= grid.cell_size && grid.spec_height() >= grid.cell_size)
            by (nonlinear_arith)
            requires
                1 <= grid.columns && 1 <= grid.rows && 0 < grid.cell_size && grid.spec_width()
                    == grid.columns * grid.cell_size && grid.spec_height() == grid.rows
                    * grid.cell_size,
        ;
        assert(bx >= 400 && by >= 400);
    }
    let n = agents.len();
    let ghost orig = agents@;
    let mut i: usize = 0;
    while i < n
        invariant
            i <= n,
            n == agents@.len() == orig.len(),
            grid.wf(),
            bx == grid.spec_half_w() - SAFE_MARGIN && by == grid.spec_half_h() - SAFE_MARGIN,
            bx >= 400 && by >= 400,
            bx <= grid.spec_half_w() && by <= grid.spec_half_h(),
            forall|k: int|
                0 <= k < orig.len() ==> (#[trigger] orig[k].position).spec_in_box(
                    4 * POS_LIMIT as int,
                ),
            forall|k: int|
                i <= k < orig.len() ==> #[trigger] agents@[k] == orig[k],
            forall|k: int|
                0 <= k < i ==> #[trigger] agents@[k] == (Agent {
                    position: Vec2I {
                        x: spec_wrap(orig[k].position.x as int, bx as int) as i64,
                        y: spec_wrap(orig[k].position.y as int, by as int) as i64,
                    },
                    ..orig[k]
                }),
            forall|k: int|
                0 <= k < i ==> grid.spec_in_range((#[trigger] agents@[k]).position),
        decreases n - i,
    {
        let a = agents[i];
        let wx = wrap_coordinate(a.position.x, bx);
        let wy = wrap_coordinate(a.position.y, by);
        let updated = Agent { position: Vec2I { x: wx, y: wy }, ..a };
        agents.set(i, updated);
        proof {
            assert(-grid.spec_half_w() <= wx < grid.spec_width() - grid.spec_half_w()
                && -grid.spec_half_h() <= wy < grid.spec_height() - grid.spec_half_h()) by {
                assert(grid.spec_width() - grid.spec_half_w() >= grid.spec_half_w());
                assert(grid.spec_height() - grid.spec_half_h() >= grid.spec_half_h());
            }
        }
        i = i + 1;
    }
}

/// Componentwise cap on what a single perceived neighbour may add to the
/// accumulated push force.
pub const STEER_TERM_LIMIT: i64 = 40000000;

/// Largest norm a velocity inside the admissible speed band can have.
pub const SPEED_NORM_LIMIT: i64 = 710000;

/// Most wind currents a simulation may hold.
pub const MAX_WINDS: usize = 8;

/// Most force fields a simulation may hold.
pub const MAX_FIELDS: usize = 8;

/// Every snapshot the grid holds shows a world position and an in-band
/// velocity, and the whole grid holds at most a population's worth.
pub open spec fn spec_grid_contents_ok(g: SpatialGrid) -> bool {
    &&& forall|j: int, k: int|
        0 <= j < g.cells@.len() && 0 <= k < g.cells@[j].boids@.len()
            ==> crate::rules::spec_snap_wf(#[trigger] g.cells@[j].boids@[k])
    &&& crate::grid::spec_sum_boids(g.cells@) <= POPULATION_LIMIT
}

/// Running perception state of one agent's pass over its visible cells.
pub struct Perception {
    pub pcx: int,
    pub pcy: int,
    pub pvx: int,
    pub pvy: int,
    pub n: int,
    pub push_x: int,
    pub push_y: int,
}

/// Perception before any neighbour has been seen.
pub open spec fn spec_perception_start() -> Perception {
    Perception { pcx: 0, pcy: 0, pvx: 0, pvy: 0, n: 0, push_x: 0, push_y: 0 }
}

/// The separation push of the per-tick update: direction away from the
/// neighbour, falling back to the agent's own velocity at coincidence,
/// magnitude inversely proportional to the squared distance and clamped.
pub open spec fn spec_avoid_term(
    position: Vec2I,
    velocity: Vec2I,
    other: Vec2I,
    w: int,
    r_sq: int,
) -> Vec2I {
    let dx = other.x - position.x;
    let dy = other.y - position.y;
    let d_sq = dx * dx + dy * dy;
    let dir = if d_sq < crate::rules::DIST_GUARD {
        velocity
    } else {
        (Vec2I { x: dx as i64, y: dy as i64 }).spec_scaled_to(UNIT as int)
    };
    let denom = if d_sq < crate::rules::DIST_GUARD {
        crate::rules::PIXEL_SQ as int
    } else {
        d_sq
    };
    let tx = crate::math::div_t(w * r_sq * dir.x, (UNIT as int) * denom);
    let ty = crate::math::div_t(w * r_sq * dir.y, (UNIT as int) * denom);
    let clamped = (Vec2I { x: tx as i64, y: ty as i64 }).spec_clamp_norm_max(
        r_sq / (UNIT as int),
    );
    Vec2I { x: (-clamped.x) as i64, y: (-clamped.y) as i64 }
}

/// What one snapshot adds to a prey agent's perception: a flee push from
/// a predator in view, a separation push from a too-close flock-mate, or
/// a vote in the cohesion and alignment averages.
pub open spec fn spec_prey_see(
    st: Perception,
    a: Agent,
    speed: int,
    b: SpatialGridBoid,
    config: BoidConfiguration,
) -> Perception {
    if b.id == a.id {
        st
    } else {
        let dx = b.position.x - a.position.x;
        let dy = b.position.y - a.position.y;
        let d_sq = dx * dx + dy * dy;
        let view = config.view_radius.value as int;
        let avoid = config.avoidance_radius.value as int;
        if b.kind == AgentKind::Predator {
            if d_sq < view * view {
                let dir = (Vec2I { x: dx as i64, y: dy as i64 }).spec_scaled_to(UNIT as int);
                let fw = config.flee_weight.value as int;
                Perception {
                    push_x: st.push_x - crate::math::div_t(
                        fw * dir.x * speed,
                        (UNIT as int) * (UNIT as int),
                    ),
                    push_y: st.push_y - crate::math::div_t(
                        fw * dir.y * speed,
                        (UNIT as int) * (UNIT as int),
                    ),
                    ..st
                }
            } else {
                st
            }
        } else {
            if d_sq < avoid * avoid {
                let t = spec_avoid_term(
                    a.position,
                    a.boid.velocity,
                    b.position,
                    config.separation_weight.value as int,
                    avoid * avoid,
                );
                Perception { push_x: st.push_x + t.x, push_y: st.push_y + t.y, ..st }
            } else if d_sq < view * view {
                Perception {
                    pcx: st.pcx + b.position.x,
                    pcy: st.pcy + b.position.y,
                    pvx: st.pvx + b.velocity.x,
                    pvy: st.pvy + b.velocity.y,
                    n: st.n + 1,
                    ..st
                }
            } else {
                st
            }
        }
    }
}

/// A prey agent's perception folded over one cell's snapshots.
pub open spec fn spec_prey_see_cell(
    boids: Seq<SpatialGridBoid>,
    st: Perception,
    a: Agent,
    speed: int,
    config: BoidConfiguration,
) -> Perception
    decreases boids.len(),
{
    if boids.len() == 0 {
        st
    } else {
        spec_prey_see(
            spec_prey_see_cell(boids.drop_last(), st, a, speed, config),
            a,
            speed,
            boids.last(),
            config,
        )
    }
}

/// A prey agent's perception folded over the queried cells, in query
/// order.
pub open spec fn spec_prey_perceive(
    idxs: Seq<usize>,
    g: SpatialGrid,
    st: Perception,
    a: Agent,
    speed: int,
    config: BoidConfiguration,
) -> Perception
    decreases idxs.len(),
{
    if idxs.len() == 0 {
        st
    } else {
        let st2 = spec_prey_perceive(idxs.drop_last(), g, st, a, speed, config);
        spec_prey_see_cell(g.cells@[idxs.last() as int].boids@, st2, a, speed, config)
    }
}

/// The force-field pushes folded over the active fields.
pub open spec fn spec_push_fields(
    fields: Seq<(Vec2I, ForceField)>,
    push: (int, int),
    a: Agent,
    speed: int,
) -> (int, int)
    decreases fields.len(),
{
    if fields.len() == 0 {
        push
    } else {
        let rest = spec_push_fields(fields.drop_last(), push, a, speed);
        let f = fields.last();
        let p = crate::force::spec_force_field_push(a.position, a.boid.velocity, speed, f.1, f.0);
        (rest.0 + p.x, rest.1 + p.y)
    }
}

/// The wind-current drift folded over the active currents: a current
/// whose curve comes within its influence radius advects the agent along
/// the tangent at the nearest sampled point, at the current's speed.
pub open spec fn spec_wind_offset(winds: Seq<WindCurrent>, off: (int, int), position: Vec2I) -> (
    int,
    int,
)
    decreases winds.len(),
{
    if winds.len() == 0 {
        off
    } else {
        let rest = spec_wind_offset(winds.drop_last(), off, position);
        let w = winds.last();
        match w.spec_closest(position, w.resolution as int) {
            Option::Some((i, _d, _pt)) => {
                let u = w.spec_tangent_at(i as int).spec_scaled_to(UNIT as int);
                (
                    rest.0 + crate::math::div_t(u.x * w.wind_speed, UNIT as int),
                    rest.1 + crate::math::div_t(u.y * w.wind_speed, UNIT as int),
                )
            },
            Option::None => rest,
        }
    }
}

/// The steering a prey agent computes for one tick: the velocity change
/// from cohesion, separation, alignment, fleeing and force fields, and
/// the drift offset from the ambient wind and the wind currents. A
/// user-controlled agent that opted out of flocking computes neither.
pub open spec fn spec_prey_steering(
    a: Agent,
    g: SpatialGrid,
    winds: Seq<WindCurrent>,
    fields: Seq<(Vec2I, ForceField)>,
    config: BoidConfiguration,
) -> (Vec2I, Vec2I) {
    if a.kind == AgentKind::UserControlled && !a.follow_boids {
        (Vec2I { x: 0i64, y: 0i64 }, Vec2I { x: 0i64, y: 0i64 })
    } else {
        let speed = a.boid.velocity.spec_norm();
        let view = config.view_radius.value as int;
        let st = spec_prey_perceive(
            g.spec_radius_indices(a.position, view),
            g,
            spec_perception_start(),
            a,
            speed,
            config,
        );
        let push = spec_push_fields(fields, (st.push_x, st.push_y), a, speed);
        let centre = if st.n == 0 {
            (a.position.x as int, a.position.y as int)
        } else if st.n > 1 {
            (crate::math::div_t(st.pcx, st.n), crate::math::div_t(st.pcy, st.n))
        } else {
            (st.pcx, st.pcy)
        };
        let cw = config.cohesion_weight.value as int;
        let v1 = (
            crate::math::div_t((centre.0 - a.position.x) * cw, UNIT as int),
            crate::math::div_t((centre.1 - a.position.y) * cw, UNIT as int),
        );
        let v2 = (v1.0 + push.0, v1.1 + push.1);
        let aw = config.alignment_weight.value as int;
        let al = if st.n == 0 {
            (0, 0)
        } else {
            let pv = if st.n > 1 {
                (crate::math::div_t(st.pvx, st.n), crate::math::div_t(st.pvy, st.n))
            } else {
                (st.pvx, st.pvy)
            };
            (
                crate::math::div_t((pv.0 - v2.0) * aw, UNIT as int),
                crate::math::div_t((pv.1 - v2.1) * aw, UNIT as int),
            )
        };
        let v3 = (v2.0 + al.0, v2.1 + al.1);
        let off0 = crate::rules::spec_strong_wind(config);
        let off = spec_wind_offset(winds, (off0.x as int, off0.y as int), a.position);
        (Vec2I { x: v3.0 as i64, y: v3.1 as i64 }, Vec2I { x: off.0 as i64, y: off.1 as i64 })
    }
}

/// The machine form of a [`Perception`] under construction.
pub struct PerceptionExec {
    pub pcx: i64,
    pub pcy: i64,
    pub pvx: i64,
    pub pvy: i64,
    pub n: usize,
    pub push_x: i64,
    pub push_y: i64,
}

impl PerceptionExec {
    /// The mathematical perception this state denotes.
    pub open spec fn as_spec(self) -> Perception {
        Perception {
            pcx: self.pcx as int,
            pcy: self.pcy as int,
            pvx: self.pvx as int,
            pvy: self.pvy as int,
            n: self.n as int,
            push_x: self.push_x as int,
            push_y: self.push_y as int,
        }
    }

    /// The accumulators stay bounded by what `seen` snapshots can
    /// contribute.
    pub open spec fn inv(self, seen: int) -> bool {
        &&& 0 <= self.n <= seen
        &&& int_abs(self.push_x as int) <= seen * (STEER_TERM_LIMIT as int)
        &&& int_abs(self.push_y as int) <= seen * (STEER_TERM_LIMIT as int)
        &&& int_abs(self.pcx as int) <= self.n * (POS_LIMIT as int)
        &&& int_abs(self.pcy as int) <= self.n * (POS_LIMIT as int)
        &&& int_abs(self.pvx as int) <= self.n * (SPEED_RANGE_HI as int)
        &&& int_abs(self.pvy as int) <= self.n * (SPEED_RANGE_HI as int)
    }
}

/// Folds one cell's snapshots into a prey agent's perception.
fn see_cell_prey(
    st: PerceptionExec,
    cell: &SpatialGridCell,
    a: &Agent,
    speed: i64,
    config: &BoidConfiguration,
    seen: Ghost<int>,
) -> (r: PerceptionExec)
    requires
        cell.boids@.len() <= POPULATION_LIMIT,
        forall|i: int|
            0 <= i < cell.boids@.len() ==> crate::rules::spec_snap_wf(#[trigger] cell.boids@[i]),
        config.wf(),
        a.position.spec_in_box(POS_LIMIT as int),
        a.boid.wf(),
        speed == a.boid.velocity.spec_norm(),
        0 <= speed <= SPEED_NORM_LIMIT,
        0 <= seen@,
        seen@ + cell.boids@.len() <= POPULATION_LIMIT,
        st.inv(seen@),
    ensures
        r.as_spec() == spec_prey_see_cell(cell.boids@, st.as_spec(), *a, speed as int, *config),
        r.inv(seen@ + cell.boids@.len()),
{
    let view = config.scalar_parametre(crate::config::Parametre::ViewRadius);
    let avoid = config.scalar_parametre(crate::config::Parametre::AvoidanceRadius);
    let sep_w = config.scalar_parametre(crate::config::Parametre::SeparationWeight);
    let flee_w = config.scalar_parametre(crate::config::Parametre::FleeWeight);
    proof {
        assert(0 <= view * view <= 40000000000 && 0 <= avoid * avoid <= 40000000000)
            by (nonlinear_arith)
            requires
                0 <= view <= 200000i64 && 0 <= avoid <= 200000i64,
        ;
    }
    let view_sq = view * view;
    let avoid_sq = avoid * avoid;
    let clamp_m = crate::math::div_q(avoid_sq, UNIT);
    proof {
        crate::math::lemma_div_t_bound(avoid_sq as int, UNIT as int, 40000000);
        crate::math::lemma_div_t_sign(avoid_sq as int, UNIT as int);
    }
    let m_len = cell.boids.len();
    let mut cur = st;
    let mut m: usize = 0;
    while m < m_len
        invariant
            m <= m_len,
            m_len == cell.boids@.len() <= POPULATION_LIMIT,
            forall|i: int|
                0 <= i < cell.boids@.len() ==> crate::rules::spec_snap_wf(
                    #[trigger] cell.boids@[i],
                ),
            config.wf(),
            a.position.spec_in_box(POS_LIMIT as int),
            a.boid.wf(),
            speed == a.boid.velocity.spec_norm(),
            0 <= speed <= SPEED_NORM_LIMIT,
            0 <= seen@,
            seen@ + m_len <= POPULATION_LIMIT,
            view == config.view_radius.value && avoid == config.avoidance_radius.value,
            sep_w == config.separation_weight.value && flee_w == config.flee_weight.value,
            view_sq == view * view && avoid_sq == avoid * avoid,
            0 <= view_sq <= 40000000000 && 0 <= avoid_sq <= 40000000000,
            clamp_m == crate::math::div_t(avoid_sq as int, UNIT as int),
            0 <= clamp_m <= 40000000,
            cur.as_spec() == spec_prey_see_cell(
                cell.boids@.take(m as int),
                st.as_spec(),
                *a,
                speed as int,
                *config,
            ),
            cur.inv(seen@ + m),
        decreases m_len - m,
    {
        let b = cell.boids[m];
        proof {
            assert(cell.boids@.take(m + 1).drop_last() =~= cell.boids@.take(m as int));
            assert(cell.boids@.take(m + 1).last() == cell.boids@[m as int]);
        }
        if b.id != a.id {
            let diff = b.position.minus(a.position);
            let d_sq = b.position.dist_sq(a.position);
            proof {
                assert((Vec2I { x: diff.x, y: diff.y }).spec_norm_sq() == d_sq);
                assert(d_sq == (b.position.x - a.position.x) * (b.position.x - a.position.x) + (
                b.position.y - a.position.y) * (b.position.y - a.position.y));
            }
            if matches!(b.kind, AgentKind::Predator) {
                if d_sq < view_sq {
                    let dir = diff.scaled_to(UNIT);
                    proof {
                        assert(int_abs(flee_w * dir.x) <= 1000000 && int_abs(flee_w * dir.y)
                            <= 1000000) by (nonlinear_arith)
                            requires
                                0 <= flee_w <= 1000i64 && int_abs(dir.x as int) <= 1000 && int_abs(
                                    dir.y as int,
                                ) <= 1000,
                        ;
                        assert(int_abs(flee_w * dir.x * speed) <= 1000000 * (speed as int)
                            && int_abs(flee_w * dir.y * speed) <= 1000000 * (speed as int)
                            && 1000000 * (speed as int) <= 710000000000) by (nonlinear_arith)
                            requires
                                int_abs(flee_w * dir.x) <= 1000000 && int_abs(flee_w * dir.y)
                                    <= 1000000 && 0 <= speed <= SPEED_NORM_LIMIT
                                    && SPEED_NORM_LIMIT == 710000i64,
                        ;
                        crate::math::lemma_div_t_bound(
                            flee_w * dir.x * speed,
                            (UNIT as int) * (UNIT as int),
                            710000,
                        );
                        crate::math::lemma_div_t_bound(
                            flee_w * dir.y * speed,
                            (UNIT as int) * (UNIT as int),
                            710000,
                        );
                    }
                    let tx = crate::math::div_q(flee_w * dir.x * speed, UNIT * UNIT);
                    let ty = crate::math::div_q(flee_w * dir.y * speed, UNIT * UNIT);
                    proof {
                        assert(int_abs((cur.push_x - tx) as int) <= (seen@ + m + 1) * (
                        STEER_TERM_LIMIT as int) && int_abs((cur.push_y - ty) as int) <= (seen@ + m
                            + 1) * (STEER_TERM_LIMIT as int)) by (nonlinear_arith)
                            requires
                                int_abs(cur.push_x as int) <= (seen@ + m) * (
                                STEER_TERM_LIMIT as int) && int_abs(cur.push_y as int) <= (seen@
                                    + m) * (STEER_TERM_LIMIT as int) && int_abs(tx as int)
                                    <= 710000 && int_abs(ty as int) <= 710000 && STEER_TERM_LIMIT
                                    == 40000000i64,
                        ;
                    }
                    cur = PerceptionExec { push_x: cur.push_x - tx, push_y: cur.push_y - ty, ..cur };
                }
            } else {
                if d_sq < avoid_sq {
                    let dir: Vec2I = if d_sq < crate::rules::DIST_GUARD {
                        a.boid.velocity()
                    } else {
                        diff.scaled_to(UNIT)
                    };
                    let denom: i64 = if d_sq < crate::rules::DIST_GUARD {
                        crate::rules::PIXEL_SQ
                    } else {
                        d_sq
                    };
                    proof {
                        assert(int_abs(dir.x as int) <= 500000 && int_abs(dir.y as int) <= 500000);
                        assert(0 <= (sep_w as i128) * (avoid_sq as i128)
                            <= 200000000000000i128 && (sep_w as i128) * (avoid_sq as i128) == (
                        sep_w as int) * (avoid_sq as int)) by (nonlinear_arith)
                            requires
                                0 <= sep_w <= 5000i64 && 0 <= avoid_sq <= 40000000000i64,
                        ;
                        assert((sep_w as i128) * (avoid_sq as i128) * (dir.x as i128) == (
                        sep_w as int) * (avoid_sq as int) * (dir.x as int) && (sep_w as i128) * (
                        avoid_sq as i128) * (dir.y as i128) == (sep_w as int) * (avoid_sq as int)
                            * (dir.y as int) && int_abs(
                            (sep_w as int) * (avoid_sq as int) * (dir.x as int),
                        ) <= 100000000000000000000 && int_abs(
                            (sep_w as int) * (avoid_sq as int) * (dir.y as int),
                        ) <= 100000000000000000000) by (nonlinear_arith)
                            requires
                                0 <= (sep_w as i128) * (avoid_sq as i128) <= 200000000000000i128
                                    && (sep_w as i128) * (avoid_sq as i128) == (sep_w as int) * (
                                avoid_sq as int) && int_abs(dir.x as int) <= 500000 && int_abs(
                                    dir.y as int,
                                ) <= 500000,
                        ;
                        assert((UNIT as i128) * (denom as i128) == (UNIT as int) * (denom as int)
                            && 0 < (UNIT as int) * (denom as int)) by (nonlinear_arith)
                            requires
                                0 < denom <= 40000000000i64 && UNIT == 1000i64,
                        ;
                        if d_sq < crate::rules::DIST_GUARD {
                            assert(int_abs((sep_w as int) * (avoid_sq as int) * (dir.x as int))
                                <= ((UNIT as int) * (denom as int)) * 100000000000 && int_abs(
                                (sep_w as int) * (avoid_sq as int) * (dir.y as int),
                            ) <= ((UNIT as int) * (denom as int)) * 100000000000)
                                by (nonlinear_arith)
                                requires
                                    int_abs((sep_w as int) * (avoid_sq as int) * (dir.x as int))
                                        <= 100000000000000000000 && int_abs(
                                        (sep_w as int) * (avoid_sq as int) * (dir.y as int),
                                    ) <= 100000000000000000000 && denom == 1000000i64 && UNIT
                                        == 1000i64,
                            ;
                        } else {
                            assert(int_abs((sep_w as int) * (avoid_sq as int) * (dir.x as int))
                                <= ((UNIT as int) * (denom as int)) * 100000000000 && int_abs(
                                (sep_w as int) * (avoid_sq as int) * (dir.y as int),
                            ) <= ((UNIT as int) * (denom as int)) * 100000000000)
                                by (nonlinear_arith)
                                requires
                                    0 <= (sep_w as int) * (avoid_sq as int) <= 200000000000000
                                        && int_abs(dir.x as int) <= 1000 && int_abs(dir.y as int)
                                        <= 1000 && denom >= 100000i64 && UNIT == 1000i64,
                            ;
                        }
                        crate::math::lemma_div_t_bound(
                            (sep_w as int) * (avoid_sq as int) * (dir.x as int),
                            (UNIT as int) * (denom as int),
                            100000000000,
                        );
                        crate::math::lemma_div_t_bound(
                            (sep_w as int) * (avoid_sq as int) * (dir.y as int),
                            (UNIT as int) * (denom as int),
                            100000000000,
                        );
                    }
                    let num_x: i128 = (sep_w as i128) * (avoid_sq as i128) * (dir.x as i128);
                    let num_y: i128 = (sep_w as i128) * (avoid_sq as i128) * (dir.y as i128);
                    let den: i128 = (UNIT as i128) * (denom as i128);
                    let tx = crate::math::div_q_wide(num_x, den) as i64;
                    let ty = crate::math::div_q_wide(num_y, den) as i64;
                    proof {
                        assert(tx == crate::math::div_t(
                            (sep_w as int) * (avoid_sq as int) * (dir.x as int),
                            (UNIT as int) * (denom as int),
                        ));
                        assert(int_abs(tx as int) <= 100000000000 && int_abs(ty as int)
                            <= 100000000000);
                        assert((Vec2I { x: tx, y: ty }).spec_in_box(
                            crate::vec2::CLAMP_INPUT_LIMIT as int,
                        ));
                        assert(0 <= clamp_m <= crate::vec2::CLAMP_MAX_LIMIT);
                    }
                    let clamped = (Vec2I { x: tx, y: ty }).clamp_norm_max(clamp_m);
                    proof {
                        assert(int_abs((cur.push_x + (-clamped.x)) as int) <= (seen@ + m + 1) * (
                        STEER_TERM_LIMIT as int) && int_abs((cur.push_y + (-clamped.y)) as int) <= (
                        seen@ + m + 1) * (STEER_TERM_LIMIT as int)) by (nonlinear_arith)
                            requires
                                int_abs(cur.push_x as int) <= (seen@ + m) * (
                                STEER_TERM_LIMIT as int) && int_abs(cur.push_y as int) <= (seen@
                                    + m) * (STEER_TERM_LIMIT as int) && int_abs(clamped.x as int)
                                    <= 40000000 && int_abs(clamped.y as int) <= 40000000
                                    && STEER_TERM_LIMIT == 40000000i64,
                        ;
                    }
                    cur = PerceptionExec {
                        push_x: cur.push_x + (-clamped.x),
                        push_y: cur.push_y + (-clamped.y),
                        ..cur
                    };
                } else if d_sq < view_sq {
                    proof {
                        assert((seen@ + m) * (STEER_TERM_LIMIT as int) <= (seen@ + m + 1) * (
                        STEER_TERM_LIMIT as int)) by (nonlinear_arith)
                            requires
                                0 <= seen@ + m && STEER_TERM_LIMIT == 40000000i64,
                        ;
                    }
                    cur = PerceptionExec {
                        pcx: cur.pcx + b.position.x,
                        pcy: cur.pcy + b.position.y,
                        pvx: cur.pvx + b.velocity.x,
                        pvy: cur.pvy + b.velocity.y,
                        n: cur.n + 1,
                        ..cur
                    };
                }
            }
        }
        proof {
            assert((seen@ + m) * (STEER_TERM_LIMIT as int) <= (seen@ + m + 1) * (
            STEER_TERM_LIMIT as int)) by (nonlinear_arith)
                requires
                    0 <= seen@ + m && STEER_TERM_LIMIT == 40000000i64,
            ;
        }
        m = m + 1;
    }
    proof {
        assert(cell.boids@.take(m_len as int) =~= cell.boids@);
    }
    cur
}

/// Steers one prey agent for a tick: perceive the grid cells within the
/// view radius, apply the flocking rules and force fields, and collect
/// the ambient and current wind drift.
#[verifier::rlimit(100)]
pub fn steer_prey(
    a: &Agent,
    grid: &SpatialGrid,
    winds: &Vec<WindCurrent>,
    fields: &Vec<(Vec2I, ForceField)>,
    config: &BoidConfiguration,
) -> (r: (Vec2I, Vec2I))
    requires
        grid.wf(),
        spec_grid_contents_ok(*grid),
        a.ok_for(*grid),
        config.wf(),
        winds@.len() <= MAX_WINDS,
        forall|i: int| 0 <= i < winds@.len() ==> (#[trigger] winds@[i]).wf(),
        fields@.len() <= MAX_FIELDS,
        forall|i: int|
            0 <= i < fields@.len() ==> (#[trigger] fields@[i]).1.wf() && fields@[i].0.spec_in_box(
                POS_LIMIT as int,
            ),
    ensures
        ({
            let s = spec_prey_steering(*a, *grid, winds@, fields@, *config);
            r.0 == s.0 && r.1 == s.1
        }),
        r.0.spec_in_box(1500000000000),
        r.1.spec_in_box(10000000),
{
    if matches!(a.kind, AgentKind::UserControlled) && !a.follow_boids {
        return (Vec2I { x: 0, y: 0 }, Vec2I { x: 0, y: 0 });
    }
    proof {
        lemma_in_range_in_box(*grid, a.position);
        assert(a.boid.velocity.spec_norm_sq() <= 2 * (SPEED_RANGE_HI as int) * (
        SPEED_RANGE_HI as int)) by (nonlinear_arith)
            requires
                int_abs(a.boid.velocity.x as int) <= SPEED_RANGE_HI as int && int_abs(
                    a.boid.velocity.y as int,
                ) <= SPEED_RANGE_HI as int,
        ;
    }
    let speed = a.boid.speed();
    proof {
        assert(speed <= SPEED_NORM_LIMIT) by (nonlinear_arith)
            requires
                crate::math::is_sqrt_floor(speed as int, a.boid.velocity.spec_norm_sq())
                    && a.boid.velocity.spec_norm_sq() <= 2 * (SPEED_RANGE_HI as int) * (
                SPEED_RANGE_HI as int) && SPEED_RANGE_HI == 500000i64 && SPEED_NORM_LIMIT
                    == 710000i64,
        ;
    }
    let view = config.scalar_parametre(crate::config::Parametre::ViewRadius);
    let idxs = grid.iter_radius(a.position, view);
    let ghost gidxs = idxs@;
    proof {
        crate::grid::lemma_radius_indices_increasing(*grid, a.position, view as int);
    }
    let nidx = idxs.len();
    let mut st = PerceptionExec { pcx: 0, pcy: 0, pvx: 0, pvy: 0, n: 0, push_x: 0, push_y: 0 };
    let ghost seen: int = 0;
    let mut k: usize = 0;
    while k < nidx
        invariant
            k <= nidx,
            nidx == gidxs.len(),
            gidxs == idxs@,
            gidxs == grid.spec_radius_indices(a.position, view as int),
            grid.spec_radius_indices_ok(a.position, view as int, gidxs),
            forall|k1: int, k2: int| 0 <= k1 < k2 < gidxs.len() ==> gidxs[k1] < gidxs[k2],
            grid.wf(),
            spec_grid_contents_ok(*grid),
            config.wf(),
            a.boid.wf(),
            a.position.spec_in_box(POS_LIMIT as int),
            speed == a.boid.velocity.spec_norm(),
            0 <= speed <= SPEED_NORM_LIMIT,
            view == config.view_radius.value,
            st.as_spec() == spec_prey_perceive(
                gidxs.take(k as int),
                *grid,
                spec_perception_start(),
                *a,
                speed as int,
                *config,
            ),
            seen == crate::grid::spec_sum_boids_at(grid.cells@, gidxs.take(k as int)),
            0 <= seen <= POPULATION_LIMIT,
            st.inv(seen),
        decreases nidx - k,
    {
        proof {
            assert(idxs@ == gidxs);
            assert(gidxs[k as int] < grid.cells@.len());
        }
        let ci = idxs[k];
        let cell = grid.at_index(ci);
        proof {
            assert(*cell == grid.cells@[gidxs[k as int] as int]);
            assert(gidxs.take(k + 1).drop_last() =~= gidxs.take(k as int));
            assert(gidxs.take(k + 1).last() == gidxs[k as int]);
            crate::grid::lemma_increasing_sum_boids(
                grid.cells@,
                gidxs.take(k + 1),
                grid.cells@.len() as int,
            );
            assert(grid.cells@.take(grid.cells@.len() as int) =~= grid.cells@);
            assert(crate::grid::spec_sum_boids_at(grid.cells@, gidxs.take(k + 1)) == seen
                + cell.boids@.len());
        }
        st = see_cell_prey(st, cell, a, speed, config, Ghost(seen));
        proof {
            seen = seen + cell.boids@.len();
        }
        k = k + 1;
    }
    proof {
        assert(gidxs.take(nidx as int) =~= gidxs);
        assert(st.inv(POPULATION_LIMIT as int)) by (nonlinear_arith)
            requires
                st.inv(seen) && 0 <= seen <= POPULATION_LIMIT as int && st.n <= seen
                    && STEER_TERM_LIMIT == 40000000i64 && POS_LIMIT == 8000000i64
                    && SPEED_RANGE_HI == 500000i64 && POPULATION_LIMIT == 10000usize,
        ;
    }
    // Force fields
    let mut push_x = st.push_x;
    let mut push_y = st.push_y;
    let nf = fields.len();
    let mut fi: usize = 0;
    while fi < nf
        invariant
            fi <= nf,
            nf == fields@.len() <= MAX_FIELDS,
            forall|i: int|
                0 <= i < fields@.len() ==> (#[trigger] fields@[i]).1.wf()
                    && fields@[i].0.spec_in_box(POS_LIMIT as int),
            config.wf(),
            a.boid.wf(),
            a.position.spec_in_box(POS_LIMIT as int),
            speed == a.boid.velocity.spec_norm(),
            0 <= speed <= SPEED_NORM_LIMIT,
            ({
                let p = spec_push_fields(
                    fields@.take(fi as int),
                    (st.push_x as int, st.push_y as int),
                    *a,
                    speed as int,
                );
                push_x == p.0 && push_y == p.1
            }),
            int_abs(push_x as int) <= 400000000000 + fi * (SPEED_NORM_LIMIT as int),
            int_abs(push_y as int) <= 400000000000 + fi * (SPEED_NORM_LIMIT as int),
        decreases nf - fi,
    {
        let (fpos, field) = fields[fi];
        let p = crate::force::force_field_push(a.position, a.boid.velocity(), speed, &field, fpos);
        proof {
            assert(fields@.take(fi + 1).drop_last() =~= fields@.take(fi as int));
            assert(fields@.take(fi + 1).last() == fields@[fi as int]);
        }
        push_x = push_x + p.x;
        push_y = push_y + p.y;
        fi = fi + 1;
    }
    proof {
        assert(fields@.take(nf as int) =~= fields@);
    }
    // Cohesion
    let (cx, cy): (i64, i64) = if st.n == 0 {
        (a.position.x, a.position.y)
    } else if st.n > 1 {
        proof {
            assert(st.n * (POS_LIMIT as int) == (POS_LIMIT as int) * st.n) by (nonlinear_arith);
            crate::math::lemma_div_t_bound(st.pcx as int, st.n as int, POS_LIMIT as int);
            crate::math::lemma_div_t_bound(st.pcy as int, st.n as int, POS_LIMIT as int);
        }
        (crate::math::div_q(st.pcx, st.n as i64), crate::math::div_q(st.pcy, st.n as i64))
    } else {
        (st.pcx, st.pcy)
    };
    let cw = config.scalar_parametre(crate::config::Parametre::CohesionWeight);
    proof {
        assert(int_abs((cx - a.position.x) * cw) <= 16000000000 && int_abs((cy - a.position.y) * cw)
            <= 16000000000) by (nonlinear_arith)
            requires
                int_abs(cx as int) <= POS_LIMIT as int && int_abs(cy as int) <= POS_LIMIT as int
                    && int_abs(a.position.x as int) <= POS_LIMIT as int && int_abs(
                    a.position.y as int,
                ) <= POS_LIMIT as int && 0 <= cw <= 1000i64 && POS_LIMIT == 8000000i64,
        ;
        crate::math::lemma_div_t_bound((cx - a.position.x) * cw, UNIT as int, 16000000);
        crate::math::lemma_div_t_bound((cy - a.position.y) * cw, UNIT as int, 16000000);
    }
    let v1x = crate::math::div_q((cx - a.position.x) * cw, UNIT);
    let v1y = crate::math::div_q((cy - a.position.y) * cw, UNIT);
    // Separation and the other pushes
    let v2x = v1x + push_x;
    let v2y = v1y + push_y;
    // Alignment
    let aw = config.scalar_parametre(crate::config::Parametre::AlignmentWeight);
    let (alx, aly): (i64, i64) = if st.n == 0 {
        (0, 0)
    } else {
        let (pvx, pvy): (i64, i64) = if st.n > 1 {
            proof {
                assert(st.n * (SPEED_RANGE_HI as int) == (SPEED_RANGE_HI as int) * st.n)
                    by (nonlinear_arith);
                crate::math::lemma_div_t_bound(st.pvx as int, st.n as int, SPEED_RANGE_HI as int);
                crate::math::lemma_div_t_bound(st.pvy as int, st.n as int, SPEED_RANGE_HI as int);
            }
            (crate::math::div_q(st.pvx, st.n as i64), crate::math::div_q(st.pvy, st.n as i64))
        } else {
            proof {
                assert(st.n == 1 ==> int_abs(st.pvx as int) <= SPEED_RANGE_HI as int && int_abs(
                    st.pvy as int,
                ) <= SPEED_RANGE_HI as int);
            }
            (st.pvx, st.pvy)
        };
        proof {
            assert(int_abs((pvx - v2x) * aw) <= 420000000000000 && int_abs((pvy - v2y) * aw)
                <= 420000000000000) by (nonlinear_arith)
                requires
                    int_abs(pvx as int) <= SPEED_RANGE_HI as int && int_abs(pvy as int)
                        <= SPEED_RANGE_HI as int && int_abs(v2x as int) <= 410000000000 && int_abs(
                        v2y as int,
                    ) <= 410000000000 && 0 <= aw <= 1000i64 && SPEED_RANGE_HI == 500000i64,
            ;
            crate::math::lemma_div_t_bound((pvx - v2x) * aw, UNIT as int, 420000000000);
            crate::math::lemma_div_t_bound((pvy - v2y) * aw, UNIT as int, 420000000000);
        }
        (crate::math::div_q((pvx - v2x) * aw, UNIT), crate::math::div_q((pvy - v2y) * aw, UNIT))
    };
    let v3x = v2x + alx;
    let v3y = v2y + aly;
    let off = wind_drift(winds, a.position, config);
    (Vec2I { x: v3x, y: v3y }, off)
}

/// The drift offset one tick adds outside steering: the ambient wind
/// plus every wind current whose curve passes near the position.
fn wind_drift(winds: &Vec<WindCurrent>, position: Vec2I, config: &BoidConfiguration) -> (r: Vec2I)
    requires
        config.wf(),
        winds@.len() <= MAX_WINDS,
        forall|i: int| 0 <= i < winds@.len() ==> (#[trigger] winds@[i]).wf(),
        position.spec_in_box(POS_LIMIT as int),
    ensures
        ({
            let off0 = crate::rules::spec_strong_wind(*config);
            let o = spec_wind_offset(winds@, (off0.x as int, off0.y as int), position);
            r.x == o.0 && r.y == o.1
        }),
        r.spec_in_box(10000000),
{
    let (wdx, wdy) = config.wind_direction();
    let ws = config.scalar_parametre(crate::config::Parametre::WindSpeed);
    proof {
        assert(int_abs(wdx * ws) <= (UNIT as int) * 1002000 && int_abs(wdy * ws) <= (UNIT as int)
            * 1002000) by (nonlinear_arith)
            requires
                int_abs(wdx as int) <= 1002 && int_abs(wdy as int) <= 1002 && 0 <= ws
                    <= 1000000i64 && UNIT == 1000i64,
        ;
        crate::math::lemma_div_t_bound(wdx * ws, UNIT as int, 1002000);
        crate::math::lemma_div_t_bound(wdy * ws, UNIT as int, 1002000);
    }
    let mut off_x = crate::math::div_q(wdx * ws, UNIT);
    let mut off_y = crate::math::div_q(wdy * ws, UNIT);
    proof {
        assert((Vec2I { x: off_x, y: off_y }) == crate::rules::spec_strong_wind(*config));
    }
    let ghost off0 = (off_x as int, off_y as int);
    let nw = winds.len();
    let mut wi: usize = 0;
    while wi < nw
        invariant
            wi <= nw,
            nw == winds@.len() <= MAX_WINDS,
            forall|i: int| 0 <= i < winds@.len() ==> (#[trigger] winds@[i]).wf(),
            position.spec_in_box(POS_LIMIT as int),
            ({
                let o = spec_wind_offset(winds@.take(wi as int), off0, position);
                off_x == o.0 && off_y == o.1
            }),
            int_abs(off_x as int) <= 1002000 + wi * 1000000,
            int_abs(off_y as int) <= 1002000 + wi * 1000000,
        decreases nw - wi,
    {
        let w = &winds[wi];
        proof {
            assert(winds@.take(wi + 1).drop_last() =~= winds@.take(wi as int));
            assert(winds@.take(wi + 1).last() == winds@[wi as int]);
        }
        match w.closest(position) {
            Some((ti, _d, _pt)) => {
                let tangent = w.velocity_at(ti);
                let u = tangent.scaled_to(UNIT);
                proof {
                    assert(int_abs(u.x * w.wind_speed) <= (UNIT as int) * 1000000 && int_abs(
                        u.y * w.wind_speed,
                    ) <= (UNIT as int) * 1000000) by (nonlinear_arith)
                        requires
                            int_abs(u.x as int) <= 1000 && int_abs(u.y as int) <= 1000 && 0
                                <= w.wind_speed <= 1000000i64 && UNIT == 1000i64,
                    ;
                    crate::math::lemma_div_t_bound(u.x * w.wind_speed, UNIT as int, 1000000);
                    crate::math::lemma_div_t_bound(u.y * w.wind_speed, UNIT as int, 1000000);
                }
                off_x = off_x + crate::math::div_q(u.x * w.wind_speed, UNIT);
                off_y = off_y + crate::math::div_q(u.y * w.wind_speed, UNIT);
            },
            None => {},
        }
        wi = wi + 1;
    }
    proof {
        assert(winds@.take(nw as int) =~= winds@);
    }
    Vec2I { x: off_x, y: off_y }
}

/// Running state of a predator's pass over its visible cells: the
/// nearest prey found so far and the separation push from other
/// predators.
pub struct HuntState {
    pub found: bool,
    pub cx: int,
    pub cy: int,
    pub push_x: int,
    pub push_y: int,
}

/// Hunt state before any snapshot has been seen.
pub open spec fn spec_hunt_start() -> HuntState {
    HuntState { found: false, cx: 0, cy: 0, push_x: 0, push_y: 0 }
}

/// What one snapshot adds to a predator's hunt: a prey strictly closer
/// than both the view radius and the best prey so far becomes the new
/// target; another predator too close adds a separation push.
pub open spec fn spec_pred_see(
    st: HuntState,
    a: Agent,
    b: SpatialGridBoid,
    config: BoidConfiguration,
) -> HuntState {
    if b.id == a.id {
        st
    } else {
        let dx = b.position.x - a.position.x;
        let dy = b.position.y - a.position.y;
        let d_sq = dx * dx + dy * dy;
        let d = crate::math::sqrt_floor(d_sq);
        let view = config.view_radius.value as int;
        if b.kind != AgentKind::Predator {
            let best = crate::math::sqrt_floor(
                (st.cx - a.position.x) * (st.cx - a.position.x) + (st.cy - a.position.y) * (st.cy
                    - a.position.y),
            );
            let limit = if st.found && best < view {
                best
            } else {
                view
            };
            if d < limit {
                HuntState { found: true, cx: b.position.x as int, cy: b.position.y as int, ..st }
            } else {
                st
            }
        } else {
            let avoid = config.avoidance_radius.value as int;
            if d_sq < avoid * avoid {
                let t = spec_avoid_term(
                    a.position,
                    a.boid.velocity,
                    b.position,
                    config.separation_weight.value as int,
                    avoid * avoid,
                );
                HuntState { push_x: st.push_x + t.x, push_y: st.push_y + t.y, ..st }
            } else {
                st
            }
        }
    }
}

/// A predator's hunt folded over one cell's snapshots.
pub open spec fn spec_pred_see_cell(
    boids: Seq<SpatialGridBoid>,
    st: HuntState,
    a: Agent,
    config: BoidConfiguration,
) -> HuntState
    decreases boids.len(),
{
    if boids.len() == 0 {
        st
    } else {
        spec_pred_see(spec_pred_see_cell(boids.drop_last(), st, a, config), a, boids.last(), config)
    }
}

/// A predator's hunt folded over the queried cells, in query order.
pub open spec fn spec_pred_perceive(
    idxs: Seq<usize>,
    g: SpatialGrid,
    st: HuntState,
    a: Agent,
    config: BoidConfiguration,
) -> HuntState
    decreases idxs.len(),
{
    if idxs.len() == 0 {
        st
    } else {
        let st2 = spec_pred_perceive(idxs.drop_last(), g, st, a, config);
        spec_pred_see_cell(g.cells@[idxs.last() as int].boids@, st2, a, config)
    }
}

/// The steering a predator computes for one tick: separation from other
/// predators, force fields, the pull toward the nearest prey (or
/// momentum, when none is in view), and the wind drift.
pub open spec fn spec_predator_steering(
    a: Agent,
    g: SpatialGrid,
    winds: Seq<WindCurrent>,
    fields: Seq<(Vec2I, ForceField)>,
    config: BoidConfiguration,
    sim: SimulationConfiguration,
) -> (Vec2I, Vec2I) {
    let speed = a.boid.velocity.spec_norm();
    let view = config.view_radius.value as int;
    let st = spec_pred_perceive(
        g.spec_radius_indices(a.position, view),
        g,
        spec_hunt_start(),
        a,
        config,
    );
    let push = spec_push_fields(fields, (st.push_x, st.push_y), a, speed);
    let hw = sim.predator_hunt_weight as int;
    let hunt = if st.found {
        let dx = st.cx - a.position.x;
        let dy = st.cy - a.position.y;
        let dir = if dx == 0 && dy == 0 {
            a.boid.velocity
        } else {
            (Vec2I { x: dx as i64, y: dy as i64 }).spec_scaled_to(UNIT as int)
        };
        (
            crate::math::div_t(hw * dir.x * speed, (UNIT as int) * (UNIT as int)),
            crate::math::div_t(hw * dir.y * speed, (UNIT as int) * (UNIT as int)),
        )
    } else {
        (
            crate::math::div_t(hw * a.boid.velocity.x, UNIT as int),
            crate::math::div_t(hw * a.boid.velocity.y, UNIT as int),
        )
    };
    let v = (push.0 + hunt.0, push.1 + hunt.1);
    let off0 = crate::rules::spec_strong_wind(config);
    let off = spec_wind_offset(winds, (off0.x as int, off0.y as int), a.position);
    (Vec2I { x: v.0 as i64, y: v.1 as i64 }, Vec2I { x: off.0 as i64, y: off.1 as i64 })
}

/// The machine form of a [`HuntState`] under construction.
pub struct HuntExec {
    pub found: bool,
    pub cx: i64,
    pub cy: i64,
    pub push_x: i64,
    pub push_y: i64,
}

impl HuntExec {
    /// The mathematical hunt state this denotes.
    pub open spec fn as_spec(self) -> HuntState {
        HuntState {
            found: self.found,
            cx: self.cx as int,
            cy: self.cy as int,
            push_x: self.push_x as int,
            push_y: self.push_y as int,
        }
    }

    /// The accumulators stay bounded, and a found target lies in the
    /// world.
    pub open spec fn inv(self, seen: int) -> bool {
        &&& int_abs(self.push_x as int) <= seen * (STEER_TERM_LIMIT as int)
        &&& int_abs(self.push_y as int) <= seen * (STEER_TERM_LIMIT as int)
        &&& self.found ==> (Vec2I { x: self.cx, y: self.cy }).spec_in_box(POS_LIMIT as int)
    }
}

/// Folds one cell's snapshots into a predator's hunt.
fn see_cell_pred(
    st: HuntExec,
    cell: &SpatialGridCell,
    a: &Agent,
    config: &BoidConfiguration,
    seen: Ghost<int>,
) -> (r: HuntExec)
    requires
        cell.boids@.len() <= POPULATION_LIMIT,
        forall|i: int|
            0 <= i < cell.boids@.len() ==> crate::rules::spec_snap_wf(#[trigger] cell.boids@[i]),
        config.wf(),
        a.position.spec_in_box(POS_LIMIT as int),
        a.boid.wf(),
        0 <= seen@,
        seen@ + cell.boids@.len() <= POPULATION_LIMIT,
        st.inv(seen@),
    ensures
        r.as_spec() == spec_pred_see_cell(cell.boids@, st.as_spec(), *a, *config),
        r.inv(seen@ + cell.boids@.len()),
{
    let view = config.scalar_parametre(crate::config::Parametre::ViewRadius);
    let avoid = config.scalar_parametre(crate::config::Parametre::AvoidanceRadius);
    let sep_w = config.scalar_parametre(crate::config::Parametre::SeparationWeight);
    proof {
        assert(0 <= avoid * avoid <= 40000000000) by (nonlinear_arith)
            requires
                0 <= avoid <= 200000i64,
        ;
    }
    let avoid_sq = avoid * avoid;
    let clamp_m = crate::math::div_q(avoid_sq, UNIT);
    proof {
        crate::math::lemma_div_t_bound(avoid_sq as int, UNIT as int, 40000000);
        crate::math::lemma_div_t_sign(avoid_sq as int, UNIT as int);
    }
    let m_len = cell.boids.len();
    let mut cur = st;
    let mut m: usize = 0;
    while m < m_len
        invariant
            m <= m_len,
            m_len == cell.boids@.len() <= POPULATION_LIMIT,
            forall|i: int|
                0 <= i < cell.boids@.len() ==> crate::rules::spec_snap_wf(
                    #[trigger] cell.boids@[i],
                ),
            config.wf(),
            a.position.spec_in_box(POS_LIMIT as int),
            a.boid.wf(),
            0 <= seen@,
            seen@ + m_len <= POPULATION_LIMIT,
            view == config.view_radius.value && avoid == config.avoidance_radius.value,
            sep_w == config.separation_weight.value,
            avoid_sq == avoid * avoid,
            0 <= avoid_sq <= 40000000000,
            clamp_m == crate::math::div_t(avoid_sq as int, UNIT as int),
            0 <= clamp_m <= 40000000,
            cur.as_spec() == spec_pred_see_cell(
                cell.boids@.take(m as int),
                st.as_spec(),
                *a,
                *config,
            ),
            cur.inv(seen@ + m),
        decreases m_len - m,
    {
        let b = cell.boids[m];
        proof {
            assert(cell.boids@.take(m + 1).drop_last() =~= cell.boids@.take(m as int));
            assert(cell.boids@.take(m + 1).last() == cell.boids@[m as int]);
        }
        if b.id != a.id {
            let diff = b.position.minus(a.position);
            let d_sq = b.position.dist_sq(a.position);
            proof {
                assert((Vec2I { x: diff.x, y: diff.y }).spec_norm_sq() == d_sq);
                assert(d_sq == (b.position.x - a.position.x) * (b.position.x - a.position.x) + (
                b.position.y - a.position.y) * (b.position.y - a.position.y));
                assert(d_sq <= 1024000000000000) by (nonlinear_arith)
                    requires
                        d_sq == diff.x * diff.x + diff.y * diff.y && int_abs(diff.x as int) <= 2
                            * POS_LIMIT as int && int_abs(diff.y as int) <= 2 * POS_LIMIT as int
                            && POS_LIMIT == 8000000i64,
                ;
            }
            let du = crate::math::isqrt(d_sq as u64);
            proof {
                assert(du <= 32000000u64) by (nonlinear_arith)
                    requires
                        du * du <= 1024000000000000u64,
                ;
            }
            let d = du as i64;
            proof {
                assert(d == crate::math::sqrt_floor(d_sq as int)) by {
                    crate::math::lemma_sqrt_floor_unique(d as int, d_sq as int);
                }
            }
            if !matches!(b.kind, AgentKind::Predator) {
                let limit: i64 = if cur.found {
                    let best_sq = (Vec2I { x: cur.cx, y: cur.cy }).dist_sq(a.position);
                    proof {
                        assert(best_sq <= 1024000000000000) by (nonlinear_arith)
                            requires
                                best_sq == (cur.cx - a.position.x) * (cur.cx - a.position.x) + (
                                cur.cy - a.position.y) * (cur.cy - a.position.y) && int_abs(
                                    cur.cx - a.position.x,
                                ) <= 2 * POS_LIMIT as int && int_abs(cur.cy - a.position.y) <= 2
                                    * POS_LIMIT as int && POS_LIMIT == 8000000i64,
                        ;
                    }
                    let bu = crate::math::isqrt(best_sq as u64);
                    proof {
                        assert(bu <= 32000000u64) by (nonlinear_arith)
                            requires
                                bu * bu <= 1024000000000000u64,
                        ;
                        crate::math::lemma_sqrt_floor_unique(bu as int, best_sq as int);
                    }
                    let best = bu as i64;
                    if best < view {
                        best
                    } else {
                        view
                    }
                } else {
                    view
                };
                if d < limit {
                    cur = HuntExec { found: true, cx: b.position.x, cy: b.position.y, ..cur };
                }
            } else {
                if d_sq < avoid_sq {
                    let dir: Vec2I = if d_sq < crate::rules::DIST_GUARD {
                        a.boid.velocity()
                    } else {
                        diff.scaled_to(UNIT)
                    };
                    let denom: i64 = if d_sq < crate::rules::DIST_GUARD {
                        crate::rules::PIXEL_SQ
                    } else {
                        d_sq
                    };
                    proof {
                        assert(int_abs(dir.x as int) <= 500000 && int_abs(dir.y as int) <= 500000);
                        assert(0 <= (sep_w as i128) * (avoid_sq as i128)
                            <= 200000000000000i128 && (sep_w as i128) * (avoid_sq as i128) == (
                        sep_w as int) * (avoid_sq as int)) by (nonlinear_arith)
                            requires
                                0 <= sep_w <= 5000i64 && 0 <= avoid_sq <= 40000000000i64,
                        ;
                        assert((sep_w as i128) * (avoid_sq as i128) * (dir.x as i128) == (
                        sep_w as int) * (avoid_sq as int) * (dir.x as int) && (sep_w as i128) * (
                        avoid_sq as i128) * (dir.y as i128) == (sep_w as int) * (avoid_sq as int)
                            * (dir.y as int) && int_abs(
                            (sep_w as int) * (avoid_sq as int) * (dir.x as int),
                        ) <= 100000000000000000000 && int_abs(
                            (sep_w as int) * (avoid_sq as int) * (dir.y as int),
                        ) <= 100000000000000000000) by (nonlinear_arith)
                            requires
                                0 <= (sep_w as i128) * (avoid_sq as i128) <= 200000000000000i128
                                    && (sep_w as i128) * (avoid_sq as i128) == (sep_w as int) * (
                                avoid_sq as int) && int_abs(dir.x as int) <= 500000 && int_abs(
                                    dir.y as int,
                                ) <= 500000,
                        ;
                        assert((UNIT as i128) * (denom as i128) == (UNIT as int) * (denom as int)
                            && 0 < (UNIT as int) * (denom as int)) by (nonlinear_arith)
                            requires
                                0 < denom <= 40000000000i64 && UNIT == 1000i64,
                        ;
                        if d_sq < crate::rules::DIST_GUARD {
                            assert(int_abs((sep_w as int) * (avoid_sq as int) * (dir.x as int))
                                <= ((UNIT as int) * (denom as int)) * 100000000000 && int_abs(
                                (sep_w as int) * (avoid_sq as int) * (dir.y as int),
                            ) <= ((UNIT as int) * (denom as int)) * 100000000000)
                                by (nonlinear_arith)
                                requires
                                    int_abs((sep_w as int) * (avoid_sq as int) * (dir.x as int))
                                        <= 100000000000000000000 && int_abs(
                                        (sep_w as int) * (avoid_sq as int) * (dir.y as int),
                                    ) <= 100000000000000000000 && denom == 1000000i64 && UNIT
                                        == 1000i64,
                            ;
                        } else {
                            assert(int_abs((sep_w as int) * (avoid_sq as int) * (dir.x as int))
                                <= ((UNIT as int) * (denom as int)) * 100000000000 && int_abs(
                                (sep_w as int) * (avoid_sq as int) * (dir.y as int),
                            ) <= ((UNIT as int) * (denom as int)) * 100000000000)
                                by (nonlinear_arith)
                                requires
                                    0 <= (sep_w as int) * (avoid_sq as int) <= 200000000000000
                                        && int_abs(dir.x as int) <= 1000 && int_abs(dir.y as int)
                                        <= 1000 && denom >= 100000i64 && UNIT == 1000i64,
                            ;
                        }
                        crate::math::lemma_div_t_bound(
                            (sep_w as int) * (avoid_sq as int) * (dir.x as int),
                            (UNIT as int) * (denom as int),
                            100000000000,
                        );
                        crate::math::lemma_div_t_bound(
                            (sep_w as int) * (avoid_sq as int) * (dir.y as int),
                            (UNIT as int) * (denom as int),
                            100000000000,
                        );
                    }
                    let num_x: i128 = (sep_w as i128) * (avoid_sq as i128) * (dir.x as i128);
                    let num_y: i128 = (sep_w as i128) * (avoid_sq as i128) * (dir.y as i128);
                    let den: i128 = (UNIT as i128) * (denom as i128);
                    let tx = crate::math::div_q_wide(num_x, den) as i64;
                    let ty = crate::math::div_q_wide(num_y, den) as i64;
                    let clamped = (Vec2I { x: tx, y: ty }).clamp_norm_max(clamp_m);
                    proof {
                        assert(int_abs((cur.push_x + (-clamped.x)) as int) <= (seen@ + m + 1) * (
                        STEER_TERM_LIMIT as int) && int_abs((cur.push_y + (-clamped.y)) as int) <= (
                        seen@ + m + 1) * (STEER_TERM_LIMIT as int)) by (nonlinear_arith)
                            requires
                                int_abs(cur.push_x as int) <= (seen@ + m) * (
                                STEER_TERM_LIMIT as int) && int_abs(cur.push_y as int) <= (seen@
                                    + m) * (STEER_TERM_LIMIT as int) && int_abs(clamped.x as int)
                                    <= 40000000 && int_abs(clamped.y as int) <= 40000000
                                    && STEER_TERM_LIMIT == 40000000i64,
                        ;
                    }
                    cur = HuntExec {
                        push_x: cur.push_x + (-clamped.x),
                        push_y: cur.push_y + (-clamped.y),
                        ..cur
                    };
                }
            }
        }
        proof {
            assert((seen@ + m) * (STEER_TERM_LIMIT as int) <= (seen@ + m + 1) * (
            STEER_TERM_LIMIT as int)) by (nonlinear_arith)
                requires
                    0 <= seen@ + m && STEER_TERM_LIMIT == 40000000i64,
            ;
        }
        m = m + 1;
    }
    proof {
        assert(cell.boids@.take(m_len as int) =~= cell.boids@);
    }
    cur
}

/// Steers one predator for a tick: avoid other predators, honour force
/// fields, chase the nearest prey in view (or keep momentum), and
/// collect the wind drift.
#[verifier::rlimit(100)]
pub fn steer_predator(
    a: &Agent,
    grid: &SpatialGrid,
    winds: &Vec<WindCurrent>,
    fields: &Vec<(Vec2I, ForceField)>,
    config: &BoidConfiguration,
    sim_config: &SimulationConfiguration,
) -> (r: (Vec2I, Vec2I))
    requires
        grid.wf(),
        spec_grid_contents_ok(*grid),
        a.ok_for(*grid),
        config.wf(),
        sim_config.wf(),
        winds@.len() <= MAX_WINDS,
        forall|i: int| 0 <= i < winds@.len() ==> (#[trigger] winds@[i]).wf(),
        fields@.len() <= MAX_FIELDS,
        forall|i: int|
            0 <= i < fields@.len() ==> (#[trigger] fields@[i]).1.wf() && fields@[i].0.spec_in_box(
                POS_LIMIT as int,
            ),
    ensures
        ({
            let s = spec_predator_steering(*a, *grid, winds@, fields@, *config, *sim_config);
            r.0 == s.0 && r.1 == s.1
        }),
        r.0.spec_in_box(1500000000000),
        r.1.spec_in_box(10000000),
{
    proof {
        lemma_in_range_in_box(*grid, a.position);
        assert(a.boid.velocity.spec_norm_sq() <= 2 * (SPEED_RANGE_HI as int) * (
        SPEED_RANGE_HI as int)) by (nonlinear_arith)
            requires
                int_abs(a.boid.velocity.x as int) <= SPEED_RANGE_HI as int && int_abs(
                    a.boid.velocity.y as int,
                ) <= SPEED_RANGE_HI as int,
        ;
    }
    let speed = a.boid.speed();
    proof {
        assert(speed <= SPEED_NORM_LIMIT) by (nonlinear_arith)
            requires
                crate::math::is_sqrt_floor(speed as int, a.boid.velocity.spec_norm_sq())
                    && a.boid.velocity.spec_norm_sq() <= 2 * (SPEED_RANGE_HI as int) * (
                SPEED_RANGE_HI as int) && SPEED_RANGE_HI == 500000i64 && SPEED_NORM_LIMIT
                    == 710000i64,
        ;
    }
    let view = config.scalar_parametre(crate::config::Parametre::ViewRadius);
    let idxs = grid.iter_radius(a.position, view);
    let ghost gidxs = idxs@;
    proof {
        crate::grid::lemma_radius_indices_increasing(*grid, a.position, view as int);
    }
    let nidx = idxs.len();
    let mut st = HuntExec { found: false, cx: 0, cy: 0, push_x: 0, push_y: 0 };
    let ghost seen: int = 0;
    let mut k: usize = 0;
    while k < nidx
        invariant
            k <= nidx,
            nidx == gidxs.len(),
            gidxs == idxs@,
            gidxs == grid.spec_radius_indices(a.position, view as int),
            grid.spec_radius_indices_ok(a.position, view as int, gidxs),
            forall|k1: int, k2: int| 0 <= k1 < k2 < gidxs.len() ==> gidxs[k1] < gidxs[k2],
            grid.wf(),
            spec_grid_contents_ok(*grid),
            config.wf(),
            a.boid.wf(),
            a.position.spec_in_box(POS_LIMIT as int),
            view == config.view_radius.value,
            st.as_spec() == spec_pred_perceive(
                gidxs.take(k as int),
                *grid,
                spec_hunt_start(),
                *a,
                *config,
            ),
            seen == crate::grid::spec_sum_boids_at(grid.cells@, gidxs.take(k as int)),
            0 <= seen <= POPULATION_LIMIT,
            st.inv(seen),
        decreases nidx - k,
    {
        proof {
            assert(gidxs[k as int] < grid.cells@.len());
        }
        let ci = idxs[k];
        let cell = grid.at_index(ci);
        proof {
            assert(*cell == grid.cells@[gidxs[k as int] as int]);
            assert(gidxs.take(k + 1).drop_last() =~= gidxs.take(k as int));
            assert(gidxs.take(k + 1).last() == gidxs[k as int]);
            crate::grid::lemma_increasing_sum_boids(
                grid.cells@,
                gidxs.take(k + 1),
                grid.cells@.len() as int,
            );
            assert(grid.cells@.take(grid.cells@.len() as int) =~= grid.cells@);
            assert(crate::grid::spec_sum_boids_at(grid.cells@, gidxs.take(k + 1)) == seen
                + cell.boids@.len());
        }
        st = see_cell_pred(st, cell, a, config, Ghost(seen));
        proof {
            seen = seen + cell.boids@.len();
        }
        k = k + 1;
    }
    proof {
        assert(gidxs.take(nidx as int) =~= gidxs);
        assert(int_abs(st.push_x as int) <= 400000000000 && int_abs(st.push_y as int)
            <= 400000000000) by (nonlinear_arith)
            requires
                st.inv(seen) && 0 <= seen <= POPULATION_LIMIT as int && STEER_TERM_LIMIT
                    == 40000000i64 && POPULATION_LIMIT == 10000usize,
        ;
    }
    // Force fields
    let mut push_x = st.push_x;
    let mut push_y = st.push_y;
    let nf = fields.len();
    let mut fi: usize = 0;
    while fi < nf
        invariant
            fi <= nf,
            nf == fields@.len() <= MAX_FIELDS,
            forall|i: int|
                0 <= i < fields@.len() ==> (#[trigger] fields@[i]).1.wf()
                    && fields@[i].0.spec_in_box(POS_LIMIT as int),
            config.wf(),
            a.boid.wf(),
            a.position.spec_in_box(POS_LIMIT as int),
            speed == a.boid.velocity.spec_norm(),
            0 <= speed <= SPEED_NORM_LIMIT,
            ({
                let p = spec_push_fields(
                    fields@.take(fi as int),
                    (st.push_x as int, st.push_y as int),
                    *a,
                    speed as int,
                );
                push_x == p.0 && push_y == p.1
            }),
            int_abs(push_x as int) <= 400000000000 + fi * (SPEED_NORM_LIMIT as int),
            int_abs(push_y as int) <= 400000000000 + fi * (SPEED_NORM_LIMIT as int),
        decreases nf - fi,
    {
        let (fpos, field) = fields[fi];
        let p = crate::force::force_field_push(a.position, a.boid.velocity(), speed, &field, fpos);
        proof {
            assert(fields@.take(fi + 1).drop_last() =~= fields@.take(fi as int));
            assert(fields@.take(fi + 1).last() == fields@[fi as int]);
        }
        push_x = push_x + p.x;
        push_y = push_y + p.y;
        fi = fi + 1;
    }
    proof {
        assert(fields@.take(nf as int) =~= fields@);
    }
    // Hunt
    let hw = sim_config.predator_hunt_weight;
    let (tx, ty): (i64, i64) = if st.found {
        let target = Vec2I { x: st.cx, y: st.cy };
        let diff = target.minus(a.position);
        let dir: Vec2I = if diff.x == 0 && diff.y == 0 {
            a.boid.velocity()
        } else {
            diff.scaled_to(UNIT)
        };
        proof {
            assert(int_abs(dir.x as int) <= 500000 && int_abs(dir.y as int) <= 500000);
            assert(int_abs(hw * dir.x) <= 500000000 && int_abs(hw * dir.y) <= 500000000)
                by (nonlinear_arith)
                requires
                    0 <= hw <= 1000i64 && int_abs(dir.x as int) <= 500000 && int_abs(dir.y as int)
                        <= 500000,
            ;
            assert(int_abs(hw * dir.x * speed) <= 500000000 * (speed as int) && int_abs(
                hw * dir.y * speed,
            ) <= 500000000 * (speed as int) && 500000000 * (speed as int) <= 355000000000000
                && ((UNIT as int) * (UNIT as int)) * 355000000 >= 500000000 * (speed as int))
                by (nonlinear_arith)
                requires
                    int_abs(hw * dir.x) <= 500000000 && int_abs(hw * dir.y) <= 500000000 && 0
                        <= speed <= SPEED_NORM_LIMIT && SPEED_NORM_LIMIT == 710000i64 && UNIT
                        == 1000i64,
            ;
            crate::math::lemma_div_t_bound(
                hw * dir.x * speed,
                (UNIT as int) * (UNIT as int),
                355000000,
            );
            crate::math::lemma_div_t_bound(
                hw * dir.y * speed,
                (UNIT as int) * (UNIT as int),
                355000000,
            );
        }
        (
            crate::math::div_q(hw * dir.x * speed, UNIT * UNIT),
            crate::math::div_q(hw * dir.y * speed, UNIT * UNIT),
        )
    } else {
        proof {
            assert(int_abs(hw * a.boid.velocity.x) <= 500000000 && int_abs(hw * a.boid.velocity.y)
                <= 500000000) by (nonlinear_arith)
                requires
                    0 <= hw <= 1000i64 && int_abs(a.boid.velocity.x as int) <= 500000 && int_abs(
                        a.boid.velocity.y as int,
                    ) <= 500000,
            ;
            crate::math::lemma_div_t_bound(hw * a.boid.velocity.x, UNIT as int, 500000000);
            crate::math::lemma_div_t_bound(hw * a.boid.velocity.y, UNIT as int, 500000000);
        }
        (
            crate::math::div_q(hw * a.boid.velocity.x, UNIT),
            crate::math::div_q(hw * a.boid.velocity.y, UNIT),
        )
    };
    let vx = push_x + tx;
    let vy = push_y + ty;
    let off = wind_drift(winds, a.position, config);
    (Vec2I { x: vx, y: vy }, off)
}

/// Where one agent stands after integrating a tick: the steering change
/// is added to the velocity and clamped into the speed band, then the
/// position advances by one tick's worth of the clamped velocity plus the
/// drift offset (the drift moves the agent without turning it).
pub open spec fn spec_integrate(
    a: Agent,
    dv: Vec2I,
    off: Vec2I,
    config: BoidConfiguration,
    hz: int,
) -> Agent {
    let v2 = crate::boid::spec_set_velocity(
        Vec2I { x: (a.boid.velocity.x + dv.x) as i64, y: (a.boid.velocity.y + dv.y) as i64 },
        config.min_speed,
        config.max_speed,
    );
    let mx = crate::math::div_t(v2.x + off.x, hz);
    let my = crate::math::div_t(v2.y + off.y, hz);
    Agent {
        position: Vec2I { x: (a.position.x + mx) as i64, y: (a.position.y + my) as i64 },
        boid: Boid { velocity: v2 },
        ..a
    }
}

/// Applies one tick's steering to one agent.
fn integrate(a: &Agent, dv: Vec2I, off: Vec2I, config: &BoidConfiguration, tick_hz: i64) -> (r:
    Agent)
    requires
        config.wf(),
        a.boid.wf(),
        a.position.spec_in_box(POS_LIMIT as int),
        dv.spec_in_box(1500000000000),
        off.spec_in_box(10000000),
        1 <= tick_hz <= 1000,
    ensures
        r == spec_integrate(*a, dv, off, *config, tick_hz as int),
        r.position.spec_in_box(4 * POS_LIMIT as int),
        r.boid.wf(),
        config.min_speed - 2 <= r.boid.velocity.spec_norm() <= config.max_speed,
        r.id == a.id && r.kind == a.kind && r.follow_boids == a.follow_boids,
{
    let mut b = a.boid;
    b.add_velocity(dv, config);
    let mx = crate::math::div_q(b.velocity.x + off.x, tick_hz);
    let my = crate::math::div_q(b.velocity.y + off.y, tick_hz);
    Agent {
        position: Vec2I { x: a.position.x + mx, y: a.position.y + my },
        boid: b,
        id: a.id,
        kind: a.kind,
        follow_boids: a.follow_boids,
    }
}

/// Steers and integrates every agent against the already rebuilt grid
/// snapshot: prey agents flock, flee and drift; predators avoid each
/// other, hunt the nearest prey and drift. Each agent reads only the
/// snapshot and writes only its own state, so the store order does not
/// matter.
pub fn update_boids(
    agents: &mut Vec<Agent>,
    winds: &Vec<WindCurrent>,
    fields: &Vec<(Vec2I, ForceField)>,
    config: &BoidConfiguration,
    sim_config: &SimulationConfiguration,
    grid: &SpatialGrid,
    tick_hz: i64,
)
    requires
        grid.wf(),
        spec_grid_contents_ok(*grid),
        config.wf(),
        sim_config.wf(),
        winds@.len() <= MAX_WINDS,
        forall|i: int| 0 <= i < winds@.len() ==> (#[trigger] winds@[i]).wf(),
        fields@.len() <= MAX_FIELDS,
        forall|i: int|
            0 <= i < fields@.len() ==> (#[trigger] fields@[i]).1.wf() && fields@[i].0.spec_in_box(
                POS_LIMIT as int,
            ),
        1 <= tick_hz <= 1000,
        forall|i: int| 0 <= i < old(agents)@.len() ==> (#[trigger] old(agents)@[i]).ok_for(*grid),
    ensures
        final(agents)@.len() == old(agents)@.len(),
        forall|j: int|
            0 <= j < old(agents)@.len() ==> #[trigger] final(agents)@[j] == {
                let a0 = old(agents)@[j];
                let s = if a0.kind == AgentKind::Predator {
                    spec_predator_steering(a0, *grid, winds@, fields@, *config, *sim_config)
                } else {
                    spec_prey_steering(a0, *grid, winds@, fields@, *config)
                };
                spec_integrate(a0, s.0, s.1, *config, tick_hz as int)
            },
        forall|j: int|
            0 <= j < final(agents)@.len() ==> ((#[trigger] final(agents)@[j]).position.spec_in_box(
                4 * POS_LIMIT as int,
            ) && final(agents)@[j].boid.wf()),
        ({
            let fa = final(agents)@;
            forall|j: int|
                0 <= j < fa.len() ==> config.min_speed - 2 <= (#[trigger] fa[j]).boid.velocity.spec_norm()
                    <= config.max_speed
        }),
{
    let n = agents.len();
    let ghost orig = agents@;
    let mut j: usize = 0;
    while j < n
        invariant
            j <= n,
            n == agents@.len() == orig.len(),
            grid.wf(),
            spec_grid_contents_ok(*grid),
            config.wf(),
            sim_config.wf(),
            winds@.len() <= MAX_WINDS,
            forall|i: int| 0 <= i < winds@.len() ==> (#[trigger] winds@[i]).wf(),
            fields@.len() <= MAX_FIELDS,
            forall|i: int|
                0 <= i < fields@.len() ==> (#[trigger] fields@[i]).1.wf()
                    && fields@[i].0.spec_in_box(POS_LIMIT as int),
            1 <= tick_hz <= 1000,
            forall|i: int| 0 <= i < orig.len() ==> (#[trigger] orig[i]).ok_for(*grid),
            forall|i: int| j <= i < orig.len() ==> #[trigger] agents@[i] == orig[i],
            forall|i: int|
                0 <= i < j ==> #[trigger] agents@[i] == {
                    let a0 = orig[i];
                    let s = if a0.kind == AgentKind::Predator {
                        spec_predator_steering(a0, *grid, winds@, fields@, *config, *sim_config)
                    } else {
                        spec_prey_steering(a0, *grid, winds@, fields@, *config)
                    };
                    spec_integrate(a0, s.0, s.1, *config, tick_hz as int)
                },
            forall|i: int|
                0 <= i < j ==> ((#[trigger] agents@[i]).position.spec_in_box(4 * POS_LIMIT as int)
                    && agents@[i].boid.wf()),
            forall|i: int|
                0 <= i < j ==> config.min_speed - 2 <= (#[trigger] agents@[i]).boid.velocity.spec_norm()
                    <= config.max_speed,
        decreases n - j,
    {
        let a = agents[j];
        proof {
            lemma_in_range_in_box(*grid, a.position);
        }
        let (dv, off) = if matches!(a.kind, AgentKind::Predator) {
            steer_predator(&a, grid, winds, fields, config, sim_config)
        } else {
            steer_prey(&a, grid, winds, fields, config)
        };
        let updated = integrate(&a, dv, off, config, tick_hz);
        agents.set(j, updated);
        j = j + 1;
    }
}

/// Advances the simulation by one fixed tick: rebuild the grid from the
/// agent store, steer and integrate every agent against that snapshot,
/// and wrap positions at the boundary. The store it leaves behind
/// satisfies this function's own preconditions again, so the scheduler
/// may call it forever.
pub fn tick(
    grid: &mut SpatialGrid,
    agents: &mut Vec<Agent>,
    winds: &Vec<WindCurrent>,
    fields: &Vec<(Vec2I, ForceField)>,
    config: &BoidConfiguration,
    sim_config: &SimulationConfiguration,
    tick_hz: i64,
)
    requires
        old(grid).wf(),
        config.wf(),
        sim_config.wf(),
        winds@.len() <= MAX_WINDS,
        forall|i: int| 0 <= i < winds@.len() ==> (#[trigger] winds@[i]).wf(),
        fields@.len() <= MAX_FIELDS,
        forall|i: int|
            0 <= i < fields@.len() ==> (#[trigger] fields@[i]).1.wf() && fields@[i].0.spec_in_box(
                POS_LIMIT as int,
            ),
        1 <= tick_hz <= 1000,
        old(agents)@.len() <= POPULATION_LIMIT,
        forall|i: int|
            0 <= i < old(agents)@.len() ==> (#[trigger] old(agents)@[i]).ok_for(*old(grid)),
    ensures
        final(grid).wf(),
        final(grid).rows == old(grid).rows && final(grid).columns == old(grid).columns,
        final(grid).cell_size == old(grid).cell_size,
        forall|j: int|
            0 <= j < final(grid).cells@.len() ==> (#[trigger] final(grid).cells@[j]).boids@
                == spec_cell_contents(old(agents)@, *final(grid), j),
        final(agents)@.len() == old(agents)@.len(),
        forall|j: int|
            0 <= j < old(agents)@.len() ==> #[trigger] final(agents)@[j] == {
                let a0 = old(agents)@[j];
                let s = if a0.kind == AgentKind::Predator {
                    spec_predator_steering(a0, *final(grid), winds@, fields@, *config, *sim_config)
                } else {
                    spec_prey_steering(a0, *final(grid), winds@, fields@, *config)
                };
                spec_wrapped_agent(spec_integrate(a0, s.0, s.1, *config, tick_hz as int), *final(grid))
            },
        forall|i: int|
            0 <= i < final(agents)@.len() ==> (#[trigger] final(agents)@[i]).ok_for(*final(grid)),
        ({
            let fa = final(agents)@;
            forall|i: int|
                0 <= i < fa.len() ==> config.min_speed - 2 <= (#[trigger] fa[i]).boid.velocity.spec_norm()
                    <= config.max_speed
        }),
{
    update_spatial_grid(grid, agents);
    update_boids(agents, winds, fields, config, sim_config, grid, tick_hz);
    wrap_edges(agents, grid);
}

/// Installs every scalar parameter the steering rules read, with its
/// default value and valid range; the explicit schema makes each
/// installation succeed.
pub fn setup_boid_parametres(config: &mut BoidConfiguration)
    requires
        old(config).wf(),
    ensures
        final(config).wf(),
        final(config).avoidance_radius == (crate::config::ScalarParametre {
            value: 50000i64,
            lo: 1000i64,
            hi: 100000i64,
        }),
        final(config).view_radius == (crate::config::ScalarParametre {
            value: 100000i64,
            lo: 1000i64,
            hi: 200000i64,
        }),
        final(config).cohesion_weight == (crate::config::ScalarParametre {
            value: 250i64,
            lo: 0i64,
            hi: 1000i64,
        }),
        final(config).separation_weight == (crate::config::ScalarParametre {
            value: 1000i64,
            lo: 0i64,
            hi: 5000i64,
        }),
        final(config).alignment_weight == (crate::config::ScalarParametre {
            value: 125i64,
            lo: 0i64,
            hi: 1000i64,
        }),
        final(config).wind_direction_x == -500i64 && final(config).wind_direction_y == -866i64,
        final(config).wind_speed == (crate::config::ScalarParametre {
            value: 100000i64,
            lo: 0i64,
            hi: 1000000i64,
        }),
        final(config).flee_weight == (crate::config::ScalarParametre {
            value: 500i64,
            lo: 0i64,
            hi: 1000i64,
        }),
        final(config).min_speed == old(config).min_speed && final(config).max_speed == old(
            config,
        ).max_speed && final(config).scale == old(config).scale,
{
    let _ = config.add_scalar_parametre(crate::config::Parametre::AvoidanceRadius, 50000, 1000, 100000);
    let _ = config.add_scalar_parametre(crate::config::Parametre::ViewRadius, 100000, 1000, 200000);
    let _ = config.add_scalar_parametre(crate::config::Parametre::CohesionWeight, 250, 0, 1000);
    let _ = config.add_scalar_parametre(crate::config::Parametre::SeparationWeight, 1000, 0, 5000);
    let _ = config.add_scalar_parametre(crate::config::Parametre::AlignmentWeight, 125, 0, 1000);
    let _ = config.set_wind_direction(-500, -866);
    let _ = config.add_scalar_parametre(crate::config::Parametre::WindSpeed, 100000, 0, 1000000);
    let _ = config.add_scalar_parametre(crate::config::Parametre::FleeWeight, 500, 0, 1000);
}

/// Creates the starting population: the configured number of ordinary
/// agents at random positions and headings moving at the configured
/// average speed (up to the rounding of the integer grid), one
/// user-controlled agent at rest at the origin, the configured predators
/// at rest (they pick up speed on the first tick, as the speed clamp
/// raises them into the band), the standard wind current, and the three
/// standard force fields. Every agent starts inside the grid's rectangle.
pub fn setup_simulation(
    config: &BoidConfiguration,
    sim_config: &SimulationConfiguration,
    grid: &SpatialGrid,
) -> (r: (Vec<Agent>, Vec<WindCurrent>, Vec<(Vec2I, ForceField)>))
    requires
        config.wf(),
        sim_config.wf(),
        grid.wf(),
    ensures
        r.0@.len() == sim_config.normal_boids + 1 + sim_config.predators,
        forall|i: int| 0 <= i < r.0@.len() ==> (#[trigger] r.0@[i]).ok_for(*grid),
        forall|i: int| 0 <= i < r.0@.len() ==> (#[trigger] r.0@[i]).id == i,
        forall|i: int|
            0 <= i < sim_config.normal_boids ==> (#[trigger] r.0@[i]).kind == AgentKind::Normal,
        ({
            let avg = (config.min_speed + config.max_speed) / 2;
            forall|i: int|
                0 <= i < sim_config.normal_boids ==> avg - 2 <= (#[trigger] r.0@[i]).boid.velocity.spec_norm()
                    <= avg
        }),
        r.0@[sim_config.normal_boids as int].kind == AgentKind::UserControlled,
        r.0@[sim_config.normal_boids as int].position == (Vec2I { x: 0i64, y: 0i64 }),
        r.0@[sim_config.normal_boids as int].boid.velocity == (Vec2I { x: 0i64, y: 0i64 }),
        forall|i: int|
            sim_config.normal_boids + 1 <= i < r.0@.len() ==> ((#[trigger] r.0@[i]).kind
                == AgentKind::Predator && r.0@[i].boid.velocity == (Vec2I { x: 0i64, y: 0i64 })),
        r.1@.len() == 1,
        r.1@[0].wind_speed == 100000 && r.1@[0].radius == 100000 && r.1@[0].resolution == 100,
        r.1@[0].control_points@[0] == (Vec2I { x: -10000i64, y: -200000i64 }),
        r.1@[0].control_points@[1] == (Vec2I { x: 30000i64, y: 20000i64 }),
        r.1@[0].control_points@[2] == (Vec2I { x: 350000i64, y: 30000i64 }),
        r.1@[0].control_points@[3] == (Vec2I { x: 390000i64, y: 80000i64 }),
        r.1@[0].wf(),
        r.2@.len() == 3,
        r.2@[0] == ((Vec2I { x: -550000i64, y: 200000i64 }), ForceField { charge: 120000i64 }),
        r.2@[1] == ((Vec2I { x: -400000i64, y: 220000i64 }), ForceField { charge: 80000i64 }),
        r.2@[2] == ((Vec2I { x: 550000i64, y: -200000i64 }), ForceField { charge: -120000i64 }),
        forall|i: int|
            0 <= i < r.2@.len() ==> (#[trigger] r.2@[i]).1.wf() && r.2@[i].0.spec_in_box(
                POS_LIMIT as int,
            ),
{
    let size = grid.grid_size();
    let hx = size.x / 2;
    let hy = size.y / 2;
    let bx = hx - SAFE_MARGIN;
    let by = hy - SAFE_MARGIN;
    proof {
        assert(grid.spec_width() >= grid.cell_size && grid.spec_height() >= grid.cell_size)
            by (nonlinear_arith)
            requires
                1 <= grid.columns && 1 <= grid.rows && 0 < grid.cell_size && grid.spec_width()
                    == grid.columns * grid.cell_size && grid.spec_height() == grid.rows
                    * grid.cell_size,
        ;
        vstd::arithmetic::div_mod::lemma_fundamental_div_mod(grid.spec_width(), 2);
        vstd::arithmetic::div_mod::lemma_mod_bound(grid.spec_width(), 2);
        vstd::arithmetic::div_mod::lemma_fundamental_div_mod(grid.spec_height(), 2);
        vstd::arithmetic::div_mod::lemma_mod_bound(grid.spec_height(), 2);
        assert(bx >= 400 && by >= 400);
        assert(hx <= grid.spec_width() - hx && hy <= grid.spec_height() - hy);
    }
    let avg = config.average_speed();
    let mut agents: Vec<Agent> = Vec::new();
    let normal = sim_config.normal_boids as usize;
    let mut i: usize = 0;
    while i < normal
        invariant
            i <= normal,
            agents@.len() == i,
            grid.wf(),
            config.wf(),
            bx == grid.spec_half_w() - SAFE_MARGIN && by == grid.spec_half_h() - SAFE_MARGIN,
            bx >= 400 && by >= 400,
            bx <= grid.spec_half_w() && by <= grid.spec_half_h(),
            grid.spec_half_w() <= grid.spec_width() - grid.spec_half_w(),
            grid.spec_half_h() <= grid.spec_height() - grid.spec_half_h(),
            avg == (config.min_speed + config.max_speed) / 2,
            0 <= avg <= SPEED_RANGE_HI,
            forall|k: int| 0 <= k < agents@.len() ==> (#[trigger] agents@[k]).ok_for(*grid),
            forall|k: int| 0 <= k < agents@.len() ==> (#[trigger] agents@[k]).id == k,
            forall|k: int|
                0 <= k < agents@.len() ==> (#[trigger] agents@[k]).kind == AgentKind::Normal,
            forall|k: int|
                0 <= k < agents@.len() ==> avg - 2 <= (#[trigger] agents@[k]).boid.velocity.spec_norm()
                    <= avg,
        decreases normal - i,
    {
        let px = crate::rng::random_in_range(-bx, bx);
        let py = crate::rng::random_in_range(-by, by);
        let velocity = random_velocity(avg);
        agents.push(
            Agent {
                id: i as u64,
                kind: AgentKind::Normal,
                follow_boids: true,
                position: Vec2I { x: px, y: py },
                boid: Boid { velocity },
            },
        );
        i = i + 1;
    }
    agents.push(
        Agent {
            id: normal as u64,
            kind: AgentKind::UserControlled,
            follow_boids: true,
            position: Vec2I { x: 0, y: 0 },
            boid: Boid { velocity: Vec2I { x: 0, y: 0 } },
        },
    );
    let predators = sim_config.predators as usize;
    let mut p: usize = 0;
    while p < predators
        invariant
            p <= predators,
            normal + 1 + predators <= POPULATION_LIMIT,
            agents@.len() == normal + 1 + p,
            grid.wf(),
            config.wf(),
            bx == grid.spec_half_w() - SAFE_MARGIN && by == grid.spec_half_h() - SAFE_MARGIN,
            bx >= 400 && by >= 400,
            bx <= grid.spec_half_w() && by <= grid.spec_half_h(),
            grid.spec_half_w() <= grid.spec_width() - grid.spec_half_w(),
            grid.spec_half_h() <= grid.spec_height() - grid.spec_half_h(),
            avg == (config.min_speed + config.max_speed) / 2,
            0 <= avg <= SPEED_RANGE_HI,
            forall|k: int| 0 <= k < agents@.len() ==> (#[trigger] agents@[k]).ok_for(*grid),
            forall|k: int| 0 <= k < agents@.len() ==> (#[trigger] agents@[k]).id == k,
            forall|k: int|
                0 <= k < normal ==> (#[trigger] agents@[k]).kind == AgentKind::Normal,
            forall|k: int|
                0 <= k < normal ==> avg - 2 <= (#[trigger] agents@[k]).boid.velocity.spec_norm()
                    <= avg,
            agents@[normal as int].kind == AgentKind::UserControlled,
            agents@[normal as int].position == (Vec2I { x: 0i64, y: 0i64 }),
            agents@[normal as int].boid.velocity == (Vec2I { x: 0i64, y: 0i64 }),
            forall|k: int|
                normal + 1 <= k < agents@.len() ==> ((#[trigger] agents@[k]).kind
                    == AgentKind::Predator && agents@[k].boid.velocity == (Vec2I {
                    x: 0i64,
                    y: 0i64,
                })),
        decreases predators - p,
    {
        let px = crate::rng::random_in_range(-bx, bx);
        let py = crate::rng::random_in_range(-by, by);
        agents.push(
            Agent {
                id: (normal + 1 + p) as u64,
                kind: AgentKind::Predator,
                follow_boids: true,
                position: Vec2I { x: px, y: py },
                boid: Boid { velocity: Vec2I { x: 0, y: 0 } },
            },
        );
        p = p + 1;
    }
    let mut winds: Vec<WindCurrent> = Vec::new();
    winds.push(
        WindCurrent::new(
            100000,
            100000,
            [
                Vec2I { x: -10000, y: -200000 },
                Vec2I { x: 30000, y: 20000 },
                Vec2I { x: 350000, y: 30000 },
                Vec2I { x: 390000, y: 80000 },
            ],
        ),
    );
    let mut fields: Vec<(Vec2I, ForceField)> = Vec::new();
    fields.push((Vec2I { x: -550000, y: 200000 }, ForceField::new(120000)));
    fields.push((Vec2I { x: -400000, y: 220000 }, ForceField::new(80000)));
    fields.push((Vec2I { x: 550000, y: -200000 }, ForceField::new(-120000)));
    (agents, winds, fields)
}

/// Draws a velocity of norm `target`, up to the rounding of the integer
/// grid: a random point on the circle of radius `target`, as a drawn
/// horizontal component and the matching vertical one with a drawn sign.
fn random_velocity(target: i64) -> (r: Vec2I)
    requires
        0 <= target <= SPEED_RANGE_HI,
    ensures
        target - 2 <= r.spec_norm() <= target,
        r.spec_in_box(target as int),
{
    let sx = crate::rng::random_in_range(-target, target);
    proof {
        assert(0 <= sx * sx <= target * target && target * target <= 250000000000)
            by (nonlinear_arith)
            requires
                -target <= sx <= target && 0 <= target <= 500000i64,
        ;
    }
    let rem = target * target - sx * sx;
    let ru = crate::math::isqrt(rem as u64);
    proof {
        assert(ru <= 500000u64) by (nonlinear_arith)
            requires
                ru * ru <= 250000000000u64,
        ;
    }
    let ry = ru as i64;
    let sign = crate::rng::random_in_range(0, 1);
    let vy: i64 = if sign == 0 {
        ry
    } else {
        -ry
    };
    let r = Vec2I { x: sx, y: vy };
    proof {
        assert(r.spec_norm_sq() == sx * sx + (ry as int) * (ry as int) && 0 <= ry <= target
            && target * target - 2 * target <= r.spec_norm_sq() <= target * target)
            by (nonlinear_arith)
            requires
                crate::math::is_sqrt_floor(ry as int, rem as int) && rem == target * target - sx
                    * sx && (vy == ry || vy == -ry) && r.x == sx && r.y == vy && 0 <= rem && 0
                    <= target && sx * sx <= target * target,
        ;
        crate::math::lemma_sqrt_floor_exists(r.spec_norm_sq());
        let f = crate::math::sqrt_floor(r.spec_norm_sq());
        assert(target - 2 <= f <= target) by (nonlinear_arith)
            requires
                crate::math::is_sqrt_floor(f, r.spec_norm_sq()) && target * target - 2 * target
                    <= r.spec_norm_sq() <= target * target && 0 <= target,
        ;
        assert(int_abs(r.x as int) <= target && int_abs(r.y as int) <= target);
    }
    r
}

} // verus!
