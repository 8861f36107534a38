//! The steering rules: each is a pure function of one agent's state, the
//! cell contents it perceives, and the configuration, returning a velocity
//! contribution. Rules are registered in an ordered list and their
//! contributions are summed; none short-circuits.
use vstd::prelude::*;
use crate::config::{BoidConfiguration, Parametre, SPEED_RANGE_HI, WEIGHT_CAP};
use crate::boid::AgentKind;
use crate::grid::{SpatialGridBoid, SpatialGridCell};
use crate::math::{div_q, div_t, int_abs, lemma_div_t_bound};
use crate::vec2::Vec2I;
use crate::{POPULATION_LIMIT, POS_LIMIT, UNIT};

verus! {

/// Below this squared distance two agents are treated as coincident: the
/// push direction is substituted instead of dividing by a vanishing
/// distance (a tenth of a square pixel).
pub const DIST_GUARD: i64 = 100000;

/// One square pixel, in squared world units: the divisor substituted for
/// a vanishing squared distance.
pub const PIXEL_SQ: i64 = 1000000;

/// Componentwise magnitude bound on any single rule's contribution.
pub const RULE_OUTPUT_LIMIT: i64 = 25000000000000;

/// What one rule evaluation sees of the evaluating agent.
pub struct BoidRuleParametres {
    pub id: u64,
    pub position: Vec2I,
    pub velocity: Vec2I,
}

impl BoidRuleParametres {
    /// The agent's position lies in the world and its velocity in the
    /// admissible speed band.
    pub open spec fn wf(self) -> bool {
        &&& self.position.spec_in_box(POS_LIMIT as int)
        &&& self.velocity.spec_in_box(SPEED_RANGE_HI as int)
    }
}

/// An agent snapshot a rule may read: position inside the world,
/// velocity inside the admissible speed band.
pub open spec fn spec_snap_wf(b: SpatialGridBoid) -> bool {
    &&& b.position.spec_in_box(POS_LIMIT as int)
    &&& b.velocity.spec_in_box(SPEED_RANGE_HI as int)
}

/// A cell whose snapshots a rule may read.
pub open spec fn spec_cell_ok(c: SpatialGridCell) -> bool {
    &&& c.boids@.len() <= POPULATION_LIMIT
    &&& forall|i: int| 0 <= i < c.boids@.len() ==> spec_snap_wf(#[trigger] c.boids@[i])
}

/// Sums of the positions and velocities of the snapshots that do not
/// belong to the evaluating agent, and how many there are.
pub struct NeighbourSums {
    pub px: int,
    pub py: int,
    pub vx: int,
    pub vy: int,
    pub count: int,
}

/// Whether one snapshot counts as a neighbour: not the evaluating
/// agent's own snapshot, strictly within the view radius (the cell is a
/// rectangular superset, so the exact distance is re-checked), and, when
/// predators are excluded, not a predator's.
pub open spec fn spec_is_neighbour(
    b: SpatialGridBoid,
    self_id: u64,
    position: Vec2I,
    view_sq: int,
    skip_predators: bool,
) -> bool {
    let dx = b.position.x - position.x;
    let dy = b.position.y - position.y;
    &&& b.id != self_id
    &&& dx * dx + dy * dy < view_sq
    &&& !(skip_predators && b.kind == AgentKind::Predator)
}

/// Folds a snapshot list into its neighbour sums, counting only the
/// snapshots [`spec_is_neighbour`] admits.
pub open spec fn spec_neighbour_sums(
    boids: Seq<SpatialGridBoid>,
    self_id: u64,
    position: Vec2I,
    view_sq: int,
    skip_predators: bool,
) -> NeighbourSums
    decreases boids.len(),
{
    if boids.len() == 0 {
        NeighbourSums { px: 0, py: 0, vx: 0, vy: 0, count: 0 }
    } else {
        let rest = spec_neighbour_sums(
            boids.drop_last(),
            self_id,
            position,
            view_sq,
            skip_predators,
        );
        let b = boids.last();
        if spec_is_neighbour(b, self_id, position, view_sq, skip_predators) {
            NeighbourSums {
                px: rest.px + b.position.x,
                py: rest.py + b.position.y,
                vx: rest.vx + b.velocity.x,
                vy: rest.vy + b.velocity.y,
                count: rest.count + 1,
            }
        } else {
            rest
        }
    }
}

/// The cohesion contribution: the mean position of the flock-mates in
/// view (predators are no flock-mates), minus the agent's own position,
/// scaled by the cohesion weight. A single neighbour is itself the
/// centre, and with no neighbour in view nothing pulls.
pub open spec fn spec_cohesion(
    params: BoidRuleParametres,
    boids: Seq<SpatialGridBoid>,
    config: BoidConfiguration,
) -> Vec2I {
    let view = config.view_radius.value as int;
    let s = spec_neighbour_sums(boids, params.id, params.position, view * view, true);
    if s.count == 0 {
        Vec2I { x: 0i64, y: 0i64 }
    } else {
        let c = if s.count > 1 {
            (div_t(s.px, s.count), div_t(s.py, s.count))
        } else {
            (s.px, s.py)
        };
        let w = config.cohesion_weight.value as int;
        Vec2I {
            x: div_t((c.0 - params.position.x) * w, UNIT as int) as i64,
            y: div_t((c.1 - params.position.y) * w, UNIT as int) as i64,
        }
    }
}

/// The alignment contribution: the mean velocity of the neighbours in
/// view (the agent itself excluded), minus the agent's own velocity,
/// scaled by the alignment weight. With no neighbour in view nothing
/// steers.
pub open spec fn spec_alignment(
    params: BoidRuleParametres,
    boids: Seq<SpatialGridBoid>,
    config: BoidConfiguration,
) -> Vec2I {
    let view = config.view_radius.value as int;
    let s = spec_neighbour_sums(boids, params.id, params.position, view * view, false);
    if s.count == 0 {
        Vec2I { x: 0i64, y: 0i64 }
    } else {
        let v = if s.count > 1 {
            (div_t(s.vx, s.count), div_t(s.vy, s.count))
        } else {
            (s.vx, s.vy)
        };
        let w = config.alignment_weight.value as int;
        Vec2I {
            x: div_t((v.0 - params.velocity.x) * w, UNIT as int) as i64,
            y: div_t((v.1 - params.velocity.y) * w, UNIT as int) as i64,
        }
    }
}

/// The push one close neighbour adds to the separation rule: away from
/// the neighbour, inversely proportional to the squared distance, with a
/// fixed upward direction and a one-pixel divisor substituted when the
/// two stand on (almost) the same spot.
pub open spec fn spec_separation_term(
    position: Vec2I,
    other: Vec2I,
    velocity_fallback: Vec2I,
    w: int,
    r_sq: int,
) -> (int, int) {
    let dx = other.x - position.x;
    let dy = other.y - position.y;
    let d_sq = dx * dx + dy * dy;
    let dir = if d_sq < DIST_GUARD {
        velocity_fallback
    } else {
        (Vec2I { x: dx as i64, y: dy as i64 }).spec_scaled_to(UNIT as int)
    };
    let denom = if d_sq < DIST_GUARD {
        PIXEL_SQ as int
    } else {
        d_sq
    };
    (-div_t(w * r_sq * dir.x, (UNIT as int) * denom), -div_t(
        w * r_sq * dir.y,
        (UNIT as int) * denom,
    ))
}

/// Folds a snapshot list into the separation rule's push force.
pub open spec fn spec_separation_push(
    boids: Seq<SpatialGridBoid>,
    params: BoidRuleParametres,
    w: int,
    r_sq: int,
) -> (int, int)
    decreases boids.len(),
{
    if boids.len() == 0 {
        (0, 0)
    } else {
        let rest = spec_separation_push(boids.drop_last(), params, w, r_sq);
        let b = boids.last();
        if b.id == params.id {
            rest
        } else {
            let dx = b.position.x - params.position.x;
            let dy = b.position.y - params.position.y;
            if dx * dx + dy * dy < r_sq {
                let t = spec_separation_term(
                    params.position,
                    b.position,
                    Vec2I { x: 0i64, y: UNIT },
                    w,
                    r_sq,
                );
                (rest.0 + t.0, rest.1 + t.1)
            } else {
                rest
            }
        }
    }
}

/// The separation contribution of a whole cell: the avoidance radius and
/// separation weight come from the configuration.
pub open spec fn spec_separation(
    params: BoidRuleParametres,
    boids: Seq<SpatialGridBoid>,
    config: BoidConfiguration,
) -> Vec2I {
    let radius = config.avoidance_radius.value as int;
    let p = spec_separation_push(
        boids,
        params,
        config.separation_weight.value as int,
        radius * radius,
    );
    Vec2I { x: p.0 as i64, y: p.1 as i64 }
}

/// The ambient wind contribution: the configured direction times the
/// configured speed, independent of neighbours.
pub open spec fn spec_strong_wind(config: BoidConfiguration) -> Vec2I {
    Vec2I {
        x: div_t(
            (config.wind_direction_x as int) * (config.wind_speed.value as int),
            UNIT as int,
        ) as i64,
        y: div_t(
            (config.wind_direction_y as int) * (config.wind_speed.value as int),
            UNIT as int,
        ) as i64,
    }
}

/// Sums the positions and velocities of the neighbours in a cell: the
/// evaluating agent's own snapshot is skipped, the view radius is
/// re-checked on the exact squared distance, and predators can be
/// excluded.
fn neighbour_sums(
    boids: &Vec<SpatialGridBoid>,
    self_id: u64,
    position: Vec2I,
    view_sq: i64,
    skip_predators: bool,
) -> (r: (i64, i64, i64, i64, usize))
    requires
        boids@.len() <= POPULATION_LIMIT,
        forall|i: int| 0 <= i < boids@.len() ==> spec_snap_wf(#[trigger] boids@[i]),
        position.spec_in_box(POS_LIMIT as int),
    ensures
        ({
            let s = spec_neighbour_sums(boids@, self_id, position, view_sq as int, skip_predators);
            &&& r.0 == s.px && r.1 == s.py && r.2 == s.vx && r.3 == s.vy && r.4 == s.count
            &&& 0 <= s.count <= boids@.len()
            &&& int_abs(s.px) <= s.count * (POS_LIMIT as int) && int_abs(s.py) <= s.count * (
            POS_LIMIT as int)
            &&& int_abs(s.vx) <= s.count * (SPEED_RANGE_HI as int) && int_abs(s.vy) <= s.count * (
            SPEED_RANGE_HI as int)
        }),
{
    let n = boids.len();
    let mut px: i64 = 0;
    let mut py: i64 = 0;
    let mut vx: i64 = 0;
    let mut vy: i64 = 0;
    let mut count: usize = 0;
    let mut i: usize = 0;
    while i < n
        invariant
            i <= n,
            n == boids@.len() <= POPULATION_LIMIT,
            forall|j: int| 0 <= j < boids@.len() ==> spec_snap_wf(#[trigger] boids@[j]),
            position.spec_in_box(POS_LIMIT as int),
            ({
                let s = spec_neighbour_sums(
                    boids@.take(i as int),
                    self_id,
                    position,
                    view_sq as int,
                    skip_predators,
                );
                &&& px == s.px && py == s.py && vx == s.vx && vy == s.vy && count == s.count
                &&& 0 <= s.count <= i
                &&& int_abs(s.px) <= s.count * (POS_LIMIT as int) && int_abs(s.py) <= s.count * (
                POS_LIMIT as int)
                &&& int_abs(s.vx) <= s.count * (SPEED_RANGE_HI as int) && int_abs(s.vy) <= s.count
                    * (SPEED_RANGE_HI as int)
            }),
        decreases n - i,
    {
        let b = boids[i];
        proof {
            assert(boids@.take(i + 1).drop_last() =~= boids@.take(i as int));
            assert(boids@.take(i + 1).last() == boids@[i as int]);
        }
        if b.id != self_id && !(skip_predators && matches!(b.kind, AgentKind::Predator)) {
            let d_sq = b.position.dist_sq(position);
            proof {
                assert(d_sq == (b.position.x - position.x) * (b.position.x - position.x) + (
                b.position.y - position.y) * (b.position.y - position.y));
            }
            if d_sq < view_sq {
                px = px + b.position.x;
                py = py + b.position.y;
                vx = vx + b.velocity.x;
                vy = vy + b.velocity.y;
                count = count + 1;
            }
        }
        i = i + 1;
    }
    proof {
        assert(boids@.take(n as int) =~= boids@);
    }
    (px, py, vx, vy, count)
}

/// Cohesion: steer toward the centre of the flock-mates in view.
pub fn cohesion(params: &BoidRuleParametres, cell: &SpatialGridCell, config: &BoidConfiguration)
    -> (r: Vec2I)
    requires
        params.wf(),
        spec_cell_ok(*cell),
        config.wf(),
    ensures
        r == spec_cohesion(*params, cell.boids@, *config),
        r.spec_in_box(80000000),
{
    let view = config.scalar_parametre(Parametre::ViewRadius);
    proof {
        assert(0 <= view * view <= 40000000000) by (nonlinear_arith)
            requires
                0 <= view <= 200000i64,
        ;
    }
    let view_sq = view * view;
    let (px, py, _, _, count) = neighbour_sums(
        &cell.boids,
        params.id,
        params.position,
        view_sq,
        true,
    );
    if count == 0 {
        return Vec2I { x: 0, y: 0 };
    }
    let (cx, cy): (i64, i64) = if count > 1 {
        proof {
            let s = spec_neighbour_sums(
                cell.boids@,
                params.id,
                params.position,
                view_sq as int,
                true,
            );
            assert(s.count * (POS_LIMIT as int) == (POS_LIMIT as int) * s.count)
                by (nonlinear_arith);
            lemma_div_t_bound(s.px, s.count, POS_LIMIT as int);
            lemma_div_t_bound(s.py, s.count, POS_LIMIT as int);
        }
        (crate::math::div_q(px, count as i64), crate::math::div_q(py, count as i64))
    } else {
        (px, py)
    };
    let w = config.scalar_parametre(Parametre::CohesionWeight);
    proof {
        assert(int_abs((cx - params.position.x) * w) <= 80000000000 && int_abs(
            (cy - params.position.y) * w,
        ) <= 80000000000) by (nonlinear_arith)
            requires
                int_abs(cx as int) <= POS_LIMIT as int && int_abs(cy as int) <= POS_LIMIT as int
                    && int_abs(params.position.x as int) <= POS_LIMIT as int && int_abs(
                    params.position.y as int,
                ) <= POS_LIMIT as int && 0 <= w <= 1000i64 && POS_LIMIT == 8000000i64,
        ;
        lemma_div_t_bound((cx - params.position.x) * w, UNIT as int, 80000000);
        lemma_div_t_bound((cy - params.position.y) * w, UNIT as int, 80000000);
    }
    Vec2I {
        x: div_q((cx - params.position.x) * w, UNIT),
        y: div_q((cy - params.position.y) * w, UNIT),
    }
}

/// Alignment: steer toward the mean velocity of the neighbours in view.
pub fn alignment(params: &BoidRuleParametres, cell: &SpatialGridCell, config: &BoidConfiguration)
    -> (r: Vec2I)
    requires
        params.wf(),
        spec_cell_ok(*cell),
        config.wf(),
    ensures
        r == spec_alignment(*params, cell.boids@, *config),
        r.spec_in_box(10000000),
{
    let view = config.scalar_parametre(Parametre::ViewRadius);
    proof {
        assert(0 <= view * view <= 40000000000) by (nonlinear_arith)
            requires
                0 <= view <= 200000i64,
        ;
    }
    let view_sq = view * view;
    let (_, _, vx, vy, count) = neighbour_sums(
        &cell.boids,
        params.id,
        params.position,
        view_sq,
        false,
    );
    if count == 0 {
        return Vec2I { x: 0, y: 0 };
    }
    let (cx, cy): (i64, i64) = if count > 1 {
        proof {
            let s = spec_neighbour_sums(
                cell.boids@,
                params.id,
                params.position,
                view_sq as int,
                false,
            );
            assert(s.count * (SPEED_RANGE_HI as int) == (SPEED_RANGE_HI as int) * s.count)
                by (nonlinear_arith);
            lemma_div_t_bound(s.vx, s.count, SPEED_RANGE_HI as int);
            lemma_div_t_bound(s.vy, s.count, SPEED_RANGE_HI as int);
        }
        (crate::math::div_q(vx, count as i64), crate::math::div_q(vy, count as i64))
    } else {
        (vx, vy)
    };
    let w = config.scalar_parametre(Parametre::AlignmentWeight);
    proof {
        let s = spec_neighbour_sums(cell.boids@, params.id, params.position, view_sq as int, false);
        assert(s.count == 1 ==> int_abs(s.vx) <= SPEED_RANGE_HI as int && int_abs(s.vy)
            <= SPEED_RANGE_HI as int);
        assert(int_abs((cx - params.velocity.x) * w) <= 10000000000 && int_abs(
            (cy - params.velocity.y) * w,
        ) <= 10000000000) by (nonlinear_arith)
            requires
                int_abs(cx as int) <= SPEED_RANGE_HI as int && int_abs(cy as int)
                    <= SPEED_RANGE_HI as int && int_abs(params.velocity.x as int)
                    <= SPEED_RANGE_HI as int && int_abs(params.velocity.y as int)
                    <= SPEED_RANGE_HI as int && 0 <= w <= 1000i64 && SPEED_RANGE_HI == 500000i64,
        ;
        lemma_div_t_bound((cx - params.velocity.x) * w, UNIT as int, 10000000);
        lemma_div_t_bound((cy - params.velocity.y) * w, UNIT as int, 10000000);
    }
    Vec2I {
        x: div_q((cx - params.velocity.x) * w, UNIT),
        y: div_q((cy - params.velocity.y) * w, UNIT),
    }
}

/// Separation: push away from every occupant closer than the avoidance
/// radius, harder the closer it stands.
pub fn separation(params: &BoidRuleParametres, cell: &SpatialGridCell, config: &BoidConfiguration)
    -> (r: Vec2I)
    requires
        params.wf(),
        spec_cell_ok(*cell),
        config.wf(),
    ensures
        r == spec_separation(*params, cell.boids@, *config),
        r.spec_in_box(20000000000000),
{
    let w = config.separation_weight.value;
    let radius = config.avoidance_radius.value;
    proof {
        assert(0 <= radius * radius <= 40000000000) by (nonlinear_arith)
            requires
                0 <= radius <= 200000i64,
        ;
    }
    let r_sq = radius * radius;
    let n = cell.boids.len();
    let mut px: i64 = 0;
    let mut py: i64 = 0;
    let mut i: usize = 0;
    while i < n
        invariant
            i <= n,
            n == cell.boids@.len() <= POPULATION_LIMIT,
            forall|j: int| 0 <= j < cell.boids@.len() ==> spec_snap_wf(#[trigger] cell.boids@[j]),
            params.wf(),
            0 <= w <= WEIGHT_CAP,
            0 <= r_sq <= 40000000000,
            r_sq == (config.avoidance_radius.value as int) * (config.avoidance_radius.value as int),
            w == config.separation_weight.value,
            ({
                let s = spec_separation_push(cell.boids@.take(i as int), *params, w as int, r_sq as int);
                px == s.0 && py == s.1 && int_abs(s.0) <= i * 2000000000 && int_abs(s.1) <= i
                    * 2000000000
            }),
        decreases n - i,
    {
        let b = cell.boids[i];
        proof {
            assert(cell.boids@.take(i + 1).drop_last() =~= cell.boids@.take(i as int));
            assert(cell.boids@.take(i + 1).last() == cell.boids@[i as int]);
        }
        if b.id != params.id {
            let diff = b.position.minus(params.position);
            let d_sq = b.position.dist_sq(params.position);
            proof {
                assert((Vec2I { x: diff.x, y: diff.y }).spec_norm_sq() == d_sq);
            }
            if d_sq < r_sq {
                let dir: Vec2I = if d_sq < DIST_GUARD {
                    Vec2I { x: 0, y: UNIT }
                } else {
                    diff.scaled_to(UNIT)
                };
                let denom: i64 = if d_sq < DIST_GUARD {
                    PIXEL_SQ
                } else {
                    d_sq
                };
                proof {
                    assert(0 <= w * r_sq <= 200000000000000 && int_abs(w * r_sq * dir.x)
                        <= 200000000000000000 && int_abs(
                        w * r_sq * dir.y,
                    ) <= 200000000000000000 && (UNIT as int) * (denom as int)
                        <= 600000000000000000) by (nonlinear_arith)
                        requires
                            0 <= w <= 5000i64 && 0 <= r_sq <= 40000000000i64 && int_abs(
                                dir.x as int,
                            ) <= 1000 && int_abs(dir.y as int) <= 1000 && 0 < denom
                                <= 600000000000000i64 && UNIT == 1000i64,
                    ;
                    assert(int_abs(w * r_sq * dir.x) <= ((UNIT as int) * (denom as int))
                        * 2000000000 && int_abs(w * r_sq * dir.y) <= ((UNIT as int) * (
                    denom as int)) * 2000000000) by (nonlinear_arith)
                        requires
                            0 <= w <= 5000i64 && 0 <= r_sq <= 40000000000i64 && int_abs(
                                dir.x as int,
                            ) <= 1000 && int_abs(dir.y as int) <= 1000 && denom >= 100000i64
                                && UNIT == 1000i64,
                    ;
                    lemma_div_t_bound(w * r_sq * dir.x, (UNIT as int) * (denom as int), 2000000000);
                    lemma_div_t_bound(w * r_sq * dir.y, (UNIT as int) * (denom as int), 2000000000);
                }
                let tx = div_q(w * r_sq * dir.x, UNIT * denom);
                let ty = div_q(w * r_sq * dir.y, UNIT * denom);
                px = px - tx;
                py = py - ty;
            }
        }
        i = i + 1;
    }
    proof {
        assert(cell.boids@.take(n as int) =~= cell.boids@);
    }
    Vec2I { x: px, y: py }
}

/// Ambient wind: the configured direction times the configured speed,
/// the same for every agent.
pub fn strong_wind(
    _params: &BoidRuleParametres,
    _cell: &SpatialGridCell,
    config: &BoidConfiguration,
) -> (r: Vec2I)
    requires
        config.wf(),
    ensures
        r == spec_strong_wind(*config),
        r.spec_in_box(crate::config::WIND_SPEED_CAP as int + 2000),
{
    let (wx, wy) = config.wind_direction();
    let ws = config.wind_speed.value;
    proof {
        assert(int_abs(wx * ws) <= (UNIT as int) * 1002000 && int_abs(wy * ws) <= (UNIT as int)
            * 1002000) by (nonlinear_arith)
            requires
                int_abs(wx as int) <= 1002 && int_abs(wy as int) <= 1002 && 0 <= ws <= 1000000i64
                    && UNIT == 1000i64,
        ;
        lemma_div_t_bound(wx * ws, UNIT as int, 1002000);
        lemma_div_t_bound(wy * ws, UNIT as int, 1002000);
    }
    Vec2I { x: div_q(wx * ws, UNIT), y: div_q(wy * ws, UNIT) }
}

/// The closed set of registrable rules, dispatched through
/// [`BoidRules::evaluate`].
#[derive(Clone, Copy, PartialEq, Eq, Structural, Debug)]
pub enum RuleKind {
    Cohesion,
    Separation,
    Alignment,
    StrongWind,
}

/// What one registered rule contributes.
pub open spec fn spec_rule_output(
    kind: RuleKind,
    params: BoidRuleParametres,
    boids: Seq<SpatialGridBoid>,
    config: BoidConfiguration,
) -> Vec2I {
    match kind {
        RuleKind::Cohesion => spec_cohesion(params, boids, config),
        RuleKind::Separation => spec_separation(params, boids, config),
        RuleKind::Alignment => spec_alignment(params, boids, config),
        RuleKind::StrongWind => spec_strong_wind(config),
    }
}

/// The summed contribution of an ordered rule list.
pub open spec fn spec_rules_sum(
    kinds: Seq<RuleKind>,
    params: BoidRuleParametres,
    boids: Seq<SpatialGridBoid>,
    config: BoidConfiguration,
) -> (int, int)
    decreases kinds.len(),
{
    if kinds.len() == 0 {
        (0, 0)
    } else {
        let rest = spec_rules_sum(kinds.drop_last(), params, boids, config);
        let out = spec_rule_output(kinds.last(), params, boids, config);
        (rest.0 + out.x, rest.1 + out.y)
    }
}

/// The ordered list of steering rules a simulation runs; their
/// contributions are summed, so registration order does not change the
/// result.
pub struct BoidRules {
    pub rules: Vec<RuleKind>,
}

impl BoidRules {
    pub fn new() -> (r: BoidRules)
        ensures
            r.rules@ =~= Seq::<RuleKind>::empty(),
    {
        BoidRules { rules: Vec::new() }
    }

    /// Registers one more rule at the end of the list.
    pub fn add(&mut self, rule: RuleKind)
        ensures
            final(self).rules@ == old(self).rules@.push(rule),
    {
        self.rules.push(rule);
    }

    /// Evaluates every registered rule on one agent and sums the
    /// contributions.
    pub fn evaluate(
        &self,
        params: &BoidRuleParametres,
        cell: &SpatialGridCell,
        config: &BoidConfiguration,
    ) -> (r: Vec2I)
        requires
            params.wf(),
            spec_cell_ok(*cell),
            config.wf(),
            self.rules@.len() <= 64,
        ensures
            ({
                let s = spec_rules_sum(self.rules@, *params, cell.boids@, *config);
                r.x == s.0 && r.y == s.1
            }),
            r.spec_in_box(64 * (RULE_OUTPUT_LIMIT as int)),
    {
        let n = self.rules.len();
        let mut x: i64 = 0;
        let mut y: i64 = 0;
        let mut i: usize = 0;
        while i < n
            invariant
                i <= n,
                n == self.rules@.len() <= 64,
                params.wf(),
                spec_cell_ok(*cell),
                config.wf(),
                ({
                    let s = spec_rules_sum(self.rules@.take(i as int), *params, cell.boids@, *config);
                    x == s.0 && y == s.1 && int_abs(s.0) <= i * (RULE_OUTPUT_LIMIT as int)
                        && int_abs(s.1) <= i * (RULE_OUTPUT_LIMIT as int)
                }),
            decreases n - i,
        {
            proof {
                assert(self.rules@.take(i + 1).drop_last() =~= self.rules@.take(i as int));
                assert(self.rules@.take(i + 1).last() == self.rules@[i as int]);
            }
            let out = match self.rules[i] {
                RuleKind::Cohesion => cohesion(params, cell, config),
                RuleKind::Separation => separation(params, cell, config),
                RuleKind::Alignment => alignment(params, cell, config),
                RuleKind::StrongWind => strong_wind(params, cell, config),
            };
            x = x + out.x;
            y = y + out.y;
            i = i + 1;
        }
        proof {
            assert(self.rules@.take(n as int) =~= self.rules@);
        }
        Vec2I { x, y }
    }
}

/// Registers the standard rule set and installs every parameter those
/// rules read, with its default value and valid range. With the explicit
/// schema all installations succeed; a rule can never meet a missing
/// parameter at evaluation time.
pub fn setup_rules(rules: &mut BoidRules, config: &mut BoidConfiguration)
    requires
        old(config).wf(),
    ensures
        final(rules).rules@ == old(rules).rules@.push(RuleKind::Cohesion).push(
            RuleKind::Separation,
        ).push(RuleKind::Alignment).push(RuleKind::StrongWind),
        final(config).wf(),
        final(config).avoidance_radius == (crate::config::ScalarParametre {
            value: 50000i64,
            lo: 1000i64,
            hi: 100000i64,
        }),
        final(config).view_radius == (crate::config::ScalarParametre {
            value: 100000i64,
            lo: 1000i64,
            hi: 200000i64,
        }),
        final(config).cohesion_weight == (crate::config::ScalarParametre {
            value: 250i64,
            lo: 0i64,
            hi: 1000i64,
        }),
        final(config).separation_weight == (crate::config::ScalarParametre {
            value: 1000i64,
            lo: 0i64,
            hi: 5000i64,
        }),
        final(config).alignment_weight == (crate::config::ScalarParametre {
            value: 125i64,
            lo: 0i64,
            hi: 1000i64,
        }),
        final(config).wind_direction_x == -500i64 && final(config).wind_direction_y == -866i64,
        final(config).wind_speed == (crate::config::ScalarParametre {
            value: 100000i64,
            lo: 0i64,
            hi: 1000000i64,
        }),
        final(config).flee_weight == (crate::config::ScalarParametre {
            value: 500i64,
            lo: 0i64,
            hi: 1000i64,
        }),
        final(config).min_speed == old(config).min_speed && final(config).max_speed == old(
            config,
        ).max_speed && final(config).scale == old(config).scale,
{
    rules.add(RuleKind::Cohesion);
    rules.add(RuleKind::Separation);
    rules.add(RuleKind::Alignment);
    rules.add(RuleKind::StrongWind);

    let _ = config.add_scalar_parametre(Parametre::AvoidanceRadius, 50000, 1000, 100000);
    let _ = config.add_scalar_parametre(Parametre::ViewRadius, 100000, 1000, 200000);
    let _ = config.add_scalar_parametre(Parametre::CohesionWeight, 250, 0, 1000);
    let _ = config.add_scalar_parametre(Parametre::SeparationWeight, 1000, 0, 5000);
    let _ = config.add_scalar_parametre(Parametre::AlignmentWeight, 125, 0, 1000);
    let _ = config.set_wind_direction(-500, -866);
    let _ = config.add_scalar_parametre(Parametre::WindSpeed, 100000, 0, 1000000);
    let _ = config.add_scalar_parametre(Parametre::FleeWeight, 500, 0, 1000);
}

/// The magnitude of the separation push a neighbour at squared distance
/// `d_sq` produces, per unit of push direction.
pub open spec fn spec_sep_scale(w: int, r_sq: int, d_sq: int) -> int {
    div_t(w * r_sq * (UNIT as int), (UNIT as int) * d_sq)
}

/// Separation monotonicity: within the avoidance radius and outside the
/// coincidence guard, a closer neighbour is pushed away at least as hard,
/// and strictly harder whenever the ideal magnitudes are at least one
/// unit apart (which the rounding to integers cannot mask).
pub proof fn lemma_separation_monotone(w: int, r_sq: int, d1_sq: int, d2_sq: int)
    requires
        1 <= w,
        DIST_GUARD <= d1_sq < d2_sq < r_sq,
    ensures
        spec_sep_scale(w, r_sq, d1_sq) >= spec_sep_scale(w, r_sq, d2_sq) >= 0,
        w * r_sq * (d2_sq - d1_sq) >= d1_sq * d2_sq ==> spec_sep_scale(w, r_sq, d1_sq)
            > spec_sep_scale(w, r_sq, d2_sq),
{
    let u = UNIT as int;
    let k = w * r_sq;
    assert(k >= 1 && k * u >= 1 && u * d1_sq >= 1 && u * d2_sq >= 1 && u * d1_sq <= u * d2_sq)
        by (nonlinear_arith)
        requires
            1 <= w && 0 < d1_sq < d2_sq < r_sq && u == 1000 && k == w * r_sq,
    ;
    vstd::arithmetic::div_mod::lemma_div_pos_is_pos(k * u, u * d1_sq);
    vstd::arithmetic::div_mod::lemma_div_pos_is_pos(k * u, u * d2_sq);
    vstd::arithmetic::div_mod::lemma_div_is_ordered_by_denominator(k * u, u * d1_sq, u * d2_sq);
    assert(spec_sep_scale(w, r_sq, d1_sq) == (k * u) / (u * d1_sq));
    assert(spec_sep_scale(w, r_sq, d2_sq) == (k * u) / (u * d2_sq));
    if k * (d2_sq - d1_sq) >= d1_sq * d2_sq {
        let q2 = (k * u) / (u * d2_sq);
        vstd::arithmetic::div_mod::lemma_fundamental_div_mod(k * u, u * d2_sq);
        vstd::arithmetic::div_mod::lemma_mod_bound(k * u, u * d2_sq);
        assert(k * u >= (u * d2_sq) * q2);
        assert(k * u >= (u * d1_sq) * (q2 + 1)) by (nonlinear_arith)
            requires
                k * (d2_sq - d1_sq) >= d1_sq * d2_sq && k * u >= (u * d2_sq) * q2 && q2 >= 0 && 0
                    < d1_sq < d2_sq && k >= 1 && u == 1000 && q2 <= k * u,
        ;
        assert((u * d1_sq) * (q2 + 1) == (q2 + 1) * (u * d1_sq)) by (nonlinear_arith);
        vstd::arithmetic::div_mod::lemma_div_multiples_vanish_fancy(q2 + 1, 0, u * d1_sq);
        vstd::arithmetic::div_mod::lemma_div_is_ordered((q2 + 1) * (u * d1_sq), k * u, u * d1_sq);
    }
}

/// The separation push points from the neighbour toward the evaluating
/// agent: each component of the push opposes the matching component of
/// the offset to the neighbour.
pub proof fn lemma_separation_term_direction(p: Vec2I, o: Vec2I, w: int, r_sq: int)
    requires
        0 <= w,
        p.spec_in_box(POS_LIMIT as int),
        o.spec_in_box(POS_LIMIT as int),
        ({
            let dx = o.x - p.x;
            let dy = o.y - p.y;
            DIST_GUARD <= dx * dx + dy * dy < r_sq
        }),
    ensures
        ({
            let t = spec_separation_term(p, o, Vec2I { x: 0i64, y: UNIT }, w, r_sq);
            t.0 * (o.x - p.x) <= 0 && t.1 * (o.y - p.y) <= 0
        }),
{
    let dx = o.x - p.x;
    let dy = o.y - p.y;
    let d_sq = dx * dx + dy * dy;
    let u = UNIT as int;
    let diff = Vec2I { x: dx as i64, y: dy as i64 };
    assert(diff.x == dx && diff.y == dy);
    assert(diff.spec_norm_sq() == d_sq && d_sq >= DIST_GUARD);
    crate::math::lemma_sqrt_floor_exists(diff.spec_norm_sq());
    let nrm = diff.spec_norm();
    assert(nrm >= 1) by (nonlinear_arith)
        requires
            crate::math::is_sqrt_floor(nrm, d_sq) && d_sq >= DIST_GUARD && DIST_GUARD == 100000i64,
    ;
    let dir = diff.spec_scaled_to(u);
    assert(diff.spec_norm_sq() != 0);
    assert(dir.x == div_t(dx * u, nrm) && dir.y == div_t(dy * u, nrm));
    crate::math::lemma_div_t_sign(dx * u, nrm);
    crate::math::lemma_div_t_sign(dy * u, nrm);
    let t = spec_separation_term(p, o, Vec2I { x: 0i64, y: UNIT }, w, r_sq);
    assert(t.0 == -div_t(w * r_sq * dir.x, u * d_sq) && t.1 == -div_t(w * r_sq * dir.y, u * d_sq));
    assert(u * d_sq >= 1) by (nonlinear_arith)
        requires
            d_sq >= 1 && u == 1000,
    ;
    if dx >= 0 {
        assert(dx * u >= 0) by (nonlinear_arith)
            requires
                dx >= 0 && u == 1000,
        ;
        assert(dir.x >= 0);
        assert(w * r_sq * dir.x >= 0) by (nonlinear_arith)
            requires
                w >= 0 && r_sq > 0 && dir.x >= 0,
        ;
        crate::math::lemma_div_t_sign(w * r_sq * dir.x, u * d_sq);
        assert(t.0 <= 0);
        assert(t.0 * dx <= 0) by (nonlinear_arith)
            requires
                t.0 <= 0 && dx >= 0,
        ;
    } else {
        assert(dx * u < 0) by (nonlinear_arith)
            requires
                dx < 0 && u == 1000,
        ;
        assert(dir.x <= 0);
        assert(w * r_sq * dir.x <= 0) by (nonlinear_arith)
            requires
                w >= 0 && r_sq > 0 && dir.x <= 0,
        ;
        crate::math::lemma_div_t_sign(w * r_sq * dir.x, u * d_sq);
        assert(t.0 >= 0);
        assert(t.0 * dx <= 0) by (nonlinear_arith)
            requires
                t.0 >= 0 && dx < 0,
        ;
    }
    if dy >= 0 {
        assert(dy * u >= 0) by (nonlinear_arith)
            requires
                dy >= 0 && u == 1000,
        ;
        assert(dir.y >= 0);
        assert(w * r_sq * dir.y >= 0) by (nonlinear_arith)
            requires
                w >= 0 && r_sq > 0 && dir.y >= 0,
        ;
        crate::math::lemma_div_t_sign(w * r_sq * dir.y, u * d_sq);
        assert(t.1 * dy <= 0) by (nonlinear_arith)
            requires
                t.1 <= 0 && dy >= 0,
        ;
    } else {
        assert(dy * u < 0) by (nonlinear_arith)
            requires
                dy < 0 && u == 1000,
        ;
        assert(dir.y <= 0);
        assert(w * r_sq * dir.y <= 0) by (nonlinear_arith)
            requires
                w >= 0 && r_sq > 0 && dir.y <= 0,
        ;
        crate::math::lemma_div_t_sign(w * r_sq * dir.y, u * d_sq);
        assert(t.1 * dy <= 0) by (nonlinear_arith)
            requires
                t.1 >= 0 && dy < 0,
        ;
    }
}

/// Alignment convergence, one step and one component at a time: adding
/// the alignment contribution never moves a velocity past the perceived
/// mean nor away from it, with the full weight it reaches the mean in a
/// single step, and while the distance to the mean is at least one unit
/// of weight it strictly shrinks — so the population's velocities reach
/// the mean's neighbourhood within a bounded number of ticks.
pub proof fn lemma_alignment_step_contracts(v: int, m: int, w: int)
    requires
        0 <= w <= UNIT,
    ensures
        int_abs(v + div_t((m - v) * w, UNIT as int) - m) <= int_abs(m - v),
        w == UNIT ==> v + div_t((m - v) * w, UNIT as int) == m,
        w >= 1 && int_abs(m - v) * w >= UNIT ==> int_abs(v + div_t((m - v) * w, UNIT as int) - m)
            < int_abs(m - v),
{
    let u = UNIT as int;
    let d = m - v;
    let c = div_t(d * w, u);
    crate::math::lemma_div_t_sign(d * w, u);
    if d >= 0 {
        assert(0 <= d * w <= d * u) by (nonlinear_arith)
            requires
                d >= 0 && 0 <= w <= u,
        ;
        vstd::arithmetic::div_mod::lemma_div_is_ordered(d * w, d * u, u);
        assert((d * u) / u == d) by {
            vstd::arithmetic::div_mod::lemma_div_multiples_vanish(d, u);
            assert(d * u == u * d) by (nonlinear_arith);
        }
        assert(0 <= c <= d);
        if w == u {
            assert(c == d);
        }
        if w >= 1 && d * w >= u {
            vstd::arithmetic::div_mod::lemma_div_is_ordered(u, d * w, u);
            vstd::arithmetic::div_mod::lemma_div_by_self(u);
            assert(c >= 1);
        }
        assert(int_abs(d) * w == d * w) by (nonlinear_arith)
            requires
                d >= 0,
        ;
    } else {
        assert(0 <= (-d) * w <= (-d) * u && d * w == -((-d) * w)) by (nonlinear_arith)
            requires
                d < 0 && 0 <= w <= u,
        ;
        let e = -d;
        assert(c == -div_t(e * w, u)) by {
            assert((-(e * w)) < 0 ==> div_t(-(e * w), u) == -((e * w) / u));
        }
        vstd::arithmetic::div_mod::lemma_div_is_ordered(e * w, e * u, u);
        assert((e * u) / u == e) by {
            vstd::arithmetic::div_mod::lemma_div_multiples_vanish(e, u);
            assert(e * u == u * e) by (nonlinear_arith);
        }
        vstd::arithmetic::div_mod::lemma_div_pos_is_pos(e * w, u);
        assert(0 <= div_t(e * w, u) <= e);
        assert(d <= c <= 0);
        if w == u {
            assert(c == d);
        }
        if w >= 1 && e * w >= u {
            vstd::arithmetic::div_mod::lemma_div_is_ordered(u, e * w, u);
            vstd::arithmetic::div_mod::lemma_div_by_self(u);
            assert(c <= -1);
        }
        assert(int_abs(d) * w == e * w) by (nonlinear_arith)
            requires
                d < 0 && e == -d,
        ;
    }
}

} // verus!
