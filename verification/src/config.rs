//! Tunable simulation parameters as an explicit schema: every parameter a
//! rule reads exists by construction, carries its valid inclusive range,
//! and is validated when it is set. A missing or out-of-range parameter is
//! rejected at configuration time instead of surfacing mid-simulation.
use vstd::prelude::*;
use crate::UNIT;

verus! {

/// Lower end of the admissible speed range (world units per second).
pub const SPEED_RANGE_LO: i64 = 0;

/// Upper end of the admissible speed range (500 pixels per second).
pub const SPEED_RANGE_HI: i64 = 500000;

/// Upper end of the admissible sprite scale (three times normal size).
pub const SCALE_RANGE_HI: i64 = 3000;

/// Largest radius any perception parameter may reach (200 pixels).
pub const RADIUS_CAP: i64 = 200000;

/// Largest value the separation weight may reach (a weight of five);
/// every other weight caps at a weight of one.
pub const WEIGHT_CAP: i64 = 5000;

/// Largest wind speed (twice the highest agent speed).
pub const WIND_SPEED_CAP: i64 = 1000000;

/// The closed set of scalar parameters the steering rules read.
#[derive(Clone, Copy, PartialEq, Eq, Structural, Debug)]
pub enum Parametre {
    /// Radius below which neighbours are pushed away.
    AvoidanceRadius,
    /// Radius within which neighbours are perceived.
    ViewRadius,
    /// Weight of the pull toward the neighbourhood centre.
    CohesionWeight,
    /// Weight of the push away from close neighbours.
    SeparationWeight,
    /// Weight of the pull toward the neighbourhood mean velocity.
    AlignmentWeight,
    /// Speed of the ambient wind drift.
    WindSpeed,
    /// Weight of the push away from perceived predators.
    FleeWeight,
}

/// A scalar parameter value together with its valid inclusive range.
#[derive(Clone, Copy, PartialEq, Eq, Structural, Debug)]
pub struct ScalarParametre {
    pub value: i64,
    pub lo: i64,
    pub hi: i64,
}

/// Why a configuration change was rejected.
#[derive(Clone, Copy, PartialEq, Eq, Structural, Debug)]
pub enum ConfigError {
    /// The requested range is empty or leaves the globally admissible
    /// bounds for that parameter.
    InvalidRange,
    /// The requested value lies outside the parameter's range.
    ValueOutOfRange,
}

/// All tunables of the flocking rules; read-only to the core during a
/// tick, mutated only by the surrounding setup and interface collaborators.
#[derive(Clone, Copy, PartialEq, Eq, Structural, Debug)]
pub struct BoidConfiguration {
    pub min_speed: i64,
    pub max_speed: i64,
    pub scale: i64,
    pub avoidance_radius: ScalarParametre,
    pub view_radius: ScalarParametre,
    pub cohesion_weight: ScalarParametre,
    pub separation_weight: ScalarParametre,
    pub alignment_weight: ScalarParametre,
    /// Horizontal component of the ambient wind direction: with the
    /// vertical one it forms a unit vector scaled by [`UNIT`], set
    /// atomically through [`BoidConfiguration::set_wind_direction`].
    pub wind_direction_x: i64,
    /// Vertical component of the ambient wind direction.
    pub wind_direction_y: i64,
    pub wind_speed: ScalarParametre,
    pub flee_weight: ScalarParametre,
}

/// The globally admissible range of a parameter: radii are perception
/// distances, weights are small dimensionless factors, wind direction
/// components describe a unit vector.
pub open spec fn spec_param_caps(p: Parametre) -> (int, int) {
    match p {
        Parametre::AvoidanceRadius => (0, RADIUS_CAP as int),
        Parametre::ViewRadius => (0, RADIUS_CAP as int),
        Parametre::CohesionWeight => (0, UNIT as int),
        Parametre::SeparationWeight => (0, WEIGHT_CAP as int),
        Parametre::AlignmentWeight => (0, UNIT as int),
        Parametre::WindSpeed => (0, WIND_SPEED_CAP as int),
        Parametre::FleeWeight => (0, UNIT as int),
    }
}

impl BoidConfiguration {
    /// The stored entry of parameter `p`.
    pub open spec fn spec_param(self, p: Parametre) -> ScalarParametre {
        match p {
            Parametre::AvoidanceRadius => self.avoidance_radius,
            Parametre::ViewRadius => self.view_radius,
            Parametre::CohesionWeight => self.cohesion_weight,
            Parametre::SeparationWeight => self.separation_weight,
            Parametre::AlignmentWeight => self.alignment_weight,
            Parametre::WindSpeed => self.wind_speed,
            Parametre::FleeWeight => self.flee_weight,
        }
    }

    /// The configuration with the entry of `p` replaced.
    pub open spec fn spec_with_param(self, p: Parametre, sp: ScalarParametre) -> Self {
        match p {
            Parametre::AvoidanceRadius => Self { avoidance_radius: sp, ..self },
            Parametre::ViewRadius => Self { view_radius: sp, ..self },
            Parametre::CohesionWeight => Self { cohesion_weight: sp, ..self },
            Parametre::SeparationWeight => Self { separation_weight: sp, ..self },
            Parametre::AlignmentWeight => Self { alignment_weight: sp, ..self },
            Parametre::WindSpeed => Self { wind_speed: sp, ..self },
            Parametre::FleeWeight => Self { flee_weight: sp, ..self },
        }
    }

    /// A single entry is well formed: its value sits in its range and the
    /// range sits within the globally admissible bounds.
    pub open spec fn spec_param_wf(p: Parametre, sp: ScalarParametre) -> bool {
        &&& spec_param_caps(p).0 <= sp.lo <= sp.value <= sp.hi <= spec_param_caps(p).1
    }

    /// The whole configuration is well formed.
    pub open spec fn wf(self) -> bool {
        &&& SPEED_RANGE_LO <= self.min_speed <= self.max_speed <= SPEED_RANGE_HI
        &&& 0 <= self.scale <= SCALE_RANGE_HI
        &&& Self::spec_param_wf(Parametre::AvoidanceRadius, self.avoidance_radius)
        &&& Self::spec_param_wf(Parametre::ViewRadius, self.view_radius)
        &&& Self::spec_param_wf(Parametre::CohesionWeight, self.cohesion_weight)
        &&& Self::spec_param_wf(Parametre::SeparationWeight, self.separation_weight)
        &&& Self::spec_param_wf(Parametre::AlignmentWeight, self.alignment_weight)
        &&& spec_wind_direction_ok(self.wind_direction_x as int, self.wind_direction_y as int)
        &&& Self::spec_param_wf(Parametre::WindSpeed, self.wind_speed)
        &&& Self::spec_param_wf(Parametre::FleeWeight, self.flee_weight)
    }

    /// The configuration every simulation starts from.
    pub open spec fn spec_default() -> Self {
        Self {
            min_speed: 100000,
            max_speed: 300000,
            scale: 1000,
            avoidance_radius: ScalarParametre { value: 50000, lo: 1000, hi: 100000 },
            view_radius: ScalarParametre { value: 100000, lo: 1000, hi: 200000 },
            cohesion_weight: ScalarParametre { value: 250, lo: 0, hi: 1000 },
            separation_weight: ScalarParametre { value: 1000, lo: 0, hi: 5000 },
            alignment_weight: ScalarParametre { value: 125, lo: 0, hi: 1000 },
            wind_direction_x: -500i64,
            wind_direction_y: -866i64,
            wind_speed: ScalarParametre { value: 100000, lo: 0, hi: 1000000 },
            flee_weight: ScalarParametre { value: 500, lo: 0, hi: 1000 },
        }
    }

    pub fn new() -> (r: Self)
        ensures
            r == Self::spec_default(),
            r.wf(),
    {
        Self::default()
    }

    /// Midpoint of the configured speed band.
    pub fn average_speed(&self) -> (r: i64)
        requires
            self.wf(),
        ensures
            r == (self.min_speed + self.max_speed) / 2,
            SPEED_RANGE_LO <= r <= SPEED_RANGE_HI,
    {
        (self.min_speed + self.max_speed) / 2
    }

    /// Smallest admissible speed value.
    pub fn lowest_speed() -> (r: i64)
        ensures
            r == SPEED_RANGE_LO,
    {
        SPEED_RANGE_LO
    }

    /// Largest admissible speed value.
    pub fn highest_speed() -> (r: i64)
        ensures
            r == SPEED_RANGE_HI,
    {
        SPEED_RANGE_HI
    }

    /// Installs a parameter's value and range, validating both: an empty
    /// range or one leaving the global bounds is rejected as
    /// [`ConfigError::InvalidRange`], a value outside the range as
    /// [`ConfigError::ValueOutOfRange`]; otherwise the entry is replaced.
    pub fn add_scalar_parametre(&mut self, p: Parametre, value: i64, lo: i64, hi: i64) -> (r:
        Result<(), ConfigError>)
        requires
            old(self).wf(),
        ensures
            final(self).wf(),
            ({
                let caps = spec_param_caps(p);
                let unchanged = *final(self) == *old(self);
                let installed = *final(self) == old(self).spec_with_param(
                    p,
                    ScalarParametre { value, lo, hi },
                );
                if !(caps.0 <= lo <= hi <= caps.1) {
                    r == Result::<(), ConfigError>::Err(ConfigError::InvalidRange) && unchanged
                } else if !(lo <= value <= hi) {
                    r == Result::<(), ConfigError>::Err(ConfigError::ValueOutOfRange) && unchanged
                } else {
                    r == Result::<(), ConfigError>::Ok(()) && installed
                }
            }),
    {
        let (cap_lo, cap_hi) = Self::param_caps(p);
        if !(cap_lo <= lo && lo <= hi && hi <= cap_hi) {
            return Err(ConfigError::InvalidRange);
        }
        if !(lo <= value && value <= hi) {
            return Err(ConfigError::ValueOutOfRange);
        }
        let sp = ScalarParametre { value, lo, hi };
        match p {
            Parametre::AvoidanceRadius => self.avoidance_radius = sp,
            Parametre::ViewRadius => self.view_radius = sp,
            Parametre::CohesionWeight => self.cohesion_weight = sp,
            Parametre::SeparationWeight => self.separation_weight = sp,
            Parametre::AlignmentWeight => self.alignment_weight = sp,
            Parametre::WindSpeed => self.wind_speed = sp,
            Parametre::FleeWeight => self.flee_weight = sp,
        }
        Ok(())
    }

    /// Replaces only the value of a parameter, keeping its range; a value
    /// outside the range is rejected and nothing changes.
    pub fn set_scalar_parametre(&mut self, p: Parametre, value: i64) -> (r: Result<
        (),
        ConfigError,
    >)
        requires
            old(self).wf(),
        ensures
            final(self).wf(),
            ({
                let sp = old(self).spec_param(p);
                let unchanged = *final(self) == *old(self);
                let installed = *final(self) == old(self).spec_with_param(
                    p,
                    ScalarParametre { value, lo: sp.lo, hi: sp.hi },
                );
                if sp.lo <= value <= sp.hi {
                    r == Result::<(), ConfigError>::Ok(()) && installed
                } else {
                    r == Result::<(), ConfigError>::Err(ConfigError::ValueOutOfRange) && unchanged
                }
            }),
    {
        let sp = self.param(p);
        if sp.lo <= value && value <= sp.hi {
            let e = ScalarParametre { value, lo: sp.lo, hi: sp.hi };
            match p {
                Parametre::AvoidanceRadius => self.avoidance_radius = e,
                Parametre::ViewRadius => self.view_radius = e,
                Parametre::CohesionWeight => self.cohesion_weight = e,
                Parametre::SeparationWeight => self.separation_weight = e,
                Parametre::AlignmentWeight => self.alignment_weight = e,
                Parametre::WindSpeed => self.wind_speed = e,
                Parametre::FleeWeight => self.flee_weight = e,
            }
            Ok(())
        } else {
            Err(ConfigError::ValueOutOfRange)
        }
    }

    /// Current value of a parameter.
    pub fn scalar_parametre(&self, p: Parametre) -> (r: i64)
        ensures
            r == self.spec_param(p).value,
    {
        self.param(p).value
    }

    /// Lower end of a parameter's valid range.
    pub fn lower_scalar_constant(&self, p: Parametre) -> (r: i64)
        ensures
            r == self.spec_param(p).lo,
    {
        self.param(p).lo
    }

    /// Upper end of a parameter's valid range.
    pub fn upper_scalar_constant(&self, p: Parametre) -> (r: i64)
        ensures
            r == self.spec_param(p).hi,
    {
        self.param(p).hi
    }

    fn param(&self, p: Parametre) -> (r: ScalarParametre)
        ensures
            r == self.spec_param(p),
    {
        match p {
            Parametre::AvoidanceRadius => self.avoidance_radius,
            Parametre::ViewRadius => self.view_radius,
            Parametre::CohesionWeight => self.cohesion_weight,
            Parametre::SeparationWeight => self.separation_weight,
            Parametre::AlignmentWeight => self.alignment_weight,
            Parametre::WindSpeed => self.wind_speed,
            Parametre::FleeWeight => self.flee_weight,
        }
    }

    fn param_caps(p: Parametre) -> (r: (i64, i64))
        ensures
            r.0 == spec_param_caps(p).0,
            r.1 == spec_param_caps(p).1,
    {
        match p {
            Parametre::AvoidanceRadius => (0, RADIUS_CAP),
            Parametre::ViewRadius => (0, RADIUS_CAP),
            Parametre::CohesionWeight => (0, UNIT),
            Parametre::SeparationWeight => (0, WEIGHT_CAP),
            Parametre::AlignmentWeight => (0, UNIT),
            Parametre::WindSpeed => (0, WIND_SPEED_CAP),
            Parametre::FleeWeight => (0, UNIT),
        }
    }
}

/// The ambient wind direction components describe a unit vector scaled
/// by [`UNIT`], up to the rounding of each component: the squared norm
/// stays within two units of [`UNIT`] in either direction.
pub open spec fn spec_wind_direction_ok(x: int, y: int) -> bool {
    &&& ((UNIT - 2) as int) * ((UNIT - 2) as int) <= x * x + y * y <= ((UNIT + 2) as int) * ((
    UNIT + 2) as int)
    &&& -(UNIT + 2) <= x <= UNIT + 2
    &&& -(UNIT + 2) <= y <= UNIT + 2
}

impl BoidConfiguration {
    /// Replaces the ambient wind direction with a new pair, atomically
    /// (the interface collaborator converts its angle into the pair): a
    /// pair that does not describe a unit vector, up to component
    /// rounding, is rejected and nothing changes.
    pub fn set_wind_direction(&mut self, x: i64, y: i64) -> (r: Result<(), ConfigError>)
        requires
            old(self).wf(),
        ensures
            final(self).wf(),
            if spec_wind_direction_ok(x as int, y as int) {
                r == Result::<(), ConfigError>::Ok(()) && *final(self) == (BoidConfiguration {
                    wind_direction_x: x,
                    wind_direction_y: y,
                    ..*old(self)
                })
            } else {
                r == Result::<(), ConfigError>::Err(ConfigError::ValueOutOfRange) && *final(self)
                    == *old(self)
            },
    {
        if x < -(UNIT + 2) || x > UNIT + 2 || y < -(UNIT + 2) || y > UNIT + 2 {
            return Err(ConfigError::ValueOutOfRange);
        }
        proof {
            assert(0 <= x * x <= 1004004 && 0 <= y * y <= 1004004) by (nonlinear_arith)
                requires
                    -1002 <= x <= 1002 && -1002 <= y <= 1002,
            ;
        }
        let n_sq = x * x + y * y;
        if (UNIT - 2) * (UNIT - 2) <= n_sq && n_sq <= (UNIT + 2) * (UNIT + 2) {
            self.wind_direction_x = x;
            self.wind_direction_y = y;
            Ok(())
        } else {
            Err(ConfigError::ValueOutOfRange)
        }
    }

    /// The ambient wind direction pair.
    pub fn wind_direction(&self) -> (r: (i64, i64))
        ensures
            r.0 == self.wind_direction_x && r.1 == self.wind_direction_y,
    {
        (self.wind_direction_x, self.wind_direction_y)
    }
}

impl Default for BoidConfiguration {
    /// The configuration every simulation starts from: a 100 to 300 pixel
    /// per second speed band and the standard rule weights.
    fn default() -> (r: Self)
        ensures
            r == Self::spec_default(),
            r.wf(),
    {
        proof {
            assert((-500int) * (-500int) + (-866int) * (-866int) == 999956) by (nonlinear_arith);
            assert(((UNIT - 2) as int) * ((UNIT - 2) as int) == 996004 && ((UNIT + 2) as int) * ((
            UNIT + 2) as int) == 1004004) by (nonlinear_arith)
                requires
                    UNIT == 1000i64,
            ;
        }
        Self {
            min_speed: 100000,
            max_speed: 300000,
            scale: 1000,
            avoidance_radius: ScalarParametre { value: 50000, lo: 1000, hi: 100000 },
            view_radius: ScalarParametre { value: 100000, lo: 1000, hi: 200000 },
            cohesion_weight: ScalarParametre { value: 250, lo: 0, hi: 1000 },
            separation_weight: ScalarParametre { value: 1000, lo: 0, hi: 5000 },
            alignment_weight: ScalarParametre { value: 125, lo: 0, hi: 1000 },
            wind_direction_x: -500,
            wind_direction_y: -866,
            wind_speed: ScalarParametre { value: 100000, lo: 0, hi: 1000000 },
            flee_weight: ScalarParametre { value: 500, lo: 0, hi: 1000 },
        }
    }
}

/// Global switches of a simulation run: population sizes and the predator
/// hunting weight.
#[derive(Clone, Copy, PartialEq, Eq, Structural, Debug)]
pub struct SimulationConfiguration {
    pub should_draw: bool,
    pub normal_boids: u32,
    pub predators: u32,
    pub predator_hunt_weight: i64,
}

impl SimulationConfiguration {
    /// The run fits the population limit (one slot is reserved for the
    /// user-controlled agent) and the hunt weight is a valid weight.
    pub open spec fn wf(self) -> bool {
        &&& self.normal_boids + self.predators + 1 <= crate::POPULATION_LIMIT
        &&& 0 <= self.predator_hunt_weight <= UNIT
    }

    /// Smallest admissible population.
    pub fn min_boids() -> (r: u32)
        ensures
            r == 0,
    {
        0
    }

    /// Largest admissible population.
    pub fn max_boids() -> (r: u32)
        ensures
            r == crate::POPULATION_LIMIT as u32,
    {
        10000
    }
}

impl Default for SimulationConfiguration {
    /// A hundred normal agents, one predator, a quarter hunt weight.
    fn default() -> (r: Self)
        ensures
            r == (SimulationConfiguration {
                should_draw: true,
                normal_boids: 100u32,
                predators: 1u32,
                predator_hunt_weight: 250i64,
            }),
            r.wf(),
    {
        Self { should_draw: true, normal_boids: 100, predators: 1, predator_hunt_weight: 250 }
    }
}

} // verus!
