//! The coarse run states the surrounding scheduler drives the simulation
//! through.
use vstd::prelude::*;

verus! {

/// Where the application as a whole stands.
#[derive(Debug, Clone, Copy, Default, Eq, PartialEq, Hash, Structural)]
pub enum AppState {
    /// Assets are still being loaded.
    #[default]
    Loading,
    /// Loading finished; about to hand over to the simulation.
    Next,
    /// The simulation is ticking.
    Running,
    /// Shutting down.
    Finished,
}

/// Where the simulation stands within a run.
#[derive(Debug, Clone, Copy, Default, Eq, PartialEq, Hash, Structural)]
pub enum SimulationState {
    /// The population is being (re)created.
    #[default]
    Setup,
    /// Agents are being stepped every tick.
    Running,
}

} // verus!
