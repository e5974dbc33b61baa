//! The order of the phases.

use vstd::prelude::*;

use super::phase::BootstrapPhase;

verus! {

/// Runs the phases in their order.
#[derive(Clone, Copy, Debug)]
pub struct BootstrapPhaseRunner;

impl BootstrapPhaseRunner {
    /// The runner of the usual order.
    pub fn canonical() -> (r: BootstrapPhaseRunner)
        ensures
            r == BootstrapPhaseRunner,
    {
        BootstrapPhaseRunner
    }

    /// The order.
    pub fn phase_order(self) -> (phases: [BootstrapPhase; 8])
        ensures
            phases@ == super::phase::phase_order(),
    {
        BootstrapPhase::all()
    }
}

impl Default for BootstrapPhaseRunner {
    fn default() -> (r: Self)
        ensures
            r == BootstrapPhaseRunner,
    {
        BootstrapPhaseRunner
    }
}

} // verus!
