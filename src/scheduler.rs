use vstd::prelude::*;
use crate::pipeline::Failure;

verus! {

/// Whether a pipeline run is under way.
#[derive(Debug, Clone, Copy, PartialEq, Eq, Structural)]
pub enum Phase {
    Idle,
    Running,
}

/// What to do with a timer tick.
#[derive(Debug, Clone, Copy, PartialEq, Eq, Structural)]
pub enum TickAction {
    /// Start a fresh run.
    StartRun,
    /// A run is still under way: drop this tick.
    Skip,
}

/// The phase and action that follow a tick.
pub open spec fn tick_spec(phase: Phase) -> (Phase, TickAction) {
    match phase {
        Phase::Idle => (Phase::Running, TickAction::StartRun),
        Phase::Running => (Phase::Running, TickAction::Skip),
    }
}

/// The phase once a run has ended, whatever its result.
pub open spec fn run_end_spec(phase: Phase, result: Result<(), Failure>) -> Phase {
    Phase::Idle
}

/// A tick starts a run from Idle; while a run is under way it is dropped, so
/// runs never overlap.
pub fn on_tick(phase: Phase) -> (r: (Phase, TickAction))
    ensures
        r == tick_spec(phase),
{
    match phase {
        Phase::Idle => (Phase::Running, TickAction::StartRun),
        Phase::Running => (Phase::Running, TickAction::Skip),
    }
}

/// A run that ended, with success or with a failure, returns the scheduler
/// to Idle; no failure is fatal.
pub fn on_run_end(phase: Phase, result: &Result<(), Failure>) -> (r: Phase)
    ensures
        r == run_end_spec(phase, *result),
        r == Phase::Idle,
{
    Phase::Idle
}

/// After a run that failed at any stage (a fetch that hit the network, say),
/// the next tick starts a fresh run.
pub proof fn lemma_failed_run_leaves_next_tick_free(failure: Failure)
    ensures
        run_end_spec(Phase::Running, Err(failure)) == Phase::Idle,
        tick_spec(run_end_spec(Phase::Running, Err(failure))) == (Phase::Running, TickAction::StartRun),
{
}

} // verus!
