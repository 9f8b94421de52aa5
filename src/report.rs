use vstd::prelude::*;

use crate::worker::WorkerPhase;

verus! {

/// How a download run ended, episode by episode.
#[derive(Clone, Copy, Debug, PartialEq, Eq, Structural)]
pub struct RunReport {
    pub completed: u64,
    pub cancelled: u64,
    /// Episodes that failed, or whose worker never reached an end.
    pub failed: u64,
}

/// How many of `phases` equal `p`.
pub open spec fn count_phase(phases: Seq<WorkerPhase>, p: WorkerPhase) -> nat
    decreases phases.len(),
{
    if phases.len() == 0 {
        0
    } else {
        count_phase(phases.drop_last(), p) + if phases.last() == p { 1nat } else { 0nat }
    }
}

/// Tallies the final phases of the workers of a run: completed, cancelled,
/// and the rest as failed.
pub fn summarize(outcomes: &Vec<WorkerPhase>) -> (r: RunReport)
    ensures
        r.completed == count_phase(outcomes@, WorkerPhase::Completed),
        r.cancelled == count_phase(outcomes@, WorkerPhase::Cancelled),
        r.completed + r.cancelled + r.failed == outcomes.len(),
{
    let mut completed: u64 = 0;
    let mut cancelled: u64 = 0;
    let mut failed: u64 = 0;
    for i in 0..outcomes.len()
        invariant
            completed == count_phase(outcomes@.subrange(0, i as int), WorkerPhase::Completed),
            cancelled == count_phase(outcomes@.subrange(0, i as int), WorkerPhase::Cancelled),
            completed + cancelled + failed == i,
            i <= outcomes.len() <= usize::MAX,
    {
        proof {
            assert(outcomes@.subrange(0, i + 1).drop_last() =~= outcomes@.subrange(0, i as int));
        }
        match outcomes[i] {
            WorkerPhase::Completed => completed = completed + 1,
            WorkerPhase::Cancelled => cancelled = cancelled + 1,
            _ => failed = failed + 1,
        }
    }
    assert(outcomes@.subrange(0, outcomes.len() as int) =~= outcomes@);
    RunReport { completed, cancelled, failed }
}

} // verus!
