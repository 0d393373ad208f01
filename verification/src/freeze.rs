//! Decisions of the freeze orchestrator.
//!
//! The binary owns the task pool, the semaphores and the clock; the
//! decisions — whether to dispatch, whether to skip, which error a
//! partition keeps, and how the run's summary grows — live here.

use vstd::prelude::*;
use crate::error::CollectError;
use crate::partitions::Partition;
use crate::summaries::FreezeSummary;

verus! {

/// How one partition ended.
#[derive(Debug)]
pub enum ChunkOutcome {
    /// Its output was written.
    Completed,
    /// Its output already existed and the run does not overwrite.
    Skipped,
    /// It failed with this error.
    Errored(CollectError),
}

/// A partition is skipped exactly when all its output files already
/// exist and the run does not overwrite: no request is issued for it,
/// so a resumed run leaves finished output untouched.
pub fn should_skip(files_exist: bool, overwrite: bool) -> (r: bool)
    ensures
        r == (files_exist && !overwrite),
{
    files_exist && !overwrite
}

/// A new partition is dispatched exactly while no cancellation has
/// been seen: after the cancel signal, no further partition starts.
pub fn should_dispatch(cancelled: bool) -> (r: bool)
    ensures
        r == !cancelled,
{
    !cancelled
}

/// The error a partition keeps: the first error wins, so a
/// cancellation is recorded only when nothing failed earlier.
pub fn record_error(existing: Option<CollectError>, incoming: CollectError) -> (r: CollectError)
    ensures
        match existing {
            Some(e) => r == e,
            None => r == incoming,
        },
{
    match existing {
        Some(e) => e,
        None => incoming,
    }
}

impl FreezeSummary {
    /// How many partitions the summary accounts for, over all three
    /// lists.
    pub open spec fn spec_n_recorded(self) -> int {
        self.completed@.len() as int + self.skipped@.len() + self.errored@.len()
    }

    /// Records one partition's outcome in exactly one of the three
    /// lists.
    pub fn record(&mut self, partition: Partition, outcome: ChunkOutcome)
        ensures
            final(self).spec_n_recorded() == old(self).spec_n_recorded() + 1,
            match outcome {
                ChunkOutcome::Completed => {
                    &&& final(self).completed@ == old(self).completed@.push(partition)
                    &&& final(self).skipped@ == old(self).skipped@
                    &&& final(self).errored@ == old(self).errored@
                },
                ChunkOutcome::Skipped => {
                    &&& final(self).completed@ == old(self).completed@
                    &&& final(self).skipped@ == old(self).skipped@.push(partition)
                    &&& final(self).errored@ == old(self).errored@
                },
                ChunkOutcome::Errored(e) => {
                    &&& final(self).completed@ == old(self).completed@
                    &&& final(self).skipped@ == old(self).skipped@
                    &&& final(self).errored@ == old(self).errored@.push(
                        (Option::Some(partition), e),
                    )
                },
            },
    {
        match outcome {
            ChunkOutcome::Completed => self.completed.push(partition),
            ChunkOutcome::Skipped => self.skipped.push(partition),
            ChunkOutcome::Errored(e) => self.errored.push((Some(partition), e)),
        }
    }

    /// Records a failure that struck before any partition dispatched.
    pub fn record_preflight_error(&mut self, error: CollectError)
        ensures
            final(self).completed@ == old(self).completed@,
            final(self).skipped@ == old(self).skipped@,
            final(self).errored@ == old(self).errored@.push((Option::None, error)),
    {
        self.errored.push((None, error));
    }
}

} // verus!
