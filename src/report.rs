//! The outcome of one synchronisation job.
use vstd::prelude::*;
use crate::datapoint::MappingError;

verus! {

/// Why a unit of work of a job failed.
#[derive(Debug)]
pub enum SyncError {
    /// A source or the goal tracker could not be reached or read.
    Transport(String),
    /// A source record could not become a datapoint.
    Mapping(MappingError),
    /// The classifier call failed.
    Classification(String),
    /// A creation or deletion in the goal tracker failed.
    TargetWrite(String),
}

/// What a job did: the failures of single units do not stop the others, and
/// the job fails when any unit failed.
#[derive(Debug)]
pub struct RunReport {
    pub created: u64,
    pub deleted: u64,
    pub failures: Vec<SyncError>,
}

impl RunReport {
    /// A report of a job that has done nothing yet.
    pub fn new() -> (r: RunReport)
        ensures
            r.created == 0 && r.deleted == 0 && r.failures@.len() == 0,
    {
        RunReport { created: 0, deleted: 0, failures: Vec::new() }
    }

    /// Counts one creation (saturating).
    pub fn record_created(&mut self)
        ensures
            final(self).created == if old(self).created < u64::MAX {
                old(self).created + 1
            } else {
                old(self).created as int
            },
            final(self).deleted == old(self).deleted,
            final(self).failures@ == old(self).failures@,
    {
        if self.created < u64::MAX {
            self.created = self.created + 1;
        }
    }

    /// Counts one deletion (saturating).
    pub fn record_deleted(&mut self)
        ensures
            final(self).deleted == if old(self).deleted < u64::MAX {
                old(self).deleted + 1
            } else {
                old(self).deleted as int
            },
            final(self).created == old(self).created,
            final(self).failures@ == old(self).failures@,
    {
        if self.deleted < u64::MAX {
            self.deleted = self.deleted + 1;
        }
    }

    /// Records the failure of one unit of work.
    pub fn record_failure(&mut self, e: SyncError)
        ensures
            final(self).failures@ == old(self).failures@.push(e),
            final(self).created == old(self).created,
            final(self).deleted == old(self).deleted,
    {
        self.failures.push(e);
    }

    /// Whether the job succeeded: no unit failed.
    pub fn succeeded(&self) -> (r: bool)
        ensures
            r == (self.failures@.len() == 0),
    {
        self.failures.len() == 0
    }
}

/// The outcome of one step of a unit of work (a record, or a day).
#[derive(Debug)]
pub enum StepOutcome {
    Created,
    Deleted,
    Failed(SyncError),
}

/// What a job does after a step.
#[derive(Clone, Copy, Debug, PartialEq, Eq, Structural)]
pub enum NextAction {
    /// Go on with the next step of the same unit.
    ContinueUnit,
    /// Skip the rest of this unit and go on with the next unit.
    NextUnit,
}

impl RunReport {
    /// Records the outcome of a step and says what comes next. A failure ends
    /// only its own unit: the job goes on with the next record or day, and
    /// the failure is kept for the job's result.
    pub fn after_step(&mut self, outcome: StepOutcome) -> (r: NextAction)
        ensures
            outcome is Failed ==> r == NextAction::NextUnit && final(self).failures@ == old(
                self,
            ).failures@.push(outcome->Failed_0) && final(self).created == old(self).created
                && final(self).deleted == old(self).deleted,
            outcome is Created ==> r == NextAction::ContinueUnit && final(self).created == (if old(
                self,
            ).created < u64::MAX {
                old(self).created + 1
            } else {
                old(self).created as int
            }) && final(self).deleted == old(self).deleted && final(self).failures@ == old(
                self,
            ).failures@,
            outcome is Deleted ==> r == NextAction::ContinueUnit && final(self).deleted == (if old(
                self,
            ).deleted < u64::MAX {
                old(self).deleted + 1
            } else {
                old(self).deleted as int
            }) && final(self).created == old(self).created && final(self).failures@ == old(
                self,
            ).failures@,
    {
        match outcome {
            StepOutcome::Created => {
                self.record_created();
                NextAction::ContinueUnit
            },
            StepOutcome::Deleted => {
                self.record_deleted();
                NextAction::ContinueUnit
            },
            StepOutcome::Failed(e) => {
                self.record_failure(e);
                NextAction::NextUnit
            },
        }
    }

    /// The job's result: the numbers of creations and deletions when no unit
    /// failed, else every failure, in order.
    pub fn finish(self) -> (r: Result<(u64, u64), Vec<SyncError>>)
        ensures
            r is Ok <==> self.failures@.len() == 0,
            r is Ok ==> r->Ok_0 == (self.created, self.deleted),
            r is Err ==> r->Err_0@ == self.failures@,
    {
        if self.failures.len() == 0 {
            Ok((self.created, self.deleted))
        } else {
            Err(self.failures)
        }
    }
}

} // verus!
