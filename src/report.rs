use crate::decision::SyncDecision;
use crate::error::SyncError;
use crate::plan::SyncPair;
use vstd::prelude::*;

verus! {

/// What became of one pair: the pair (absent when it could not be formed),
/// the decision taken for it, and whether its work succeeded.
#[derive(Debug, PartialEq, Eq)]
pub struct PairOutcome {
    pub pair: Option<SyncPair>,
    pub decision: Option<SyncDecision>,
    pub result: Result<(), SyncError>,
}

/// How an outcome counts in a summary.
#[derive(Clone, Copy, Debug, PartialEq, Eq, Structural)]
pub enum OutcomeKind {
    UpToDate,
    Pushed,
    Pulled,
    Failed,
}

pub open spec fn kind_spec(o: PairOutcome) -> OutcomeKind {
    if o.result is Err {
        OutcomeKind::Failed
    } else {
        match o.decision {
            Some(SyncDecision::PushToRemote) => OutcomeKind::Pushed,
            Some(SyncDecision::PullToLocal) => OutcomeKind::Pulled,
            _ => OutcomeKind::UpToDate,
        }
    }
}

/// How many of `outcomes` count as `kind`.
pub open spec fn count_kind(outcomes: Seq<PairOutcome>, kind: OutcomeKind) -> nat
    decreases outcomes.len(),
{
    if outcomes.len() == 0 {
        0
    } else {
        count_kind(outcomes.drop_last(), kind) + if kind_spec(outcomes.last()) == kind {
            1nat
        } else {
            0nat
        }
    }
}

impl PairOutcome {
    /// How this outcome counts in a summary.
    pub fn kind(&self) -> (k: OutcomeKind)
        ensures
            k == kind_spec(*self),
    {
        if self.result.is_err() {
            OutcomeKind::Failed
        } else {
            match self.decision {
                Some(SyncDecision::PushToRemote) => OutcomeKind::Pushed,
                Some(SyncDecision::PullToLocal) => OutcomeKind::Pulled,
                _ => OutcomeKind::UpToDate,
            }
        }
    }
}

/// The counts of a location's outcomes.
#[derive(Clone, Copy, Debug, PartialEq, Eq, Structural)]
pub struct LocationSummary {
    pub up_to_date: usize,
    pub pushed: usize,
    pub pulled: usize,
    pub failed: usize,
}

/// The outcomes of one location, and the error that aborted it, if one did.
#[derive(Debug, PartialEq, Eq)]
pub struct LocationReport {
    pub name: String,
    pub outcomes: Vec<PairOutcome>,
    pub aborted: Option<SyncError>,
}

impl LocationReport {
    /// Whether the location was not aborted and none of its pairs failed.
    pub open spec fn succeeded_spec(&self) -> bool {
        self.aborted is None && count_kind(self.outcomes@, OutcomeKind::Failed) == 0
    }

    /// An empty report for the location called `name`.
    pub fn new(name: String) -> (r: LocationReport)
        ensures
            r.name == name,
            r.outcomes@.len() == 0,
            r.aborted is None,
    {
        LocationReport { name, outcomes: Vec::new(), aborted: None }
    }

    /// Adds the outcome of one more pair.
    pub fn record(&mut self, outcome: PairOutcome)
        ensures
            final(self).name == old(self).name,
            final(self).outcomes@ == old(self).outcomes@.push(outcome),
            final(self).aborted == old(self).aborted,
    {
        self.outcomes.push(outcome);
    }

    /// Marks the location as aborted by `error`; the outcomes recorded so far stay.
    pub fn abort(&mut self, error: SyncError)
        ensures
            final(self).name == old(self).name,
            final(self).outcomes@ == old(self).outcomes@,
            final(self).aborted == Some(error),
    {
        self.aborted = Some(error);
    }

    /// The number of outcomes of each kind.
    pub fn summary(&self) -> (s: LocationSummary)
        ensures
            s.up_to_date == count_kind(self.outcomes@, OutcomeKind::UpToDate),
            s.pushed == count_kind(self.outcomes@, OutcomeKind::Pushed),
            s.pulled == count_kind(self.outcomes@, OutcomeKind::Pulled),
            s.failed == count_kind(self.outcomes@, OutcomeKind::Failed),
    {
        let mut s = LocationSummary { up_to_date: 0, pushed: 0, pulled: 0, failed: 0 };
        let mut i: usize = 0;
        while i < self.outcomes.len()
            invariant
                i <= self.outcomes@.len(),
                s.up_to_date == count_kind(self.outcomes@.take(i as int), OutcomeKind::UpToDate),
                s.pushed == count_kind(self.outcomes@.take(i as int), OutcomeKind::Pushed),
                s.pulled == count_kind(self.outcomes@.take(i as int), OutcomeKind::Pulled),
                s.failed == count_kind(self.outcomes@.take(i as int), OutcomeKind::Failed),
                s.up_to_date + s.pushed + s.pulled + s.failed == i,
            decreases self.outcomes@.len() - i,
        {
            let k = self.outcomes[i].kind();
            proof {
                let t = self.outcomes@.take(i + 1);
                assert(t.drop_last() =~= self.outcomes@.take(i as int));
                assert(t.last() == self.outcomes@[i as int]);
            }
            match k {
                OutcomeKind::UpToDate => s.up_to_date = s.up_to_date + 1,
                OutcomeKind::Pushed => s.pushed = s.pushed + 1,
                OutcomeKind::Pulled => s.pulled = s.pulled + 1,
                OutcomeKind::Failed => s.failed = s.failed + 1,
            }
            i = i + 1;
        }
        proof {
            assert(self.outcomes@.take(i as int) =~= self.outcomes@);
        }
        s
    }

    /// Whether the location was not aborted and none of its pairs failed.
    pub fn succeeded(&self) -> (r: bool)
        ensures
            r == self.succeeded_spec(),
    {
        if self.aborted.is_some() {
            return false;
        }
        let s = self.summary();
        s.failed == 0
    }
}

/// Whether a run goes on to the next location after one that did not succeed.
#[derive(Clone, Copy, Debug, PartialEq, Eq, Structural)]
pub struct SyncPolicy {
    pub continue_on_error: bool,
}

impl SyncPolicy {
    /// The default policy: a failed location is reported and the run goes on.
    pub fn continuing() -> (p: SyncPolicy)
        ensures
            p.continue_on_error,
    {
        SyncPolicy { continue_on_error: true }
    }

    /// A policy that stops the run at the first location that does not succeed.
    pub fn stopping() -> (p: SyncPolicy)
        ensures
            !p.continue_on_error,
    {
        SyncPolicy { continue_on_error: false }
    }
}

impl Default for SyncPolicy {
    /// The chosen default is the continuing policy: one location's failure
    /// is reported and the run goes on to the next location.
    fn default() -> (p: SyncPolicy)
        ensures
            p.continue_on_error,
    {
        SyncPolicy::continuing()
    }
}

/// The reports of the locations processed so far, in declared order.
#[derive(Debug, PartialEq, Eq)]
pub struct RunReport {
    pub locations: Vec<LocationReport>,
}

/// Whether every report in `reports` succeeded.
pub open spec fn all_succeeded_spec(reports: Seq<LocationReport>) -> bool {
    forall|i: int| 0 <= i < reports.len() ==> #[trigger] reports[i].succeeded_spec()
}

impl RunReport {
    /// A report with no location yet.
    pub fn new() -> (r: RunReport)
        ensures
            r.locations@.len() == 0,
    {
        RunReport { locations: Vec::new() }
    }

    /// Adds the report of the next location.
    pub fn add(&mut self, report: LocationReport)
        ensures
            final(self).locations@ == old(self).locations@.push(report),
    {
        self.locations.push(report);
    }

    /// Whether every location so far succeeded with every pair.
    pub fn all_succeeded(&self) -> (r: bool)
        ensures
            r == all_succeeded_spec(self.locations@),
    {
        let mut i: usize = 0;
        while i < self.locations.len()
            invariant
                i <= self.locations@.len(),
                forall|k: int| 0 <= k < i ==> #[trigger] self.locations@[k].succeeded_spec(),
            decreases self.locations@.len() - i,
        {
            if !self.locations[i].succeeded() {
                return false;
            }
            i = i + 1;
        }
        true
    }

    /// Whether the run goes on to the next location: always under a
    /// continuing policy, else only while every location so far succeeded.
    pub fn should_continue(&self, policy: SyncPolicy) -> (r: bool)
        ensures
            r == (policy.continue_on_error || all_succeeded_spec(self.locations@)),
    {
        if policy.continue_on_error {
            true
        } else {
            self.all_succeeded()
        }
    }
}

} // verus!
