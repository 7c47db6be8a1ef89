use crate::decision::SyncDecision;
use crate::error::SyncError;
use crate::plan::SyncPair;
use crate::report::PairOutcome;
use crate::transfer::{transfer_steps, Transfer, TransferStep};
use vstd::prelude::*;

verus! {

/// The work on one pair: the decision taken for it, or the error that
/// prevented one, and the transfer that carries the decision out.
pub struct PairSync {
    pair: SyncPair,
    assessed: Result<SyncDecision, SyncError>,
    transfer: Transfer,
}

impl PairSync {
    pub closed spec fn pair(&self) -> SyncPair {
        self.pair
    }

    /// The decision for the pair, or the error that prevented one.
    pub closed spec fn assessed(&self) -> Result<SyncDecision, SyncError> {
        self.assessed
    }

    pub closed spec fn transfer(&self) -> Transfer {
        self.transfer
    }

    pub open spec fn wf(&self) -> bool {
        &&& self.transfer().wf()
        &&& self.assessed() matches Ok(d) ==> self.transfer().decision() == d
        &&& self.assessed() is Err ==> transfer_steps(self.transfer().decision()).len() == 0
    }

    /// The step to perform next: none when no decision could be taken.
    pub open spec fn pending_step(&self) -> Option<TransferStep> {
        self.transfer().pending_step()
    }

    /// Starts the work on `pair` from its assessment: a decision starts its
    /// transfer, an error leaves nothing to do.
    pub fn new(pair: SyncPair, assessed: Result<SyncDecision, SyncError>) -> (s: PairSync)
        ensures
            s.wf(),
            s.pair() == pair,
            s.assessed() == assessed,
            s.transfer().completed() == 0,
            s.transfer().failure() is None,
    {
        let decision = match &assessed {
            Ok(d) => *d,
            Err(_) => SyncDecision::UpToDate,
        };
        PairSync { pair, assessed, transfer: Transfer::new(decision) }
    }

    /// The step to perform next, or `None` once the work on the pair is over.
    pub fn next_step(&self) -> (r: Option<TransferStep>)
        requires
            self.wf(),
        ensures
            r == self.pending_step(),
    {
        self.transfer.next_step()
    }

    /// Records how the step that `next_step` named went.
    pub fn record_step(&mut self, succeeded: bool)
        requires
            old(self).wf(),
            old(self).pending_step() is Some,
        ensures
            final(self).wf(),
            final(self).pair() == old(self).pair(),
            final(self).assessed() == old(self).assessed(),
            final(self).transfer().decision() == old(self).transfer().decision(),
            succeeded ==> final(self).transfer().completed() == old(self).transfer().completed() + 1
                && final(self).transfer().failure() is None,
            !succeeded ==> final(self).transfer().completed() == old(self).transfer().completed()
                && final(self).transfer().failure() == Some(
                crate::transfer::step_error(old(self).pending_step().unwrap()),
            ),
    {
        self.transfer.record_step(succeeded);
    }

    /// The outcome of the pair once its work is over: the error that
    /// prevented a decision, else the decision and how its transfer ended.
    pub fn finish(self) -> (o: PairOutcome)
        requires
            self.wf(),
            self.pending_step() is None,
        ensures
            o.pair == Some(self.pair()),
            self.assessed() matches Err(e) ==> o.decision is None && o.result == Err::<(), SyncError>(e),
            self.assessed() matches Ok(d) ==> o.decision == Some(d) && (o.result is Ok
                <==> self.transfer().failure() is None) && (o.result matches Err(e)
                ==> self.transfer().failure() == Some(e)),
            self.assessed() is Ok && o.result is Ok ==> self.transfer().completed() == transfer_steps(
                self.transfer().decision(),
            ).len(),
    {
        let (decision, result) = match self.assessed {
            Ok(d) => (Some(d), self.transfer.outcome()),
            Err(e) => (None, Err(e)),
        };
        PairOutcome { pair: Some(self.pair), decision, result }
    }
}

} // verus!
