use crate::decision::SyncDecision;
use crate::error::{Side, SyncError};
use vstd::prelude::*;

verus! {

/// One step of copying a file between the two sides.
#[derive(Clone, Copy, Debug, PartialEq, Eq, Structural)]
pub enum TransferStep {
    /// Open the local file: for reading when pushing, created for writing when pulling.
    OpenLocal,
    /// Open the remote channel: a write stream sized to the local file when
    /// pushing, a read stream when pulling.
    OpenRemote,
    /// Copy every byte from the source side to the destination side.
    CopyBytes,
    /// Signal the end of the stream on the remote channel.
    SendEof,
    /// Wait for the peer to acknowledge the end of the stream.
    WaitEof,
    /// Close the remote channel.
    CloseChannel,
    /// Wait for the peer to confirm the close.
    WaitClose,
}

/// The steps of the transfer that a decision asks for, in the order they
/// must be performed: none for an up-to-date pair, else open both sides, copy,
/// and the four steps that end the remote stream.
pub open spec fn transfer_steps(d: SyncDecision) -> Seq<TransferStep> {
    match d {
        SyncDecision::UpToDate => Seq::empty(),
        _ => seq![
            TransferStep::OpenLocal,
            TransferStep::OpenRemote,
            TransferStep::CopyBytes,
            TransferStep::SendEof,
            TransferStep::WaitEof,
            TransferStep::CloseChannel,
            TransferStep::WaitClose,
        ],
    }
}

/// The error that a failed step reports.
pub open spec fn step_error(step: TransferStep) -> SyncError {
    match step {
        TransferStep::OpenLocal => SyncError::OpenError(Side::Local),
        TransferStep::OpenRemote => SyncError::OpenError(Side::Remote),
        TransferStep::CopyBytes => SyncError::TransferIOError,
        _ => SyncError::StreamCloseError,
    }
}

/// The number of steps of a full transfer.
pub const TRANSFER_STEP_COUNT: usize = 7;

fn step_at(i: usize) -> (s: TransferStep)
    requires
        i < TRANSFER_STEP_COUNT,
    ensures
        s == transfer_steps(SyncDecision::PushToRemote)[i as int],
{
    if i == 0 {
        TransferStep::OpenLocal
    } else if i == 1 {
        TransferStep::OpenRemote
    } else if i == 2 {
        TransferStep::CopyBytes
    } else if i == 3 {
        TransferStep::SendEof
    } else if i == 4 {
        TransferStep::WaitEof
    } else if i == 5 {
        TransferStep::CloseChannel
    } else {
        TransferStep::WaitClose
    }
}

fn step_failure(step: TransferStep) -> (e: SyncError)
    ensures
        e == step_error(step),
{
    match step {
        TransferStep::OpenLocal => SyncError::OpenError(Side::Local),
        TransferStep::OpenRemote => SyncError::OpenError(Side::Remote),
        TransferStep::CopyBytes => SyncError::TransferIOError,
        _ => SyncError::StreamCloseError,
    }
}

/// The progress of one transfer: which steps have succeeded, and the step
/// that failed, if one did. A failed step ends the transfer.
pub struct Transfer {
    decision: SyncDecision,
    completed: usize,
    failed: Option<TransferStep>,
}

impl Transfer {
    pub closed spec fn decision(&self) -> SyncDecision {
        self.decision
    }

    /// How many steps have succeeded.
    pub closed spec fn completed(&self) -> nat {
        self.completed as nat
    }

    /// The error of the failed step, if one failed.
    pub closed spec fn failure(&self) -> Option<SyncError> {
        match self.failed {
            Some(step) => Some(step_error(step)),
            None => None,
        }
    }

    pub closed spec fn wf(&self) -> bool {
        self.completed <= transfer_steps(self.decision).len()
    }

    /// The step to perform next, if the transfer is still running.
    pub open spec fn pending_step(&self) -> Option<TransferStep> {
        if self.failure() is None && self.completed() < transfer_steps(self.decision()).len() {
            Some(transfer_steps(self.decision())[self.completed() as int])
        } else {
            None
        }
    }

    /// A transfer that carries out `decision`; nothing has been done yet.
    pub fn new(decision: SyncDecision) -> (t: Transfer)
        ensures
            t.wf(),
            t.decision() == decision,
            t.completed() == 0,
            t.failure() is None,
    {
        Transfer { decision, completed: 0, failed: None }
    }

    /// The decision this transfer carries out.
    pub fn direction(&self) -> (d: SyncDecision)
        ensures
            d == self.decision(),
    {
        self.decision
    }

    /// The step to perform next, or `None` once every step has succeeded or one has failed.
    pub fn next_step(&self) -> (r: Option<TransferStep>)
        requires
            self.wf(),
        ensures
            r == self.pending_step(),
    {
        if self.failed.is_some() {
            return None;
        }
        match self.decision {
            SyncDecision::UpToDate => None,
            _ => {
                if self.completed < TRANSFER_STEP_COUNT {
                    Some(step_at(self.completed))
                } else {
                    None
                }
            },
        }
    }

    /// Records how the step that `next_step` named went: on success the
    /// transfer moves to the following step, on failure it ends with that
    /// step's error.
    pub fn record_step(&mut self, succeeded: bool)
        requires
            old(self).wf(),
            old(self).pending_step() is Some,
        ensures
            final(self).wf(),
            final(self).decision() == old(self).decision(),
            succeeded ==> final(self).completed() == old(self).completed() + 1
                && final(self).failure() is None,
            !succeeded ==> final(self).completed() == old(self).completed()
                && final(self).failure() == Some(step_error(old(self).pending_step().unwrap())),
    {
        if succeeded {
            self.completed = self.completed + 1;
        } else {
            self.failed = Some(step_at(self.completed));
        }
    }

    /// How the transfer ended: `Ok` when every step succeeded, else the error
    /// of the failed step.
    pub fn outcome(&self) -> (r: Result<(), SyncError>)
        requires
            self.wf(),
            self.pending_step() is None,
        ensures
            r is Ok <==> self.failure() is None,
            r is Ok ==> self.completed() == transfer_steps(self.decision()).len(),
            r matches Err(e) ==> self.failure() == Some(e),
    {
        match self.failed {
            Some(step) => Err(step_failure(step)),
            None => Ok(()),
        }
    }
}

} // verus!
