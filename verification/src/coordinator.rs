//! The access coordinator's decision core.
//!
//! The runtime around the store (a worker pool, a readers-writer lock, a
//! bounded wait) is plumbing; what is verified here is every decision it
//! takes: the state machine of one mutation request. The runtime feeds each
//! request's next observation into [`coordinator_step`] and performs the
//! action handed back; deferred work goes into the [`ProcessQueue`].
//!
//! A request moves `Submitted → WaitingForLock`, then either
//! `Executing → Completed` (persistence starts off the critical path), or
//! `WaitingFailed → Queued | Rejected` with the caller told the store is
//! busy — the retryable outcome.

use vstd::prelude::*;
use crate::error::InternalError;

verus! {

/// Where one mutation request stands.
#[derive(Clone, Copy, PartialEq, Eq, Structural, Debug)]
pub enum MutationState {
    Submitted,
    WaitingForLock,
    Executing,
    Completed,
    WaitingFailed,
    Queued,
    Rejected,
}

/// What the runtime observed for a request.
#[derive(Clone, Copy, PartialEq, Eq, Structural, Debug)]
pub enum MutationEvent {
    PoolAccepted,
    LockAcquired,
    WaitTimedOut,
    ClosureFinished,
    DeferralAccepted,
    DeferralRefused,
}

/// What the runtime must do next for a request.
#[derive(Clone, Copy, PartialEq, Eq, Structural, Debug)]
pub enum CoordinatorAction {
    /// Wait, with the bounded timeout, for exclusive access.
    AwaitLock,
    /// Run the mutation closure under the exclusive lock.
    RunClosure,
    /// Kick off the asynchronous snapshot save; the mutation succeeded.
    StartPersist,
    /// Hand the closure to the retry queue.
    Defer,
    /// Fail the caller with `BusyCache`; the work may have been queued.
    ReportBusy,
    /// Nothing to do; the observation does not move this request.
    Ignore,
}

/// The transition table of one mutation request. Any observation that has
/// no transition from the current state leaves the request where it is.
pub open spec fn spec_coordinator_step(s: MutationState, e: MutationEvent) -> (
    MutationState,
    CoordinatorAction,
) {
    match (s, e) {
        (MutationState::Submitted, MutationEvent::PoolAccepted) => (
            MutationState::WaitingForLock,
            CoordinatorAction::AwaitLock,
        ),
        (MutationState::WaitingForLock, MutationEvent::LockAcquired) => (
            MutationState::Executing,
            CoordinatorAction::RunClosure,
        ),
        (MutationState::WaitingForLock, MutationEvent::WaitTimedOut) => (
            MutationState::WaitingFailed,
            CoordinatorAction::Defer,
        ),
        (MutationState::Executing, MutationEvent::ClosureFinished) => (
            MutationState::Completed,
            CoordinatorAction::StartPersist,
        ),
        (MutationState::WaitingFailed, MutationEvent::DeferralAccepted) => (
            MutationState::Queued,
            CoordinatorAction::ReportBusy,
        ),
        (MutationState::WaitingFailed, MutationEvent::DeferralRefused) => (
            MutationState::Rejected,
            CoordinatorAction::ReportBusy,
        ),
        _ => (s, CoordinatorAction::Ignore),
    }
}

/// Take one step of a mutation request's state machine.
pub fn coordinator_step(s: MutationState, e: MutationEvent) -> (r: (
    MutationState,
    CoordinatorAction,
))
    ensures
        r == spec_coordinator_step(s, e),
{
    match (s, e) {
        (MutationState::Submitted, MutationEvent::PoolAccepted) => (
            MutationState::WaitingForLock,
            CoordinatorAction::AwaitLock,
        ),
        (MutationState::WaitingForLock, MutationEvent::LockAcquired) => (
            MutationState::Executing,
            CoordinatorAction::RunClosure,
        ),
        (MutationState::WaitingForLock, MutationEvent::WaitTimedOut) => (
            MutationState::WaitingFailed,
            CoordinatorAction::Defer,
        ),
        (MutationState::Executing, MutationEvent::ClosureFinished) => (
            MutationState::Completed,
            CoordinatorAction::StartPersist,
        ),
        (MutationState::WaitingFailed, MutationEvent::DeferralAccepted) => (
            MutationState::Queued,
            CoordinatorAction::ReportBusy,
        ),
        (MutationState::WaitingFailed, MutationEvent::DeferralRefused) => (
            MutationState::Rejected,
            CoordinatorAction::ReportBusy,
        ),
        _ => (s, CoordinatorAction::Ignore),
    }
}

/// The state a request reaches after a sequence of observations.
pub open spec fn run_trace(s: MutationState, es: Seq<MutationEvent>) -> MutationState
    decreases es.len(),
{
    if es.len() == 0 {
        s
    } else {
        run_trace(spec_coordinator_step(s, es.first()).0, es.drop_first())
    }
}

/// A finished request stays finished: `Completed`, `Queued` and `Rejected`
/// absorb every further observation.
pub proof fn lemma_terminal_states_absorb(s: MutationState, e: MutationEvent)
    requires
        s is Completed || s is Queued || s is Rejected,
    ensures
        spec_coordinator_step(s, e).0 == s,
        spec_coordinator_step(s, e).1 == CoordinatorAction::Ignore,
{
}

/// The mutation closure runs only on acquiring the exclusive lock: no
/// reader or racing writer sees it run otherwise.
pub proof fn lemma_closure_runs_only_under_lock(s: MutationState, e: MutationEvent)
    requires
        spec_coordinator_step(s, e).1 == CoordinatorAction::RunClosure,
    ensures
        s is WaitingForLock,
        e is LockAcquired,
        spec_coordinator_step(s, e).0 is Executing,
{
}

/// The caller is told the store is busy only after the bounded wait timed
/// out; `BusyCache` is never reported for a request that acquired the lock.
pub proof fn lemma_busy_only_after_timeout(s: MutationState, e: MutationEvent)
    requires
        spec_coordinator_step(s, e).1 == CoordinatorAction::ReportBusy,
    ensures
        s is WaitingFailed,
{
}

/// A request completes only if the exclusive lock was acquired somewhere
/// along its run: a mutation that never held the lock cannot have applied.
pub proof fn lemma_completion_needs_lock(s: MutationState, es: Seq<MutationEvent>)
    requires
        !(s is Completed),
        !(s is Executing),
        run_trace(s, es) is Completed,
    ensures
        es.contains(MutationEvent::LockAcquired),
    decreases es.len(),
{
    let e = es.first();
    let s1 = spec_coordinator_step(s, e).0;
    let rest = es.drop_first();
    if s1 is Executing {
        assert(e == MutationEvent::LockAcquired);
        assert(es[0] == e);
    } else {
        assert(!(s1 is Completed));
        lemma_completion_needs_lock(s1, rest);
        let i = choose|i: int| 0 <= i < rest.len() && rest[i] == MutationEvent::LockAcquired;
        assert(es[i + 1] == MutationEvent::LockAcquired);
    }
}

/// The FIFO of deferred mutations: work the coordinator could not run
/// within the bounded wait, remembered by ticket for later replay. Nothing
/// drains it here — no replay path exists yet, only deferral.
pub struct ProcessQueue {
    dynamic_process: Vec<u64>,
}

impl ProcessQueue {
    /// The queued tickets, oldest first.
    pub closed spec fn queue(&self) -> Seq<u64> {
        self.dynamic_process@
    }

    /// An empty queue.
    pub fn new() -> (q: ProcessQueue)
        ensures
            q.queue() == Seq::<u64>::empty(),
    {
        ProcessQueue { dynamic_process: Vec::new() }
    }

    /// How many tickets wait.
    pub fn len(&self) -> (n: usize)
        ensures
            n == self.queue().len(),
    {
        self.dynamic_process.len()
    }

    /// Defer one ticket to the back of the queue.
    pub fn add_to_queue(&mut self, work: u64) -> (res: Result<(), InternalError>)
        ensures
            res is Ok,
            final(self).queue() == old(self).queue().push(work),
    {
        self.dynamic_process.push(work);
        Ok(())
    }
}

} // verus!
