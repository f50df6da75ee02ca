//! The one state machine every worker shares: run, and on a failed
//! receive consult the stop flag — exit if it is set, otherwise retry.

use vstd::prelude::*;

verus! {

/// What a worker's blocking receive came back with.
#[derive(Clone, Copy, PartialEq, Eq, Structural, Debug)]
pub enum RecvStatus {
    /// Work arrived.
    Received,
    /// The receive timed out idle.
    TimedOut,
    /// The sending side is gone.
    Disconnected,
}

/// What the worker loop does next.
#[derive(Clone, Copy, PartialEq, Eq, Structural, Debug)]
pub enum Decision {
    /// Run another iteration.
    Continue,
    /// Leave the loop; the handle becomes joinable.
    Exit,
}

/// A receive that brought no work.
pub open spec fn is_failure(s: RecvStatus) -> bool {
    s != RecvStatus::Received
}

/// The decision of every fan-out worker (verifier, request processor,
/// replicator): exit exactly when the receive failed and the stop flag
/// is set; a lone failure is retried, a lone stop finishes the batch in
/// hand first.
pub open spec fn spec_worker_decision(status: RecvStatus, stop: bool) -> Decision {
    if is_failure(status) && stop {
        Decision::Exit
    } else {
        Decision::Continue
    }
}

/// The decision of the sync workers, which poll the flag after every
/// drain pass: exit exactly when the stop flag is set.
pub open spec fn spec_sync_decision(stop: bool) -> Decision {
    if stop {
        Decision::Exit
    } else {
        Decision::Continue
    }
}

/// Decide one fan-out worker iteration from its receive status and the
/// stop flag.
pub fn worker_decision(status: RecvStatus, stop: bool) -> (d: Decision)
    ensures
        d == spec_worker_decision(status, stop),
{
    match status {
        RecvStatus::Received => Decision::Continue,
        _ => if stop {
            Decision::Exit
        } else {
            Decision::Continue
        },
    }
}

/// Decide one sync worker iteration from the stop flag alone.
pub fn sync_decision(stop: bool) -> (d: Decision)
    ensures
        d == spec_sync_decision(stop),
{
    if stop {
        Decision::Exit
    } else {
        Decision::Continue
    }
}

/// Shutdown liveness: once the stop flag is set, the very next receive
/// that brings no work — and a blocking receive with a timeout yields
/// one within that timeout whenever the queue is idle — makes every
/// worker exit, and the sync workers exit after their current pass
/// whatever their receive brought.
pub proof fn lemma_shutdown_liveness(status: RecvStatus)
    ensures
        is_failure(status) ==> spec_worker_decision(status, true) == Decision::Exit,
        spec_sync_decision(true) == Decision::Exit,
{
}

/// The stop flag is level triggered: while it stays clear no decision
/// ever exits, so a worker leaves only on a set flag.
pub proof fn lemma_no_spurious_exit(status: RecvStatus)
    ensures
        spec_worker_decision(status, false) == Decision::Continue,
        spec_sync_decision(false) == Decision::Continue,
{
}

} // verus!
