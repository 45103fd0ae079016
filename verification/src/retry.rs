//! Bounded retry for one remote operation.
//!
//! Each attempt's outcome is classified as success, a terminal application
//! error (the remote service rejected the request — never retried), or a
//! transient transport/server failure (retried after a fixed backoff).
//! After [`MAX_ATTEMPTS`] transient failures the operation is abandoned.

use vstd::prelude::*;

verus! {

/// The attempt ceiling: a fetch is tried at most this many times.
pub const MAX_ATTEMPTS: u8 = 3;

/// The fixed pause, in seconds, before a retry; it does not grow.
pub const BACKOFF_SECS: u64 = 3;

/// How one attempt of the remote operation ended, as the caller saw it.
#[derive(Clone, Copy, Debug, PartialEq, Eq, Structural)]
pub enum FetchOutcome {
    /// The operation returned its result.
    Success,
    /// The remote service rejected the request semantically.
    ApiError,
    /// The service answered but is unavailable; its verbose body is not
    /// worth logging.
    ServiceUnavailable,
    /// Some other transport failure.
    TransportError,
}

/// What the fetcher does after classifying an attempt.
#[derive(Clone, Copy, Debug, PartialEq, Eq, Structural)]
pub enum RetryDecision {
    /// Stop: hand the response to the caller.
    Finish,
    /// Stop: surface the terminal error, never retry.
    Abandon,
    /// Transient: wait [`BACKOFF_SECS`] and try again if attempts remain.
    RetryAfterBackoff,
}

/// The fetcher's state: how many transient failures have been recorded.
#[derive(Clone, Copy, Debug, PartialEq, Eq, Structural)]
pub struct RetryState {
    pub failures: u8,
}

/// Whether an outcome is retried rather than ending the operation.
pub open spec fn spec_transient(o: FetchOutcome) -> bool {
    o is ServiceUnavailable || o is TransportError
}

/// The decision taken on each outcome.
pub open spec fn spec_decision(o: FetchOutcome) -> RetryDecision {
    match o {
        FetchOutcome::Success => RetryDecision::Finish,
        FetchOutcome::ApiError => RetryDecision::Abandon,
        FetchOutcome::ServiceUnavailable => RetryDecision::RetryAfterBackoff,
        FetchOutcome::TransportError => RetryDecision::RetryAfterBackoff,
    }
}

/// The state after recording one outcome.
pub open spec fn spec_step(st: RetryState, o: FetchOutcome) -> RetryState {
    if spec_transient(o) && st.failures < MAX_ATTEMPTS {
        RetryState { failures: (st.failures + 1) as u8 }
    } else {
        st
    }
}

impl RetryState {
    /// A fresh operation: no failures yet.
    pub fn new() -> (r: RetryState)
        ensures
            r.failures == 0,
    {
        RetryState { failures: 0 }
    }

    /// True when the attempt ceiling is reached: the fetcher must not
    /// attempt again, and reports the operation abandoned.
    pub fn exhausted(&self) -> (r: bool)
        ensures
            r == (self.failures >= MAX_ATTEMPTS),
    {
        self.failures >= MAX_ATTEMPTS
    }

    /// Record one attempt's outcome and decide what to do next.
    pub fn record(&mut self, o: FetchOutcome) -> (r: RetryDecision)
        requires
            old(self).failures < MAX_ATTEMPTS,
        ensures
            *final(self) == spec_step(*old(self), o),
            r == spec_decision(o),
    {
        match o {
            FetchOutcome::Success => RetryDecision::Finish,
            FetchOutcome::ApiError => RetryDecision::Abandon,
            FetchOutcome::ServiceUnavailable => {
                self.failures = self.failures + 1;
                RetryDecision::RetryAfterBackoff
            },
            FetchOutcome::TransportError => {
                self.failures = self.failures + 1;
                RetryDecision::RetryAfterBackoff
            },
        }
    }
}

/// The state after `k` consecutive transient outcomes.
pub open spec fn spec_after_transients(k: nat) -> RetryState
    decreases k,
{
    if k == 0 {
        RetryState { failures: 0 }
    } else {
        spec_step(spec_after_transients((k - 1) as nat), FetchOutcome::TransportError)
    }
}

proof fn lemma_after_transients_count(k: nat)
    requires
        k <= MAX_ATTEMPTS,
    ensures
        spec_after_transients(k).failures == k,
    decreases k,
{
    if k > 0 {
        lemma_after_transients_count((k - 1) as nat);
    }
}

/// Law: an operation whose every attempt fails transiently is attempted
/// exactly [`MAX_ATTEMPTS`] times. Before each of those attempts the
/// fetcher is not exhausted; after the last it is, so no further attempt
/// is ever made and the operation is reported abandoned.
pub proof fn lemma_retry_ceiling()
    ensures
        forall|k: nat| k < MAX_ATTEMPTS ==> (#[trigger] spec_after_transients(k)).failures
            < MAX_ATTEMPTS,
        spec_after_transients(MAX_ATTEMPTS as nat).failures >= MAX_ATTEMPTS,
        forall|o: FetchOutcome| spec_transient(o) ==> spec_decision(o)
            == RetryDecision::RetryAfterBackoff,
{
    assert forall|k: nat| k < MAX_ATTEMPTS implies (#[trigger] spec_after_transients(k)).failures
        < MAX_ATTEMPTS by {
        lemma_after_transients_count(k);
    }
    lemma_after_transients_count(MAX_ATTEMPTS as nat);
}

} // verus!
