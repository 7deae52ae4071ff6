//! Retrying an outgoing HTTP request: up to five attempts, again after a
//! server error (5xx), a connection error or an attempt that times out;
//! any other answer is delivered as it is. The sending and the pauses are
//! the caller's; here is the decision after each attempt.
use vstd::prelude::*;

verus! {

/// Attempts per request.
pub const MAX_ATTEMPTS: u32 = 5;

/// Pause between attempts, in milliseconds.
pub const RETRY_BACKOFF_MS: u64 = 300;

/// Time an attempt may take to answer, in seconds.
pub const ATTEMPT_TIMEOUT_SECS: u64 = 20;

/// How an attempt ended.
#[derive(PartialEq, Eq, Structural, Clone, Copy, Debug)]
pub enum AttemptOutcome {
    /// An answer arrived; `server_error` when its status is 5xx.
    Answered { server_error: bool },
    /// The connection failed.
    ConnectionFailed,
    /// No answer within the attempt's time.
    TimedOut,
}

/// What follows an attempt.
#[derive(PartialEq, Eq, Structural, Clone, Copy, Debug)]
pub enum RetryDecision {
    /// Hand the answer to the caller.
    Deliver,
    /// Wait and try again.
    Retry,
    /// Fail with the last error.
    GiveUp,
}

/// The decision after attempt number `attempt` (from 1).
pub open spec fn retry_decision(attempt: u32, outcome: AttemptOutcome) -> RetryDecision {
    match outcome {
        AttemptOutcome::Answered { server_error } => if server_error && attempt < MAX_ATTEMPTS {
            RetryDecision::Retry
        } else {
            RetryDecision::Deliver
        },
        _ => if attempt < MAX_ATTEMPTS {
            RetryDecision::Retry
        } else {
            RetryDecision::GiveUp
        },
    }
}

/// The decision after attempt number `attempt`: a 5xx answer or a failed
/// attempt is retried while attempts remain; the last 5xx answer is
/// delivered as it is, the last failure gives up.
pub fn decide(attempt: u32, outcome: AttemptOutcome) -> (r: RetryDecision)
    requires
        1 <= attempt <= MAX_ATTEMPTS,
    ensures
        r == retry_decision(attempt, outcome),
{
    match outcome {
        AttemptOutcome::Answered { server_error } => {
            if server_error && attempt < MAX_ATTEMPTS {
                RetryDecision::Retry
            } else {
                RetryDecision::Deliver
            }
        },
        _ => {
            if attempt < MAX_ATTEMPTS {
                RetryDecision::Retry
            } else {
                RetryDecision::GiveUp
            }
        },
    }
}

/// A request is never tried more than `MAX_ATTEMPTS` times, and an answer
/// that is not a server error is always delivered at once.
pub proof fn retries_are_bounded(attempt: u32, outcome: AttemptOutcome)
    requires
        1 <= attempt <= MAX_ATTEMPTS,
    ensures
        retry_decision(attempt, outcome) == RetryDecision::Retry ==> attempt < MAX_ATTEMPTS,
        retry_decision(MAX_ATTEMPTS, outcome) != RetryDecision::Retry,
        outcome == (AttemptOutcome::Answered { server_error: false }) ==> retry_decision(attempt, outcome)
            == RetryDecision::Deliver,
{
}


/// Every outcome of attempt `attempt` leads to the same decision as the
/// module's rule says: an answer that is not a server error is delivered;
/// a server error, a failed connection or a timeout is retried while
/// fewer than `MAX_ATTEMPTS` attempts were made; after the last attempt a
/// server error is delivered as it is and a failure gives up.
pub proof fn each_outcome_is_decided(attempt: u32, outcome: AttemptOutcome)
    requires
        1 <= attempt <= MAX_ATTEMPTS,
    ensures
        outcome == (AttemptOutcome::Answered { server_error: false }) ==> retry_decision(attempt, outcome)
            == RetryDecision::Deliver,
        outcome != (AttemptOutcome::Answered { server_error: false }) && attempt < 5 ==> retry_decision(
            attempt,
            outcome,
        ) == RetryDecision::Retry,
        attempt == 5 ==> retry_decision(attempt, outcome) == (if outcome == (AttemptOutcome::Answered {
            server_error: true,
        }) {
            RetryDecision::Deliver
        } else if outcome == (AttemptOutcome::Answered { server_error: false }) {
            RetryDecision::Deliver
        } else {
            RetryDecision::GiveUp
        }),
{
}

} // verus!
