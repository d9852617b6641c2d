//! Download retry policy.
use vstd::prelude::*;

verus! {

/// How many times a download is attempted.
pub const RETRIES: u32 = 3;

/// Seconds to wait before another attempt.
pub const RETRY_DELAY_SECS: u64 = 10;

/// Seconds allowed to connect.
pub const CONNECT_TIMEOUT_SECS: u64 = 30;

/// Seconds allowed for a whole response.
pub const READ_TIMEOUT_SECS: u64 = 600;

/// How one download attempt ended.
pub enum AttemptOutcome {
    /// The body was received.
    Received,
    /// The server answered 404 Not Found.
    NotFound,
    /// Any other failure.
    Failed,
}

/// What to do after an attempt.
pub enum NextStep {
    /// Use the body.
    Done,
    /// Wait and try again.
    Retry,
    /// Stop without a body.
    GiveUp,
}

/// The step after attempt number `attempt` (counted from 1) ended with
/// `outcome`. A received body is used. A failure is retried while attempts
/// remain, then given up. A required download (`optional == false`) treats
/// 404 like any failure; an optional one gives up on 404 at once.
pub fn next_step(attempt: u32, outcome: AttemptOutcome, optional: bool) -> (s: NextStep)
    ensures
        s == next_step_spec(attempt, outcome, optional),
{
    match outcome {
        AttemptOutcome::Received => NextStep::Done,
        AttemptOutcome::NotFound if optional => NextStep::GiveUp,
        _ => if attempt < RETRIES {
            NextStep::Retry
        } else {
            NextStep::GiveUp
        },
    }
}

/// Every download ends: once `RETRIES` attempts have been made, no retry is
/// asked for.
pub proof fn lemma_attempts_bounded(attempt: u32, outcome: AttemptOutcome, optional: bool)
    requires
        attempt >= RETRIES,
    ensures
        !(next_step_spec(attempt, outcome, optional) is Retry),
{
}

/// The retry policy: a received body is used; a 404 gives up at once on an
/// optional download; every other failure is retried exactly while fewer
/// than three attempts have been made, and given up after the third,
/// whether the download is optional or not.
pub proof fn lemma_retry_policy(attempt: u32, outcome: AttemptOutcome, optional: bool)
    ensures
        outcome is Received ==> next_step_spec(attempt, outcome, optional) is Done,
        outcome is NotFound && optional ==> next_step_spec(attempt, outcome, optional) is GiveUp,
        (outcome is Failed || (outcome is NotFound && !optional)) ==> {
            &&& (next_step_spec(attempt, outcome, optional) is Retry) == (attempt < 3)
            &&& (next_step_spec(attempt, outcome, optional) is GiveUp) == (attempt >= 3)
        },
        outcome is Failed ==> next_step_spec(attempt, outcome, true) == next_step_spec(
            attempt,
            outcome,
            false,
        ),
{
}

/// The step `next_step` takes, as a value.
pub open spec fn next_step_spec(attempt: u32, outcome: AttemptOutcome, optional: bool) -> NextStep {
    match outcome {
        AttemptOutcome::Received => NextStep::Done,
        AttemptOutcome::NotFound => if optional {
            NextStep::GiveUp
        } else if attempt < RETRIES {
            NextStep::Retry
        } else {
            NextStep::GiveUp
        },
        AttemptOutcome::Failed => if attempt < RETRIES {
            NextStep::Retry
        } else {
            NextStep::GiveUp
        },
    }
}

} // verus!
