//! When replacing an artifact file tries again: a persist refused for want of
//! permission is retried, with a growing pause, until the attempts run out.
use vstd::prelude::*;

verus! {

/// How many times a replacement is tried in all.
pub const PERSIST_ATTEMPTS: usize = 4;

/// The pause after the first refused attempt, in milliseconds; the `n`-th pause is `n`
/// times as long.
pub const PERSIST_BACKOFF_MS: u64 = 25;

/// Whether to try again after attempt number `attempt` (counted from one) failed: only
/// when the failure was a refused permission and attempts remain.
pub fn persist_should_retry(attempt: usize, permission_denied: bool) -> (r: bool)
    ensures
        r == (permission_denied && attempt < PERSIST_ATTEMPTS),
{
    permission_denied && attempt < PERSIST_ATTEMPTS
}

/// The pause, in milliseconds, before trying again after attempt number `attempt`.
pub fn persist_backoff_millis(attempt: usize) -> (ms: u64)
    requires
        attempt < PERSIST_ATTEMPTS,
    ensures
        ms == PERSIST_BACKOFF_MS * attempt,
{
    PERSIST_BACKOFF_MS * attempt as u64
}

/// How one persist attempt ended.
pub enum PersistOutcome {
    Persisted,
    Failed { permission_denied: bool },
}

/// How many persist attempts a replacement makes from attempt `attempt` on, when
/// attempt `k` ends as `outcomes(k)`.
pub open spec fn persist_attempts(outcomes: spec_fn(int) -> PersistOutcome, attempt: int) -> nat
    decreases PERSIST_ATTEMPTS - attempt,
{
    if attempt < 1 || attempt > PERSIST_ATTEMPTS {
        0
    } else {
        match outcomes(attempt) {
            PersistOutcome::Persisted => 1,
            PersistOutcome::Failed { permission_denied } => if permission_denied && attempt
                < PERSIST_ATTEMPTS {
                1 + persist_attempts(outcomes, attempt + 1)
            } else {
                1
            },
        }
    }
}

/// A replacement tries to persist at least once and at most `PERSIST_ATTEMPTS` times,
/// whatever the attempts end as.
pub proof fn lemma_persist_attempts_bounded(outcomes: spec_fn(int) -> PersistOutcome)
    ensures
        1 <= persist_attempts(outcomes, 1) <= PERSIST_ATTEMPTS,
{
    reveal_with_fuel(persist_attempts, 5);
}

} // verus!
