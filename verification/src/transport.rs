//! The transport's retry policy.
//!
//! The HTTP dispatch itself — streaming or one-shot — is network I/O and
//! runs outside the library. What is verified here is every decision that
//! loop takes: how a failed attempt is classified, whether it may be
//! retried, how long to wait before the next attempt, and when to stop
//! retrying and surface the error. Transient failures are retried with
//! exponential backoff up to a bounded total elapsed time; non-transient
//! failures are surfaced immediately, never retried.

use vstd::prelude::*;
use crate::errors::TransportClass;

verus! {

/// An exponential backoff schedule: the first wait, the cap every wait
/// is clipped to, and the ceiling on the total elapsed time after which
/// the transport gives up.
#[derive(Clone, Copy, Debug, PartialEq, Eq, Structural)]
pub struct BackoffPolicy {
    pub initial_interval_ms: u64,
    pub max_interval_ms: u64,
    pub max_elapsed_ms: u64,
}

/// A policy the arithmetic cannot overflow under: waits start at a
/// positive interval, the cap is no smaller, and doubling a wait or
/// adding the cap to the ceiling stays within `u64`.
pub open spec fn spec_policy_wf(p: BackoffPolicy) -> bool {
    &&& 1 <= p.initial_interval_ms <= p.max_interval_ms
    &&& p.max_interval_ms <= 0x7fff_ffff_ffff_ffff
    &&& p.max_elapsed_ms + p.max_interval_ms <= u64::MAX
}

impl BackoffPolicy {
    /// The schedule the client is configured with: half a second before
    /// the first retry, waits capped at five seconds, and a sixty-second
    /// ceiling on the whole retry effort.
    pub fn standard() -> (p: BackoffPolicy)
        ensures
            spec_policy_wf(p),
            p.max_elapsed_ms == 60000,
            p.max_interval_ms == 5000,
            p.initial_interval_ms == 500,
    {
        BackoffPolicy { initial_interval_ms: 500, max_interval_ms: 5000, max_elapsed_ms: 60000 }
    }
}

/// What the transport does after a failed dispatch attempt.
#[derive(Clone, Copy, Debug, PartialEq, Eq, Structural)]
pub enum RetryDecision {
    /// The failure must be surfaced at once; retrying is wrong.
    Abort,
    /// Wait `wait_ms`, then attempt again; the attempt after that would
    /// wait `next_interval_ms`.
    Retry { wait_ms: u64, next_interval_ms: u64 },
    /// Transient failures kept coming until the ceiling; surface the
    /// error as exhausted.
    GiveUp,
}

/// Which failures count as transient: request timeouts and server-side
/// (5xx-class) errors. Everything else — authentication, malformed
/// requests, exhausted quota — is permanent and is never retried.
pub open spec fn spec_is_transient(status: u16) -> bool {
    status == 408 || (500 <= status && status <= 599)
}

/// Classify a failed attempt by its HTTP-equivalent status code.
pub fn classify_status(status: u16) -> (c: TransportClass)
    ensures
        c == TransportClass::Transient <==> spec_is_transient(status),
        c == TransportClass::Fatal <==> !spec_is_transient(status),
{
    if status == 408 || (500 <= status && status <= 599) {
        TransportClass::Transient
    } else {
        TransportClass::Fatal
    }
}

/// The smaller of two durations.
pub open spec fn spec_min_ms(a: u64, b: u64) -> u64 {
    if a <= b {
        a
    } else {
        b
    }
}

impl BackoffPolicy {
    /// Decide what to do after a failed attempt, `elapsed_ms` into the
    /// dispatch, with `current_interval_ms` as the next scheduled wait:
    /// a non-transient failure aborts at once; a transient one is
    /// retried — after a wait clipped to the cap, doubling the interval
    /// for the next round — until the elapsed time reaches the ceiling,
    /// and from then on the transport gives up, never retrying
    /// indefinitely.
    pub fn on_failure(&self, elapsed_ms: u64, current_interval_ms: u64, transient: bool) -> (d:
        RetryDecision)
        requires
            spec_policy_wf(*self),
        ensures
            !transient ==> d == RetryDecision::Abort,
            transient && elapsed_ms >= self.max_elapsed_ms ==> d == RetryDecision::GiveUp,
            transient && elapsed_ms < self.max_elapsed_ms ==> d == (RetryDecision::Retry {
                wait_ms: spec_min_ms(current_interval_ms, self.max_interval_ms),
                next_interval_ms: spec_min_ms(
                    (2 * spec_min_ms(current_interval_ms, self.max_interval_ms)) as u64,
                    self.max_interval_ms,
                ),
            }),
    {
        if !transient {
            RetryDecision::Abort
        } else if elapsed_ms >= self.max_elapsed_ms {
            RetryDecision::GiveUp
        } else {
            let wait_ms = if current_interval_ms <= self.max_interval_ms {
                current_interval_ms
            } else {
                self.max_interval_ms
            };
            let doubled = 2 * wait_ms;
            let next_interval_ms = if doubled <= self.max_interval_ms {
                doubled
            } else {
                self.max_interval_ms
            };
            RetryDecision::Retry { wait_ms, next_interval_ms }
        }
    }
}

/// Drive the policy against an endpoint that keeps failing transiently,
/// with attempts themselves taking no time: apply the policy after each
/// failure, accumulate the waits, and stop when it gives up. Returns how
/// many attempts were made and the total elapsed time at which the
/// transport surfaces exhaustion.
///
/// The contract is the retry bound: the policy never gives up before the
/// ceiling, and it always terminates — the elapsed time at exhaustion
/// stays under the ceiling plus one capped wait (sixty-five seconds for
/// the standard schedule), never retrying indefinitely.
pub fn simulate_transient_failures(policy: &BackoffPolicy) -> (r: (u64, u64))
    requires
        spec_policy_wf(*policy),
    ensures
        policy.max_elapsed_ms <= r.1,
        r.1 < policy.max_elapsed_ms + policy.max_interval_ms,
        r.0 >= 1,
{
    let mut elapsed_ms: u64 = 0;
    let mut interval_ms: u64 = policy.initial_interval_ms;
    let mut attempts: u64 = 1;
    while elapsed_ms < policy.max_elapsed_ms
        invariant
            spec_policy_wf(*policy),
            1 <= interval_ms <= policy.max_interval_ms,
            elapsed_ms < policy.max_elapsed_ms + policy.max_interval_ms,
            attempts >= 1,
            attempts <= elapsed_ms + 1,
        decreases policy.max_elapsed_ms + policy.max_interval_ms - elapsed_ms,
    {
        match policy.on_failure(elapsed_ms, interval_ms, true) {
            RetryDecision::Retry { wait_ms, next_interval_ms } => {
                proof {
                    assert(wait_ms >= 1);
                }
                elapsed_ms = elapsed_ms + wait_ms;
                interval_ms = next_interval_ms;
                attempts = attempts + 1;
            },
            _ => {
                proof {
                    assert(false);
                }
            },
        }
    }
    let exhausted = policy.on_failure(elapsed_ms, interval_ms, true);
    proof {
        assert(exhausted == RetryDecision::GiveUp);
    }
    (attempts, elapsed_ms)
}

} // verus!
