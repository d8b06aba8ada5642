//! When to try again after a failure, and how long to wait before.
#[allow(unused_imports)]
use crate::error::KubeError;
use crate::error::LornError;
use vstd::arithmetic::power2::pow2;
#[allow(unused_imports)]
use vstd::arithmetic::power2::{lemma2_to64, lemma_pow2_pos, lemma_pow2_unfold};
use vstd::prelude::*;

verus! {

/// The progress of an operation that is tried again after transient failures.
#[derive(Debug, Clone, Copy)]
pub struct Retry {
    /// How many times the operation has been tried again.
    pub attempt: u32,
    /// How many times it may be tried again.
    pub retries: u32,
    /// How long to wait before the next try, in milliseconds.
    pub backoff_ms: u64,
    /// How long to wait at most between tries, in milliseconds.
    pub max_backoff_ms: u64,
}

/// What to do after a failure.
#[derive(Debug)]
pub enum RetryStep {
    /// Wait for so many milliseconds, then try again.
    Wait { ms: u64, next: Retry },
    /// Fail with the error at hand.
    GiveUp,
}

/// A delay, but no more than `max`.
pub open spec fn capped(ms: int, max: int) -> int {
    if ms <= max {
        ms
    } else {
        max
    }
}

/// What follows on a failure: another try, where tries are left and the
/// failure is transient. The wait before it is no longer than the maximum.
pub open spec fn step_after(retry: Retry, error: LornError) -> RetryStep {
    if retry.attempt < retry.retries && error.transient() {
        RetryStep::Wait {
            ms: capped(retry.backoff_ms as int, retry.max_backoff_ms as int) as u64,
            next: Retry {
                attempt: (retry.attempt + 1) as u32,
                backoff_ms: capped(2 * retry.backoff_ms, retry.max_backoff_ms as int) as u64,
                ..retry
            },
        }
    } else {
        RetryStep::GiveUp
    }
}

/// An operation that has not been tried yet. Its first delay is the initial
/// one, but no more than the maximum.
pub open spec fn untried(retries: u32, initial_backoff_ms: u64, max_backoff_ms: u64) -> Retry {
    Retry {
        attempt: 0,
        retries,
        backoff_ms: capped(initial_backoff_ms as int, max_backoff_ms as int) as u64,
        max_backoff_ms,
    }
}

/// The shorter of two delays.
fn shorter(ms: u64, max: u64) -> (shortened: u64)
    ensures
        shortened == capped(ms as int, max as int),
{
    if ms <= max {
        ms
    } else {
        max
    }
}

impl Retry {
    /// An operation that has not been tried yet.
    pub fn new(retries: u32, initial_backoff_ms: u64, max_backoff_ms: u64) -> (retry: Retry)
        ensures
            retry == untried(retries, initial_backoff_ms, max_backoff_ms),
    {
        Retry {
            attempt: 0,
            retries,
            backoff_ms: shorter(initial_backoff_ms, max_backoff_ms),
            max_backoff_ms,
        }
    }
}

/// What to do after a failure: wait and try again, or give up.
pub fn retry_with_backoff(retry: Retry, error: &LornError) -> (step: RetryStep)
    ensures
        step == step_after(retry, *error),
{
    if retry.attempt < retry.retries && error.is_retryable() {
        let backoff_ms: u64 = if retry.backoff_ms <= retry.max_backoff_ms / 2 {
            2 * retry.backoff_ms
        } else {
            retry.max_backoff_ms
        };
        RetryStep::Wait {
            ms: shorter(retry.backoff_ms, retry.max_backoff_ms),
            next: Retry {
                attempt: retry.attempt + 1,
                retries: retry.retries,
                backoff_ms,
                max_backoff_ms: retry.max_backoff_ms,
            },
        }
    } else {
        RetryStep::GiveUp
    }
}

/// The progress after a row of failures, or nothing where one of them was the
/// last.
pub open spec fn after_failures(retry: Retry, errors: Seq<LornError>) -> Option<Retry>
    decreases errors.len(),
{
    if errors.len() == 0 {
        Some(retry)
    } else {
        match after_failures(retry, errors.drop_last()) {
            Some(retry) => match step_after(retry, errors.last()) {
                RetryStep::Wait { next, .. } => Some(next),
                RetryStep::GiveUp => None,
            },
            None => None,
        }
    }
}

/// How long to wait before retry number `n`, counted from zero: at first the
/// initial delay, then twice the delay each time, but never more than `max`.
pub open spec fn delay(initial: int, max: int, n: nat) -> int {
    capped(initial * pow2(n), max)
}

/// Doubling a delay gives the next delay.
proof fn lemma_delay_doubles(initial: int, max: int, n: nat)
    requires
        0 <= initial,
        0 <= max,
    ensures
        delay(initial, max, n + 1) == capped(2 * delay(initial, max, n), max),
{
    lemma_pow2_unfold(n + 1);
    lemma2_to64();
    let power = pow2(n) as int;
    lemma_pow2_pos(n);
    assert(initial * (2 * power) == 2 * (initial * power)) by (nonlinear_arith);
    assert(initial * power >= 0) by (nonlinear_arith)
        requires
            initial >= 0,
            power >= 0,
    ;
}

/// An operation is tried again exactly as long as its failures are transient
/// and no more of them have come than retries are allowed; the delay before
/// each retry is the initial one, doubled each time, and never more than the
/// maximum.
pub proof fn law_backoff(
    retries: u32,
    initial_backoff_ms: u64,
    max_backoff_ms: u64,
    errors: Seq<LornError>,
)
    ensures
        match after_failures(untried(retries, initial_backoff_ms, max_backoff_ms), errors) {
            Some(retry) => {
                &&& errors.len() <= retries
                &&& forall|i: int| 0 <= i < errors.len() ==> (#[trigger] errors[i]).transient()
                &&& retry.attempt == errors.len()
                &&& retry.retries == retries
                &&& retry.max_backoff_ms == max_backoff_ms
                &&& retry.backoff_ms == delay(
                    initial_backoff_ms as int,
                    max_backoff_ms as int,
                    errors.len(),
                )
                &&& forall|error: LornError|
                    (#[trigger] step_after(retry, error)) matches RetryStep::Wait { ms, .. } ==> ms
                        == retry.backoff_ms
            },
            None => errors.len() > retries || exists|i: int|
                0 <= i < errors.len() && !(#[trigger] errors[i]).transient(),
        },
    decreases errors.len(),
{
    lemma2_to64();
    if errors.len() > 0 {
        let rest = errors.drop_last();
        law_backoff(retries, initial_backoff_ms, max_backoff_ms, rest);
        lemma_delay_doubles(initial_backoff_ms as int, max_backoff_ms as int, rest.len());
        let start = untried(retries, initial_backoff_ms, max_backoff_ms);
        match after_failures(start, rest) {
            Some(retry) => {
                assert(errors[errors.len() - 1] == errors.last());
                assert forall|i: int| 0 <= i < rest.len() implies (
                #[trigger] errors[i]).transient() by {
                    assert(rest[i] == errors[i]);
                }
            },
            None => {
                if rest.len() <= retries {
                    let i = choose|i: int|
                        0 <= i < rest.len() && !(#[trigger] rest[i]).transient();
                    assert(!errors[i].transient());
                }
            },
        }
    }
}

/// Whatever the progress, no wait is longer than the maximum, and neither is
/// the delay that is kept for the retry after it.
pub proof fn law_wait_bounded(retry: Retry, error: LornError)
    ensures
        step_after(retry, error) matches RetryStep::Wait { ms, next } ==> {
            &&& ms <= retry.max_backoff_ms
            &&& next.backoff_ms <= next.max_backoff_ms
            &&& next.max_backoff_ms == retry.max_backoff_ms
        },
{
}

/// No delay is longer than the maximum.
pub proof fn law_delay_bounded(initial: int, max: int, n: nat)
    ensures
        delay(initial, max, n) <= max,
{
}

/// Another try follows exactly where tries are left and the server answered
/// with a status in the five hundreds, and it uses up one try.
pub proof fn law_tries_run_out(retry: Retry, error: LornError)
    ensures
        step_after(retry, error) is Wait <==> retry.attempt < retry.retries && (
        error matches LornError::Kube(KubeError::Api { code, .. }) && 500 <= code <= 599),
        step_after(retry, error) matches RetryStep::Wait { next, .. } ==> {
            &&& next.attempt == retry.attempt + 1
            &&& next.retries == retry.retries
            &&& next.max_backoff_ms == retry.max_backoff_ms
        },
{
}

/// The first wait is the initial delay or the maximum, whichever is shorter,
/// and each further wait is twice the wait before it or the maximum, whichever
/// is shorter.
pub proof fn law_waits_double(
    retries: u32,
    initial_backoff_ms: u64,
    max_backoff_ms: u64,
    retry: Retry,
    one: LornError,
    other: LornError,
)
    ensures
        untried(retries, initial_backoff_ms, max_backoff_ms).attempt == 0,
        untried(retries, initial_backoff_ms, max_backoff_ms).retries == retries,
        untried(retries, initial_backoff_ms, max_backoff_ms).max_backoff_ms == max_backoff_ms,
        step_after(untried(retries, initial_backoff_ms, max_backoff_ms), one) matches
            RetryStep::Wait { ms, .. } ==> {
            &&& initial_backoff_ms <= max_backoff_ms ==> ms == initial_backoff_ms
            &&& initial_backoff_ms >= max_backoff_ms ==> ms == max_backoff_ms
        },
        step_after(retry, one) matches RetryStep::Wait { ms, next } ==> (step_after(next, other)
            matches RetryStep::Wait { ms: then, .. } ==> {
            &&& 2 * ms <= retry.max_backoff_ms ==> then == 2 * ms
            &&& 2 * ms >= retry.max_backoff_ms ==> then == retry.max_backoff_ms
        }),
{
}


} // verus!
