//! Backoff arithmetic for retried calls.

use vstd::prelude::*;

use crate::config::{retry_policy_wf, RetryPolicy};

verus! {

/// The uncapped delay before try `attempt`: `initial_ms` grown `attempt`
/// times by `multiplier`, as an unbounded integer.
pub open spec fn spec_backoff(p: RetryPolicy, attempt: nat) -> int
    decreases attempt,
{
    if attempt == 0 {
        p.initial_ms as int
    } else {
        spec_backoff(p, (attempt - 1) as nat) * p.multiplier
    }
}

/// With a multiplier of at least one, the uncapped delay never shrinks.
proof fn lemma_backoff_monotone(p: RetryPolicy, a: nat, b: nat)
    requires
        retry_policy_wf(p),
        a <= b,
    ensures
        spec_backoff(p, a) <= spec_backoff(p, b),
        spec_backoff(p, a) >= 0,
    decreases b,
{
    if b > 0 {
        if a == b {
            lemma_backoff_monotone(p, (a - 1) as nat, (b - 1) as nat);
            assert(spec_backoff(p, (b - 1) as nat) * 1 <= spec_backoff(p, (b - 1) as nat)
                * p.multiplier) by (nonlinear_arith)
                requires
                    spec_backoff(p, (b - 1) as nat) >= 0,
                    p.multiplier >= 1,
            ;
        } else {
            lemma_backoff_monotone(p, a, (b - 1) as nat);
            assert(spec_backoff(p, (b - 1) as nat) * 1 <= spec_backoff(p, (b - 1) as nat)
                * p.multiplier) by (nonlinear_arith)
                requires
                    spec_backoff(p, (b - 1) as nat) >= 0,
                    p.multiplier >= 1,
            ;
        }
    }
}

/// Whether try number `attempt` (counted from zero) is still allowed.
pub fn can_retry(p: &RetryPolicy, attempt: u32) -> (r: bool)
    ensures
        r == (attempt < p.max_attempts),
{
    attempt < p.max_attempts
}

/// The delay in milliseconds before try `attempt`: the uncapped exponential
/// delay, capped at `max_ms`.
pub fn next_delay_ms(p: &RetryPolicy, attempt: u32) -> (r: u64)
    requires
        retry_policy_wf(*p),
    ensures
        r == (if spec_backoff(*p, attempt as nat) > p.max_ms as int {
            p.max_ms as int
        } else {
            spec_backoff(*p, attempt as nat)
        }),
{
    let mut d: u64 = p.initial_ms;
    let mut k: u32 = 0;
    proof {
        lemma_backoff_monotone(*p, 0, attempt as nat);
    }
    if d > p.max_ms {
        proof {
            lemma_backoff_monotone(*p, 0, attempt as nat);
        }
        return p.max_ms;
    }
    while k < attempt
        invariant
            k <= attempt,
            retry_policy_wf(*p),
            d == spec_backoff(*p, k as nat),
            d <= p.max_ms,
        decreases attempt - k,
    {
        proof {
            lemma_backoff_monotone(*p, k as nat, attempt as nat);
        }
        match d.checked_mul(p.multiplier) {
            Some(next) => {
                if next > p.max_ms {
                    proof {
                        lemma_backoff_monotone(*p, (k + 1) as nat, attempt as nat);
                    }
                    return p.max_ms;
                }
                d = next;
            },
            None => {
                proof {
                    lemma_backoff_monotone(*p, (k + 1) as nat, attempt as nat);
                }
                assert(spec_backoff(*p, (k + 1) as nat) > u64::MAX);
                return p.max_ms;
            },
        }
        k = k + 1;
    }
    d
}

} // verus!
