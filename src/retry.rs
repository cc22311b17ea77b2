//! Bounded retries with exponential backoff around a fallible push.
//!
//! The push itself and the waiting happen outside; this module decides,
//! after each attempt, whether to stop or how long to wait before the next.
use vstd::arithmetic::power2::{lemma2_to64, lemma_pow2_strictly_increases, lemma_pow2_unfold, pow2};
use vstd::prelude::*;

verus! {

/// How many attempts a push gets.
pub const MAX_ATTEMPTS: u32 = 5;

/// The wait after the first failed attempt; it doubles after each failure.
pub const BASE_DELAY_MS: u64 = 100;

pub struct RetryPolicy {
    pub max_attempts: u32,
    pub base_delay_ms: u64,
}

/// The attempt about to be made, counted from one, and the wait that
/// follows it should it fail.
pub struct Attempt {
    pub number: u32,
    pub delay_ms: u64,
}

/// What to do after an attempt.
pub enum Step<E> {
    /// The push went through: stop.
    Delivered,
    /// Wait `sleep_ms`, then make the `next` attempt.
    Retry { sleep_ms: u64, next: Attempt },
    /// The last attempt failed: stop with its error.
    Exhausted(E),
}

/// How a whole run of attempts ends, for given outcomes of the pushes.
pub ghost struct RunSummary {
    pub delivered: bool,
    pub attempts: nat,
    pub slept_ms: nat,
}

impl RetryPolicy {
    /// The delays fit in 64 bits: at most 32 attempts, a base that fits in 32 bits.
    pub open spec fn wf(self) -> bool {
        1 <= self.max_attempts <= 32 && self.base_delay_ms <= 0xffff_ffff
    }

    /// The wait after failed attempt `n`.
    pub open spec fn backoff(self, n: nat) -> nat {
        (self.base_delay_ms * pow2((n - 1) as nat)) as nat
    }

    /// The waits after the failed attempts 1 to `n`, added up.
    pub open spec fn total_backoff(self, n: nat) -> nat
        decreases n,
    {
        if n == 0 {
            0
        } else {
            self.total_backoff((n - 1) as nat) + self.backoff(n)
        }
    }

    pub open spec fn valid_attempt(self, a: Attempt) -> bool {
        1 <= a.number <= self.max_attempts && a.delay_ms == self.backoff(a.number as nat)
    }

    /// How a run goes from attempt `n` on, where `outcomes[i]` tells whether
    /// attempt `i + 1` succeeds.
    pub open spec fn run_from(self, n: nat, outcomes: Seq<bool>) -> RunSummary
        decreases self.max_attempts - n,
    {
        if outcomes[n - 1] {
            RunSummary { delivered: true, attempts: n, slept_ms: 0 }
        } else if n >= self.max_attempts {
            RunSummary { delivered: false, attempts: n, slept_ms: 0 }
        } else {
            let rest = self.run_from(n + 1, outcomes);
            RunSummary {
                delivered: rest.delivered,
                attempts: rest.attempts,
                slept_ms: rest.slept_ms + self.backoff(n),
            }
        }
    }

    /// Five attempts, waiting 100 ms after the first failure.
    pub fn standard() -> (r: RetryPolicy)
        ensures
            r.wf(),
            r.max_attempts == MAX_ATTEMPTS,
            r.base_delay_ms == BASE_DELAY_MS,
    {
        RetryPolicy { max_attempts: MAX_ATTEMPTS, base_delay_ms: BASE_DELAY_MS }
    }

    pub fn first_attempt(&self) -> (r: Attempt)
        requires
            self.wf(),
        ensures
            self.valid_attempt(r),
            r.number == 1,
    {
        proof {
            lemma2_to64();
            assert(pow2(0) == 1);
            assert(self.base_delay_ms * pow2(0) == self.base_delay_ms);
            assert(self.backoff(1) == self.base_delay_ms);
        }
        Attempt { number: 1, delay_ms: self.base_delay_ms }
    }

    /// Decides what follows an attempt with the given outcome.
    pub fn after_attempt<E>(&self, attempt: Attempt, outcome: Result<(), E>) -> (r: Step<E>)
        requires
            self.wf(),
            self.valid_attempt(attempt),
        ensures
            outcome is Ok ==> r is Delivered,
            outcome is Err && attempt.number < self.max_attempts ==> (r matches Step::Retry {
                sleep_ms,
                next,
            } && sleep_ms == self.backoff(attempt.number as nat) && next.number == attempt.number
                + 1 && self.valid_attempt(next)),
            outcome is Err && attempt.number >= self.max_attempts ==> (r matches Step::Exhausted(
                e,
            ) && outcome == Err::<(), E>(e)),
    {
        match outcome {
            Ok(()) => Step::Delivered,
            Err(e) => {
                if attempt.number < self.max_attempts {
                    proof {
                        let n = attempt.number as nat;
                        lemma_pow2_unfold(n);
                        lemma2_to64();
                        if n < 32 {
                            lemma_pow2_strictly_increases(n, 32);
                        }
                        assert(pow2(n) <= 0x8000_0000);
                        assert(self.base_delay_ms * pow2(n) <= 0xffff_ffff * 0x8000_0000)
                            by (nonlinear_arith)
                            requires
                                self.base_delay_ms <= 0xffff_ffff,
                                pow2(n) <= 0x8000_0000,
                        ;
                        assert(self.base_delay_ms * pow2(n) == 2 * (self.base_delay_ms * pow2(
                            (n - 1) as nat,
                        ))) by (nonlinear_arith)
                            requires
                                pow2(n) == 2 * pow2((n - 1) as nat),
                        ;
                    }
                    let next = Attempt { number: attempt.number + 1, delay_ms: attempt.delay_ms * 2 };
                    Step::Retry { sleep_ms: attempt.delay_ms, next }
                } else {
                    Step::Exhausted(e)
                }
            },
        }
    }
}

proof fn lemma_delivered_from(policy: RetryPolicy, outcomes: Seq<bool>, n: nat, k: nat)
    requires
        1 <= n <= k + 1,
        k < policy.max_attempts,
        k < outcomes.len(),
        outcomes[k as int],
        forall|i: int| n - 1 <= i < k ==> !outcomes[i],
    ensures
        policy.run_from(n, outcomes).delivered,
        policy.run_from(n, outcomes).attempts == k + 1,
        policy.run_from(n, outcomes).slept_ms + policy.total_backoff((n - 1) as nat)
            == policy.total_backoff(k),
    decreases k + 1 - n,
{
    if n <= k {
        lemma_delivered_from(policy, outcomes, n + 1, k);
    }
}

proof fn lemma_exhausted_from(policy: RetryPolicy, outcomes: Seq<bool>, n: nat)
    requires
        1 <= n <= policy.max_attempts,
        policy.max_attempts <= outcomes.len(),
        forall|i: int| n - 1 <= i < policy.max_attempts ==> !outcomes[i],
    ensures
        !policy.run_from(n, outcomes).delivered,
        policy.run_from(n, outcomes).attempts == policy.max_attempts,
        policy.run_from(n, outcomes).slept_ms + policy.total_backoff((n - 1) as nat)
            == policy.total_backoff((policy.max_attempts - 1) as nat),
    decreases policy.max_attempts - n,
{
    if n < policy.max_attempts {
        lemma_exhausted_from(policy, outcomes, n + 1);
    }
}

/// A push that fails `k` times and then succeeds, with attempts to spare,
/// is delivered on attempt `k + 1` after waiting the first `k` backoffs.
pub proof fn delivered_after_failures(policy: RetryPolicy, outcomes: Seq<bool>, k: nat)
    requires
        policy.wf(),
        k < policy.max_attempts,
        k < outcomes.len(),
        outcomes[k as int],
        forall|i: int| 0 <= i < k ==> !outcomes[i],
    ensures
        policy.run_from(1, outcomes) == (RunSummary {
            delivered: true,
            attempts: k + 1,
            slept_ms: policy.total_backoff(k),
        }),
{
    lemma_delivered_from(policy, outcomes, 1, k);
}

/// A push that never succeeds is tried exactly as many times as the policy
/// allows, and the run ends undelivered after the backoffs between them.
pub proof fn exhausted_after_last_attempt(policy: RetryPolicy, outcomes: Seq<bool>)
    requires
        policy.wf(),
        policy.max_attempts <= outcomes.len(),
        forall|i: int| 0 <= i < policy.max_attempts ==> !outcomes[i],
    ensures
        policy.run_from(1, outcomes) == (RunSummary {
            delivered: false,
            attempts: policy.max_attempts as nat,
            slept_ms: policy.total_backoff((policy.max_attempts - 1) as nat),
        }),
{
    lemma_exhausted_from(policy, outcomes, 1);
}

/// Under the standard policy the waits between five attempts are
/// 100, 200, 400 and 800 ms.
pub proof fn standard_backoff_total()
    ensures
        (RetryPolicy { max_attempts: MAX_ATTEMPTS, base_delay_ms: BASE_DELAY_MS }).total_backoff(4)
            == 100 + 200 + 400 + 800,
{
    let p = RetryPolicy { max_attempts: MAX_ATTEMPTS, base_delay_ms: BASE_DELAY_MS };
    lemma2_to64();
    reveal_with_fuel(RetryPolicy::total_backoff, 5);
    assert(pow2(0) == 1 && pow2(1) == 2 && pow2(2) == 4 && pow2(3) == 8);
    assert(p.base_delay_ms * pow2(0) == 100);
    assert(p.base_delay_ms * pow2(1) == 200);
    assert(p.backoff(1) == 100);
    assert(p.backoff(2) == 200);
    assert(p.backoff(3) == 400);
    assert(p.backoff(4) == 800);
}

/// Under the standard policy, a push that fails four times and then
/// succeeds is delivered on the fifth attempt after 1500 ms of waiting; a
/// push that always fails is tried five times and no more.
pub proof fn standard_policy_runs(eventually: Seq<bool>, never: Seq<bool>)
    requires
        eventually.len() >= 5,
        forall|i: int| 0 <= i < 4 ==> !eventually[i],
        eventually[4],
        never.len() >= 5,
        forall|i: int| 0 <= i < 5 ==> !never[i],
    ensures
        (RetryPolicy { max_attempts: MAX_ATTEMPTS, base_delay_ms: BASE_DELAY_MS }).run_from(
            1,
            eventually,
        ) == (RunSummary { delivered: true, attempts: 5, slept_ms: 1500 }),
        (RetryPolicy { max_attempts: MAX_ATTEMPTS, base_delay_ms: BASE_DELAY_MS }).run_from(
            1,
            never,
        ) == (RunSummary { delivered: false, attempts: 5, slept_ms: 1500 }),
{
    let p = RetryPolicy { max_attempts: MAX_ATTEMPTS, base_delay_ms: BASE_DELAY_MS };
    standard_backoff_total();
    delivered_after_failures(p, eventually, 4);
    exhausted_after_last_attempt(p, never);
}

} // verus!
