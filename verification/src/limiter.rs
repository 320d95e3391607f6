//! Token-bucket rate limiter.
//!
//! The bucket holds a fractional number of tokens, represented in fixed-point
//! thousandths ("millitokens") so that refill arithmetic is exact: a refill
//! rate of `r` tokens per second adds exactly `r` millitokens per millisecond.
//! Acquiring a permit consumes one whole token (1000 millitokens).
//!
//! The limiter never reads a clock itself: every operation that depends on
//! time takes the current reading of a monotone millisecond clock as an
//! argument, so the decision logic is checkable for every clock value.

use vstd::prelude::*;

verus! {

/// One whole token, in millitokens.
pub const TOKEN_SCALE: u64 = 1000;

/// Largest clock reading the limiter accepts, in milliseconds.
/// Generous for a process-lifetime monotone clock (about 139 years)
/// while keeping refill arithmetic comfortably inside `u64`.
pub const CLOCK_MAX_MS: u64 = 0x400_0000_0000;

/// Largest bucket capacity accepted by `new`, in whole tokens.
pub const MAX_BURST_TOKENS: u64 = 1000000;

/// Largest refill rate accepted by `new`, in whole tokens per second.
pub const MAX_REFILL_RATE: u64 = 1000;

/// Token-bucket state. `tokens_milli` is the current content of the bucket
/// and never exceeds `max_milli`; `refill_per_ms` is the exact number of
/// millitokens added per elapsed millisecond.
pub struct RateLimiter {
    pub tokens_milli: u64,
    pub max_milli: u64,
    pub refill_per_ms: u64,
    pub last_update_ms: u64,
}

impl RateLimiter {
    /// Well-formedness: the bucket content stays within capacity, the
    /// configuration is in the range accepted by `new`, and the last update
    /// time is a valid clock reading.
    pub open spec fn wf(self) -> bool {
        &&& self.tokens_milli <= self.max_milli
        &&& TOKEN_SCALE <= self.max_milli <= MAX_BURST_TOKENS * TOKEN_SCALE
        &&& 1 <= self.refill_per_ms <= MAX_REFILL_RATE
        &&& self.last_update_ms <= CLOCK_MAX_MS
    }

    pub open spec fn spec_tokens(self) -> int {
        self.tokens_milli as int
    }

    pub open spec fn spec_max(self) -> int {
        self.max_milli as int
    }

    pub open spec fn spec_refill_per_ms(self) -> int {
        self.refill_per_ms as int
    }

    pub open spec fn spec_last_update(self) -> int {
        self.last_update_ms as int
    }

    /// Elapsed time credited for a refill at clock reading `now_ms`: a
    /// reading older than the last update credits nothing (the bucket never
    /// drains backwards in time).
    pub open spec fn spec_elapsed(self, now_ms: u64) -> int {
        if now_ms >= self.last_update_ms {
            now_ms - self.last_update_ms
        } else {
            0
        }
    }

    /// Bucket content after refilling at clock reading `now_ms`:
    /// `elapsed * rate` millitokens are added, capped at capacity.
    pub open spec fn spec_refilled(self, now_ms: u64) -> int {
        let grown = self.tokens_milli + self.spec_elapsed(now_ms) * self.refill_per_ms;
        if grown >= self.max_milli {
            self.max_milli as int
        } else {
            grown
        }
    }

    /// State after a refill at `now_ms`: content refilled, update time
    /// advanced (never regressed), configuration unchanged.
    pub open spec fn spec_after_refill(self, now_ms: u64) -> RateLimiter {
        RateLimiter {
            tokens_milli: self.spec_refilled(now_ms) as u64,
            last_update_ms: if now_ms >= self.last_update_ms {
                now_ms
            } else {
                self.last_update_ms
            },
            ..self
        }
    }

    /// One `try_acquire` step at clock reading `now_ms`: refill first, then
    /// consume one whole token if at least one is present. Returns the new
    /// state and whether the permit was granted.
    pub open spec fn spec_try_acquire(self, now_ms: u64) -> (RateLimiter, bool) {
        let refilled = self.spec_after_refill(now_ms);
        if refilled.tokens_milli >= TOKEN_SCALE {
            (
                RateLimiter {
                    tokens_milli: (refilled.tokens_milli - TOKEN_SCALE) as u64,
                    ..refilled
                },
                true,
            )
        } else {
            (refilled, false)
        }
    }

    /// Milliseconds until one whole token will be present, given the current
    /// bucket content: zero if one is already present, otherwise the deficit
    /// divided by the refill rate, rounded up so the wait never undershoots.
    pub open spec fn spec_wait_ms(self) -> int {
        if self.tokens_milli >= TOKEN_SCALE {
            0
        } else {
            ((TOKEN_SCALE - self.tokens_milli) + self.refill_per_ms - 1) as int
                / self.refill_per_ms as int
        }
    }

    /// Create a full bucket holding `max_tokens` tokens that refills at
    /// `refill_rate` tokens per second, with `now_ms` as the starting clock
    /// reading.
    pub fn new(max_tokens: u64, refill_rate: u64, now_ms: u64) -> (r: RateLimiter)
        requires
            1 <= max_tokens <= MAX_BURST_TOKENS,
            1 <= refill_rate <= MAX_REFILL_RATE,
            now_ms <= CLOCK_MAX_MS,
        ensures
            r.wf(),
            r.spec_tokens() == max_tokens * TOKEN_SCALE,
            r.spec_max() == max_tokens * TOKEN_SCALE,
            r.spec_refill_per_ms() == refill_rate,
            r.spec_last_update() == now_ms,
    {
        RateLimiter {
            tokens_milli: max_tokens * TOKEN_SCALE,
            max_milli: max_tokens * TOKEN_SCALE,
            refill_per_ms: refill_rate,
            last_update_ms: now_ms,
        }
    }

    /// Add the tokens accrued since the last update, capped at capacity.
    fn refill(&mut self, now_ms: u64)
        requires
            old(self).wf(),
            now_ms <= CLOCK_MAX_MS,
        ensures
            final(self).wf(),
            *final(self) == old(self).spec_after_refill(now_ms),
    {
        if now_ms >= self.last_update_ms {
            let elapsed: u64 = now_ms - self.last_update_ms;
            assert(elapsed * self.refill_per_ms <= CLOCK_MAX_MS * MAX_REFILL_RATE) by (nonlinear_arith)
                requires
                    elapsed <= CLOCK_MAX_MS,
                    self.refill_per_ms <= MAX_REFILL_RATE,
            ;
            let grown: u64 = self.tokens_milli + elapsed * self.refill_per_ms;
            self.tokens_milli = if grown >= self.max_milli {
                self.max_milli
            } else {
                grown
            };
            self.last_update_ms = now_ms;
        }
    }

    /// Refill, then take one whole token if available. Returns whether the
    /// permit was granted; on refusal the refilled content is left intact.
    pub fn try_acquire(&mut self, now_ms: u64) -> (acquired: bool)
        requires
            old(self).wf(),
            now_ms <= CLOCK_MAX_MS,
        ensures
            final(self).wf(),
            (*final(self), acquired) == old(self).spec_try_acquire(now_ms),
            acquired <==> old(self).spec_refilled(now_ms) >= TOKEN_SCALE,
    {
        self.refill(now_ms);
        if self.tokens_milli >= TOKEN_SCALE {
            self.tokens_milli = self.tokens_milli - TOKEN_SCALE;
            true
        } else {
            false
        }
    }

    /// Milliseconds until a whole token will be present at the current
    /// refill rate; zero when one already is. Callers sleep for this long
    /// and then retry `try_acquire`, which handles a token taken meanwhile
    /// by another caller simply by failing and waiting again.
    pub fn time_until_available(&self) -> (wait_ms: u64)
        requires
            self.wf(),
        ensures
            wait_ms == self.spec_wait_ms(),
            self.spec_tokens() >= TOKEN_SCALE ==> wait_ms == 0,
    {
        if self.tokens_milli >= TOKEN_SCALE {
            0
        } else {
            ((TOKEN_SCALE - self.tokens_milli) + self.refill_per_ms - 1) / self.refill_per_ms
        }
    }

    /// Current bucket content in millitokens (a diagnostic view).
    pub fn tokens_milli(&self) -> (t: u64)
        ensures
            t == self.spec_tokens(),
    {
        self.tokens_milli
    }
}

/// State after `n` consecutive `try_acquire` steps, all at the same clock
/// reading `now_ms`.
pub open spec fn spec_drain(s: RateLimiter, now_ms: u64, n: nat) -> RateLimiter
    decreases n,
{
    if n == 0 {
        s
    } else {
        spec_drain(s, now_ms, (n - 1) as nat).spec_try_acquire(now_ms).0
    }
}

/// Burst law: starting from a full, freshly updated bucket, each of the
/// first `max/1000` immediate `try_acquire` calls succeeds, leaving exactly
/// `n` whole tokens fewer after `n` calls; once fewer than 1000 millitokens
/// remain, the next immediate call fails.
pub proof fn lemma_full_bucket_burst(s: RateLimiter, now_ms: u64, n: nat)
    requires
        s.wf(),
        s.spec_tokens() == s.spec_max(),
        s.spec_last_update() == now_ms,
        n * TOKEN_SCALE <= s.spec_max(),
    ensures
        spec_drain(s, now_ms, n).spec_tokens() == s.spec_max() - n * TOKEN_SCALE,
        spec_drain(s, now_ms, n).wf(),
        spec_drain(s, now_ms, n).spec_last_update() == now_ms,
        spec_drain(s, now_ms, n).spec_max() == s.spec_max(),
        spec_drain(s, now_ms, n).spec_refill_per_ms() == s.spec_refill_per_ms(),
        forall|k: nat|
            k < n ==> #[trigger] spec_drain(s, now_ms, k).spec_try_acquire(now_ms).1,
    decreases n,
{
    if n > 0 {
        lemma_full_bucket_burst(s, now_ms, (n - 1) as nat);
        let prev = spec_drain(s, now_ms, (n - 1) as nat);
        assert(prev.spec_elapsed(now_ms) == 0);
        assert(prev.spec_refilled(now_ms) == prev.spec_tokens());
        assert(prev.spec_tokens() == s.spec_max() - (n - 1) * TOKEN_SCALE);
        assert((n - 1) * TOKEN_SCALE + TOKEN_SCALE == n * TOKEN_SCALE) by (nonlinear_arith);
        assert(prev.spec_try_acquire(now_ms).1);
        assert(forall|k: nat|
            k < n ==> #[trigger] spec_drain(s, now_ms, k).spec_try_acquire(now_ms).1);
    }
}

/// An immediate call on a bucket holding less than one token fails and
/// leaves the content unchanged.
pub proof fn lemma_empty_bucket_fails(s: RateLimiter, now_ms: u64)
    requires
        s.wf(),
        s.spec_tokens() < TOKEN_SCALE,
        s.spec_last_update() == now_ms,
    ensures
        !s.spec_try_acquire(now_ms).1,
        s.spec_try_acquire(now_ms).0.spec_tokens() == s.spec_tokens(),
{
    assert(s.spec_elapsed(now_ms) == 0);
}

} // verus!
