//! Dynamic rate limiter: a token bucket whose rate can change at runtime.

use vstd::prelude::*;

verus! {

/// A token bucket rate limiter that supports dynamic rate changes.
///
/// The rate limiter uses a token bucket algorithm where:
/// - Tokens are added at the configured rate per second
/// - Each request consumes one token
/// - Burst is limited to 1 second worth of tokens
/// - A rate of 0 means unlimited (no rate limiting)
///
/// Moments are nanoseconds since the limiter was created.
#[derive(Clone, Copy, Debug, PartialEq, Eq, Structural)]
pub struct DynamicRateLimiter {
    /// Target rate in requests per second. 0 = unlimited.
    pub target_rate: u64,
    /// Available tokens, scaled by TOKEN_SCALE for sub-token precision.
    pub tokens: u64,
    /// Last refill timestamp in nanoseconds since creation.
    pub last_refill_ns: u64,
}

/// Scale factor for token precision (allows fractional tokens).
pub const TOKEN_SCALE: u64 = 1_000_000;

impl DynamicRateLimiter {
    /// One second worth of scaled tokens.
    pub open spec fn burst(self) -> int {
        self.target_rate * TOKEN_SCALE
    }

    /// The scaled tokens that the time since the last refill is worth, up to
    /// one second worth.
    pub open spec fn earned(self, now_ns: u64) -> int {
        let elapsed = if now_ns >= self.last_refill_ns {
            now_ns - self.last_refill_ns
        } else {
            0
        };
        let worth = self.target_rate * elapsed / 1_000;
        if elapsed < 1_000 {
            0
        } else if worth <= self.burst() {
            worth
        } else {
            self.burst()
        }
    }

    /// The bucket refilled for the time that passed, up to one second worth;
    /// what exceeds that already stays.
    pub open spec fn refilled(self, now_ns: u64) -> DynamicRateLimiter {
        let earned = self.earned(now_ns);
        if earned == 0 {
            self
        } else {
            let total = if self.tokens + earned <= self.burst() {
                self.tokens + earned
            } else {
                self.burst()
            };
            DynamicRateLimiter {
                last_refill_ns: now_ns,
                tokens: if total > self.tokens {
                    total as u64
                } else {
                    self.tokens
                },
                ..self
            }
        }
    }

    /// The bucket after a request at `now_ns`, and whether it is allowed.
    pub open spec fn acquired(self, now_ns: u64) -> (DynamicRateLimiter, bool) {
        if self.target_rate == 0 {
            (self, true)
        } else {
            let s = self.refilled(now_ns);
            if s.tokens < TOKEN_SCALE {
                (s, false)
            } else {
                (DynamicRateLimiter { tokens: (s.tokens - TOKEN_SCALE) as u64, ..s }, true)
            }
        }
    }

    /// Create a new rate limiter with the specified rate and a full bucket.
    ///
    /// A rate of 0 means unlimited (no rate limiting).
    pub fn new(rate: u64) -> (r: Self)
        requires
            rate * TOKEN_SCALE <= u64::MAX,
        ensures
            r.target_rate == rate,
            r.tokens == rate * TOKEN_SCALE,
            r.last_refill_ns == 0,
    {
        DynamicRateLimiter { target_rate: rate, tokens: rate * TOKEN_SCALE, last_refill_ns: 0 }
    }

    /// Get the current target rate.
    pub fn rate(&self) -> (r: u64)
        ensures
            r == self.target_rate,
    {
        self.target_rate
    }

    /// Set a new target rate.
    ///
    /// This takes effect immediately. A rate of 0 means unlimited.
    /// Tokens are NOT reset - the bucket will naturally fill at the new rate.
    /// This avoids microbursts when increasing the rate.
    pub fn set_rate(&mut self, rate: u64)
        ensures
            *final(self) == (DynamicRateLimiter { target_rate: rate, ..*old(self) }),
    {
        self.target_rate = rate;
    }

    /// Try to acquire a token for one request.
    ///
    /// Returns `true` if the request is allowed, `false` if rate limited.
    /// When the rate is 0 (unlimited), always returns `true`.
    pub fn try_acquire(&mut self, now_ns: u64) -> (r: bool)
        requires
            old(self).burst() <= u64::MAX,
        ensures
            (*final(self), r) == old(self).acquired(now_ns),
    {
        if self.target_rate == 0 {
            return true;
        }
        self.refill(now_ns);
        if self.tokens < TOKEN_SCALE {
            return false;
        }
        self.tokens = self.tokens - TOKEN_SCALE;
        true
    }

    /// Refill tokens based on elapsed time.
    pub fn refill(&mut self, now_ns: u64)
        requires
            old(self).burst() <= u64::MAX,
        ensures
            *final(self) == old(self).refilled(now_ns),
    {
        let elapsed: u64 = now_ns.saturating_sub(self.last_refill_ns);
        // Only refill if at least 1us has passed (avoid busy spinning)
        if elapsed < 1_000 {
            return;
        }
        let rate: u64 = self.target_rate;
        assert(rate * elapsed <= u64::MAX * u64::MAX) by (nonlinear_arith)
            requires
                0 <= rate <= u64::MAX,
                0 <= elapsed <= u64::MAX,
        ;
        let worth: u128 = (rate as u128) * (elapsed as u128) / 1_000;
        let burst: u64 = rate * TOKEN_SCALE;
        let earned: u64 = if worth <= burst as u128 {
            worth as u64
        } else {
            burst
        };
        if earned == 0 {
            return;
        }
        self.last_refill_ns = now_ns;
        let sum: u64 = self.tokens.saturating_add(earned);
        let total: u64 = if sum <= burst {
            sum
        } else {
            burst
        };
        if total > self.tokens {
            self.tokens = total;
        }
    }
}

/// A rate of zero allows every request.
pub proof fn zero_rate_is_unlimited(s: DynamicRateLimiter, now_ns: u64)
    requires
        s.target_rate == 0,
    ensures
        s.acquired(now_ns) == (s, true),
{
}

/// However long nothing is asked for, a refill never fills the bucket beyond
/// one second worth of tokens, and never takes any away.
pub proof fn refill_is_capped_at_one_second(s: DynamicRateLimiter, now_ns: u64)
    requires
        s.burst() <= u64::MAX,
    ensures
        s.tokens <= s.refilled(now_ns).tokens,
        s.tokens <= s.burst() ==> s.refilled(now_ns).tokens <= s.burst(),
        s.tokens > s.burst() ==> s.refilled(now_ns).tokens == s.tokens,
{
}

/// How many of the requests at the given moments are allowed.
pub open spec fn granted(s: DynamicRateLimiter, moments: Seq<u64>) -> nat
    decreases moments.len(),
{
    if moments.len() == 0 {
        0
    } else {
        let (t, allowed) = s.acquired(moments[0]);
        granted(t, moments.skip(1)) + if allowed {
            1nat
        } else {
            0
        }
    }
}

proof fn lemma_held_tokens_grant(s: DynamicRateLimiter, moments: Seq<u64>)
    requires
        s.target_rate > 0,
        s.burst() <= u64::MAX,
        s.tokens >= moments.len() * TOKEN_SCALE,
    ensures
        granted(s, moments) == moments.len(),
    decreases moments.len(),
{
    if moments.len() > 0 {
        refill_is_capped_at_one_second(s, moments[0]);
        lemma_held_tokens_grant(s.acquired(moments[0]).0, moments.skip(1));
    }
}

/// A bucket that nothing was asked of for a second is full: it allows as many
/// requests as its rate, however long it has been idle and whenever they come.
pub proof fn an_idle_second_fills_the_bucket(s: DynamicRateLimiter, moments: Seq<u64>)
    requires
        s.target_rate > 0,
        s.burst() <= u64::MAX,
        moments.len() <= s.target_rate,
        moments.len() > 0 ==> moments[0] >= s.last_refill_ns + 1_000_000_000,
    ensures
        moments.len() > 0 ==> s.refilled(moments[0]).tokens >= s.burst(),
        granted(s, moments) == moments.len(),
{
    if moments.len() > 0 {
        let elapsed = moments[0] - s.last_refill_ns;
        let rate = s.target_rate as int;
        assert(rate * elapsed >= rate * 1_000_000_000) by (nonlinear_arith)
            requires
                elapsed >= 1_000_000_000,
                rate >= 0,
        ;
        let r = s.refilled(moments[0]);
        lemma_held_tokens_grant(s.acquired(moments[0]).0, moments.skip(1));
    }
}

/// Over any span of time a limited bucket allows no more requests than the
/// tokens it held and those that the span earns.
pub proof fn grants_stay_within_the_rate(s: DynamicRateLimiter, moments: Seq<u64>, end: u64)
    requires
        s.target_rate > 0,
        s.burst() <= u64::MAX,
        s.last_refill_ns <= end,
        forall|i: int| 0 <= i < moments.len() ==> s.last_refill_ns <= #[trigger] moments[i] <= end,
        forall|i: int, j: int| 0 <= i < j < moments.len() ==> moments[i] <= moments[j],
    ensures
        granted(s, moments) * TOKEN_SCALE * 1_000 <= s.tokens * 1_000 + s.target_rate * (end
            - s.last_refill_ns),
    decreases moments.len(),
{
    let rate = s.target_rate as int;
    assert(rate * (end - s.last_refill_ns) >= 0) by (nonlinear_arith)
        requires
            rate >= 0,
            end >= s.last_refill_ns,
    ;
    if moments.len() > 0 {
        let now = moments[0];
        let (t, allowed) = s.acquired(now);
        let rest = moments.skip(1);
        let r = s.refilled(now);
        let elapsed = now - s.last_refill_ns;
        assert(rate * elapsed >= 0) by (nonlinear_arith)
            requires
                rate >= 0,
                elapsed >= 0,
        ;
        assert forall|i: int| 0 <= i < rest.len() implies t.last_refill_ns <= #[trigger] rest[i]
            <= end by {
            assert(rest[i] == moments[i + 1]);
        }
        assert forall|i: int, j: int| 0 <= i < j < rest.len() implies rest[i] <= rest[j] by {
            assert(rest[i] == moments[i + 1]);
            assert(rest[j] == moments[j + 1]);
        }
        grants_stay_within_the_rate(t, rest, end);
        if r.last_refill_ns == now {
            assert(s.earned(now) <= rate * elapsed / 1_000);
            assert(rate * (end - s.last_refill_ns) == rate * elapsed + rate * (end - now))
                by (nonlinear_arith)
                requires
                    elapsed == now - s.last_refill_ns,
            ;
        }
    }
}

/// Time earns tokens at the target rate: below a full bucket, a refill after a
/// microsecond or more adds one token for each whole interval of the rate, to a
/// millionth of a token, and counts the time from there. A refill that comes
/// sooner, or that earns nothing, leaves the bucket and its clock alone, so that
/// no time is lost.
pub proof fn time_earns_tokens_at_the_rate(s: DynamicRateLimiter, now_ns: u64)
    requires
        s.burst() <= u64::MAX,
        s.last_refill_ns <= now_ns,
    ensures
        ({
            let elapsed = now_ns - s.last_refill_ns;
            let worth = s.target_rate * elapsed * 1_000_000 / 1_000_000_000;
            let r = s.refilled(now_ns);
            &&& r.target_rate == s.target_rate
            &&& elapsed < 1_000 || worth == 0 ==> r == s
            &&& elapsed >= 1_000 && worth > 0 ==> r.last_refill_ns == now_ns
            &&& elapsed >= 1_000 && s.tokens + worth <= s.target_rate * 1_000_000 ==> r.tokens
                == s.tokens + worth
            &&& elapsed >= 1_000 && worth > 0 && s.tokens + worth > s.target_rate * 1_000_000
                && s.tokens <= s.target_rate * 1_000_000 ==> r.tokens == s.target_rate * 1_000_000
        }),
{
    let elapsed = now_ns - s.last_refill_ns;
    let x = s.target_rate * elapsed;
    assert(x >= 0) by (nonlinear_arith)
        requires
            x == s.target_rate * elapsed,
            s.target_rate >= 0,
            elapsed >= 0,
    ;
    let worth = x / 1_000;
    assert((x * 1_000_000) / 1_000_000_000 == worth);
    assert(s.burst() == s.target_rate * 1_000_000);
    assert(s.target_rate == 0 ==> x == 0) by (nonlinear_arith)
        requires
            x == s.target_rate * elapsed,
    ;
    assert(elapsed >= 1_000 ==> s.earned(now_ns) == if worth <= s.burst() {
        worth
    } else {
        s.burst()
    });
}

/// A request of a limited bucket is allowed exactly when, refilled, it holds a
/// whole token, and takes exactly that token.
pub proof fn a_request_takes_one_token(s: DynamicRateLimiter, now_ns: u64)
    requires
        s.target_rate > 0,
        s.burst() <= u64::MAX,
    ensures
        ({
            let full = s.refilled(now_ns);
            let (after, allowed) = s.acquired(now_ns);
            &&& allowed <==> full.tokens >= 1_000_000
            &&& after.tokens == full.tokens - (if allowed {
                1_000_000int
            } else {
                0
            })
            &&& after.last_refill_ns == full.last_refill_ns
            &&& after.target_rate == s.target_rate
        }),
{
}

} // verus!
