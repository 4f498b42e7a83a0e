//! Rate-limit tokens: one dispatcher per worker hands them to connections.

use crate::time::Duration;
use std::collections::VecDeque;
use vstd::prelude::*;

verus! {

/// A `ratelimit::Ratelimiter`. It is shared by all workers and its state
/// changes behind shared references and with time, so nothing is known of it
/// but what it was made with.
#[verifier::external_body]
pub struct TokenBucket {
    inner: ratelimit::Ratelimiter,
}

/// The rate, the tokens to start with and the capacity that a bucket was made
/// with.
pub uninterp spec fn made_with(bucket: TokenBucket) -> (u64, u64, u64);

/// `Ratelimiter::builder(..).build()` makes a bucket with a rate, tokens to
/// start with and a capacity. It makes one when the capacity is at least one
/// and holds the tokens.
#[verifier::external_body]
pub(crate) fn bucket(rate: u64, available: u64, max_tokens: u64) -> (r: TokenBucket)
    requires
        max_tokens >= 1,
        available <= max_tokens,
    ensures
        made_with(r) == (rate, available, max_tokens),
{
    let builder = ratelimit::Ratelimiter::builder(rate).initial_available(available);
    TokenBucket { inner: builder.max_tokens(max_tokens).build().expect("token bucket") }
}

impl TokenBucket {
    /// A bucket that fills at `rate` tokens per second up to `max_tokens`, and
    /// holds `available` of them to start with.
    pub fn new(rate: u64, available: u64, max_tokens: u64) -> (r: TokenBucket)
        requires
            max_tokens >= 1,
            available <= max_tokens,
        ensures
            made_with(r) == (rate, available, max_tokens),
    {
        bucket(rate, available, max_tokens)
    }

    /// Asks for `n` tokens at once.
    pub fn take(&self, n: u64) -> (r: Funding)
        ensures
            n == 0 ==> r == Funding::Funded,
            r matches Funding::Wait(d) ==> 1 <= d.nanos <= u64::MAX,
    {
        try_fund(self, n)
    }

    /// Sets the rate.
    pub fn set_rate(&self, rate: u64) {
        change_rate(self, rate)
    }

    /// Whole tokens that did not fit into the bucket so far.
    pub fn dropped(&self) -> (r: u64)
        ensures
            r <= u64::MAX / 1_000_000,
    {
        overflowed(self)
    }
}

/// `Ratelimiter::set_rate` sets the rate; the bucket is not reset.
#[verifier::external_body]
pub(crate) fn change_rate(rl: &TokenBucket, rate: u64) {
    rl.inner.set_rate(rate)
}

/// `Ratelimiter::dropped` is the number of whole tokens that did not fit into
/// the bucket; the bucket counts millionths of tokens in a 64-bit integer.
#[verifier::external_body]
pub(crate) fn overflowed(rl: &TokenBucket) -> (r: u64)
    ensures
        r <= u64::MAX / 1_000_000,
{
    rl.inner.dropped()
}

/// What a token bucket answered to a request for tokens.
#[derive(Clone, Copy, Debug, PartialEq, Eq, Structural)]
pub enum Funding {
    /// The tokens were taken.
    Funded,
    /// There are not enough yet; more are due after this time.
    Wait(Duration),
    /// The bucket can never hold that many.
    TooLarge,
    /// Something else.
    Unknown,
}

/// `Ratelimiter::try_wait_n` takes `n` tokens at once or none. No tokens are
/// always granted, and a wait is at least a nanosecond and counted in a 64-bit
/// integer. Whether tokens are granted rests on the time and on what others
/// took, of which nothing is stated.
#[verifier::external_body]
pub(crate) fn try_fund(rl: &TokenBucket, n: u64) -> (r: Funding)
    ensures
        n == 0 ==> r == Funding::Funded,
        r matches Funding::Wait(d) ==> 1 <= d.nanos <= u64::MAX,
{
    match rl.inner.try_wait_n(n) {
        Ok(()) => Funding::Funded,
        Err(ratelimit::TryWaitError::Insufficient(d)) => Funding::Wait(Duration { nanos: d.as_nanos() }),
        Err(ratelimit::TryWaitError::ExceedsCapacity) => Funding::TooLarge,
        Err(_) => Funding::Unknown,
    }
}

/// `Ratelimiter::max_tokens` is the bucket's capacity at the moment, of which
/// nothing is stated: it can be set at any time.
#[verifier::external_body]
pub(crate) fn capacity(rl: &TokenBucket) -> (r: u64) {
    rl.inner.max_tokens()
}

/// `Ratelimiter::available` is the number of whole tokens at the moment; the
/// bucket counts millionths of tokens in a 64-bit integer.
#[verifier::external_body]
pub(crate) fn backlog(rl: &TokenBucket) -> (r: u64)
    ensures
        r <= u64::MAX / 1_000_000,
{
    rl.inner.available()
}

/// `Ratelimiter::rate` is the rate at the moment, of which nothing is stated:
/// it can be set at any time.
#[verifier::external_body]
pub(crate) fn target_rate(rl: &TokenBucket) -> (r: u64) {
    rl.inner.rate()
}

/// The schedule slip of a limited run at the moment.
pub fn limiter_slip(rl: &TokenBucket) -> (r: u64)
    ensures
        exists|available: u64, rate: u64|
            available <= u64::MAX / 1_000_000 && r == #[trigger] crate::metrics::slip_spec(
                available as nat,
                rate as nat,
            ),
{
    let available: u64 = backlog(rl);
    let rate: u64 = target_rate(rl);
    crate::metrics::slip_ns(available, rate)
}

/// Fallback poll interval, and what a closed-loop run uses: 100 microseconds.
pub const IDLE_SLEEP_MIN_NS: u128 = 100_000;

/// Upper bound on how long the dispatcher sleeps: 50 milliseconds.
pub const IDLE_SLEEP_MAX_NS: u128 = 50_000_000;

/// One connection's claim on the rate limiter.
///
/// The dispatcher funds a claim outright or not at all, then settles it.
#[derive(Clone, Copy, Debug, PartialEq, Eq, Structural)]
pub struct Claim {
    /// Names the claim.
    pub id: u64,
    /// How many tokens are asked for.
    pub want: u64,
}

/// The end of a claim: its connection goes on with the tokens granted, which
/// may be none.
#[derive(Clone, Copy, Debug, PartialEq, Eq, Structural)]
pub struct Settlement {
    /// The claim.
    pub id: u64,
    /// The tokens granted.
    pub granted: u64,
}

/// What came of asking for tokens.
#[derive(Clone, Copy, Debug, PartialEq, Eq, Structural)]
pub enum Acquire {
    /// The dispatcher is gone: go on without tokens.
    Closed,
    /// Wait until the claim is settled; `wake` an idle dispatcher.
    Queued { id: u64, wake: bool },
}

/// Worker-local dispatcher between the shared rate limiter and this worker's
/// connections: a first-in first-out queue of claims.
pub struct TokenDispatcher {
    pub queue: VecDeque<Claim>,
    /// Set once the dispatcher has stopped servicing, and never cleared: a
    /// claim made afterwards would otherwise wait forever.
    pub closed: bool,
    /// Whether the dispatcher sleeps because nobody waits.
    pub idle: bool,
    /// The name of the next claim.
    pub next_id: u64,
}

/// The tokens that a claim is given in a bucket of the given capacity: what it
/// wants, no more than the bucket holds, and at least one.
pub open spec fn funded_tokens(want: u64, capacity: u64) -> u64 {
    let n = if want <= capacity {
        want
    } else {
        capacity
    };
    if n < 1 {
        1
    } else {
        n
    }
}

/// How many tokens the limiter is asked for on behalf of a claim.
pub fn claim_request(claim: &Claim, capacity: u64) -> (r: u64)
    ensures
        r == funded_tokens(claim.want, capacity),
{
    let n: u64 = if claim.want <= capacity {
        claim.want
    } else {
        capacity
    };
    if n < 1 {
        1
    } else {
        n
    }
}

/// What became of the claim at the head of the queue.
#[derive(Clone, Copy, Debug, PartialEq, Eq, Structural)]
pub enum Head {
    /// The claim is settled and left the queue.
    Settled(Settlement),
    /// The claim keeps its place for this time.
    Kept(Duration),
}

impl TokenDispatcher {
    /// An empty queue.
    pub fn new() -> (r: Self)
        ensures
            r.queue@ == Seq::<Claim>::empty(),
            !r.closed,
            !r.idle,
            r.next_id == 0,
    {
        TokenDispatcher { queue: VecDeque::new(), closed: false, idle: false, next_id: 0 }
    }

    /// Queue a claim for `want` tokens. A dispatcher that sleeps because
    /// nobody waited is to be woken.
    pub fn acquire(&mut self, want: u64) -> (r: Acquire)
        requires
            old(self).next_id < u64::MAX,
        ensures
            old(self).closed ==> r is Closed && *final(self) == *old(self),
            !old(self).closed ==> {
                &&& r == (Acquire::Queued { id: old(self).next_id, wake: old(self).idle })
                &&& final(self).queue@ == old(self).queue@.push(
                    Claim { id: old(self).next_id, want },
                )
                &&& final(self).next_id == old(self).next_id + 1
                &&& !final(self).idle
                &&& !final(self).closed
            },
    {
        if self.closed {
            return Acquire::Closed;
        }
        let id: u64 = self.next_id;
        self.next_id = id + 1;
        let wake = self.idle;
        self.idle = false;
        self.queue.push_back(Claim { id, want });
        Acquire::Queued { id, wake }
    }

    /// What becomes of the claim at the head of the queue in a bucket of the
    /// given capacity, by the answer to the request for its tokens: funded, it
    /// is settled with as many as were asked for; too large, it is settled
    /// without, as waiting cannot fix it and must not stall the claims behind
    /// it; else it keeps its place.
    pub fn settle_claim(&mut self, capacity: u64, funding: Funding) -> (r: Head)
        requires
            old(self).queue@.len() > 0,
        ensures
            ({
                let claim = old(self).queue@[0];
                r == match funding {
                    Funding::Funded => Head::Settled(
                        Settlement {
                            id: claim.id,
                            granted: funded_tokens(claim.want, capacity),
                        },
                    ),
                    Funding::TooLarge => Head::Settled(Settlement { id: claim.id, granted: 0 }),
                    Funding::Wait(d) => Head::Kept(d),
                    Funding::Unknown => Head::Kept(Duration { nanos: IDLE_SLEEP_MIN_NS }),
                }
            }),
            final(self).queue@ == if r is Kept {
                old(self).queue@
            } else {
                old(self).queue@.skip(1)
            },
            final(self).closed == old(self).closed,
            final(self).idle == old(self).idle,
            final(self).next_id == old(self).next_id,
    {
        let claim: Claim = self.queue[0];
        let granted: u64 = match funding {
            Funding::Funded => claim_request(&claim, capacity),
            Funding::TooLarge => 0,
            Funding::Wait(d) => {
                return Head::Kept(d);
            },
            Funding::Unknown => {
                return Head::Kept(Duration { nanos: IDLE_SLEEP_MIN_NS });
            },
        };
        let _ = self.queue.pop_front();
        assert(self.queue@ =~= old(self).queue@.skip(1));
        Head::Settled(Settlement { id: claim.id, granted })
    }

    /// Fund as many queued claims as the limiter will pay for right now, in
    /// order, and settle them.
    ///
    /// Returns how long to wait before trying again: `None` when the queue is
    /// empty, otherwise the limiter's own estimate of when the head becomes
    /// fundable.
    pub fn dispatch(&mut self, rl: &TokenBucket) -> (r: (
        Option<Duration>,
        Vec<Settlement>,
    ))
        ensures
            ({
                let k = r.1@.len() as int;
                let before = old(self).queue@;
                &&& k <= before.len()
                &&& final(self).queue@ == before.skip(k)
                &&& r.0 is None <==> k == before.len()
                &&& r.0 matches Some(d) ==> 1 <= d.nanos <= u64::MAX
                &&& forall|i: int|
                    0 <= i < k ==> settles(#[trigger] r.1@[i], before[i])
            }),
            final(self).closed == old(self).closed,
            final(self).idle == (r.0 is None),
            final(self).next_id == old(self).next_id,
    {
        let mut settled: Vec<Settlement> = Vec::new();
        let ghost before = self.queue@;
        assert(before.skip(0) =~= before);
        loop
            invariant
                before == old(self).queue@,
                settled@.len() <= before.len(),
                self.queue@ == before.skip(settled@.len() as int),
                self.closed == old(self).closed,
                self.next_id == old(self).next_id,
                forall|i: int| 0 <= i < settled@.len() ==> settles(#[trigger] settled@[i], before[i]),
            decreases before.len() - settled@.len(),
        {
            let ghost k = settled@.len() as int;
            if self.queue.len() == 0 {
                self.idle = true;
                return (None, settled);
            }
            let claim: Claim = self.queue[0];
            assert(claim == before[k]);
            let max: u64 = capacity(rl);
            let funding = try_fund(rl, claim_request(&claim, max));
            match self.settle_claim(max, funding) {
                Head::Settled(s) => {
                    settled.push(s);
                    assert(self.queue@ =~= before.skip(k + 1));
                },
                Head::Kept(d) => {
                    self.idle = false;
                    return (Some(d), settled);
                },
            }
        }
    }

    /// Release every waiter, funded or not, so shutdown cannot block on one,
    /// and take no more claims.
    pub fn drain(&mut self) -> (r: Vec<Settlement>)
        ensures
            final(self).closed,
            final(self).queue@.len() == 0,
            final(self).idle == old(self).idle,
            final(self).next_id == old(self).next_id,
            r@ == Seq::new(
                old(self).queue@.len(),
                |i: int| Settlement { id: old(self).queue@[i].id, granted: 0 },
            ),
    {
        self.closed = true;
        let mut r: Vec<Settlement> = Vec::new();
        let ghost before = self.queue@;
        assert(before.skip(0) =~= before);
        loop
            invariant
                before == old(self).queue@,
                r@.len() <= before.len(),
                self.queue@ == before.skip(r@.len() as int),
                self.closed,
                self.idle == old(self).idle,
                self.next_id == old(self).next_id,
                forall|i: int|
                    0 <= i < r@.len() ==> #[trigger] r@[i] == (Settlement {
                        id: before[i].id,
                        granted: 0,
                    }),
            decreases before.len() - r@.len(),
        {
            let ghost k = r@.len() as int;
            match self.queue.pop_front() {
                None => {
                    return r;
                },
                Some(claim) => {
                    assert(claim == before[k]);
                    assert(self.queue@ =~= before.skip(k + 1));
                    r.push(Settlement { id: claim.id, granted: 0 });
                },
            }
        }
    }
}

/// Whether a settlement ends a claim: with what it is given in a bucket of
/// some capacity, or with nothing.
pub open spec fn settles(s: Settlement, claim: Claim) -> bool {
    &&& s.id == claim.id
    &&& s.granted == 0 || exists|max: u64| s.granted == #[trigger] funded_tokens(claim.want, max)
}

/// No claim is given more than it wants, but for the one token that a claim
/// for none is given.
pub proof fn no_claim_is_overpaid(s: Settlement, claim: Claim)
    requires
        settles(s, claim),
    ensures
        s.granted <= claim.want || s.granted == 1,
{
}

/// How long the dispatcher sleeps after a round: what the limiter estimated,
/// no less than a microsecond and no more than the bound; the bound when
/// nobody waits.
pub fn dispatcher_nap(wait: Option<Duration>) -> (r: Duration)
    ensures
        r.nanos == match wait {
            None => IDLE_SLEEP_MAX_NS,
            Some(d) => if d.nanos < 1_000 {
                1_000
            } else if d.nanos > IDLE_SLEEP_MAX_NS {
                IDLE_SLEEP_MAX_NS
            } else {
                d.nanos
            },
        },
{
    match wait {
        None => Duration { nanos: IDLE_SLEEP_MAX_NS },
        Some(d) => if d.nanos < 1_000 {
            Duration { nanos: 1_000 }
        } else if d.nanos > IDLE_SLEEP_MAX_NS {
            Duration { nanos: IDLE_SLEEP_MAX_NS }
        } else {
            d
        },
    }
}

/// How the ping workload waits when the limiter turned it away: until the next
/// token, at least 50 microseconds; a millisecond when the limiter gives no
/// time.
pub fn ping_nap(funding: Funding) -> (r: Option<Duration>)
    ensures
        r == match funding {
            Funding::Funded => None,
            Funding::Wait(d) => Some(
                Duration {
                    nanos: if d.nanos < 50_000 {
                        50_000
                    } else {
                        d.nanos
                    },
                },
            ),
            _ => Some(Duration { nanos: 1_000_000 }),
        },
{
    match funding {
        Funding::Funded => None,
        Funding::Wait(d) => if d.nanos < 50_000 {
            Some(Duration { nanos: 50_000 })
        } else {
            Some(d)
        },
        Funding::TooLarge => Some(Duration { nanos: 1_000_000 }),
        Funding::Unknown => Some(Duration { nanos: 1_000_000 }),
    }
}

/// How many tokens a single request is funded with.
pub fn ping_request() -> (r: u64)
    ensures
        r == 1,
{
    1
}

/// Asks for the token of one ping: how long to wait when there is none.
pub fn ping_token(rl: &TokenBucket) -> (r: Option<Duration>)
    ensures
        r matches Some(d) ==> 50_000 <= d.nanos <= u64::MAX,
{
    ping_nap(try_fund(rl, ping_request()))
}

/// How many tokens a writer asks for at once: its free pipeline slots, no more
/// than the bucket holds, and at least one.
pub fn append_request(free: usize, capacity: u64) -> (r: u64)
    ensures
        r == funded_tokens(free as u64, capacity),
        r >= 1,
{
    let n: u64 = if free as u64 <= capacity {
        free as u64
    } else {
        capacity
    };
    if n < 1 {
        1
    } else {
        n
    }
}

/// How many SETs a writer may fire given what the limiter answered to the
/// request for `n` tokens and, where that was refused and `n > 1`, to the
/// request for a single one.
pub fn append_grant(n: u64, all: bool, one: bool) -> (r: usize)
    requires
        n <= usize::MAX,
    ensures
        r == if all {
            n as int
        } else if n > 1 && one {
            1
        } else {
            0
        },
{
    if all {
        n as usize
    } else if n > 1 && one {
        1
    } else {
        0
    }
}

/// How many SETs a writer may fire right now given `free` pipeline slots.
/// Unlimited for burst pacing. For spread pacing, take a full batch of tokens
/// when available, otherwise a single one, so a low rate still trickles out
/// one SET at a time instead of waiting for a whole batch of tokens.
pub fn append_token_budget(rl: Option<&TokenBucket>, free: usize) -> (r: usize)
    ensures
        rl is None ==> r == free,
        r <= free || r == 1,
{
    match rl {
        None => free,
        Some(rl) => {
            let n: u64 = append_request(free, capacity(rl));
            let all = try_fund(rl, n) == Funding::Funded;
            let one = !all && n > 1 && try_fund(rl, ping_request()) == Funding::Funded;
            append_grant(n, all, one)
        },
    }
}

/// A claim that fits the bucket is asked for in full, a larger one for all that
/// the bucket can hold, and none for less than one token: that alone is what a
/// settled claim is granted, or nothing.
pub proof fn claims_are_asked_for_in_full(want: u64, capacity: u64)
    ensures
        1 <= want <= capacity ==> funded_tokens(want, capacity) == want,
        1 <= capacity <= want ==> funded_tokens(want, capacity) == capacity,
        want == 0 || capacity == 0 ==> funded_tokens(want, capacity) == 1,
{
}

} // verus!
