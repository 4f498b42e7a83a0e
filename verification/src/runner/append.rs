//! When append batches open and when they are published.

use crate::config::{Append, Pace};
use crate::runner::{make_bucket, LimiterPlan};
use crate::time::{Duration, MAX_NANOS};
use crate::worker::tokens::TokenBucket;
use vstd::prelude::*;

verus! {

/// The state of the append stream.
///
/// A batch opens every interval, measured from the start of warmup, and the
/// keyspace head moves only once every SET in the batch is confirmed. If a
/// batch takes longer than the interval to drain, the next one waits rather
/// than stacking.
#[derive(Clone, Copy, Debug, PartialEq, Eq, Structural)]
pub struct AppendStream {
    /// Ids per batch.
    pub batch: usize,
    /// The interval between batches.
    pub every: Duration,
    /// The published head: every id below it was written.
    pub head: usize,
    /// Whether a batch is being written.
    pub open: bool,
    /// When the next batch is due.
    pub due: Duration,
    /// Batches that were published.
    pub batches: u64,
}

/// What the runner does about the append stream.
#[derive(Clone, Copy, Debug, PartialEq, Eq, Structural)]
pub enum AppendStep {
    /// Nothing.
    Wait,
    /// Queue the ids `start..start + count`.
    Open { start: usize, count: usize },
    /// Publish the head of the keyspace.
    Publish { head: usize },
}

impl AppendStream {
    /// What every state keeps.
    pub open spec fn wf(self) -> bool {
        &&& self.batch >= 1
        &&& self.open ==> self.head + self.batch <= usize::MAX
    }

    /// The stream at the start of warmup, over a body of `count` ids.
    pub fn new(batch: usize, every: Duration, count: usize, warmup_start: Duration) -> (r: Self)
        requires
            batch >= 1,
            warmup_start.nanos + every.nanos <= MAX_NANOS,
        ensures
            r.wf(),
            r == (AppendStream {
                batch,
                every,
                head: count,
                open: false,
                due: Duration { nanos: (warmup_start.nanos + every.nanos) as u128 },
                batches: 0,
            }),
    {
        AppendStream {
            batch,
            every,
            head: count,
            open: false,
            due: warmup_start.plus(every),
            batches: 0,
        }
    }

    /// What follows at a time, with so many of the queued SETs confirmed.
    pub open spec fn stepped(self, now: Duration, confirmed: usize, total: usize) -> (
        AppendStream,
        AppendStep,
    ) {
        if self.open {
            if confirmed >= total {
                let head = (self.head + self.batch) as usize;
                (
                    AppendStream {
                        head,
                        open: false,
                        batches: if self.batches < u64::MAX {
                            (self.batches + 1) as u64
                        } else {
                            u64::MAX
                        },
                        ..self
                    },
                    AppendStep::Publish { head },
                )
            } else {
                (self, AppendStep::Wait)
            }
        } else if now.nanos >= self.due.nanos && self.head + self.batch <= usize::MAX {
            (
                AppendStream {
                    open: true,
                    due: Duration { nanos: (now.nanos + self.every.nanos) as u128 },
                    ..self
                },
                AppendStep::Open { start: self.head, count: self.batch },
            )
        } else {
            (self, AppendStep::Wait)
        }
    }

    /// Decides what follows. `confirmed` and `total` count the SETs of all
    /// batches that were opened.
    pub fn step(&mut self, now: Duration, confirmed: usize, total: usize) -> (r: AppendStep)
        requires
            old(self).wf(),
            now.nanos + old(self).every.nanos <= MAX_NANOS,
        ensures
            final(self).wf(),
            (*final(self), r) == old(self).stepped(now, confirmed, total),
    {
        if self.open {
            if confirmed >= total {
                self.head = self.head + self.batch;
                self.open = false;
                self.batches = self.batches.saturating_add(1);
                AppendStep::Publish { head: self.head }
            } else {
                AppendStep::Wait
            }
        } else if now.nanos >= self.due.nanos && self.head.checked_add(self.batch).is_some() {
            self.open = true;
            self.due = now.plus(self.every);
            AppendStep::Open { start: self.head, count: self.batch }
        } else {
            AppendStep::Wait
        }
    }
}

/// Tokens per second of the writers under spread pacing: a batch per
/// interval, rounded up.
pub open spec fn spread_rate_spec(batch: nat, every_ns: nat) -> nat {
    ((batch * 1_000_000_000 + every_ns - 1) / every_ns as int) as nat
}

/// Tokens per second that pace a batch evenly across its interval.
pub fn spread_rate(batch: usize, every: Duration) -> (r: u64)
    requires
        0 < every.nanos <= MAX_NANOS,
    ensures
        r == if spread_rate_spec(batch as nat, every.nanos as nat) > u64::MAX {
            u64::MAX as nat
        } else {
            spread_rate_spec(batch as nat, every.nanos as nat)
        },
        batch > 0 ==> r > 0,
{
    let n: u128 = batch as u128 * 1_000_000_000 + every.nanos - 1;
    let q: u128 = n / every.nanos;
    proof {
        if batch > 0 {
            vstd::arithmetic::div_mod::lemma_div_is_ordered(
                every.nanos as int,
                n as int,
                every.nanos as int,
            );
            vstd::arithmetic::div_mod::lemma_div_by_self(every.nanos as int);
        }
    }
    if q > u64::MAX as u128 {
        u64::MAX
    } else {
        q as u64
    }
}

/// The rate limiter of the writers: none when a batch is written as fast as
/// they allow. A spread batch starts without tokens, and the limiter can hold
/// what a second brings and what fills a pipeline.
pub open spec fn planned_writer_limiter(append: Append) -> Option<LimiterPlan> {
    if append.pace == Pace::Spread {
        let spread = spread_rate_spec(append.batch as nat, append.every.nanos as nat);
        let rate = if spread > u64::MAX {
            u64::MAX
        } else {
            spread as u64
        };
        let held = if rate < append.pipeline_depth {
            append.pipeline_depth as u64
        } else {
            rate
        };
        Some(
            LimiterPlan {
                rate,
                available: 0,
                max_tokens: if held < 1 {
                    1
                } else {
                    held
                },
            },
        )
    } else {
        None
    }
}

/// The rate limiter of the writers.
pub fn writer_limiter(append: &Append) -> (r: Option<LimiterPlan>)
    requires
        0 < append.every.nanos <= MAX_NANOS,
    ensures
        r == planned_writer_limiter(*append),
        r matches Some(p) ==> p.max_tokens >= 1 && p.available <= p.max_tokens,
{
    match append.pace {
        Pace::Burst => None,
        Pace::Spread => {
            let rate: u64 = spread_rate(append.batch, append.every);
            let mut max_tokens: u64 = if rate == 0 {
                1
            } else {
                rate
            };
            if max_tokens < append.pipeline_depth as u64 {
                max_tokens = append.pipeline_depth as u64;
            }
            Some(LimiterPlan { rate, available: 0, max_tokens })
        },
    }
}

/// Makes the rate limiter of the writers.
pub fn make_writer_limiter(append: &Append) -> (r: Option<TokenBucket>)
    requires
        0 < append.every.nanos <= MAX_NANOS,
    ensures
        crate::runner::made_as_planned(r, planned_writer_limiter(*append)),
{
    make_bucket(writer_limiter(append))
}

/// Whether the stream's per-batch lines are logged at the info level: only
/// when there is at most one batch in ten seconds.
pub fn logs_at_info(every: Duration) -> (r: bool)
    ensures
        r == (every.nanos >= 10_000_000_000),
{
    every.nanos >= 10_000_000_000
}

/// Batches do not stack: while one is open none opens, and the head moves only
/// by a batch whose SETs were all confirmed.
pub proof fn batches_do_not_stack(
    s: AppendStream,
    now: Duration,
    confirmed: usize,
    total: usize,
)
    requires
        s.wf(),
    ensures
        ({
            let (after, step) = s.stepped(now, confirmed, total);
            &&& step is Open ==> !s.open && after.open && after.head == s.head
            &&& after.head != s.head ==> s.open && confirmed >= total && after.head == s.head
                + s.batch && step == (AppendStep::Publish { head: after.head })
            &&& s.open && confirmed < total ==> after == s
        }),
{
}

/// Ids are a monotonic sequence: a batch starts where the published ids end, so
/// no id is ever written twice.
pub proof fn ids_are_never_reused(s: AppendStream, now: Duration, confirmed: usize, total: usize)
    requires
        s.wf(),
    ensures
        ({
            let (after, step) = s.stepped(now, confirmed, total);
            &&& after.head >= s.head
            &&& step matches AppendStep::Open { start, count } ==> start == s.head && count
                == s.batch
        }),
{
}

/// A batch opens exactly when none is open, it is due and its ids can be
/// counted; the next one is due an interval later.
pub proof fn batches_open_when_due(
    s: AppendStream,
    now: Duration,
    confirmed: usize,
    total: usize,
)
    requires
        s.wf(),
        now.nanos + s.every.nanos <= MAX_NANOS,
    ensures
        ({
            let (after, step) = s.stepped(now, confirmed, total);
            &&& step is Open <==> !s.open && s.due.nanos <= now.nanos && s.head + s.batch
                <= usize::MAX
            &&& step is Open ==> after.due.nanos == now.nanos + s.every.nanos
            &&& !(step is Open) ==> after.due == s.due
            &&& step is Publish <==> s.open && total <= confirmed
            &&& step is Publish && s.batches < u64::MAX ==> after.batches == s.batches + 1
            &&& !(step is Publish) ==> after.batches == s.batches
            &&& after.every == s.every && after.batch == s.batch
        }),
{
}

/// Two batches open no closer together than the interval: after one has opened,
/// a later step opens another only once that time has passed.
pub proof fn batches_keep_their_distance(
    s: AppendStream,
    first: Duration,
    between: Duration,
    second: Duration,
    confirmed: usize,
    total: usize,
)
    requires
        s.wf(),
        s.stepped(first, confirmed, total).1 is Open,
        first.nanos + s.every.nanos <= MAX_NANOS,
        between.nanos + s.every.nanos <= MAX_NANOS,
    ensures
        ({
            let opened = s.stepped(first, confirmed, total).0;
            let published = opened.stepped(between, total, total).0;
            &&& opened.stepped(between, total, total).1 == (AppendStep::Publish {
                head: (s.head + s.batch) as usize,
            })
            &&& published.stepped(second, confirmed, total).1 is Open ==> second.nanos
                >= first.nanos + s.every.nanos
            &&& published.stepped(second, confirmed, total).1 matches AppendStep::Open {
                start,
                count,
            } ==> start == s.head + s.batch && count == s.batch
        }),
{
}

/// Under spread pacing a second's tokens, times the interval, are enough for a
/// batch, and one token less would not be.
pub proof fn a_spread_batch_fits_its_interval(batch: nat, every_ns: nat)
    requires
        every_ns > 0,
    ensures
        batch * 1_000_000_000 <= spread_rate_spec(batch, every_ns) * every_ns,
        spread_rate_spec(batch, every_ns) > 0 ==> (spread_rate_spec(batch, every_ns) - 1) * every_ns
            < batch * 1_000_000_000,
{
    let n = batch * 1_000_000_000 + every_ns - 1;
    let d = every_ns as int;
    let q = n / d;
    let rest = n % d;
    vstd::arithmetic::div_mod::lemma_fundamental_div_mod(n, d);
    assert(q >= 0) by (nonlinear_arith)
        requires
            n == d * q + rest,
            0 <= rest < d,
            n >= 0,
    ;
    assert(q * d == d * q) by (nonlinear_arith);
    assert((q - 1) * d == d * q - d) by (nonlinear_arith);
}

/// A writers' limiter exists under spread pacing only. It starts empty, fills at
/// the spread rate, and holds what a second brings or what fills a pipeline,
/// whichever is more, and at least one token.
pub proof fn writers_are_limited_when_spread(append: Append)
    requires
        0 < append.every.nanos <= MAX_NANOS,
    ensures
        planned_writer_limiter(append) is Some <==> append.pace == Pace::Spread,
        planned_writer_limiter(append) matches Some(p) ==> {
            let rate = spread_rate_spec(append.batch as nat, append.every.nanos as nat);
            &&& p.available == 0
            &&& rate <= u64::MAX ==> p.rate == rate
            &&& rate > u64::MAX ==> p.rate == u64::MAX
            &&& p.max_tokens >= p.rate && p.max_tokens >= append.pipeline_depth && p.max_tokens >= 1
            &&& p.max_tokens == p.rate || p.max_tokens == append.pipeline_depth || p.max_tokens == 1
        },
{
}

} // verus!
