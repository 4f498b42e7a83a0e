//! Samples during a run and the results at its end.
//!
//! Counters are never reset: what a run reports is the difference to a
//! baseline that is captured when measuring begins.

use crate::double::Double;
use crate::output::{LatencyStats, PrefillSample, Results, Sample};
use crate::saturation;
use crate::time::Duration;
use vstd::prelude::*;

verus! {

/// The values of a run's counters at one time.
#[derive(Clone, Copy, Debug, PartialEq, Eq, Structural)]
pub struct Counters {
    pub requests: u64,
    pub responses: u64,
    pub errors: u64,
    pub conn_failures: u64,
    pub hits: u64,
    pub misses: u64,
    pub get_count: u64,
    pub set_count: u64,
    pub backfill_set_count: u64,
    pub bytes_tx: u64,
    pub bytes_rx: u64,
    pub request_timeouts: u64,
    pub append_set_count: u64,
}

impl Counters {
    /// Whether these are later values of the same counters.
    pub open spec fn after(self, earlier: Counters) -> bool {
        &&& self.requests >= earlier.requests
        &&& self.responses >= earlier.responses
        &&& self.errors >= earlier.errors
        &&& self.conn_failures >= earlier.conn_failures
        &&& self.hits >= earlier.hits
        &&& self.misses >= earlier.misses
        &&& self.get_count >= earlier.get_count
        &&& self.set_count >= earlier.set_count
        &&& self.backfill_set_count >= earlier.backfill_set_count
        &&& self.bytes_tx >= earlier.bytes_tx
        &&& self.bytes_rx >= earlier.bytes_rx
        &&& self.request_timeouts >= earlier.request_timeouts
        &&& self.append_set_count >= earlier.append_set_count
    }

    /// Whether these are later values of the same counters.
    pub fn is_after(&self, earlier: &Counters) -> (r: bool)
        ensures
            r == self.after(*earlier),
    {
        self.requests >= earlier.requests && self.responses >= earlier.responses && self.errors
            >= earlier.errors && self.conn_failures >= earlier.conn_failures && self.hits
            >= earlier.hits && self.misses >= earlier.misses && self.get_count >= earlier.get_count
            && self.set_count >= earlier.set_count && self.backfill_set_count
            >= earlier.backfill_set_count && self.bytes_tx >= earlier.bytes_tx && self.bytes_rx
            >= earlier.bytes_rx && self.request_timeouts >= earlier.request_timeouts
            && self.append_set_count >= earlier.append_set_count
    }

    /// Errors of either kind since the earlier values.
    pub open spec fn failures_since(self, earlier: Counters) -> int {
        (self.errors - earlier.errors) + (self.conn_failures - earlier.conn_failures)
    }

    /// Reads with an outcome since the earlier values.
    pub open spec fn reads_since(self, earlier: Counters) -> int {
        (self.hits - earlier.hits) + (self.misses - earlier.misses)
    }

    /// Whether the sums over the difference fit a counter.
    pub open spec fn sums_fit(self, earlier: Counters) -> bool {
        self.failures_since(earlier) <= u64::MAX && self.reads_since(earlier) <= u64::MAX
    }

    /// Whether a sample can be taken between the two.
    pub fn can_sample(&self, earlier: &Counters) -> (r: bool)
        ensures
            r == (self.after(*earlier) && self.sums_fit(*earlier)),
    {
        self.is_after(earlier) && (self.errors - earlier.errors).checked_add(
            self.conn_failures - earlier.conn_failures,
        ).is_some() && (self.hits - earlier.hits).checked_add(
            self.misses - earlier.misses,
        ).is_some()
    }
}

/// The upper ends of the histogram buckets of the reported percentiles, in
/// nanoseconds; none without samples.
#[derive(Clone, Copy, Debug, PartialEq, Eq, Structural)]
pub struct BucketEnds {
    pub p50: Option<u64>,
    pub p90: Option<u64>,
    pub p99: Option<u64>,
    pub p999: Option<u64>,
    pub p9999: Option<u64>,
    pub max: Option<u64>,
}

/// The reported percentiles of a histogram.
pub open spec fn stats_of(e: BucketEnds) -> LatencyStats {
    LatencyStats {
        p50_us: saturation::bucket_us(e.p50),
        p90_us: saturation::bucket_us(e.p90),
        p99_us: saturation::bucket_us(e.p99),
        p999_us: saturation::bucket_us(e.p999),
        p9999_us: saturation::bucket_us(e.p9999),
        max_us: saturation::bucket_us(e.max),
    }
}

/// The reported percentiles of a histogram, in microseconds; zero without
/// samples.
pub fn latency_stats(e: &BucketEnds) -> (r: LatencyStats)
    ensures
        r == stats_of(*e),
{
    LatencyStats {
        p50_us: saturation::percentile_us(e.p50),
        p90_us: saturation::percentile_us(e.p90),
        p99_us: saturation::percentile_us(e.p99),
        p999_us: saturation::percentile_us(e.p999),
        p9999_us: saturation::percentile_us(e.p9999),
        max_us: saturation::percentile_us(e.max),
    }
}

/// A count per second.
pub open spec fn per_second(n: int, interval: Duration) -> Double {
    Double::quotient(Double::of_nat(n as nat), interval.secs())
}

/// A share in percent; zero of nothing.
pub open spec fn percent(part: int, whole: int) -> Double {
    if whole > 0 {
        Double::product(
            Double::quotient(Double::of_nat(part as nat), Double::of_nat(whole as nat)),
            Double::of_nat(100),
        )
    } else {
        Double::zero()
    }
}

fn share_pct(part: u64, whole: u64) -> (r: Double)
    ensures
        r == percent(part as int, whole as int),
{
    if whole > 0 {
        Double::from_u64(part).over(Double::from_u64(whole)).times(Double::from_u64(100))
    } else {
        Double::from_bits(0)
    }
}

/// The sample between two readings of the counters.
pub fn sample(earlier: &Counters, now: &Counters, interval: Duration, ends: &BucketEnds) -> (r:
    Sample)
    requires
        now.after(*earlier),
        now.sums_fit(*earlier),
    ensures
        r == (Sample {
            req_per_sec: per_second(now.responses - earlier.responses, interval),
            err_per_sec: per_second(now.failures_since(*earlier), interval),
            hit_pct: percent(now.hits - earlier.hits, now.reads_since(*earlier)),
            latency: stats_of(*ends),
        }),
        r.req_per_sec == Double::quotient(
            Double::of_nat((now.responses - earlier.responses) as nat),
            interval.secs(),
        ),
        r.err_per_sec == Double::quotient(
            Double::of_nat(
                (now.errors - earlier.errors + now.conn_failures - earlier.conn_failures) as nat,
            ),
            interval.secs(),
        ),
{
    let secs = interval.as_secs();
    let hits: u64 = now.hits - earlier.hits;
    let misses: u64 = now.misses - earlier.misses;
    let errors: u64 = now.errors - earlier.errors;
    let conn_failures: u64 = now.conn_failures - earlier.conn_failures;
    Sample {
        req_per_sec: Double::from_u64(now.responses - earlier.responses).over(secs),
        err_per_sec: Double::from_u64(errors + conn_failures).over(secs),
        hit_pct: share_pct(hits, hits + misses),
        latency: latency_stats(ends),
    }
}

/// What prefill progress is measured from.
#[derive(Clone, Copy, Debug, PartialEq, Eq, Structural)]
pub struct PrefillMark {
    pub confirmed: usize,
    pub errors: u64,
    pub conn_failures: u64,
}

/// The progress of prefill between two marks.
pub fn prefill_sample(
    earlier: &PrefillMark,
    now: &PrefillMark,
    elapsed: Duration,
    interval: Duration,
    total: usize,
    conns_active: i64,
) -> (r: PrefillSample)
    requires
        now.confirmed >= earlier.confirmed,
        now.errors >= earlier.errors,
        now.conn_failures >= earlier.conn_failures,
    ensures
        r == (PrefillSample {
            elapsed,
            confirmed: now.confirmed,
            total,
            set_per_sec: per_second(now.confirmed - earlier.confirmed, interval),
            err_per_sec: per_second(now.errors - earlier.errors, interval),
            conns_active,
            reconnects: (now.conn_failures - earlier.conn_failures) as u64,
        }),
        r.set_per_sec == Double::quotient(
            Double::of_nat((now.confirmed - earlier.confirmed) as nat),
            interval.secs(),
        ),
        r.err_per_sec == Double::quotient(
            Double::of_nat((now.errors - earlier.errors) as nat),
            interval.secs(),
        ),
{
    let secs = interval.as_secs();
    PrefillSample {
        elapsed,
        confirmed: now.confirmed,
        total,
        set_per_sec: Double::from_u64((now.confirmed - earlier.confirmed) as u64).over(secs),
        err_per_sec: Double::from_u64(now.errors - earlier.errors).over(secs),
        conns_active,
        reconnects: now.conn_failures - earlier.conn_failures,
    }
}

/// The histograms of a run, each as the difference to its baseline.
#[derive(Clone, Copy, Debug, PartialEq, Eq, Structural)]
pub struct RunHistograms {
    pub get: BucketEnds,
    pub get_ttfb: BucketEnds,
    pub set: BucketEnds,
    pub backfill_set: BucketEnds,
    pub append_set: BucketEnds,
    pub schedule_slip: BucketEnds,
    pub perceived: BucketEnds,
}

/// What a run has besides its counters and histograms.
#[derive(Clone, Copy, Debug, PartialEq, Eq, Structural)]
pub struct RunFacts {
    /// How long was measured.
    pub ran: Duration,
    /// Connections that were active before the shutdown.
    pub conns_active: i64,
    /// Connections that were asked for.
    pub conns_total: usize,
    /// What the limiter had dropped when measuring began, and at the end.
    pub dropped_before: u64,
    pub dropped: u64,
    /// Append batches that were published.
    pub append_batches: u64,
}

/// The results of a run: its counters without what came before measuring
/// began. Failed connections count as errors.
pub fn results(
    baseline: &Counters,
    end: &Counters,
    histograms: &RunHistograms,
    facts: &RunFacts,
) -> (r: Results)
    requires
        end.after(*baseline),
        end.sums_fit(*baseline),
    ensures
        r == (Results {
            duration_secs: facts.ran.secs(),
            requests: (end.requests - baseline.requests) as u64,
            responses: (end.responses - baseline.responses) as u64,
            errors: end.failures_since(*baseline) as u64,
            hits: (end.hits - baseline.hits) as u64,
            misses: (end.misses - baseline.misses) as u64,
            bytes_tx: (end.bytes_tx - baseline.bytes_tx) as u64,
            bytes_rx: (end.bytes_rx - baseline.bytes_rx) as u64,
            get_count: (end.get_count - baseline.get_count) as u64,
            set_count: (end.set_count - baseline.set_count) as u64,
            get_latencies: stats_of(histograms.get),
            get_ttfb: stats_of(histograms.get_ttfb),
            set_latencies: stats_of(histograms.set),
            backfill_set_count: (end.backfill_set_count - baseline.backfill_set_count) as u64,
            backfill_set_latencies: stats_of(histograms.backfill_set),
            conns_active: facts.conns_active,
            conns_failed: (end.conn_failures - baseline.conn_failures) as u64,
            conns_total: facts.conns_total as u64,
            requests_dropped: if facts.dropped >= facts.dropped_before {
                (facts.dropped - facts.dropped_before) as u64
            } else {
                0
            },
            schedule_slip: stats_of(histograms.schedule_slip),
            perceived_latency: stats_of(histograms.perceived),
            timeouts: (end.request_timeouts - baseline.request_timeouts) as u64,
            append_set_count: (end.append_set_count - baseline.append_set_count) as u64,
            append_set_latencies: stats_of(histograms.append_set),
            append_batches: facts.append_batches,
        }),
        r.errors == (end.errors - baseline.errors) + (end.conn_failures - baseline.conn_failures),
{
    let conn_failures: u64 = end.conn_failures - baseline.conn_failures;
    Results {
        duration_secs: facts.ran.as_secs(),
        requests: end.requests - baseline.requests,
        responses: end.responses - baseline.responses,
        errors: (end.errors - baseline.errors) + conn_failures,
        hits: end.hits - baseline.hits,
        misses: end.misses - baseline.misses,
        bytes_tx: end.bytes_tx - baseline.bytes_tx,
        bytes_rx: end.bytes_rx - baseline.bytes_rx,
        get_count: end.get_count - baseline.get_count,
        set_count: end.set_count - baseline.set_count,
        get_latencies: latency_stats(&histograms.get),
        get_ttfb: latency_stats(&histograms.get_ttfb),
        set_latencies: latency_stats(&histograms.set),
        backfill_set_count: end.backfill_set_count - baseline.backfill_set_count,
        backfill_set_latencies: latency_stats(&histograms.backfill_set),
        conns_active: facts.conns_active,
        conns_failed: conn_failures,
        conns_total: facts.conns_total as u64,
        requests_dropped: facts.dropped.saturating_sub(facts.dropped_before),
        schedule_slip: latency_stats(&histograms.schedule_slip),
        perceived_latency: latency_stats(&histograms.perceived),
        timeouts: end.request_timeouts - baseline.request_timeouts,
        append_set_count: end.append_set_count - baseline.append_set_count,
        append_set_latencies: latency_stats(&histograms.append_set),
        append_batches: facts.append_batches,
    }
}

/// What is counted per second is the count over the length of the interval, and
/// over exactly one second it is the count.
pub proof fn counts_are_spread_over_the_interval(n: nat, interval: Duration)
    ensures
        per_second(n as int, interval) == Double::quotient(Double::of_nat(n), interval.secs()),
        interval.nanos == 1_000_000_000 && n < 0x20_0000_0000_0000 ==> per_second(
            n as int,
            interval,
        ) == Double::of_nat(n),
{
    if interval.nanos == 1_000_000_000 && n < 0x20_0000_0000_0000 {
        crate::time::seconds_lie_between_whole_seconds(interval);
        let x = Double::of_nat(n);
        let one = Double::of_nat(1);
        crate::rounding::an_integer_keeps_to_bounds(n, Double::zero());
        crate::rounding::an_integer_keeps_to_bounds(1, Double::zero());
        crate::double::lemma_one();
        assert((x.numer() * one.denom()) * x.denom() == x.numer() * (x.denom() * one.numer()))
            by (nonlinear_arith)
            requires
                one.numer() == 1 * one.denom(),
        ;
        crate::rounding::a_quotient_keeps_to_bounds(x, one, x);
        crate::rounding::lemma_on_grid(
            x.significand(),
            one.significand(),
            x.exponent() - one.exponent(),
        );
    }
}

/// A share of nothing is none, a share of everything is a hundred percent, and a
/// larger part is no smaller a share.
pub proof fn shares_run_from_none_to_all(part: nat, more: nat, whole: nat)
    requires
        part <= more <= whole,
        0 < whole < 0x20_0000_0000_0000,
    ensures
        percent(0, 0) == Double::zero(),
        percent(whole as int, whole as int) == Double::of_nat(100),
        percent(part as int, whole as int).le_spec(percent(more as int, whole as int)),
{
    let zero = Double::zero();
    let w = Double::of_nat(whole);
    let p = Double::of_nat(part);
    let m = Double::of_nat(more);
    let one = Double::of_nat(1);
    let hundred = Double::of_nat(100);
    crate::rounding::an_integer_keeps_to_bounds(whole, zero);
    crate::rounding::an_integer_keeps_to_bounds(part, zero);
    crate::rounding::an_integer_keeps_to_bounds(more, zero);
    crate::rounding::an_integer_keeps_to_bounds(1, zero);
    crate::rounding::an_integer_keeps_to_bounds(100, zero);
    crate::double::lemma_one();
    crate::rounding::lemma_round_trip(w);
    crate::rounding::lemma_round_trip(m);
    crate::rounding::lemma_round_trip(p);
    assert(w.numer() > 0) by (nonlinear_arith)
        requires
            w.numer() == whole * w.denom(),
            whole > 0,
            w.denom() > 0,
    ;
    crate::rounding::a_number_over_itself_is_one(w);
    assert((one.numer() * hundred.numer()) * hundred.denom() == hundred.numer() * (one.denom()
        * hundred.denom())) by (nonlinear_arith)
        requires
            one.numer() == 1 * one.denom(),
    ;
    crate::rounding::a_product_keeps_to_bounds(one, hundred, hundred);
    crate::rounding::lemma_on_grid(
        one.significand() * hundred.significand(),
        1,
        one.exponent() + hundred.exponent(),
    );
    assert(p.numer() * m.denom() <= m.numer() * p.denom()) by (nonlinear_arith)
        requires
            p.numer() == part * p.denom(),
            m.numer() == more * m.denom(),
            part <= more,
    ;
    crate::rounding::numbers_order_as_their_values(p, m);
    crate::rounding::a_quotient_is_monotone(p, m, w);
    assert(m.numer() * w.denom() <= w.numer() * m.denom()) by (nonlinear_arith)
        requires
            w.numer() == whole * w.denom(),
            m.numer() == more * m.denom(),
            more <= whole,
    ;
    crate::rounding::numbers_order_as_their_values(m, w);
    crate::rounding::a_quotient_is_monotone(m, w, w);
    crate::rounding::lemma_on_grid(p.significand(), w.significand(), p.exponent() - w.exponent());
    crate::rounding::lemma_on_grid(m.significand(), w.significand(), m.exponent() - w.exponent());
    crate::rounding::a_product_is_monotone(
        Double::quotient(p, w),
        Double::quotient(m, w),
        hundred,
    );
}

/// Each reported percentile is its own bucket's upper end in microseconds, and
/// zero without samples.
pub proof fn percentiles_are_of_their_bucket(e: BucketEnds)
    ensures
        ({
            let s = stats_of(e);
            let us = |end: Option<u64>|
                match end {
                    Some(ns) => Double::quotient(
                        Double::of_nat(ns as nat),
                        Double::of_nat(1_000),
                    ),
                    None => Double::zero(),
                };
            &&& s.p50_us == us(e.p50) && s.p90_us == us(e.p90) && s.p99_us == us(e.p99)
            &&& s.p999_us == us(e.p999) && s.p9999_us == us(e.p9999) && s.max_us == us(e.max)
        }),
{
}

/// Errors are those of requests and of connections together, and reads are hits
/// and misses together; what was counted before the earlier values is left out.
pub proof fn differences_leave_out_what_came_before(
    a: Counters,
    b: Counters,
    c: Counters,
)
    ensures
        c.failures_since(a) == c.failures_since(b) + b.failures_since(a),
        c.reads_since(a) == c.reads_since(b) + b.reads_since(a),
        b.failures_since(a) == (b.errors + b.conn_failures) - (a.errors + a.conn_failures),
        b.reads_since(a) == (b.hits + b.misses) - (a.hits + a.misses),
        a.failures_since(a) == 0 && a.reads_since(a) == 0,
{
}

} // verus!
