//! Saturation search: finding the highest rate that keeps the SLO.

use crate::config::{SaturationSearch, SloThresholds};
use crate::double::Double;
use crate::output::{Percentile, SaturationResults, SaturationStep};
use crate::text;
use crate::time::{Duration, MAX_NANOS};
use vstd::prelude::*;
use vstd::string::*;

verus! {

/// Phase of the rate search.
#[derive(Clone, Copy, Debug, PartialEq, Eq, Structural)]
pub enum SearchPhase {
    /// Geometric climb until the first SLO failure.
    Climb,
    /// Bisecting [lo, hi] to pin the knee.
    Bisect,
}

/// What to do after measuring the current rate.
#[derive(Clone, Copy, Debug, PartialEq, Eq, Structural)]
pub enum SearchOutcome {
    /// Measure this next rate.
    Probe(u64),
    /// Search finished; `knee` is the highest rate that met SLO (if any).
    Done { knee: Option<u64> },
}

/// Pure rate-search state machine: geometric climb to the first failure,
/// then bisection between the last good rate and the failed rate until the
/// interval closes within `bisect_tolerance` or `max_bisect_steps` is hit.
pub struct RateSearch {
    pub phase: SearchPhase,
    /// The rate being measured.
    pub current_rate: u64,
    /// The last rate that passed.
    pub last_good: Option<u64>,
    /// The lower end of the bisected interval.
    pub lo: u64,
    /// The upper end of the bisected interval.
    pub hi: u64,
    /// Bisection probes acted on.
    pub bisect_steps: u32,
    pub step_multiplier: Double,
    pub max_rate: u64,
    pub bisect_tolerance: Double,
    pub max_bisect_steps: u32,
    /// Extra consecutive failures needed before a failure is acted on.
    pub confirm_failures: u32,
    /// Consecutive failures observed at `current_rate` so far.
    pub failures_at_rate: u32,
    /// Minimum fractional latency improvement expected from halving the rate.
    pub floor_improvement_ratio: Double,
    /// Rate and SLO-percentile latency of the last confirmed failure, used to
    /// tell a load-bound target from one with a floor above the SLO.
    pub last_confirmed_fail: Option<(u64, Double)>,
    /// Set when the search stopped because latency stopped responding to rate.
    pub floor_detected: bool,
}

impl RateSearch {
    /// What every state of an unfinished search keeps: confirmations are
    /// counted within their budget, as are bisection probes; the climb measures above the last rate
    /// that passed, and the measured rate stays within the bisected interval
    /// (which a search that starts at rate zero leaves for the rate one).
    pub open spec fn wf(self) -> bool {
        &&& self.failures_at_rate <= self.confirm_failures
        &&& self.bisect_steps == 0 || self.bisect_steps < self.max_bisect_steps
        &&& self.phase is Climb ==> (self.last_good matches Some(g) ==> g < self.current_rate)
        &&& self.phase is Bisect ==> (self.lo <= self.current_rate <= self.hi || (self.hi == 0
            && self.lo <= 1 && self.current_rate == 1))
    }

    /// The rate that the multiplier leads to from the current one.
    pub open spec fn climbed(self) -> nat {
        Double::product(Double::of_nat(self.current_rate as nat), self.step_multiplier).truncated()
    }

    /// Whether `advance` can count one step more: failures are counted in a
    /// machine integer, and no rate lies above the largest one.
    pub open spec fn can_advance(self, passed: bool) -> bool {
        &&& !passed ==> self.failures_at_rate < u32::MAX
        &&& passed && self.phase is Climb && self.climbed() < self.max_rate ==> self.current_rate
            < u64::MAX
    }

    /// Whether a failure at the current rate must be measured again.
    pub open spec fn unconfirmed(self) -> bool {
        self.failures_at_rate + 1 <= self.confirm_failures
    }

    /// Whether a confirmed failure says something about a latency floor. Only
    /// meaningful while no rate has passed: before that the search is hunting
    /// downward for any compliant rate.
    pub open spec fn floor_applies(self, slo_latency_us: Double) -> bool {
        &&& self.last_good is None
        &&& Double::zero().lt_spec(self.floor_improvement_ratio)
        &&& slo_latency_us.finite()
        &&& Double::zero().lt_spec(slo_latency_us)
    }

    /// Whether latency improved by less than the expected fraction although
    /// the rate at least halved since the last confirmed failure.
    pub open spec fn floor_hit(self, slo_latency_us: Double) -> bool {
        &&& self.floor_applies(slo_latency_us)
        &&& self.last_confirmed_fail matches Some((prev_rate, prev_us))
        &&& prev_rate >= (if 2 * self.current_rate <= u64::MAX {
            2 * self.current_rate
        } else {
            u64::MAX as int
        })
        &&& Double::zero().lt_spec(prev_us)
        &&& Double::quotient(Double::difference(prev_us, slo_latency_us), prev_us).lt_spec(
            self.floor_improvement_ratio,
        )
    }

    /// The middle of the bisected interval, kept off its ends where they
    /// leave room, and never zero.
    pub open spec fn middle(self) -> int {
        let mid = self.lo + (self.hi - self.lo) / 2;
        let mid = if mid < self.lo + 1 {
            self.lo + 1
        } else {
            mid
        };
        let top = if self.hi > 0 {
            self.hi - 1
        } else {
            0
        };
        let mid = if mid > top {
            top
        } else {
            mid
        };
        if mid < 1 {
            1
        } else {
            mid
        }
    }

    /// The search set to measure the middle of the interval.
    pub open spec fn bisected(self) -> (RateSearch, SearchOutcome) {
        let mid = self.middle() as u64;
        (RateSearch { current_rate: mid, ..self }, SearchOutcome::Probe(mid))
    }

    /// The relative width of the bisected interval.
    pub open spec fn width(self) -> Double {
        if self.hi > 0 {
            Double::fraction((self.hi - self.lo) as nat, self.hi as nat)
        } else {
            Double::zero()
        }
    }

    /// Whether bisection is over: the interval is narrow enough, the probes
    /// are used up, or no rate is left in between.
    pub open spec fn closed(self) -> bool {
        ||| self.width().le_spec(self.bisect_tolerance)
        ||| self.bisect_steps >= self.max_bisect_steps
        ||| self.hi - self.lo <= 1
    }

    /// A passing measurement noted.
    pub open spec fn noted_pass(self) -> RateSearch {
        RateSearch {
            failures_at_rate: 0,
            last_good: Some(self.current_rate),
            last_confirmed_fail: None,
            ..self
        }
    }

    /// A confirmed failure noted.
    pub open spec fn noted_failure(self, slo_latency_us: Double) -> RateSearch {
        RateSearch {
            failures_at_rate: 0,
            last_confirmed_fail: if self.floor_applies(slo_latency_us) {
                Some((self.current_rate, slo_latency_us))
            } else {
                self.last_confirmed_fail
            },
            ..self
        }
    }

    /// The next step of the climb after a pass.
    pub open spec fn after_climb(self) -> (RateSearch, SearchOutcome) {
        let next = self.climbed();
        if next >= self.max_rate {
            if self.current_rate >= self.max_rate {
                (self, SearchOutcome::Done { knee: self.last_good })
            } else {
                (
                    RateSearch { current_rate: self.max_rate, ..self },
                    SearchOutcome::Probe(self.max_rate),
                )
            }
        } else {
            let rate = (if next > self.current_rate {
                next as int
            } else {
                self.current_rate + 1
            }) as u64;
            (RateSearch { current_rate: rate, ..self }, SearchOutcome::Probe(rate))
        }
    }

    /// The next step of the bisection after a result for the current rate.
    pub open spec fn after_bisect(self, passed: bool) -> (RateSearch, SearchOutcome) {
        let s = RateSearch {
            lo: if passed {
                self.current_rate
            } else {
                self.lo
            },
            hi: if passed {
                self.hi
            } else {
                self.current_rate
            },
            bisect_steps: (self.bisect_steps + 1) as u32,
            ..self
        };
        if s.closed() {
            (
                s,
                SearchOutcome::Done {
                    knee: if s.lo > 0 {
                        Some(s.lo)
                    } else {
                        s.last_good
                    },
                },
            )
        } else {
            s.bisected()
        }
    }

    /// The search after one measurement, and what to do next.
    pub open spec fn advanced(self, passed: bool, slo_latency_us: Double) -> (
        RateSearch,
        SearchOutcome,
    ) {
        if !passed && self.unconfirmed() {
            (
                RateSearch { failures_at_rate: (self.failures_at_rate + 1) as u32, ..self },
                SearchOutcome::Probe(self.current_rate),
            )
        } else if !passed && self.floor_hit(slo_latency_us) {
            (
                RateSearch { failures_at_rate: 0, floor_detected: true, ..self },
                SearchOutcome::Done { knee: None },
            )
        } else {
            let s = if passed {
                self.noted_pass()
            } else {
                self.noted_failure(slo_latency_us)
            };
            if self.phase is Bisect {
                s.after_bisect(passed)
            } else if passed {
                s.after_climb()
            } else {
                RateSearch {
                    lo: match s.last_good {
                        Some(g) => g,
                        None => 0,
                    },
                    hi: s.current_rate,
                    phase: SearchPhase::Bisect,
                    ..s
                }.bisected()
            }
        }
    }

    /// A search that measures `start_rate` first.
    pub open spec fn fresh(
        start_rate: u64,
        step_multiplier: Double,
        max_rate: u64,
        bisect_tolerance: Double,
        max_bisect_steps: u32,
        confirm_failures: u32,
        floor_improvement_ratio: Double,
    ) -> RateSearch {
        RateSearch {
            phase: SearchPhase::Climb,
            current_rate: start_rate,
            last_good: None,
            lo: 0,
            hi: 0,
            bisect_steps: 0,
            step_multiplier,
            max_rate,
            bisect_tolerance,
            max_bisect_steps,
            confirm_failures,
            failures_at_rate: 0,
            floor_improvement_ratio,
            last_confirmed_fail: None,
            floor_detected: false,
        }
    }

    /// A search that measures `start_rate` first.
    pub fn new(
        start_rate: u64,
        step_multiplier: Double,
        max_rate: u64,
        bisect_tolerance: Double,
        max_bisect_steps: u32,
        confirm_failures: u32,
        floor_improvement_ratio: Double,
    ) -> (r: RateSearch)
        ensures
            r == RateSearch::fresh(
                start_rate,
                step_multiplier,
                max_rate,
                bisect_tolerance,
                max_bisect_steps,
                confirm_failures,
                floor_improvement_ratio,
            ),
            r.wf(),
    {
        RateSearch {
            phase: SearchPhase::Climb,
            current_rate: start_rate,
            last_good: None,
            lo: 0,
            hi: 0,
            bisect_steps: 0,
            step_multiplier,
            max_rate,
            bisect_tolerance,
            max_bisect_steps,
            confirm_failures,
            failures_at_rate: 0,
            floor_improvement_ratio,
            last_confirmed_fail: None,
            floor_detected: false,
        }
    }

    /// Whether the search ended because latency stopped responding to rate,
    /// rather than because it ran out of bisection steps.
    pub fn floor_detected(&self) -> (r: bool)
        ensures
            r == self.floor_detected,
    {
        self.floor_detected
    }

    /// Whether the search is still in the geometric climb phase.
    pub fn is_climbing(&self) -> (r: bool)
        ensures
            r == (self.phase is Climb),
    {
        self.phase == SearchPhase::Climb
    }

    /// Whether the search should stop for a latency floor; notes the failure
    /// otherwise.
    fn note_failure(&mut self, slo_latency_us: Double) -> (r: bool)
        ensures
            r == old(self).floor_hit(slo_latency_us),
            r ==> *final(self) == (RateSearch {
                failures_at_rate: 0,
                floor_detected: true,
                ..*old(self)
            }),
            !r ==> *final(self) == old(self).noted_failure(slo_latency_us),
    {
        self.failures_at_rate = 0;
        let zero = Double::from_bits(0);
        if self.last_good.is_none() && zero.lt(self.floor_improvement_ratio)
            && slo_latency_us.is_finite() && zero.lt(slo_latency_us) {
            if let Some((prev_rate, prev_us)) = self.last_confirmed_fail {
                let doubled: u64 = match self.current_rate.checked_mul(2) {
                    Some(d) => d,
                    None => u64::MAX,
                };
                if prev_rate >= doubled && zero.lt(prev_us) {
                    let improvement = prev_us.minus(slo_latency_us).over(prev_us);
                    if improvement.lt(self.floor_improvement_ratio) {
                        self.floor_detected = true;
                        return true;
                    }
                }
            }
            self.last_confirmed_fail = Some((self.current_rate, slo_latency_us));
        }
        false
    }

    /// Record the SLO result for `current_rate` and decide the next move.
    ///
    /// A failure is not acted on until it has repeated `confirm_failures` more
    /// times at the same rate. Without that, one transient sample permanently
    /// caps the search: a climb failure fixes the bisection ceiling and no
    /// higher rate is ever retried, so the run converges tidily on a knee that
    /// is far too low and reports it as success. A retry that passes clears the
    /// count and the rate is treated as passing.
    pub fn advance(&mut self, passed: bool, slo_latency_us: Double) -> (r: SearchOutcome)
        requires
            old(self).wf(),
            old(self).can_advance(passed),
        ensures
            (*final(self), r) == old(self).advanced(passed, slo_latency_us),
            r is Probe ==> final(self).wf(),
    {
        if passed {
            self.failures_at_rate = 0;
            self.last_good = Some(self.current_rate);
            self.last_confirmed_fail = None;
        } else {
            if self.failures_at_rate + 1 <= self.confirm_failures {
                self.failures_at_rate = self.failures_at_rate + 1;
                return SearchOutcome::Probe(self.current_rate);
            }
            if self.note_failure(slo_latency_us) {
                return SearchOutcome::Done { knee: None };
            }
        }
        match self.phase {
            SearchPhase::Climb => {
                if !passed {
                    // First failure: bisect between last good and here.
                    self.lo = match self.last_good {
                        Some(g) => g,
                        None => 0,
                    };
                    self.hi = self.current_rate;
                    self.phase = SearchPhase::Bisect;
                    return self.bisect_probe();
                }
                // Climb to the next rate; cap at max_rate, terminate there.
                let next: u64 = Double::from_u64(self.current_rate).times(
                    self.step_multiplier,
                ).to_u64();
                if next >= self.max_rate {
                    if self.current_rate >= self.max_rate {
                        return SearchOutcome::Done { knee: self.last_good };
                    }
                    self.current_rate = self.max_rate;
                    return SearchOutcome::Probe(self.current_rate);
                }
                self.current_rate = if next > self.current_rate {
                    next
                } else {
                    self.current_rate + 1
                };
                SearchOutcome::Probe(self.current_rate)
            },
            SearchPhase::Bisect => {
                if passed {
                    self.lo = self.current_rate;
                } else {
                    self.hi = self.current_rate;
                }
                self.bisect_steps = self.bisect_steps + 1;
                let width = if self.hi > 0 {
                    Double::ratio(self.hi - self.lo, self.hi)
                } else {
                    Double::from_bits(0)
                };
                if width.le(self.bisect_tolerance) || self.bisect_steps >= self.max_bisect_steps
                    || self.hi.saturating_sub(self.lo) <= 1 {
                    return SearchOutcome::Done {
                        knee: if self.lo > 0 {
                            Some(self.lo)
                        } else {
                            self.last_good
                        },
                    };
                }
                self.bisect_probe()
            },
        }
    }

    fn bisect_probe(&mut self) -> (r: SearchOutcome)
        requires
            old(self).lo <= old(self).hi,
            old(self).lo < u64::MAX,
        ensures
            (*final(self), r) == old(self).bisected(),
    {
        let mut mid: u64 = self.lo + (self.hi - self.lo) / 2;
        if mid < self.lo + 1 {
            mid = self.lo + 1;
        }
        let top: u64 = self.hi.saturating_sub(1);
        if mid > top {
            mid = top;
        }
        if mid < 1 {
            mid = 1;
        }
        self.current_rate = mid;
        SearchOutcome::Probe(mid)
    }
}

/// Compact text of a duration (e.g. "1ms", "1.5ms", "500us").
pub open spec fn duration_text(d: Duration) -> Seq<char> {
    let us = (d.nanos / 1_000) as nat;
    if us >= 1_000_000 {
        if us % 1_000_000 == 0 {
            text::decimal(us / 1_000_000) + "s"@
        } else {
            text::fixed(Double::fraction(us, 1_000_000), 1) + "s"@
        }
    } else if us >= 1_000 {
        if us % 1_000 == 0 {
            text::decimal(us / 1_000) + "ms"@
        } else {
            text::fixed(Double::fraction(us, 1_000), 1) + "ms"@
        }
    } else {
        text::decimal(us) + "us"@
    }
}

/// Format a Duration as a compact human-readable string (e.g. "1ms", "1.5ms", "500us").
pub fn format_duration_short(d: Duration) -> (r: String)
    ensures
        r@ == duration_text(d),
{
    let us: u128 = d.as_micros();
    let mut r = String::new();
    if us >= 1_000_000 {
        if us % 1_000_000 == 0 {
            text::push_decimal(&mut r, us / 1_000_000);
        } else {
            text::push_fixed(
                &mut r,
                Double::from_u128(us).over(Double::from_u64(1_000_000)),
                1,
            );
        }
        r.append("s");
    } else if us >= 1_000 {
        if us % 1_000 == 0 {
            text::push_decimal(&mut r, us / 1_000);
        } else {
            text::push_fixed(&mut r, Double::from_u128(us).over(Double::from_u64(1_000)), 1);
        }
        r.append("ms");
    } else {
        text::push_decimal(&mut r, us);
        r.append("us");
    }
    assert(r@ =~= duration_text(d));
    r
}

impl SloThresholds {
    /// The highest configured percentile and its threshold.
    pub open spec fn highest(self) -> Option<(Percentile, Duration)> {
        match (self.p999, self.p99, self.p50) {
            (Some(d), _, _) => Some((Percentile::P999, d)),
            (None, Some(d), _) => Some((Percentile::P99, d)),
            (None, None, Some(d)) => Some((Percentile::P50, d)),
            (None, None, None) => None,
        }
    }

    fn highest_threshold(&self) -> (r: Option<(Percentile, Duration)>)
        ensures
            r == self.highest(),
    {
        if let Some(d) = self.p999 {
            Some((Percentile::P999, d))
        } else if let Some(d) = self.p99 {
            Some((Percentile::P99, d))
        } else if let Some(d) = self.p50 {
            Some((Percentile::P50, d))
        } else {
            None
        }
    }
}

/// A threshold in microseconds, the unit of the percentiles that it bounds.
pub open spec fn threshold_us(d: Duration) -> Double {
    Double::quotient(Double::of_nat(d.nanos as nat), Double::of_nat(1_000))
}

fn in_us(d: Duration) -> (r: Double)
    ensures
        r == threshold_us(d),
{
    Double::from_u128(d.nanos).over(Double::from_u64(1_000))
}

/// Whether a percentile exceeds its threshold, where it has one.
pub open spec fn exceeds(threshold: Option<Duration>, us: Double) -> bool {
    threshold matches Some(d) && threshold_us(d).lt_spec(us)
}

/// The three percentiles of one step.
#[derive(Clone, Copy, Debug, PartialEq, Eq, Structural)]
pub struct Latencies {
    pub p50_us: Double,
    pub p99_us: Double,
    pub p999_us: Double,
}

impl Latencies {
    /// The value of one percentile.
    pub open spec fn of(self, p: Percentile) -> Double {
        match p {
            Percentile::P50 => self.p50_us,
            Percentile::P99 => self.p99_us,
            Percentile::P999 => self.p999_us,
        }
    }

    fn get(&self, p: Percentile) -> (r: Double)
        ensures
            r == self.of(p),
    {
        match p {
            Percentile::P50 => self.p50_us,
            Percentile::P99 => self.p99_us,
            Percentile::P999 => self.p999_us,
        }
    }
}

/// The upper end of a percentile's histogram bucket, given in nanoseconds, in
/// microseconds; zero when there were no samples.
pub open spec fn bucket_us(end_ns: Option<u64>) -> Double {
    match end_ns {
        Some(ns) => Double::quotient(Double::of_nat(ns as nat), Double::of_nat(1_000)),
        None => Double::zero(),
    }
}

/// A percentile from a histogram bucket that holds nanoseconds, in
/// microseconds; zero when there were no samples.
pub fn percentile_us(end_ns: Option<u64>) -> (r: Double)
    ensures
        r == bucket_us(end_ns),
{
    match end_ns {
        Some(ns) => Double::from_u64(ns).over(Double::from_u64(1_000)),
        None => Double::from_bits(0),
    }
}

/// Why a percentile breaks its threshold.
pub open spec fn breach_text(p: Percentile, us: Double, threshold: Duration) -> Seq<char> {
    "Latency: "@ + p.name() + " "@ + text::fixed(us, 0) + "us > "@ + text::fixed(
        threshold_us(threshold),
        0,
    ) + "us SLO"@
}

fn breach_reason(p: Percentile, us: Double, threshold: Duration) -> (r: String)
    ensures
        r@ == breach_text(p, us, threshold),
{
    let mut r = String::from_str("Latency: ");
    r.append(p.label());
    r.append(" ");
    text::push_fixed(&mut r, us, 0);
    r.append("us > ");
    text::push_fixed(&mut r, in_us(threshold), 0);
    r.append("us SLO");
    r
}

/// The reason the SLO failed: the first percentile, lowest first, that
/// exceeds its threshold.
pub open spec fn slo_breach(slo: SloThresholds, l: Latencies) -> Option<Seq<char>> {
    if exceeds(slo.p50, l.p50_us) {
        Some(breach_text(Percentile::P50, l.p50_us, slo.p50->0))
    } else if exceeds(slo.p99, l.p99_us) {
        Some(breach_text(Percentile::P99, l.p99_us, slo.p99->0))
    } else if exceeds(slo.p999, l.p999_us) {
        Some(breach_text(Percentile::P999, l.p999_us, slo.p999->0))
    } else {
        None
    }
}

/// The configured SLO for display (e.g. "p999 \u{2264} 1ms").
pub open spec fn slo_text(slo: SloThresholds) -> Seq<char> {
    match slo.highest() {
        Some((p, d)) => p.name() + seq![' ', '\u{2264}', ' '] + duration_text(d),
        None => Seq::empty(),
    }
}

/// What was measured over a step.
#[derive(Clone, Copy, Debug, PartialEq, Eq, Structural)]
pub struct StepMeasurement {
    /// Responses received since the run began.
    pub responses: u64,
    /// Send-relative latency over the step.
    pub sent: Latencies,
    /// Arrival-relative latency over the step, which the SLO judges.
    pub perceived: Latencies,
    /// The 99th percentile of schedule slip over the step, in microseconds.
    pub slip_p99_us: Double,
}

/// What a check of a saturation search came to.
#[derive(Clone, Copy, Debug, PartialEq, Eq, Structural)]
pub enum Progress {
    /// Nothing is due yet, or the search is over.
    Waiting,
    /// The drain window is over: the baseline of the step is to be captured.
    Baseline,
    /// A step was completed; `first` when it is the first one.
    Stepped { first: bool, outcome: SearchOutcome },
}

/// State machine for saturation search.
pub struct SaturationSearchState {
    /// Configuration for the search.
    pub config: SaturationSearch,
    /// Current target rate.
    pub current_rate: u64,
    /// Last rate that met SLO.
    pub last_good_rate: Option<u64>,
    /// Rate-search state machine (climb + bisect).
    pub search: RateSearch,
    /// When the current step started (i.e. when the new rate was applied).
    pub step_start: Duration,
    /// When the measurement baseline was captured (set once the drain window
    /// has elapsed). `None` means requests of the old rate are still draining.
    pub baseline_at: Option<Duration>,
    /// Response count at baseline capture.
    pub step_responses: u64,
    /// Achieved rate of the previous recorded step (zero before the first).
    pub prev_achieved: Double,
    /// Whether schedule slip has crossed the onset threshold yet.
    pub slip_seen: bool,
    /// Whether an SLO breach has occurred yet.
    pub breach_seen: bool,
    /// All step results.
    pub results: Vec<SaturationStep>,
    /// Whether the search has completed.
    pub completed: bool,
    /// Whether a step was completed yet.
    pub header_printed: bool,
}

/// The slip at which the onset is marked: one millisecond.
pub open spec fn slip_onset_us() -> Double {
    Double::of_nat(1_000)
}

impl SaturationSearchState {
    /// What every state keeps: until the search is over, its rate is the one
    /// in force.
    pub open spec fn wf(self) -> bool {
        !self.completed ==> self.search.wf() && self.search.current_rate == self.current_rate
    }

    /// Whether a step's result can be counted.
    pub open spec fn ready_spec(self) -> bool {
        self.completed || (self.search.can_advance(true) && self.search.can_advance(false))
    }

    /// Whether a step's result can be counted.
    pub fn ready(&self) -> (r: bool)
        ensures
            r == self.ready_spec(),
    {
        self.completed || (self.search.failures_at_rate < u32::MAX && (!self.search.is_climbing()
            || self.search.current_rate < u64::MAX || Double::from_u64(
            self.search.current_rate,
        ).times(self.search.step_multiplier).to_u64() >= self.search.max_rate))
    }

    /// Whether the search is waiting for old requests to drain or for its
    /// sample window to fill.
    pub open spec fn waits(self, now: Duration) -> bool {
        self.completed || match self.baseline_at {
            None => now.less(self.step_start).nanos < self.config.drain_window.nanos,
            Some(t) => now.less(t).nanos < self.config.sample_window.nanos,
        }
    }

    /// The rate that responses arrived at since the baseline.
    pub open spec fn achieved(self, now: Duration, m: StepMeasurement) -> Double {
        let responses = if m.responses >= self.step_responses {
            (m.responses - self.step_responses) as nat
        } else {
            0
        };
        Double::quotient(Double::of_nat(responses), now.less(self.baseline_at->0).secs())
    }

    /// The fraction of the target rate that was achieved.
    pub open spec fn throughput_ratio(self, now: Duration, m: StepMeasurement) -> Double {
        Double::quotient(self.achieved(now, m), Double::of_nat(self.current_rate as nat))
    }

    /// Whether enough of the target rate was achieved.
    pub open spec fn throughput_ok(self, now: Duration, m: StepMeasurement) -> bool {
        self.config.min_throughput_ratio.le_spec(self.throughput_ratio(now, m))
    }

    /// Whether the step met the SLO.
    pub open spec fn passes(self, now: Duration, m: StepMeasurement) -> bool {
        self.throughput_ok(now, m) && slo_breach(self.config.slo, m.perceived) is None
    }

    /// Why the step did not meet the SLO.
    pub open spec fn reason(self, now: Duration, m: StepMeasurement) -> Seq<char> {
        if self.passes(now, m) {
            Seq::empty()
        } else if !self.throughput_ok(now, m) {
            "Throughput: "@ + text::fixed(
                Double::product(self.throughput_ratio(now, m), Double::of_nat(100)),
                0,
            ) + "% (need "@ + text::fixed(
                Double::product(self.config.min_throughput_ratio, Double::of_nat(100)),
                0,
            ) + "%)"@
        } else {
            slo_breach(self.config.slo, m.perceived)->0
        }
    }

    /// The percentile that the displayed SLO bounds; the 99.9th when there is
    /// none.
    pub open spec fn slo_percentile_spec(self) -> Percentile {
        match self.config.slo.highest() {
            Some((p, _)) => p,
            None => Percentile::P999,
        }
    }

    /// Whether `step` records the measurement taken in this state.
    pub open spec fn records(self, now: Duration, m: StepMeasurement, step: SaturationStep) -> bool {
        let p = self.slo_percentile_spec();
        &&& step.target_rate == self.current_rate
        &&& step.achieved_rate == self.achieved(now, m)
        &&& step.p50_us == m.sent.p50_us
        &&& step.p99_us == m.sent.p99_us
        &&& step.p999_us == m.sent.p999_us
        &&& step.slo_passed == self.passes(now, m)
        &&& step.fail_reason@ == self.reason(now, m)
        &&& step.slo_display@ == slo_text(self.config.slo)
        &&& step.slo_threshold_us == match self.config.slo.highest() {
            Some((_, d)) => Some(threshold_us(d)),
            None => None,
        }
        &&& step.slo_percentile == p
        &&& step.slo_percentile_us == m.sent.of(p)
        &&& step.perceived_slo_us == m.perceived.of(p)
        &&& step.throughput_rollover == (self.search.phase is Climb && Double::zero().lt_spec(
            self.prev_achieved,
        ) && self.achieved(now, m).lt_spec(self.prev_achieved))
        &&& step.slip_onset == (!self.slip_seen && slip_onset_us().lt_spec(m.slip_p99_us))
        &&& step.slo_breach == (!self.passes(now, m) && !self.breach_seen)
    }

    /// What the rate search makes of the step.
    pub open spec fn search_result(self, now: Duration, m: StepMeasurement) -> (
        RateSearch,
        SearchOutcome,
    ) {
        self.search.advanced(self.passes(now, m), m.sent.of(self.slo_percentile_spec()))
    }

    /// Create a new saturation search state at moment `now`. The caller
    /// applies the start rate.
    pub fn new(config: SaturationSearch, now: Duration) -> (r: SaturationSearchState)
        ensures
            r.wf(),
            r.config == config,
            r.current_rate == config.start_rate,
            r.last_good_rate is None,
            r.search == RateSearch::fresh(
                config.start_rate,
                config.step_multiplier,
                config.max_rate,
                config.bisect_tolerance,
                config.max_bisect_steps,
                config.confirm_failures,
                config.floor_improvement_ratio,
            ),
            r.step_start == now,
            r.baseline_at is None,
            r.step_responses == 0,
            r.prev_achieved == Double::zero(),
            !r.slip_seen && !r.breach_seen && !r.completed && !r.header_printed,
            r.results@.len() == 0,
    {
        SaturationSearchState {
            config,
            current_rate: config.start_rate,
            last_good_rate: None,
            search: RateSearch::new(
                config.start_rate,
                config.step_multiplier,
                config.max_rate,
                config.bisect_tolerance,
                config.max_bisect_steps,
                config.confirm_failures,
                config.floor_improvement_ratio,
            ),
            step_start: now,
            baseline_at: None,
            step_responses: 0,
            prev_achieved: Double::from_bits(0),
            slip_seen: false,
            breach_seen: false,
            results: Vec::new(),
            completed: false,
            header_printed: false,
        }
    }

    /// Whether a deprecated option was set to something other than its
    /// default, which deserves a warning.
    pub fn ignores_stop_after_failures(config: &SaturationSearch) -> (r: bool)
        ensures
            r == (config.stop_after_failures != 3),
    {
        config.stop_after_failures != 3
    }

    /// Return the reason the SLO failed, or None if it passed.
    pub fn slo_fail_reason(&self, l: &Latencies) -> (r: Option<String>)
        ensures
            match r {
                Some(s) => slo_breach(self.config.slo, *l) == Some(s@),
                None => slo_breach(self.config.slo, *l) is None,
            },
    {
        if let Some(t) = self.config.slo.p50 {
            if in_us(t).lt(l.p50_us) {
                return Some(breach_reason(Percentile::P50, l.p50_us, t));
            }
        }
        if let Some(t) = self.config.slo.p99 {
            if in_us(t).lt(l.p99_us) {
                return Some(breach_reason(Percentile::P99, l.p99_us, t));
            }
        }
        if let Some(t) = self.config.slo.p999 {
            if in_us(t).lt(l.p999_us) {
                return Some(breach_reason(Percentile::P999, l.p999_us, t));
            }
        }
        None
    }

    /// Build a display string for the configured SLO (e.g. "p999 \u{2264} 1ms").
    pub fn slo_display(&self) -> (r: String)
        ensures
            r@ == slo_text(self.config.slo),
    {
        let mut r = String::new();
        if let Some((p, d)) = self.config.slo.highest_threshold() {
            r.append(p.label());
            r.push(' ');
            r.push('\u{2264}');
            r.push(' ');
            let t = format_duration_short(d);
            r.append(t.as_str());
        }
        assert(r@ =~= slo_text(self.config.slo));
        r
    }

    /// Get the SLO threshold in microseconds (highest configured percentile).
    pub fn slo_threshold_us(&self) -> (r: Option<Double>)
        ensures
            r == match self.config.slo.highest() {
                Some((_, d)) => Some(threshold_us(d)),
                None => None,
            },
    {
        match self.config.slo.highest_threshold() {
            Some((_, d)) => Some(in_us(d)),
            None => None,
        }
    }

    /// Pick the percentile (label + measured value) that corresponds to the
    /// SLO's highest configured percentile, matching `slo_display`. Falls back
    /// to p999 when no SLO is configured.
    pub fn slo_percentile(&self, l: &Latencies) -> (r: (Percentile, Double))
        ensures
            r == (self.slo_percentile_spec(), l.of(self.slo_percentile_spec())),
    {
        let p = match self.config.slo.highest_threshold() {
            Some((p, _)) => p,
            None => Percentile::P999,
        };
        (p, l.get(p))
    }

    fn fail_reason(&self, ratio: Double, throughput_ok: bool, latency_reason: Option<String>) -> (r:
        String)
        ensures
            r@ == if throughput_ok && latency_reason is None {
                Seq::empty()
            } else if !throughput_ok {
                "Throughput: "@ + text::fixed(Double::product(ratio, Double::of_nat(100)), 0)
                    + "% (need "@ + text::fixed(
                    Double::product(self.config.min_throughput_ratio, Double::of_nat(100)),
                    0,
                ) + "%)"@
            } else {
                latency_reason->0@
            },
    {
        if !throughput_ok {
            let mut r = String::from_str("Throughput: ");
            text::push_fixed(&mut r, ratio.times(Double::from_u64(100)), 0);
            r.append("% (need ");
            text::push_fixed(
                &mut r,
                self.config.min_throughput_ratio.times(Double::from_u64(100)),
                0,
            );
            r.append("%)");
            r
        } else {
            match latency_reason {
                Some(s) => s,
                None => String::new(),
            }
        }
    }

    /// The record of the step that ends at `now`.
    fn step(&self, now: Duration, m: &StepMeasurement) -> (r: SaturationStep)
        requires
            self.baseline_at is Some,
        ensures
            self.records(now, *m, r),
    {
        let elapsed = match self.baseline_at {
            Some(t) => now.saturating_sub(t),
            None => Duration::zero(),
        };
        let delta: u64 = m.responses.saturating_sub(self.step_responses);
        let achieved_rate = Double::from_u64(delta).over(elapsed.as_secs());
        let ratio = achieved_rate.over(Double::from_u64(self.current_rate));
        let throughput_ok = self.config.min_throughput_ratio.le(ratio);
        let latency_reason = self.slo_fail_reason(&m.perceived);
        let slo_passed = throughput_ok && latency_reason.is_none();
        let fail_reason = self.fail_reason(ratio, throughput_ok, latency_reason);
        let (slo_percentile, slo_percentile_us) = self.slo_percentile(&m.sent);
        let (_, perceived_slo_us) = self.slo_percentile(&m.perceived);
        SaturationStep {
            target_rate: self.current_rate,
            achieved_rate,
            p50_us: m.sent.p50_us,
            p99_us: m.sent.p99_us,
            p999_us: m.sent.p999_us,
            slo_passed,
            fail_reason,
            slo_display: self.slo_display(),
            slo_threshold_us: self.slo_threshold_us(),
            slo_percentile,
            slo_percentile_us,
            perceived_slo_us,
            throughput_rollover: self.search.is_climbing() && Double::from_bits(0).lt(
                self.prev_achieved,
            ) && achieved_rate.lt(self.prev_achieved),
            slip_onset: !self.slip_seen && Double::from_u64(1_000).lt(m.slip_p99_us),
            slo_breach: !slo_passed && !self.breach_seen,
        }
    }

    /// Check if it's time to advance to the next step, and do so if needed.
    ///
    /// After a rate change, requests at the previous rate are still in flight,
    /// so the baseline is captured once the drain window is over. The step
    /// ends when the sample window has filled since. `m` is what was measured
    /// since the baseline, up to `now`; before a baseline it is not read, but
    /// for the response count. The caller applies the rate of a probe.
    pub fn check_and_advance(&mut self, now: Duration, m: &StepMeasurement) -> (r: Progress)
        requires
            old(self).wf(),
            old(self).ready_spec(),
        ensures
            final(self).wf(),
            r is Waiting <==> old(self).waits(now),
            r is Waiting ==> *final(self) == *old(self),
            r is Baseline <==> !old(self).waits(now) && old(self).baseline_at is None,
            r is Baseline ==> *final(self) == (SaturationSearchState {
                step_responses: m.responses,
                baseline_at: Some(now),
                ..*old(self)
            }),
            r matches Progress::Stepped { first, outcome } ==> {
                let o = *old(self);
                let f = *final(self);
                &&& first == !o.header_printed
                &&& (f.search, outcome) == o.search_result(now, *m)
                &&& f.config == o.config
                &&& f.header_printed
                &&& f.results@.len() == o.results@.len() + 1
                &&& f.results@.drop_last() == o.results@
                &&& o.records(now, *m, f.results@.last())
                &&& f.results@.last().target_rate == o.current_rate
                &&& (o.baseline_at matches Some(t) && o.step_responses <= m.responses && t.nanos
                    <= now.nanos) ==> {
                    let window = Duration { nanos: (now.nanos - o.baseline_at->0.nanos) as u128 };
                    let rate = Double::quotient(
                        Double::of_nat((m.responses - o.step_responses) as nat),
                        window.secs(),
                    );
                    &&& f.results@.last().achieved_rate == rate
                    &&& f.results@.last().slo_passed <==> o.config.min_throughput_ratio.le_spec(
                        Double::quotient(rate, Double::of_nat(o.current_rate as nat)),
                    ) && slo_breach(o.config.slo, m.perceived) is None
                }
                &&& (f.search, outcome) == o.search.advanced(
                    f.results@.last().slo_passed,
                    f.results@.last().slo_percentile_us,
                )
                &&& f.prev_achieved == o.achieved(now, *m)
                &&& f.slip_seen == (o.slip_seen || slip_onset_us().lt_spec(m.slip_p99_us))
                &&& f.breach_seen == (o.breach_seen || !o.passes(now, *m))
                &&& match outcome {
                    SearchOutcome::Done { knee } => {
                        &&& f.completed
                        &&& f.last_good_rate == knee
                        &&& f.current_rate == o.current_rate
                        &&& f.step_start == o.step_start
                        &&& f.baseline_at == o.baseline_at
                        &&& f.step_responses == o.step_responses
                    },
                    SearchOutcome::Probe(rate) => {
                        &&& !f.completed
                        &&& f.last_good_rate == o.last_good_rate
                        &&& f.current_rate == rate
                        &&& f.step_start == now
                        &&& f.baseline_at is None
                        &&& f.step_responses == 0
                    },
                }
            },
    {
        if self.completed {
            return Progress::Waiting;
        }
        match self.baseline_at {
            None => {
                if now.saturating_sub(self.step_start).nanos < self.config.drain_window.nanos {
                    return Progress::Waiting;
                }
                self.step_responses = m.responses;
                self.baseline_at = Some(now);
                return Progress::Baseline;
            },
            Some(t) => {
                if now.saturating_sub(t).nanos < self.config.sample_window.nanos {
                    return Progress::Waiting;
                }
            },
        }
        let first = !self.header_printed;
        self.header_printed = true;
        let step = self.step(now, m);
        let passed = step.slo_passed;
        let achieved = step.achieved_rate;
        let slo_us = step.slo_percentile_us;
        let ghost before = self.results@;
        self.results.push(step);
        assert(self.results@.drop_last() =~= before);
        self.prev_achieved = achieved;
        if Double::from_u64(1_000).lt(m.slip_p99_us) {
            self.slip_seen = true;
        }
        if !passed {
            self.breach_seen = true;
        }
        let outcome = self.search.advance(passed, slo_us);
        match outcome {
            SearchOutcome::Done { knee } => {
                self.last_good_rate = knee;
                self.completed = true;
            },
            SearchOutcome::Probe(rate) => {
                self.current_rate = rate;
                self.step_start = now;
                self.baseline_at = None;
                self.step_responses = 0;
            },
        }
        Progress::Stepped { first, outcome }
    }

    /// Whether the search has completed.
    pub fn is_completed(&self) -> (r: bool)
        ensures
            r == self.completed,
    {
        self.completed
    }

    /// Get the sample window duration.
    pub fn sample_window(&self) -> (r: Duration)
        ensures
            r == self.config.sample_window,
    {
        self.config.sample_window
    }

    /// Get the final results.
    pub fn results(self) -> (r: SaturationResults)
        ensures
            r.max_compliant_rate == self.last_good_rate,
            r.steps == self.results,
            r.latency_floor == self.search.floor_detected,
    {
        SaturationResults {
            max_compliant_rate: self.last_good_rate,
            steps: self.results,
            latency_floor: self.search.floor_detected(),
        }
    }
}

/// A step passes exactly when the responses since its own baseline, divided by
/// the time since that baseline and by the step's target rate, come to at least
/// the least ratio that is asked for, and every configured threshold is met by
/// its perceived percentile. Exactly then there is no reason for a failure.
pub proof fn a_step_passes_when_all_is_met(
    s: SaturationSearchState,
    now: Duration,
    m: StepMeasurement,
)
    ensures
        s.passes(now, m) <==> {
            let start = s.baseline_at->0;
            let window = Duration {
                nanos: if start.nanos <= now.nanos {
                    (now.nanos - start.nanos) as u128
                } else {
                    0
                },
            };
            let counted = if s.step_responses <= m.responses {
                (m.responses - s.step_responses) as nat
            } else {
                0
            };
            let ratio = Double::quotient(
                Double::quotient(Double::of_nat(counted), window.secs()),
                Double::of_nat(s.current_rate as nat),
            );
            &&& s.config.min_throughput_ratio.le_spec(ratio)
            &&& s.config.slo.p50 matches Some(d) ==> !threshold_us(d).lt_spec(m.perceived.p50_us)
            &&& s.config.slo.p99 matches Some(d) ==> !threshold_us(d).lt_spec(m.perceived.p99_us)
            &&& s.config.slo.p999 matches Some(d) ==> !threshold_us(d).lt_spec(m.perceived.p999_us)
        },
        s.reason(now, m).len() == 0 <==> s.passes(now, m),
{
    reveal_strlit("Throughput: ");
    reveal_strlit("Latency: ");
}

/// Whether a step passes depends on nothing that was measured in an earlier
/// one: two states with the same configuration, target rate and baseline pass
/// the same measurements, and fail them for the same reason, whatever rates
/// were achieved, passed or failed before.
pub proof fn a_step_is_judged_by_its_own_window(
    a: SaturationSearchState,
    b: SaturationSearchState,
    now: Duration,
    m: StepMeasurement,
)
    requires
        a.config == b.config,
        a.current_rate == b.current_rate,
        a.baseline_at == b.baseline_at,
        a.step_responses == b.step_responses,
    ensures
        a.passes(now, m) == b.passes(now, m),
        a.reason(now, m) == b.reason(now, m),
        a.achieved(now, m) == b.achieved(now, m),
{
}

/// What a step achieved, and whether it passes, depends on how many responses
/// came in within the window and how long the window was, not on when the
/// window was or on what had been counted before it.
pub proof fn only_the_window_counts(
    s: SaturationSearchState,
    now: Duration,
    m: StepMeasurement,
    later: u128,
    more: u64,
)
    requires
        s.baseline_at is Some,
        s.baseline_at->0.nanos <= now.nanos,
        s.step_responses <= m.responses,
        now.nanos + later <= MAX_NANOS,
        m.responses + more <= u64::MAX,
    ensures
        ({
            let shifted = SaturationSearchState {
                baseline_at: Some(
                    Duration { nanos: (s.baseline_at->0.nanos + later) as u128 },
                ),
                step_responses: (s.step_responses + more) as u64,
                ..s
            };
            let at = Duration { nanos: (now.nanos + later) as u128 };
            let counted = StepMeasurement { responses: (m.responses + more) as u64, ..m };
            &&& shifted.achieved(at, counted) == s.achieved(now, m)
            &&& shifted.passes(at, counted) == s.passes(now, m)
        }),
{
}

/// The latency thresholds judge what is perceived, measured from a request's
/// arrival: what was measured from its sending has no say, nor has the slip.
pub proof fn sent_latency_does_not_judge(
    s: SaturationSearchState,
    now: Duration,
    m: StepMeasurement,
    sent: Latencies,
    slip_p99_us: Double,
)
    ensures
        s.passes(now, m) == s.passes(now, (StepMeasurement { sent, slip_p99_us, ..m })),
        s.reason(now, m) == s.reason(now, (StepMeasurement { sent, slip_p99_us, ..m })),
{
}

/// A percentile that is the threshold meets it: both are nanoseconds divided
/// by a thousand.
pub proof fn a_percentile_at_its_threshold_meets_it(ns: u64, threshold: Duration)
    requires
        ns == threshold.nanos,
    ensures
        !exceeds(Some(threshold), bucket_us(Some(ns))),
{
}

/// One measurement: whether the SLO held, and the SLO percentile's latency.
pub type Measured = (bool, Double);

impl RateSearch {
    /// The search after one measurement, and what to do next: `advanced`, for
    /// proofs that go over many measurements.
    #[verifier::opaque]
    pub open spec fn stepped(self, m: Measured) -> (RateSearch, SearchOutcome) {
        self.advanced(m.0, m.1)
    }

    /// The search after a sequence of measurements.
    pub open spec fn after(self, seen: Seq<Measured>) -> RateSearch
        decreases seen.len(),
    {
        if seen.len() == 0 {
            self
        } else {
            self.after(seen.drop_last()).stepped(seen.last()).0
        }
    }

    /// The rate that measurement `i` was taken at.
    pub open spec fn rate_of(self, seen: Seq<Measured>, i: int) -> u64 {
        self.after(seen.take(i)).current_rate
    }

    /// Whether some measurement found the SLO held (or broken) at `rate`.
    pub open spec fn measured(self, seen: Seq<Measured>, rate: u64, passed: bool) -> bool {
        exists|i: int|
            0 <= i < seen.len() && seen[i].0 == passed && #[trigger] self.rate_of(seen, i) == rate
    }

    /// Whether nothing was measured yet.
    pub open spec fn is_fresh(self) -> bool {
        &&& self.phase is Climb
        &&& self.last_good is None
        &&& self.lo == 0
        &&& self.bisect_steps == 0
        &&& self.failures_at_rate == 0
        &&& !self.floor_detected
    }

    /// What `advance` returned for measurement `i`.
    pub open spec fn outcome_of(self, seen: Seq<Measured>, i: int) -> SearchOutcome {
        self.after(seen.take(i)).stepped(seen[i]).1
    }

    /// Whether each of the first `n` measurements could be counted and led to
    /// another one.
    pub open spec fn goes_on(self, seen: Seq<Measured>, n: int) -> bool {
        forall|i: int|
            0 <= i < n ==> self.after(seen.take(i)).can_advance(seen[i].0)
                && #[trigger] self.outcome_of(seen, i) is Probe
    }

    /// The last rate that passed, or zero.
    pub open spec fn best(self) -> u64 {
        match self.last_good {
            Some(g) => g,
            None => 0,
        }
    }

    /// Whether measurement `i` and the `n` before it all failed at one rate.
    pub open spec fn fails_in_a_row(self, seen: Seq<Measured>, i: int, n: nat) -> bool {
        &&& n <= i < seen.len()
        &&& forall|j: int|
            #![trigger seen[j]]
            #![trigger self.rate_of(seen, j)]
            i - n <= j <= i ==> !seen[j].0 && self.rate_of(seen, j) == self.rate_of(seen, i)
    }

    /// Whether a failure at `rate` was confirmed: it repeated as often in a row
    /// as confirmations are asked for.
    pub open spec fn rejected(self, seen: Seq<Measured>, rate: u64) -> bool {
        exists|i: int|
            #[trigger] self.rate_of(seen, i) == rate && self.fails_in_a_row(
                seen,
                i,
                self.confirm_failures as nat,
            )
    }

    /// What holds of the rates of a search that started above zero: the climb
    /// measures above the best rate; the bisected interval starts at the best
    /// rate, and the measured rate lies strictly inside where there is room.
    spec fn in_order(self) -> bool {
        &&& self.wf()
        &&& self.current_rate >= 1
        &&& self.last_good matches Some(g) ==> g >= 1
        &&& self.phase is Climb ==> self.best() < self.current_rate && self.bisect_steps == 0
        &&& self.phase is Bisect ==> {
            &&& self.lo == self.best()
            &&& self.lo < self.hi
            &&& self.lo <= self.current_rate <= self.hi
            &&& self.hi - self.lo >= 2 ==> self.lo < self.current_rate < self.hi
        }
    }

    /// One step keeps the rates in order and the settings as they are.
    proof fn lemma_step(self, m: Measured)
        requires
            self.in_order(),
            self.can_advance(m.0),
            self.stepped(m).1 is Probe,
        ensures
            ({
                let t = self.stepped(m).0;
                &&& t.in_order()
                &&& self.stepped(m).1 == SearchOutcome::Probe(t.current_rate)
                &&& t.confirm_failures == self.confirm_failures
                &&& t.max_bisect_steps == self.max_bisect_steps
                &&& t.max_rate == self.max_rate
                &&& t.step_multiplier == self.step_multiplier
                &&& t.best() == if m.0 {
                    self.current_rate
                } else {
                    self.best()
                }
                &&& self.best() <= t.best()
                &&& t.failures_at_rate == if m.0 || !self.unconfirmed() {
                    0
                } else {
                    self.failures_at_rate + 1
                }
                &&& self.phase is Bisect ==> t.phase is Bisect && t.hi <= self.hi
                &&& !m.0 && self.unconfirmed() ==> t.current_rate == self.current_rate
                    && t.phase == self.phase && t.hi == self.hi
                &&& !m.0 && !self.unconfirmed() ==> t.phase is Bisect && t.hi
                    == self.current_rate
                &&& m.0 && self.phase is Bisect ==> t.hi == self.hi
                &&& m.0 && self.phase is Climb ==> t.phase is Climb
            }),
    {
        reveal(RateSearch::stepped);
    }

    /// A search that is done reports its best rate.
    proof fn lemma_done(self, m: Measured)
        requires
            self.in_order(),
            self.can_advance(m.0),
            self.stepped(m).1 is Done,
        ensures
            self.stepped(m).1 == (SearchOutcome::Done {
                knee: if m.0 {
                    Some(self.current_rate)
                } else {
                    self.last_good
                },
            }),
            self.best() <= self.current_rate,
    {
        reveal(RateSearch::stepped);
    }

    /// A prefix of a run is a run.
    proof fn lemma_goes_on_prefix(self, seen: Seq<Measured>, n: int)
        requires
            0 <= n <= seen.len(),
            self.goes_on(seen, n),
        ensures
            self.goes_on(seen.take(n), n),
    {
        let before = seen.take(n);
        assert forall|i: int| 0 <= i < n implies self.after(before.take(i)).can_advance(before[i].0)
            && #[trigger] self.outcome_of(before, i) is Probe by {
            assert(before.take(i) =~= seen.take(i));
            assert(self.outcome_of(seen, i) is Probe);
        }
    }

    /// The state before the last measurement of a run, and what it led to.
    proof fn lemma_last(self, seen: Seq<Measured>)
        requires
            seen.len() > 0,
            self.goes_on(seen, seen.len() as int),
        ensures
            ({
                let before = seen.drop_last();
                &&& self.goes_on(before, before.len() as int)
                &&& self.after(before).can_advance(seen.last().0)
                &&& self.after(before).stepped(seen.last()).1 is Probe
                &&& self.outcome_of(seen, seen.len() - 1) == self.after(before).stepped(
                    seen.last(),
                ).1
                &&& self.rate_of(seen, seen.len() - 1) == self.after(before).current_rate
                &&& forall|i: int|
                    0 <= i < before.len() ==> #[trigger] self.rate_of(seen, i) == self.rate_of(
                        before,
                        i,
                    )
            }),
    {
        let before = seen.drop_last();
        let n = seen.len() - 1;
        assert(before =~= seen.take(n));
        self.lemma_goes_on_prefix(seen, n);
        assert(self.outcome_of(seen, n) is Probe);
        assert forall|i: int| 0 <= i < before.len() implies #[trigger] self.rate_of(seen, i)
            == self.rate_of(before, i) by {
            assert(before.take(i) =~= seen.take(i));
        }
    }

    /// What a run leads to.
    proof fn lemma_run(self, seen: Seq<Measured>)
        requires
            self.is_fresh(),
            self.current_rate >= 1,
            self.goes_on(seen, seen.len() as int),
        ensures
            ({
                let s = self.after(seen);
                &&& s.in_order()
                &&& s.confirm_failures == self.confirm_failures
                &&& s.max_bisect_steps == self.max_bisect_steps
                &&& s.max_rate == self.max_rate
                &&& s.step_multiplier == self.step_multiplier
                &&& forall|i: int|
                    0 <= i < seen.len() && seen[i].0 ==> #[trigger] self.rate_of(seen, i)
                        <= s.best()
                &&& s.failures_at_rate <= seen.len()
                &&& forall|i: int|
                    #![trigger seen[i]]
                    #![trigger self.rate_of(seen, i)]
                    seen.len() - s.failures_at_rate <= i < seen.len() ==> !seen[i].0
                        && self.rate_of(seen, i) == s.current_rate
                &&& s.phase is Bisect ==> self.rejected(seen, s.hi)
            }),
        decreases seen.len(),
    {
        if seen.len() > 0 {
            let before = seen.drop_last();
            self.lemma_last(seen);
            self.lemma_run(before);
            let s = self.after(before);
            let passed = seen.last().0;
            s.lemma_step(seen.last());
            let t = s.stepped(seen.last()).0;
            assert(t == self.after(seen));
            let n = seen.len() - 1;
            assert forall|i: int| 0 <= i < seen.len() && seen[i].0 implies #[trigger] self.rate_of(
                seen,
                i,
            ) <= t.best() by {
                if i < n {
                    assert(before[i] == seen[i]);
                    assert(self.rate_of(before, i) <= s.best());
                }
            }
            assert forall|i: int|
                #![trigger seen[i]]
                #![trigger self.rate_of(seen, i)]
                n - s.failures_at_rate <= i < n implies !seen[i].0 && self.rate_of(seen, i)
                == s.current_rate by {
                assert(before[i] == seen[i]);
                assert(self.rate_of(before, i) == s.current_rate);
            }
            if !passed && !s.unconfirmed() {
                assert(self.fails_in_a_row(seen, n, self.confirm_failures as nat));
                assert(self.rate_of(seen, n) == t.hi);
            } else if s.phase is Bisect {
                let i = choose|i: int|
                    #[trigger] self.rate_of(before, i) == s.hi && self.fails_in_a_row(
                        before,
                        i,
                        self.confirm_failures as nat,
                    );
                assert(self.rate_of(seen, i) == s.hi);
                assert forall|j: int|
                    #![trigger seen[j]]
                    #![trigger self.rate_of(seen, j)]
                    i - self.confirm_failures <= j <= i implies !seen[j].0 && self.rate_of(seen, j)
                    == self.rate_of(seen, i) by {
                    assert(before[j] == seen[j]);
                    assert(self.rate_of(before, j) == self.rate_of(before, i));
                }
                assert(self.fails_in_a_row(seen, i, self.confirm_failures as nat));
            }
        }
    }

    /// A rate that passed is at most the best one before the last measurement,
    /// or the one that this measurement passed at.
    proof fn lemma_passed_at_most(self, seen: Seq<Measured>, rate: u64)
        requires
            self.is_fresh(),
            self.current_rate >= 1,
            seen.len() > 0,
            self.goes_on(seen.drop_last(), seen.len() - 1),
            self.measured(seen, rate, true),
        ensures
            ({
                let s = self.after(seen.drop_last());
                rate <= s.best() || (seen.last().0 && rate == s.current_rate)
            }),
    {
        let n = seen.len() - 1;
        let before = seen.drop_last();
        self.lemma_run(before);
        let i = choose|i: int|
            0 <= i < seen.len() && seen[i].0 == true && #[trigger] self.rate_of(seen, i) == rate;
        assert(before.take(i) =~= seen.take(i) || i == n);
        if i < n {
            assert(before[i] == seen[i]);
            assert(self.rate_of(before, i) == rate);
        } else {
            assert(seen.take(n) =~= before);
        }
    }

    /// While measurements from `from` on fail at one rate, each is counted
    /// until the failure is acted on.
    proof fn lemma_row(self, seen: Seq<Measured>, from: int, k: nat, rate: u64)
        requires
            self.is_fresh(),
            self.current_rate >= 1,
            self.goes_on(seen, seen.len() as int),
            0 <= from,
            from + k < seen.len(),
            forall|j: int|
                #![trigger seen[j]]
                #![trigger self.rate_of(seen, j)]
                from <= j <= from + k ==> !seen[j].0 && self.rate_of(seen, j) == rate,
        ensures
            ({
                let s = self.after(seen.take(from + k + 1));
                (s.phase is Bisect && s.hi <= rate) || s.failures_at_rate >= k + 1
            }),
        decreases k,
    {
        let n = from + k;
        let upto = seen.take(n + 1);
        self.lemma_goes_on_prefix(seen, n + 1);
        self.lemma_last(upto);
        assert(upto.drop_last() =~= seen.take(n));
        self.lemma_run(upto.drop_last());
        let s = self.after(seen.take(n));
        assert(upto.last() == seen[n]);
        assert(self.rate_of(seen, n) == rate);
        s.lemma_step(seen[n]);
        if k > 0 {
            self.lemma_row(seen, from, (k - 1) as nat, rate);
        }
    }

    /// The upper end of the interval never rises.
    proof fn lemma_upper_end_falls(self, seen: Seq<Measured>, n: int)
        requires
            self.is_fresh(),
            self.current_rate >= 1,
            self.goes_on(seen, seen.len() as int),
            0 <= n <= seen.len(),
            self.after(seen.take(n)).phase is Bisect,
        ensures
            self.after(seen).phase is Bisect,
            self.after(seen).hi <= self.after(seen.take(n)).hi,
        decreases seen.len(),
    {
        if n == seen.len() {
            assert(seen.take(n) =~= seen);
        } else {
            let before = seen.drop_last();
            self.lemma_last(seen);
            assert(before.take(n) =~= seen.take(n));
            self.lemma_upper_end_falls(before, n);
            self.lemma_run(before);
            self.after(before).lemma_step(seen.last());
        }
    }

    /// No confirmed failure lies below the upper end of the interval.
    proof fn lemma_upper_end_is_least(self, seen: Seq<Measured>, rate: u64)
        requires
            self.is_fresh(),
            self.current_rate >= 1,
            self.goes_on(seen, seen.len() as int),
            self.rejected(seen, rate),
        ensures
            self.after(seen).phase is Bisect,
            self.after(seen).hi <= rate,
    {
        let c = self.confirm_failures as nat;
        let i = choose|i: int|
            #[trigger] self.rate_of(seen, i) == rate && self.fails_in_a_row(seen, i, c);
        self.lemma_row(seen, i - c, c, rate);
        self.lemma_goes_on_prefix(seen, i + 1);
        self.lemma_run(seen.take(i + 1));
        self.lemma_upper_end_falls(seen, i + 1);
    }

    /// A measurement stays one when more follow.
    proof fn lemma_measured_grows(self, seen: Seq<Measured>, rate: u64, passed: bool)
        requires
            seen.len() > 0,
            self.measured(seen.drop_last(), rate, passed),
        ensures
            self.measured(seen, rate, passed),
    {
        let before = seen.drop_last();
        let i = choose|i: int|
            0 <= i < before.len() && before[i].0 == passed && #[trigger] self.rate_of(before, i)
                == rate;
        assert(before.take(i) =~= seen.take(i));
        assert(self.rate_of(seen, i) == rate);
        assert(seen[i] == before[i]);
    }

    /// The last measurement was taken at the rate the search stood at.
    proof fn lemma_measured_last(self, seen: Seq<Measured>)
        requires
            seen.len() > 0,
        ensures
            self.measured(seen, self.after(seen.drop_last()).current_rate, seen.last().0),
    {
        let i = seen.len() - 1;
        assert(seen.take(i) =~= seen.drop_last());
        assert(self.rate_of(seen, i) == self.after(seen.drop_last()).current_rate);
    }

    /// What the state remembers was measured: the last good rate and the lower
    /// end of the interval passed, its upper end failed, and nothing is
    /// remembered as good only while nothing passed.
    proof fn lemma_memory(self, seen: Seq<Measured>)
        requires
            self.is_fresh(),
        ensures
            ({
                let s = self.after(seen);
                &&& s.last_good matches Some(g) ==> self.measured(seen, g, true)
                &&& s.phase is Climb ==> s.lo == 0
                &&& s.lo > 0 ==> self.measured(seen, s.lo, true)
                &&& s.phase is Bisect ==> self.measured(seen, s.hi, false)
                &&& s.last_good is None ==> forall|i: int| 0 <= i < seen.len() ==> !(#[trigger] seen[i]).0
            }),
        decreases seen.len(),
    {
        reveal(RateSearch::stepped);
        if seen.len() > 0 {
            let before = seen.drop_last();
            self.lemma_memory(before);
            let s = self.after(before);
            let (passed, us) = seen.last();
            self.lemma_measured_last(seen);
            if let Some(g) = s.last_good {
                self.lemma_measured_grows(seen, g, true);
            }
            if s.lo > 0 {
                self.lemma_measured_grows(seen, s.lo, true);
            }
            if s.phase is Bisect {
                self.lemma_measured_grows(seen, s.hi, false);
            }
            let t = s.advanced(passed, us).0;
            if t.last_good is None {
                assert forall|i: int| 0 <= i < seen.len() implies !(#[trigger] seen[i]).0 by {
                    if i < before.len() {
                        assert(before[i] == seen[i]);
                    }
                }
            }
        }
    }
}

/// A reported knee was measured, and the SLO held there.
pub proof fn knee_was_measured_and_passed(start: RateSearch, seen: Seq<Measured>, knee: u64)
    requires
        start.is_fresh(),
        seen.len() > 0,
        start.after(seen.drop_last()).advanced(seen.last().0, seen.last().1).1
            == (SearchOutcome::Done { knee: Some(knee) }),
    ensures
        start.measured(seen, knee, true),
{
    reveal(RateSearch::stepped);
    start.lemma_memory(seen);
    start.lemma_memory(seen.drop_last());
    start.lemma_measured_last(seen);
    let s = start.after(seen.drop_last());
    if let Some(g) = s.last_good {
        start.lemma_measured_grows(seen, g, true);
    }
    if s.lo > 0 {
        start.lemma_measured_grows(seen, s.lo, true);
    }
}

/// The knee is the highest rate that met the SLO: it was measured and passed,
/// and nothing above it did. There is none only when nothing passed.
pub proof fn knee_is_the_highest_rate_that_passed(
    start: RateSearch,
    seen: Seq<Measured>,
    knee: Option<u64>,
)
    requires
        start.is_fresh(),
        start.current_rate >= 1,
        seen.len() > 0,
        start.goes_on(seen, seen.len() - 1),
        start.after(seen.drop_last()).can_advance(seen.last().0),
        start.outcome_of(seen, seen.len() - 1) == (SearchOutcome::Done { knee }),
    ensures
        match knee {
            Some(k) => {
                &&& start.measured(seen, k, true)
                &&& forall|r: u64| start.measured(seen, r, true) ==> r <= k
            },
            None => forall|i: int| 0 <= i < seen.len() ==> !(#[trigger] seen[i]).0,
        },
{
    let n = seen.len() - 1;
    let before = seen.drop_last();
    assert(before =~= seen.take(n));
    start.lemma_goes_on_prefix(seen, n);
    start.lemma_run(before);
    start.lemma_memory(before);
    let s = start.after(before);
    s.lemma_done(seen.last());
    match knee {
        Some(k) => {
            if seen.last().0 {
                start.lemma_measured_last(seen);
            } else {
                start.lemma_measured_grows(seen, k, true);
            }
            assert forall|r: u64| start.measured(seen, r, true) implies r <= k by {
                start.lemma_passed_at_most(seen, r);
            }
        },
        None => {
            assert forall|i: int| 0 <= i < seen.len() implies !(#[trigger] seen[i]).0 by {
                if i < n {
                    assert(before[i] == seen[i]);
                }
            }
        },
    }
}

/// Once a failure is confirmed, every probe lies strictly between the highest
/// rate `good` that passed (zero when none did) and the lowest rate `bad` whose
/// failure was confirmed, where they are two or more apart.
pub proof fn probes_lie_between_good_and_bad(
    start: RateSearch,
    seen: Seq<Measured>,
    good: u64,
    bad: u64,
)
    requires
        start.is_fresh(),
        start.current_rate >= 1,
        seen.len() > 0,
        start.goes_on(seen, seen.len() as int),
        good == 0 || start.measured(seen, good, true),
        forall|r: u64| start.measured(seen, r, true) ==> r <= good,
        start.rejected(seen, bad),
        forall|r: u64| start.rejected(seen, r) ==> bad <= r,
        bad - good >= 2,
    ensures
        start.outcome_of(seen, seen.len() - 1) matches SearchOutcome::Probe(r) && good < r < bad,
{
    start.lemma_last(seen);
    start.lemma_run(seen.drop_last());
    start.after(seen.drop_last()).lemma_step(seen.last());
    start.lemma_run(seen);
    start.lemma_memory(seen);
    start.lemma_upper_end_is_least(seen, bad);
    let s = start.after(seen);
    assert(start.rejected(seen, s.hi));
    if good > 0 {
        let i = choose|i: int|
            0 <= i < seen.len() && seen[i].0 == true && #[trigger] start.rate_of(seen, i) == good;
        assert(start.rate_of(seen, i) <= s.best());
    }
    if let Some(g) = s.last_good {
        assert(start.measured(seen, g, true));
    }
}

/// One step of a search with a multiplier above one stays within the ceiling.
proof fn lemma_step_within_ceiling(s: RateSearch, m: Measured)
    requires
        s.in_order(),
        s.can_advance(m.0),
        s.current_rate <= s.max_rate < 0x20_0000_0000_0000,
        s.phase is Bisect ==> s.hi <= s.max_rate,
        Double::of_nat(1).lt_spec(s.step_multiplier),
    ensures
        match s.stepped(m).1 {
            SearchOutcome::Probe(r) => {
                let t = s.stepped(m).0;
                &&& 1 <= r <= s.max_rate
                &&& t.current_rate == r
                &&& t.phase is Bisect ==> t.hi <= t.max_rate
                &&& m.0 && s.phase is Climb ==> s.current_rate < r
            },
            SearchOutcome::Done { knee } => {
                &&& m.0 && s.phase is Climb ==> knee == Some(s.max_rate)
            },
        },
{
    reveal(RateSearch::stepped);
    crate::double::lemma_product_grows(s.current_rate as nat, s.step_multiplier);
    if s.stepped(m).1 is Probe {
        s.lemma_step(m);
    }
}

proof fn lemma_run_within_ceiling(start: RateSearch, seen: Seq<Measured>)
    requires
        start.is_fresh(),
        1 <= start.current_rate <= start.max_rate < 0x20_0000_0000_0000,
        Double::of_nat(1).lt_spec(start.step_multiplier),
        start.goes_on(seen, seen.len() as int),
    ensures
        start.after(seen).in_order(),
        start.after(seen).max_rate == start.max_rate,
        start.after(seen).step_multiplier == start.step_multiplier,
        1 <= start.after(seen).current_rate <= start.max_rate,
        start.after(seen).phase is Bisect ==> start.after(seen).hi <= start.max_rate,
    decreases seen.len(),
{
    start.lemma_run(seen);
    if seen.len() > 0 {
        let before = seen.drop_last();
        start.lemma_last(seen);
        lemma_run_within_ceiling(start, before);
        lemma_step_within_ceiling(start.after(before), seen.last());
    }
}

/// The maximum rate is an absolute ceiling: with a multiplier above one, every
/// rate that is probed and every knee lies between one and the maximum.
pub proof fn rates_stay_within_the_ceiling(start: RateSearch, seen: Seq<Measured>)
    requires
        start.is_fresh(),
        1 <= start.current_rate <= start.max_rate < 0x20_0000_0000_0000,
        Double::of_nat(1).lt_spec(start.step_multiplier),
        seen.len() > 0,
        start.goes_on(seen, seen.len() - 1),
        start.after(seen.drop_last()).can_advance(seen.last().0),
    ensures
        match start.outcome_of(seen, seen.len() - 1) {
            SearchOutcome::Probe(r) => 1 <= r <= start.max_rate,
            SearchOutcome::Done { knee } => knee matches Some(k) ==> 1 <= k <= start.max_rate,
        },
{
    let n = seen.len() - 1;
    let before = seen.drop_last();
    assert(before =~= seen.take(n));
    start.lemma_goes_on_prefix(seen, n);
    lemma_run_within_ceiling(start, before);
    lemma_step_within_ceiling(start.after(before), seen.last());
    if start.outcome_of(seen, n) is Done {
        start.after(before).lemma_done(seen.last());
    }
}

/// A search in which every measurement passes climbs to the maximum rate and
/// ends there: while it goes on the rate rises with every measurement, and when
/// it is done the knee is the maximum rate.
pub proof fn passing_everywhere_ends_at_the_ceiling(start: RateSearch, seen: Seq<Measured>)
    requires
        start.is_fresh(),
        1 <= start.current_rate <= start.max_rate < 0x20_0000_0000_0000,
        Double::of_nat(1).lt_spec(start.step_multiplier),
        forall|i: int| 0 <= i < seen.len() ==> (#[trigger] seen[i]).0,
        seen.len() > 0,
        start.goes_on(seen, seen.len() - 1),
    ensures
        seen.len() - 1 <= start.max_rate - start.current_rate,
        match start.outcome_of(seen, seen.len() - 1) {
            SearchOutcome::Probe(r) => seen.len() <= start.max_rate - start.current_rate,
            SearchOutcome::Done { knee } => knee == Some(start.max_rate),
        },
{
    let n = seen.len() - 1;
    let before = seen.drop_last();
    assert(before =~= seen.take(n));
    start.lemma_goes_on_prefix(seen, n);
    lemma_climb(start, before);
    lemma_run_within_ceiling(start, before);
    assert(seen.last() == seen[n]);
    lemma_step_within_ceiling(start.after(before), seen.last());
}

proof fn lemma_climb(start: RateSearch, seen: Seq<Measured>)
    requires
        start.is_fresh(),
        1 <= start.current_rate <= start.max_rate < 0x20_0000_0000_0000,
        Double::of_nat(1).lt_spec(start.step_multiplier),
        forall|i: int| 0 <= i < seen.len() ==> (#[trigger] seen[i]).0,
        start.goes_on(seen, seen.len() as int),
    ensures
        start.after(seen).phase is Climb,
        start.after(seen).current_rate >= start.current_rate + seen.len(),
    decreases seen.len(),
{
    if seen.len() > 0 {
        let before = seen.drop_last();
        start.lemma_last(seen);
        assert forall|i: int| 0 <= i < before.len() implies (#[trigger] before[i]).0 by {
            assert(before[i] == seen[i]);
        }
        lemma_climb(start, before);
        lemma_run_within_ceiling(start, before);
        assert(seen.last() == seen[seen.len() - 1]);
        lemma_step_within_ceiling(start.after(before), seen.last());
        start.after(before).lemma_step(seen.last());
    }
}

/// Against a target that holds the SLO up to `limit` and never above it, a
/// bisected knee and the interval's upper end enclose the limit.
pub proof fn knee_encloses_the_limit(start: RateSearch, seen: Seq<Measured>, limit: u64)
    requires
        start.is_fresh(),
        forall|i: int|
            0 <= i < seen.len() ==> seen[i].0 == (#[trigger] start.rate_of(seen, i) <= limit),
        start.after(seen).phase is Bisect,
    ensures
        start.after(seen).lo <= limit || start.after(seen).lo == 0,
        limit < start.after(seen).hi,
{
    start.lemma_memory(seen);
    let s = start.after(seen);
    let i = choose|i: int|
        0 <= i < seen.len() && seen[i].0 == false && #[trigger] start.rate_of(seen, i) == s.hi;
    assert(start.rate_of(seen, i) == s.hi);
    if s.lo > 0 {
        let j = choose|j: int|
            0 <= j < seen.len() && seen[j].0 == true && #[trigger] start.rate_of(seen, j) == s.lo;
        assert(start.rate_of(seen, j) == s.lo);
    }
}

/// A latency floor is reported only while no measurement has passed.
pub proof fn floor_means_nothing_passed(start: RateSearch, seen: Seq<Measured>)
    requires
        start.is_fresh(),
        seen.len() > 0,
        start.after(seen).floor_detected,
        !start.after(seen.drop_last()).floor_detected,
    ensures
        forall|i: int| 0 <= i < seen.len() ==> !(#[trigger] seen[i]).0,
        start.after(seen.drop_last()).advanced(seen.last().0, seen.last().1).1
            == (SearchOutcome::Done { knee: None }),
{
    reveal(RateSearch::stepped);
    start.lemma_memory(seen);
}

/// Before a failure is confirmed it changes nothing but the count, and the
/// same rate is measured again.
pub proof fn unconfirmed_failure_is_measured_again(s: RateSearch, slo_latency_us: Double)
    requires
        s.unconfirmed(),
        s.failures_at_rate < u32::MAX,
    ensures
        s.advanced(false, slo_latency_us).1 == SearchOutcome::Probe(s.current_rate),
        s.advanced(false, slo_latency_us).0 == (RateSearch {
            failures_at_rate: (s.failures_at_rate + 1) as u32,
            ..s
        }),
{
}

/// A pass counts the same however many failures went before it at this rate,
/// and leaves the next rate its whole confirmation budget.
pub proof fn pass_clears_the_failures(s: RateSearch, failures: u32, slo_latency_us: Double)
    ensures
        (RateSearch { failures_at_rate: failures, ..s }).advanced(true, slo_latency_us)
            == s.advanced(true, slo_latency_us),
        s.advanced(true, slo_latency_us).0.failures_at_rate == 0,
{
}

/// With no confirmations asked for, every failure is acted on at once.
pub proof fn zero_confirmations_act_at_once(s: RateSearch)
    requires
        s.confirm_failures == 0,
    ensures
        !s.unconfirmed(),
{
}

/// While bisection goes on, the interval shrinks within itself and the next
/// rate lies strictly inside it.
pub proof fn bisection_narrows(s: RateSearch, passed: bool, slo_latency_us: Double)
    requires
        s.wf(),
        s.phase is Bisect,
        s.can_advance(passed),
        passed || !s.unconfirmed(),
        s.advanced(passed, slo_latency_us).1 is Probe,
    ensures
        ({
            let t = s.advanced(passed, slo_latency_us).0;
            &&& t.phase is Bisect
            &&& s.lo <= t.lo < t.current_rate < t.hi <= s.hi
            &&& t.bisect_steps == s.bisect_steps + 1
            &&& t.bisect_steps < t.max_bisect_steps
        }),
{
}

/// While bisection goes on, each probe acted on took no more measurements than
/// its confirmations ask for.
proof fn lemma_bisection_counts(s: RateSearch, seen: Seq<Measured>)
    requires
        s.wf(),
        s.phase is Bisect,
        s.bisect_steps == 0,
        s.failures_at_rate == 0,
        s.goes_on(seen, seen.len() as int),
    ensures
        ({
            let t = s.after(seen);
            &&& t.wf()
            &&& t.phase is Bisect
            &&& t.max_bisect_steps == s.max_bisect_steps
            &&& t.confirm_failures == s.confirm_failures
            &&& seen.len() <= t.bisect_steps * (s.confirm_failures + 1) + t.failures_at_rate
        }),
    decreases seen.len(),
{
    reveal(RateSearch::stepped);
    if seen.len() > 0 {
        let before = seen.drop_last();
        s.lemma_last(seen);
        lemma_bisection_counts(s, before);
        let t = s.after(before);
        let u = s.after(seen);
        let c = s.confirm_failures + 1;
        if seen.last().0 || !t.unconfirmed() {
            assert(u.bisect_steps == t.bisect_steps + 1);
            assert(u.bisect_steps * c == t.bisect_steps * c + c) by (nonlinear_arith)
                requires
                    u.bisect_steps == t.bisect_steps + 1,
            ;
        }
    }
}

/// Bisection ends in a known number of measurements: after the one that
/// confirmed the first failure, the search is done within
/// `max(1, max_bisect_steps) * (confirm_failures + 1)` more, whatever they
/// find. So a run of measurements that all lead to another is shorter.
pub proof fn bisection_ends_within_its_budget(
    start: RateSearch,
    seen: Seq<Measured>,
    more: Seq<Measured>,
)
    requires
        start.is_fresh(),
        seen.len() > 0,
        start.goes_on(seen, seen.len() as int),
        start.after(seen.drop_last()).phase is Climb,
        start.after(seen).phase is Bisect,
        start.after(seen).goes_on(more, more.len() as int),
    ensures
        more.len() < (if start.max_bisect_steps >= 1 {
            start.max_bisect_steps as int
        } else {
            1
        }) * (start.confirm_failures + 1),
{
    reveal(RateSearch::stepped);
    start.lemma_last(seen);
    lemma_climb_state(start, seen.drop_last());
    let s = start.after(seen);
    lemma_bisection_counts(s, more);
    let t = s.after(more);
    let c = start.confirm_failures + 1;
    let m = if start.max_bisect_steps >= 1 {
        start.max_bisect_steps as int
    } else {
        1
    };
    assert(t.bisect_steps * c + c <= m * c) by (nonlinear_arith)
        requires
            t.bisect_steps + 1 <= m,
            c > 0,
    ;
}

proof fn lemma_climb_state(start: RateSearch, seen: Seq<Measured>)
    requires
        start.is_fresh(),
        start.goes_on(seen, seen.len() as int),
    ensures
        ({
            let s = start.after(seen);
            &&& s.wf()
            &&& s.phase is Climb ==> s.bisect_steps == 0
            &&& s.max_bisect_steps == start.max_bisect_steps
            &&& s.confirm_failures == start.confirm_failures
        }),
    decreases seen.len(),
{
    reveal(RateSearch::stepped);
    if seen.len() > 0 {
        start.lemma_last(seen);
        lemma_climb_state(start, seen.drop_last());
    }
}

/// How much of a search is left, most significant part first: the climb is
/// still to be left, rates above the current one, bisection probes, failures
/// to be confirmed.
pub open spec fn remaining(s: RateSearch) -> (int, int, int) {
    (
        if s.phase is Climb {
            1
        } else {
            0
        },
        if s.phase is Climb {
            u64::MAX - s.current_rate
        } else {
            u32::MAX - s.bisect_steps
        },
        s.confirm_failures - s.failures_at_rate,
    )
}

/// A search that asks for another measurement has less left than before, so
/// no sequence of measurements keeps it going forever.
pub proof fn search_terminates(s: RateSearch, passed: bool, slo_latency_us: Double)
    requires
        s.wf(),
        s.can_advance(passed),
        s.advanced(passed, slo_latency_us).1 is Probe,
    ensures
        ({
            let a = remaining(s);
            let b = remaining(s.advanced(passed, slo_latency_us).0);
            &&& b.0 >= 0 && b.1 >= 0 && b.2 >= 0
            &&& b.0 < a.0 || (b.0 == a.0 && (b.1 < a.1 || (b.1 == a.1 && b.2 < a.2)))
        }),
{
}

/// A failure is acted on exactly when it comes after as many failures at the
/// rate as confirmations are asked for: one that comes sooner only counts.
pub proof fn failures_are_confirmed(s: RateSearch, slo_latency_us: Double)
    requires
        s.failures_at_rate < u32::MAX,
    ensures
        s.failures_at_rate < s.confirm_failures ==> s.advanced(false, slo_latency_us) == (
            RateSearch { failures_at_rate: (s.failures_at_rate + 1) as u32, ..s },
            SearchOutcome::Probe(s.current_rate),
        ),
        s.failures_at_rate >= s.confirm_failures ==> s.advanced(
            false,
            slo_latency_us,
        ).0.failures_at_rate == 0,
{
}

/// After a pass the climb goes on at the rate times the multiplier, cut to a
/// whole number, but at least one higher and at most the ceiling; after a pass
/// at the ceiling it is over, with that rate as the knee.
pub proof fn a_climb_multiplies_the_rate(s: RateSearch, slo_latency_us: Double)
    requires
        s.wf(),
        s.phase is Climb,
        s.can_advance(true),
    ensures
        ({
            let (t, outcome) = s.advanced(true, slo_latency_us);
            let next = Double::product(
                Double::of_nat(s.current_rate as nat),
                s.step_multiplier,
            ).truncated();
            let higher = if next > s.current_rate {
                next as int
            } else {
                s.current_rate + 1
            };
            &&& t.last_good == Some(s.current_rate)
            &&& t.phase is Climb
            &&& next < s.max_rate ==> outcome == SearchOutcome::Probe(higher as u64)
                && t.current_rate == higher
            &&& next >= s.max_rate && s.current_rate < s.max_rate ==> outcome
                == SearchOutcome::Probe(s.max_rate) && t.current_rate == s.max_rate
            &&& next >= s.max_rate && s.current_rate >= s.max_rate ==> outcome
                == (SearchOutcome::Done { knee: Some(s.current_rate) })
        }),
{
}

/// The first confirmed failure of a climb ends it: the limit lies between the
/// last rate that passed, or zero, and the one that failed, and their middle is
/// measured next.
pub proof fn a_failed_climb_is_bisected(s: RateSearch, slo_latency_us: Double)
    requires
        s.wf(),
        s.phase is Climb,
        s.failures_at_rate >= s.confirm_failures,
        !(s.advanced(false, slo_latency_us).1 is Done),
    ensures
        ({
            let (t, outcome) = s.advanced(false, slo_latency_us);
            &&& t.phase is Bisect
            &&& t.lo == match s.last_good {
                Some(g) => g,
                None => 0,
            }
            &&& t.hi == s.current_rate
            &&& t.last_good == s.last_good
            &&& outcome == SearchOutcome::Probe(t.current_rate)
        }),
{
}

/// A bisected interval is halved: the rate measured next is its middle, cut to a
/// whole number, whenever there is a rate strictly inside.
pub proof fn probes_halve_the_interval(s: RateSearch)
    requires
        s.hi >= s.lo + 2,
    ensures
        s.lo < s.middle() < s.hi,
        2 * s.middle() <= s.lo + s.hi < 2 * s.middle() + 2,
{
}

/// A pass raises the lower end of the interval to the rate and a confirmed
/// failure lowers the upper end to it. Bisection is over when the interval, as a
/// part of its upper end, is within the tolerance, when its probes are used up,
/// or when no rate is left inside; the knee is the lower end.
pub proof fn bisection_closes_in(s: RateSearch, passed: bool, slo_latency_us: Double)
    requires
        s.wf(),
        s.phase is Bisect,
        s.can_advance(passed),
        passed || s.failures_at_rate >= s.confirm_failures,
        s.bisect_steps < u32::MAX,
        !s.advanced(passed, slo_latency_us).0.floor_detected,
    ensures
        ({
            let (t, outcome) = s.advanced(passed, slo_latency_us);
            let lo = if passed {
                s.current_rate
            } else {
                s.lo
            };
            let hi = if passed {
                s.hi
            } else {
                s.current_rate
            };
            let part = if hi > 0 {
                Double::quotient(Double::of_nat((hi - lo) as nat), Double::of_nat(hi as nat))
            } else {
                Double::zero()
            };
            let over = part.le_spec(s.bisect_tolerance) || s.bisect_steps + 1 >= s.max_bisect_steps
                || hi - lo <= 1;
            &&& t.lo == lo && t.hi == hi
            &&& outcome is Done <==> over
            &&& outcome matches SearchOutcome::Done { knee } ==> (lo > 0 ==> knee == Some(lo))
            &&& t.last_good == if passed {
                Some(s.current_rate)
            } else {
                s.last_good
            }
        }),
{
}

/// A latency floor is detected exactly when nothing has passed yet, a failure is
/// confirmed at half the rate of an earlier confirmed one or less, and latency
/// has improved since by less than the fraction asked for.
pub proof fn a_floor_is_latency_that_does_not_improve(s: RateSearch, slo_latency_us: Double)
    requires
        s.failures_at_rate >= s.confirm_failures,
        s.failures_at_rate < u32::MAX,
        !s.floor_detected,
        2 * s.current_rate <= u64::MAX,
    ensures
        s.advanced(false, slo_latency_us).0.floor_detected <==> {
            let zero = Double::zero();
            &&& s.last_good is None
            &&& slo_latency_us.finite() && zero.lt_spec(slo_latency_us)
            &&& zero.lt_spec(s.floor_improvement_ratio)
            &&& s.last_confirmed_fail matches Some((rate, us)) && {
                &&& rate >= 2 * s.current_rate
                &&& zero.lt_spec(us)
                &&& Double::quotient(Double::difference(us, slo_latency_us), us).lt_spec(
                    s.floor_improvement_ratio,
                )
            }
        },
        s.advanced(false, slo_latency_us).0.floor_detected ==> s.advanced(false, slo_latency_us).1
            == (SearchOutcome::Done { knee: None }),
{
}

/// A search waits while requests of the old rate drain, and after that until its
/// sample window is full; a completed one waits for good.
pub proof fn steps_take_their_windows(s: SaturationSearchState, now: Duration)
    ensures
        s.completed ==> s.waits(now),
        !s.completed && s.baseline_at is None && s.step_start.nanos <= now.nanos ==> (s.waits(now)
            <==> now.nanos < s.step_start.nanos + s.config.drain_window.nanos),
        !s.completed && (s.baseline_at matches Some(t) && t.nanos <= now.nanos) ==> (s.waits(now)
            <==> now.nanos < s.baseline_at->0.nanos + s.config.sample_window.nanos),
{
}

/// What a recorded step says besides whether it passed: throughput rolled over when the
/// climb achieved less than the step before; the slip's onset is the first slip
/// of more than a millisecond, and the breach the first step that failed. The
/// latencies are those measured from sending, but for the perceived one.
pub proof fn steps_mark_the_first_of_their_kind(
    s: SaturationSearchState,
    now: Duration,
    m: StepMeasurement,
    step: SaturationStep,
)
    requires
        s.records(now, m, step),
    ensures
        step.target_rate == s.current_rate,
        step.throughput_rollover <==> s.search.phase is Climb && Double::zero().lt_spec(
            s.prev_achieved,
        ) && step.achieved_rate.lt_spec(s.prev_achieved),
        step.slip_onset <==> !s.slip_seen && Double::of_nat(1_000).lt_spec(m.slip_p99_us),
        step.slo_breach <==> !step.slo_passed && !s.breach_seen,
        step.p50_us == m.sent.p50_us && step.p99_us == m.sent.p99_us && step.p999_us
            == m.sent.p999_us,
        s.config.slo.p999 is Some || s.config.slo.p99 is None && s.config.slo.p50 is None ==> {
            &&& step.slo_percentile == Percentile::P999
            &&& step.slo_percentile_us == m.sent.p999_us
            &&& step.perceived_slo_us == m.perceived.p999_us
        },
        s.config.slo.p999 is None && s.config.slo.p99 is Some ==> {
            &&& step.slo_percentile == Percentile::P99
            &&& step.slo_percentile_us == m.sent.p99_us
            &&& step.perceived_slo_us == m.perceived.p99_us
        },
        s.config.slo.p999 is None && s.config.slo.p99 is None && s.config.slo.p50 is Some ==> {
            &&& step.slo_percentile == Percentile::P50
            &&& step.slo_percentile_us == m.sent.p50_us
            &&& step.perceived_slo_us == m.perceived.p50_us
        },
{
}

/// A step that failed says why: too little throughput comes first, in percent of
/// the target, and then the lowest percentile that exceeds its threshold.
pub proof fn reasons_name_the_first_fault(
    s: SaturationSearchState,
    now: Duration,
    m: StepMeasurement,
)
    requires
        !s.passes(now, m),
    ensures
        ({
            let slo = s.config.slo;
            let enough = s.config.min_throughput_ratio.le_spec(
                Double::quotient(
                    s.achieved(now, m),
                    Double::of_nat(s.current_rate as nat),
                ),
            );
            let over50 = slo.p50 is Some && threshold_us(slo.p50->0).lt_spec(m.perceived.p50_us);
            let over99 = slo.p99 is Some && threshold_us(slo.p99->0).lt_spec(m.perceived.p99_us);
            &&& !enough ==> s.reason(now, m).take(12) == "Throughput: "@
            &&& enough && over50 ==> s.reason(now, m) == breach_text(
                Percentile::P50,
                m.perceived.p50_us,
                slo.p50->0,
            )
            &&& enough && !over50 && over99 ==> s.reason(now, m) == breach_text(
                Percentile::P99,
                m.perceived.p99_us,
                slo.p99->0,
            )
            &&& enough && !over50 && !over99 ==> s.reason(now, m) == breach_text(
                Percentile::P999,
                m.perceived.p999_us,
                slo.p999->0,
            )
        }),
{
    reveal_strlit("Throughput: ");
    let enough = s.config.min_throughput_ratio.le_spec(
        Double::quotient(s.achieved(now, m), Double::of_nat(s.current_rate as nat)),
    );
    if !enough {
        assert(s.reason(now, m).take(12) =~= "Throughput: "@);
    }
}

/// A percentile breaks its threshold exactly when it has more nanoseconds: the
/// rounding of microseconds hides no difference up to about a thousand seconds.
pub proof fn a_threshold_is_broken_by_more_nanoseconds(ns: u64, threshold: Duration)
    requires
        ns < 0x100_0000_0000,
        threshold.nanos < 0x100_0000_0000,
    ensures
        exceeds(Some(threshold), bucket_us(Some(ns))) <==> ns > threshold.nanos,
{
    let a = ns as nat;
    let b = threshold.nanos as nat;
    if a <= b {
        lemma_micros_grow(a, b);
    } else {
        lemma_micros_grow_strictly(b, a);
    }
}

proof fn lemma_micros_grow(a: nat, b: nat)
    requires
        a <= b < 0x100_0000_0000,
    ensures
        Double::fraction(a, 1_000).le_spec(Double::fraction(b, 1_000)),
{
    let zero = Double::zero();
    let x = Double::of_nat(a);
    let y = Double::of_nat(b);
    let k = Double::of_nat(1_000);
    crate::rounding::an_integer_keeps_to_bounds(a, zero);
    crate::rounding::an_integer_keeps_to_bounds(b, zero);
    crate::rounding::an_integer_keeps_to_bounds(1_000, zero);
    crate::rounding::lemma_round_trip(k);
    assert(x.numer() * y.denom() <= y.numer() * x.denom()) by (nonlinear_arith)
        requires
            x.numer() == a * x.denom(),
            y.numer() == b * y.denom(),
            a <= b,
    ;
    crate::rounding::numbers_order_as_their_values(x, y);
    crate::rounding::a_quotient_is_monotone(x, y, k);
}

proof fn lemma_micros_grow_strictly(a: nat, b: nat)
    requires
        a < b < 0x100_0000_0000,
    ensures
        Double::fraction(a, 1_000).lt_spec(Double::fraction(b, 1_000)),
{
    let r = Double::fraction(a, 1_000);
    let s = Double::fraction(b, 1_000);
    let m = crate::double::TWO53 as int;
    lemma_micros_close(b);
    let y = s.numer() as int;
    let v = s.denom() as int;
    assert(y > 0) by (nonlinear_arith)
        requires
            (m - 1) * (b * v) <= m * (y * 1_000),
            b >= 1,
            v > 0,
            m == 0x20_0000_0000_0000,
    ;
    if a == 0 {
        let zero = Double::zero();
        let x = Double::of_nat(0);
        let k = Double::of_nat(1_000);
        crate::rounding::an_integer_keeps_to_bounds(0, zero);
        crate::rounding::an_integer_keeps_to_bounds(1_000, zero);
        crate::rounding::lemma_round_trip(k);
        crate::rounding::lemma_round_trip(zero);
        crate::rounding::lemma_round_trip(s);
        assert((x.numer() * k.denom()) * zero.denom() <= zero.numer() * (x.denom() * k.numer()))
            by (nonlinear_arith)
            requires
                x.numer() == 0 * x.denom(),
        ;
        crate::rounding::a_quotient_keeps_to_bounds(x, k, zero);
    } else {
        lemma_micros_close(a);
        let x = r.numer() as int;
        let u = r.denom() as int;
        assert((m + 1) * a < (m - 1) * b) by (nonlinear_arith)
            requires
                a + 1 <= b,
                a < 0x100_0000_0000,
                m == 0x20_0000_0000_0000,
        ;
        let uv = u * v;
        assert(uv > 0) by (nonlinear_arith)
            requires
                u > 0,
                v > 0,
                uv == u * v,
        ;
        assert(m * (x * 1_000) * v <= ((m + 1) * a) * uv) by (nonlinear_arith)
            requires
                m * (x * 1_000) <= (m + 1) * (a * u),
                v > 0,
                uv == u * v,
        ;
        assert(((m - 1) * b) * uv <= m * (y * 1_000) * u) by (nonlinear_arith)
            requires
                (m - 1) * (b * v) <= m * (y * 1_000),
                u > 0,
                uv == u * v,
        ;
        assert(((m + 1) * a) * uv < ((m - 1) * b) * uv) by (nonlinear_arith)
            requires
                (m + 1) * a < (m - 1) * b,
                uv > 0,
        ;
        assert(x * v < y * u) by (nonlinear_arith)
            requires
                m * (x * 1_000) * v < m * (y * 1_000) * u,
                m > 0,
        ;
        crate::rounding::numbers_order_as_their_values(r, s);
    }
}

/// Nanoseconds in microseconds are off by at most one part in `2^53`.
proof fn lemma_micros_close(a: nat)
    requires
        0 < a < 0x100_0000_0000,
    ensures
        ({
            let r = Double::fraction(a, 1_000);
            let m = crate::double::TWO53 as int;
            &&& r.finite() && !r.is_negative_spec() && r.denom() > 0
            &&& (m - 1) * (a * r.denom()) <= m * (r.numer() * 1_000)
            &&& m * (r.numer() * 1_000) <= (m + 1) * (a * r.denom())
        }),
{
    let zero = Double::zero();
    let x = Double::of_nat(a);
    let k = Double::of_nat(1_000);
    let r = Double::fraction(a, 1_000);
    let m = crate::double::TWO53 as int;
    crate::rounding::an_integer_keeps_to_bounds(a, zero);
    crate::rounding::an_integer_keeps_to_bounds(1_000, zero);
    crate::rounding::lemma_round_trip(x);
    crate::rounding::lemma_round_trip(k);
    let u = (x.denom() * k.denom()) as int;
    assert(u > 0) by (nonlinear_arith)
        requires
            u == x.denom() * k.denom(),
            x.denom() > 0,
            k.denom() > 0,
    ;
    assert(x.numer() * k.denom() == a * u && x.denom() * k.numer() == 1_000 * u)
        by (nonlinear_arith)
        requires
            x.numer() == a * x.denom(),
            k.numer() == 1_000 * k.denom(),
            u == x.denom() * k.denom(),
    ;
    assert((a * u) * 0x4000_0000 >= 1_000 * u && a * u <= 0x100_0000_0000 * (1_000 * u))
        by (nonlinear_arith)
        requires
            0 < a < 0x100_0000_0000,
            u > 0,
    ;
    crate::rounding::lemma_ordinary_quotient(x, k);
    crate::rounding::lemma_round_trip(r);
    let n = r.numer() as int;
    let d = r.denom() as int;
    let p = a * d;
    let q = n * 1_000;
    assert((a * u) * d == p * u) by (nonlinear_arith)
        requires
            p == a * d,
    ;
    assert(n * (1_000 * u) == q * u) by (nonlinear_arith)
        requires
            q == n * 1_000,
    ;
    assert((m - 1) * (p * u) <= m * (q * u) && m * (q * u) <= (m + 1) * (p * u));
    assert((m - 1) * p <= m * q && m * q <= (m + 1) * p) by (nonlinear_arith)
        requires
            (m - 1) * (p * u) <= m * (q * u),
            m * (q * u) <= (m + 1) * (p * u),
            u > 0,
    ;
}

/// Whole seconds and milliseconds are shown as such, and what is less than a
/// millisecond in whole microseconds.
pub proof fn whole_durations_are_shown_whole(n: nat)
    requires
        1 <= n <= 0xffff_ffff,
    ensures
        duration_text(Duration { nanos: (n * 1_000_000_000) as u128 }) == text::decimal(n) + "s"@,
        n < 1_000 ==> duration_text(Duration { nanos: (n * 1_000_000) as u128 }) == text::decimal(n)
            + "ms"@,
        n < 1_000 ==> duration_text(Duration { nanos: (n * 1_000) as u128 }) == text::decimal(n)
            + "us"@,
{
}

/// A search starts by climbing from the start rate with nothing known, under the
/// limits it is given.
pub proof fn a_search_starts_with_nothing_known(
    start_rate: u64,
    step_multiplier: Double,
    max_rate: u64,
    bisect_tolerance: Double,
    max_bisect_steps: u32,
    confirm_failures: u32,
    floor_improvement_ratio: Double,
)
    ensures
        ({
            let s = RateSearch::fresh(
                start_rate,
                step_multiplier,
                max_rate,
                bisect_tolerance,
                max_bisect_steps,
                confirm_failures,
                floor_improvement_ratio,
            );
            &&& s.phase is Climb && s.current_rate == start_rate
            &&& s.last_good is None && s.last_confirmed_fail is None && !s.floor_detected
            &&& s.failures_at_rate == 0 && s.bisect_steps == 0 && s.lo == 0 && s.hi == 0
            &&& s.step_multiplier == step_multiplier && s.max_rate == max_rate
            &&& s.bisect_tolerance == bisect_tolerance && s.max_bisect_steps == max_bisect_steps
            &&& s.confirm_failures == confirm_failures && s.floor_improvement_ratio
                == floor_improvement_ratio
        }),
{
}

/// The SLO shown is the highest percentile that has a threshold, and that
/// threshold; nothing when none has.
pub proof fn the_highest_threshold_is_shown(slo: SloThresholds)
    ensures
        slo.p999 matches Some(d) ==> slo.highest() == Some((Percentile::P999, d)),
        slo.p999 is None ==> (slo.p99 matches Some(d) ==> slo.highest() == Some(
            (Percentile::P99, d),
        )),
        slo.p999 is None && slo.p99 is None ==> (slo.p50 matches Some(d) ==> slo.highest() == Some(
            (Percentile::P50, d),
        )),
        slo.highest() is None <==> slo.p50 is None && slo.p99 is None && slo.p999 is None,
        slo.highest() matches Some((p, d)) ==> slo_text(slo) == p.name() + seq![
            ' ',
            '\u{2264}',
            ' ',
        ] + duration_text(d),
        slo.highest() is None ==> slo_text(slo).len() == 0,
{
}

/// A search can go on as long as its failures and its rate can be counted.
pub proof fn a_search_can_go_on(s: RateSearch, passed: bool)
    requires
        s.failures_at_rate < u32::MAX,
        s.current_rate < u64::MAX,
    ensures
        s.can_advance(passed),
{
}

} // verus!
