//! What a run reports.

pub mod format;

use crate::double::Double;
use crate::text;
use crate::time::Duration;
use vstd::prelude::*;

verus! {

/// How results are printed.
#[derive(Clone, Copy, Debug, PartialEq, Eq, Structural)]
pub enum OutputFormat {
    /// A table for people.
    Clean,
    /// One JSON value a line.
    Json,
    /// The table with diagnostics.
    Verbose,
    /// Nothing.
    Quiet,
}

impl OutputFormat {
    /// How the format is named in configuration files.
    pub open spec fn name(self) -> Seq<char> {
        match self {
            OutputFormat::Clean => "clean"@,
            OutputFormat::Json => "json"@,
            OutputFormat::Verbose => "verbose"@,
            OutputFormat::Quiet => "quiet"@,
        }
    }

    /// The format of the given name, where there is one.
    pub fn named(name: &str) -> (r: Option<OutputFormat>)
        ensures
            match r {
                Some(f) => f.name() == name@,
                None => forall|f: OutputFormat| #[trigger] f.name() != name@,
            },
    {
        let t = text::chars_of(name);
        if text::same(&t, "clean") {
            Some(OutputFormat::Clean)
        } else if text::same(&t, "json") {
            Some(OutputFormat::Json)
        } else if text::same(&t, "verbose") {
            Some(OutputFormat::Verbose)
        } else if text::same(&t, "quiet") {
            Some(OutputFormat::Quiet)
        } else {
            None
        }
    }
}

impl Default for OutputFormat {
    fn default() -> (r: Self)
        ensures
            r == OutputFormat::Clean,
    {
        OutputFormat::Clean
    }
}

/// When results are coloured.
#[derive(Clone, Copy, Debug, PartialEq, Eq, Structural)]
pub enum ColorMode {
    /// When they go to a terminal.
    Auto,
    Always,
    Never,
}

impl ColorMode {
    /// How the mode is named in configuration files.
    pub open spec fn name(self) -> Seq<char> {
        match self {
            ColorMode::Auto => "auto"@,
            ColorMode::Always => "always"@,
            ColorMode::Never => "never"@,
        }
    }

    /// The mode of the given name, where there is one.
    pub fn named(name: &str) -> (r: Option<ColorMode>)
        ensures
            match r {
                Some(m) => m.name() == name@,
                None => forall|m: ColorMode| #[trigger] m.name() != name@,
            },
    {
        let t = text::chars_of(name);
        if text::same(&t, "auto") {
            Some(ColorMode::Auto)
        } else if text::same(&t, "always") {
            Some(ColorMode::Always)
        } else if text::same(&t, "never") {
            Some(ColorMode::Never)
        } else {
            None
        }
    }

    /// Whether results are coloured, given whether they go to a terminal.
    pub fn colors(self, terminal: bool) -> (r: bool)
        ensures
            r == match self {
                ColorMode::Auto => terminal,
                ColorMode::Always => true,
                ColorMode::Never => false,
            },
    {
        match self {
            ColorMode::Auto => terminal,
            ColorMode::Always => true,
            ColorMode::Never => false,
        }
    }
}

impl Default for ColorMode {
    fn default() -> (r: Self)
        ensures
            r == ColorMode::Auto,
    {
        ColorMode::Auto
    }
}

/// A latency percentile that an SLO can bound.
#[derive(Clone, Copy, Debug, PartialEq, Eq, Structural)]
pub enum Percentile {
    P50,
    P99,
    P999,
}

impl Percentile {
    /// How the percentile is named in reports.
    pub open spec fn name(self) -> Seq<char> {
        match self {
            Percentile::P50 => "p50"@,
            Percentile::P99 => "p99"@,
            Percentile::P999 => "p999"@,
        }
    }

    /// How the percentile is named in reports.
    pub fn label(self) -> (r: &'static str)
        ensures
            r@ == self.name(),
    {
        match self {
            Percentile::P50 => "p50",
            Percentile::P99 => "p99",
            Percentile::P999 => "p999",
        }
    }
}

/// Result of one step of a saturation search.
#[derive(Clone, Debug)]
pub struct SaturationStep {
    /// The rate that was asked for.
    pub target_rate: u64,
    /// The rate that responses arrived at.
    pub achieved_rate: Double,
    /// Send-relative latency percentiles in microseconds.
    pub p50_us: Double,
    pub p99_us: Double,
    pub p999_us: Double,
    /// Whether the step met the SLO.
    pub slo_passed: bool,
    /// Why it did not; empty when it did.
    pub fail_reason: String,
    /// The configured SLO, for display.
    pub slo_display: String,
    /// The threshold of the displayed SLO in microseconds.
    pub slo_threshold_us: Option<Double>,
    /// The percentile that the displayed SLO bounds.
    pub slo_percentile: Percentile,
    /// Its send-relative value in microseconds.
    pub slo_percentile_us: Double,
    /// Its perceived (arrival-relative) value in microseconds.
    pub perceived_slo_us: Double,
    /// Achieved rate fell against the previous step of the climb.
    pub throughput_rollover: bool,
    /// Schedule slip first exceeded a millisecond at this step.
    pub slip_onset: bool,
    /// The first SLO breach occurred at this step.
    pub slo_breach: bool,
}

/// Result of a saturation search.
#[derive(Clone, Debug)]
pub struct SaturationResults {
    /// The highest rate found to meet the SLO.
    pub max_compliant_rate: Option<u64>,
    /// Every step taken.
    pub steps: Vec<SaturationStep>,
    /// Whether latency stopped responding to rate above the SLO.
    pub latency_floor: bool,
}

/// Latency percentiles in microseconds.
#[derive(Clone, Copy, Debug, PartialEq, Eq, Structural)]
pub struct LatencyStats {
    pub p50_us: Double,
    pub p90_us: Double,
    pub p99_us: Double,
    pub p999_us: Double,
    pub p9999_us: Double,
    pub max_us: Double,
}

/// What is reported every second of a run.
#[derive(Clone, Copy, Debug, PartialEq, Eq, Structural)]
pub struct Sample {
    pub req_per_sec: Double,
    pub err_per_sec: Double,
    pub hit_pct: Double,
    pub latency: LatencyStats,
}

/// What is reported every second of prefill.
#[derive(Clone, Copy, Debug, PartialEq, Eq, Structural)]
pub struct PrefillSample {
    pub elapsed: Duration,
    pub confirmed: usize,
    pub total: usize,
    pub set_per_sec: Double,
    pub err_per_sec: Double,
    pub conns_active: i64,
    pub reconnects: u64,
}

/// Why prefill did not complete.
#[derive(Clone, Copy, Debug, PartialEq, Eq, Structural)]
pub enum PrefillStallCause {
    /// No connection is active.
    NoConnections,
    /// Nothing was received.
    NoResponses,
    /// There was no progress.
    Stalled,
    /// There was progress, but too little of it.
    TooSlow { estimated_remaining_secs: Double },
    /// None of these.
    Unknown,
}

/// What is reported when prefill does not complete.
#[derive(Clone, Copy, Debug, PartialEq, Eq, Structural)]
pub struct PrefillDiagnostics {
    pub workers_complete: usize,
    pub workers_total: usize,
    pub keys_confirmed: usize,
    pub keys_total: usize,
    pub elapsed: Duration,
    pub conns_active: i64,
    pub conns_failed: u64,
    pub bytes_rx: u64,
    pub requests_sent: u64,
    pub likely_cause: PrefillStallCause,
}

/// The results of a run.
#[derive(Clone, Copy, Debug, PartialEq, Eq, Structural)]
pub struct Results {
    pub duration_secs: Double,
    pub requests: u64,
    pub responses: u64,
    pub errors: u64,
    pub hits: u64,
    pub misses: u64,
    pub bytes_tx: u64,
    pub bytes_rx: u64,
    pub get_count: u64,
    pub set_count: u64,
    pub get_latencies: LatencyStats,
    pub get_ttfb: LatencyStats,
    pub set_latencies: LatencyStats,
    pub backfill_set_count: u64,
    pub backfill_set_latencies: LatencyStats,
    pub conns_active: i64,
    pub conns_failed: u64,
    pub conns_total: u64,
    /// Requests shed by the rate limiter under overload.
    pub requests_dropped: u64,
    /// Schedule slip percentiles. Zero without a rate limit.
    pub schedule_slip: LatencyStats,
    /// Perceived, that is arrival-relative, response latency percentiles.
    pub perceived_latency: LatencyStats,
    /// Requests that timed out; they count as errors too.
    pub timeouts: u64,
    /// The append stream, which is apart from the workload's totals.
    pub append_set_count: u64,
    pub append_set_latencies: LatencyStats,
    pub append_batches: u64,
}

impl Results {
    /// Total requests offered: sent and dropped.
    pub fn offered(&self) -> (r: u64)
        requires
            self.requests + self.requests_dropped <= u64::MAX,
        ensures
            r == self.requests + self.requests_dropped,
    {
        self.requests + self.requests_dropped
    }

    /// Percentage of offered requests shed under overload.
    pub fn overload_pct(&self) -> (r: Double)
        requires
            self.requests + self.requests_dropped <= u64::MAX,
        ensures
            r == if self.requests + self.requests_dropped > 0 {
                Double::product(
                    Double::quotient(
                        Double::of_nat(self.requests_dropped as nat),
                        Double::of_nat((self.requests + self.requests_dropped) as nat),
                    ),
                    Double::of_nat(100),
                )
            } else {
                Double::zero()
            },
    {
        let offered: u64 = self.offered();
        if offered > 0 {
            Double::from_u64(self.requests_dropped).over(Double::from_u64(offered)).times(
                Double::from_u64(100),
            )
        } else {
            Double::from_bits(0)
        }
    }
}

} // verus!
