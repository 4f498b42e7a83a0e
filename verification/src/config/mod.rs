//! What a run is configured to do.

pub mod parse;

use crate::double::Double;
use crate::output::{ColorMode, OutputFormat};
use crate::runner::VALUE_POOL_SIZE;
use crate::text;
use crate::time::Duration;
use vstd::prelude::*;
use vstd::string::*;

verus! {

/// Everything a run is configured to do.
#[derive(Clone, Debug)]
pub struct Config {
    pub general: General,
    pub target: Target,
    pub connection: Connection,
    pub workload: Workload,
    pub timestamps: Timestamps,
    pub admin: Admin,
}

/// The run as a whole.
#[derive(Clone, Debug)]
pub struct General {
    /// How long the measured phase lasts.
    pub duration: Duration,
    /// How long the workload runs before it is measured.
    pub warmup: Duration,
    /// Worker threads.
    pub threads: usize,
    /// CPU list for pinning worker threads (Linux style: "0-3,8-11,13")
    pub cpu_list: Option<String>,
    /// Print the runtime's per-worker event-loop diagnostics at shutdown.
    pub ringline_diag: bool,
    /// Receive buffers per worker, a power of two; the runtime's default when
    /// unset.
    pub recv_ring_size: Option<u16>,
    /// Bytes per receive buffer; the runtime's default when unset.
    pub recv_buffer_size: Option<u32>,
}

impl General {
    /// The defaults, with a given number of worker threads.
    pub fn with_threads(threads: usize) -> (r: General)
        ensures
            r.duration.nanos == 60_000_000_000,
            r.warmup.nanos == 10_000_000_000,
            r.threads == threads,
            r.cpu_list is None,
            !r.ringline_diag,
            r.recv_ring_size is None,
            r.recv_buffer_size is None,
    {
        General {
            duration: default_duration(),
            warmup: default_warmup(),
            threads,
            cpu_list: None,
            ringline_diag: false,
            recv_ring_size: None,
            recv_buffer_size: None,
        }
    }
}

/// A minute.
pub fn default_duration() -> (r: Duration)
    ensures
        r.nanos == 60_000_000_000,
{
    Duration::from_secs(60)
}

/// Ten seconds.
pub fn default_warmup() -> (r: Duration)
    ensures
        r.nanos == 10_000_000_000,
{
    Duration::from_secs(10)
}

/// One worker thread per available CPU, one when that is unknown.
pub fn default_threads(available: Option<usize>) -> (r: usize)
    ensures
        r == match available {
            Some(n) => n,
            None => 1,
        },
{
    match available {
        Some(n) => n,
        None => 1,
    }
}

/// Certificates are verified.
pub fn default_tls_verify() -> (r: bool)
    ensures
        r,
{
    true
}

/// The servers under test.
#[derive(Clone, Debug)]
pub struct Target {
    /// Socket addresses, as they are displayed.
    pub endpoints: Vec<String>,
    pub protocol: Protocol,
    pub tls: bool,
    /// Explicit server name for TLS connections. When not set, the endpoint
    /// IP address is used.
    pub tls_hostname: Option<String>,
    /// Whether to verify the server's TLS certificate.
    pub tls_verify: bool,
    /// PEM file of CA certificates used to verify the server instead of the
    /// public roots.
    pub tls_ca_file: Option<String>,
    /// PEM client certificate chain, presented for mutual TLS. Must be set
    /// together with `tls_key_file`.
    pub tls_cert_file: Option<String>,
    /// PEM private key matching `tls_cert_file`.
    pub tls_key_file: Option<String>,
    /// Discover the cluster topology and route by hash slot instead of
    /// consistent hashing.
    pub cluster: bool,
}

/// What the servers speak.
#[derive(Clone, Copy, Debug, PartialEq, Eq, Structural)]
pub enum Protocol {
    Resp,
    /// RESP3 protocol (Valkey / Redis 6+)
    Resp3,
    /// Memcache ASCII text protocol
    Memcache,
    /// Memcache binary protocol
    MemcacheBinary,
    /// Simple ASCII PING/PONG protocol
    Ping,
}

impl Default for Protocol {
    fn default() -> (r: Self)
        ensures
            r == Protocol::Resp,
    {
        Protocol::Resp
    }
}

/// The connections to the servers.
#[derive(Clone, Debug)]
pub struct Connection {
    /// Total number of connections (distributed across threads).
    pub connections: usize,
    /// Legacy alias for connections (deprecated, use 'connections' instead)
    pub pool_size: Option<usize>,
    /// Requests in flight per connection.
    pub pipeline_depth: usize,
    /// Maximum number of requests to coalesce into a single send. When unset,
    /// `pipeline_depth`. Clamped to `[1, pipeline_depth]` at use.
    pub batch_size: Option<usize>,
    /// Bound on one connection attempt; zero disables it.
    pub connect_timeout: Duration,
    /// Bound on one request; zero disables it.
    pub request_timeout: Duration,
    /// How to distribute requests across connections.
    pub request_distribution: RequestDistribution,
}

/// How requests are distributed across connections.
#[derive(Clone, Copy, Debug, PartialEq, Eq, Structural)]
pub enum RequestDistribution {
    /// Round-robin: send one request to each connection in turn (default).
    RoundRobin,
    /// Greedy: fill the first connection's pipeline before moving to the next.
    Greedy,
}

impl Default for RequestDistribution {
    fn default() -> (r: Self)
        ensures
            r == RequestDistribution::RoundRobin,
    {
        RequestDistribution::RoundRobin
    }
}

impl Connection {
    /// The effective number of connections.
    pub open spec fn total(self) -> usize {
        match self.pool_size {
            Some(n) => n,
            None => self.connections,
        }
    }

    /// Get the effective number of connections, preferring legacy 'pool_size' over 'connections' when set.
    pub fn total_connections(&self) -> (r: usize)
        ensures
            r == self.total(),
    {
        self.pool_size.unwrap_or(self.connections)
    }

    /// The effective coalescing threshold.
    pub open spec fn batch(self) -> usize {
        let top = if self.pipeline_depth < 1 {
            1usize
        } else {
            self.pipeline_depth
        };
        let asked = match self.batch_size {
            Some(n) => n,
            None => self.pipeline_depth,
        };
        if asked < 1 {
            1
        } else if asked > top {
            top
        } else {
            asked
        }
    }

    /// Effective coalesce threshold. Defaults to `pipeline_depth` when
    /// `batch_size` is unset, and is clamped to `[1, pipeline_depth]`.
    pub fn effective_batch_size(&self) -> (r: usize)
        ensures
            r == self.batch(),
            1 <= r,
            self.pipeline_depth >= 1 ==> r <= self.pipeline_depth,
    {
        let top: usize = if self.pipeline_depth < 1 {
            1
        } else {
            self.pipeline_depth
        };
        let asked: usize = self.batch_size.unwrap_or(self.pipeline_depth);
        if asked < 1 {
            1
        } else if asked > top {
            top
        } else {
            asked
        }
    }
}

impl Default for Connection {
    fn default() -> (r: Self)
        ensures
            r.connections == 1,
            r.pool_size is None,
            r.pipeline_depth == 1,
            r.batch_size is None,
            r.connect_timeout.nanos == 5_000_000_000,
            r.request_timeout.nanos == 1_000_000_000,
            r.request_distribution == RequestDistribution::RoundRobin,
    {
        Connection {
            connections: default_connections(),
            pool_size: None,
            pipeline_depth: default_pipeline_depth(),
            batch_size: None,
            connect_timeout: default_connect_timeout(),
            request_timeout: default_request_timeout(),
            request_distribution: RequestDistribution::RoundRobin,
        }
    }
}

/// One connection.
pub fn default_connections() -> (r: usize)
    ensures
        r == 1,
{
    1
}

/// One request in flight.
pub fn default_pipeline_depth() -> (r: usize)
    ensures
        r == 1,
{
    1
}

/// Five seconds.
pub fn default_connect_timeout() -> (r: Duration)
    ensures
        r.nanos == 5_000_000_000,
{
    Duration::from_secs(5)
}

/// One second.
pub fn default_request_timeout() -> (r: Duration)
    ensures
        r.nanos == 1_000_000_000,
{
    Duration::from_secs(1)
}

/// What is asked of the servers.
#[derive(Clone, Debug)]
pub struct Workload {
    /// Requests per second over all workers; unlimited when unset or zero.
    pub rate_limit: Option<u64>,
    /// Prefill the cache with all keys before starting the benchmark.
    pub prefill: bool,
    /// Maximum time to wait for prefill to complete before aborting; zero
    /// disables the timeout.
    pub prefill_timeout: Duration,
    /// Added to the warmup when prefill ran, so that the server's deferred
    /// writes are over before the measurement.
    pub prefill_settle: Duration,
    /// On GET miss, automatically SET the key to backfill the cache.
    pub backfill_on_miss: bool,
    pub keyspace: Keyspace,
    pub commands: Commands,
    pub values: Values,
    /// Batches of new keys written during the run.
    pub append: Option<Append>,
    pub saturation_search: Option<SaturationSearch>,
}

impl Default for Workload {
    fn default() -> (r: Self)
        ensures
            r.rate_limit is None,
            !r.prefill,
            r.prefill_timeout.nanos == 300_000_000_000,
            r.prefill_settle.nanos == 60_000_000_000,
            !r.backfill_on_miss,
            r.keyspace.is_default(),
            r.commands.is_default(),
            r.values.length == 64,
            r.append is None,
            r.saturation_search is None,
    {
        Workload {
            rate_limit: None,
            prefill: false,
            prefill_timeout: default_prefill_timeout(),
            prefill_settle: default_prefill_settle(),
            backfill_on_miss: false,
            keyspace: Keyspace::default(),
            commands: Commands::default(),
            values: Values::default(),
            append: None,
            saturation_search: None,
        }
    }
}

/// A stream of batches of new keys.
#[derive(Clone, Copy, Debug, PartialEq, Eq, Structural)]
pub struct Append {
    /// Keys per batch.
    pub batch: usize,
    /// How often a batch opens, from the start of warmup.
    pub every: Duration,
    /// How a batch is written.
    pub pace: Pace,
    /// Writer connections, apart from those of the workload.
    pub connections: usize,
    /// Requests in flight per writer connection.
    pub pipeline_depth: usize,
}

/// How an append batch is written.
#[derive(Clone, Copy, Debug, PartialEq, Eq, Structural)]
pub enum Pace {
    /// As fast as the writers allow.
    Burst,
    /// Evenly across the interval.
    Spread,
}

impl Default for Pace {
    fn default() -> (r: Self)
        ensures
            r == Pace::Burst,
    {
        Pace::Burst
    }
}

/// SLO thresholds for latency percentiles.
///
/// At least one threshold must be specified. All specified thresholds
/// must be met for the SLO to pass.
#[derive(Clone, Copy, Debug, PartialEq, Eq, Structural)]
pub struct SloThresholds {
    /// Maximum acceptable p50 latency.
    pub p50: Option<Duration>,
    /// Maximum acceptable p99 latency.
    pub p99: Option<Duration>,
    /// Maximum acceptable p99.9 latency.
    pub p999: Option<Duration>,
}

/// Configuration for saturation search mode.
///
/// The search starts at `start_rate` and increases the rate by
/// `step_multiplier` while the SLO holds, then bisects between the last
/// compliant rate and the first failing one.
#[derive(Clone, Copy, Debug, PartialEq, Eq, Structural)]
pub struct SaturationSearch {
    /// SLO thresholds that must be met.
    pub slo: SloThresholds,
    /// Starting request rate (requests per second).
    pub start_rate: u64,
    /// Multiplier for each rate step (e.g., 1.05 = 5% increase).
    pub step_multiplier: Double,
    /// Duration to sample at each rate level.
    pub sample_window: Duration,
    /// Duration to wait after a rate change before sampling begins, so that
    /// responses to requests of the previous rate are not sampled.
    pub drain_window: Duration,
    /// Deprecated and ignored: bisection decides when the search ends.
    pub stop_after_failures: u32,
    /// Maximum rate to try (absolute ceiling).
    pub max_rate: u64,
    /// Minimum ratio of achieved/target throughput (0.0-1.0). A step below it
    /// fails whatever its latency.
    pub min_throughput_ratio: Double,
    /// Extra consecutive measurements required to confirm an SLO failure
    /// before the search acts on it.
    pub confirm_failures: u32,
    /// Relative interval width at which bisection stops (0.0-1.0).
    pub bisect_tolerance: Double,
    /// Hard cap on the number of bisection probes.
    pub max_bisect_steps: u32,
    /// Minimum fractional latency improvement expected from halving the rate
    /// while no rate has passed; zero disables the test.
    pub floor_improvement_ratio: Double,
}

impl SaturationSearch {
    /// The defaults, with given thresholds.
    pub fn with_slo(slo: SloThresholds) -> (r: SaturationSearch)
        ensures
            r.slo == slo,
            r.start_rate == 1_000,
            r.step_multiplier == Double::fraction(105, 100),
            r.sample_window.nanos == 5_000_000_000,
            r.drain_window.nanos == 500_000_000,
            r.stop_after_failures == 3,
            r.max_rate == 100_000_000,
            r.min_throughput_ratio == Double::fraction(9, 10),
            r.confirm_failures == 1,
            r.bisect_tolerance == Double::fraction(5, 100),
            r.max_bisect_steps == 8,
            r.floor_improvement_ratio == Double::fraction(1, 10),
    {
        SaturationSearch {
            slo,
            start_rate: default_start_rate(),
            step_multiplier: default_step_multiplier(),
            sample_window: default_sample_window(),
            drain_window: default_drain_window(),
            stop_after_failures: default_stop_after_failures(),
            max_rate: default_max_rate(),
            min_throughput_ratio: default_min_throughput_ratio(),
            confirm_failures: default_confirm_failures(),
            bisect_tolerance: default_bisect_tolerance(),
            max_bisect_steps: default_max_bisect_steps(),
            floor_improvement_ratio: default_floor_improvement_ratio(),
        }
    }
}

/// A thousand requests per second.
pub fn default_start_rate() -> (r: u64)
    ensures
        r == 1_000,
{
    1_000
}

/// Five percent per step.
pub fn default_step_multiplier() -> (r: Double)
    ensures
        r == Double::fraction(105, 100),
{
    Double::ratio(105, 100)
}

/// Five seconds.
pub fn default_sample_window() -> (r: Duration)
    ensures
        r.nanos == 5_000_000_000,
{
    Duration::from_secs(5)
}

/// Half a second.
pub fn default_drain_window() -> (r: Duration)
    ensures
        r.nanos == 500_000_000,
{
    Duration::from_millis(500)
}

/// Three; the option is ignored.
pub fn default_stop_after_failures() -> (r: u32)
    ensures
        r == 3,
{
    3
}

/// A hundred million requests per second.
pub fn default_max_rate() -> (r: u64)
    ensures
        r == 100_000_000,
{
    100_000_000
}

/// Nine tenths.
pub fn default_min_throughput_ratio() -> (r: Double)
    ensures
        r == Double::fraction(9, 10),
{
    Double::ratio(9, 10)
}

/// A rate must fail twice in a row.
pub fn default_confirm_failures() -> (r: u32)
    ensures
        r == 1,
{
    1
}

/// Five percent.
pub fn default_bisect_tolerance() -> (r: Double)
    ensures
        r == Double::fraction(5, 100),
{
    Double::ratio(5, 100)
}

/// Eight probes.
pub fn default_max_bisect_steps() -> (r: u32)
    ensures
        r == 8,
{
    8
}

/// Ten percent.
pub fn default_floor_improvement_ratio() -> (r: Double)
    ensures
        r == Double::fraction(1, 10),
{
    Double::ratio(1, 10)
}

/// Five minutes.
pub fn default_prefill_timeout() -> (r: Duration)
    ensures
        r.nanos == 300_000_000_000,
{
    Duration::from_secs(300)
}

/// A minute: twice the time after which dirty pages expire.
pub fn default_prefill_settle() -> (r: Duration)
    ensures
        r.nanos == 60_000_000_000,
{
    Duration::from_secs(60)
}

/// The keys that requests name.
#[derive(Clone, Copy, Debug, PartialEq, Eq, Structural)]
pub struct Keyspace {
    /// Bytes per key.
    pub length: usize,
    /// Number of keys.
    pub count: usize,
    /// How keys are drawn.
    pub distribution: Distribution,
    /// Skew exponent for `distribution = "zipf"`; larger is more skewed.
    pub zipf_theta: Double,
    /// How key ids are rendered into key bytes (`hex` default, or `uuid`).
    pub format: KeyFormat,
    /// For `distribution = "recency"`: how many of the newest batches are hot.
    pub hot_generations: usize,
    /// For `distribution = "recency"`: the weight of a batch relative to the
    /// next newer one.
    pub hot_decay: Double,
    /// For `distribution = "recency"`: the fraction of reads that go to hot
    /// batches.
    pub hot_fraction: Double,
}

impl Keyspace {
    /// Whether every field has its default value.
    pub open spec fn is_default(self) -> bool {
        &&& self.length == 16
        &&& self.count == 1_000_000
        &&& self.distribution == Distribution::Uniform
        &&& self.zipf_theta == Double::fraction(99, 100)
        &&& self.format == KeyFormat::Hex
        &&& self.hot_generations == 8
        &&& self.hot_decay == Double::fraction(5, 10)
        &&& self.hot_fraction == Double::fraction(8, 10)
    }
}

impl Default for Keyspace {
    fn default() -> (r: Self)
        ensures
            r.is_default(),
    {
        Keyspace {
            length: default_key_length(),
            count: default_key_count(),
            distribution: Distribution::Uniform,
            zipf_theta: default_zipf_theta(),
            format: KeyFormat::Hex,
            hot_generations: 8,
            hot_decay: Double::ratio(5, 10),
            hot_fraction: Double::ratio(8, 10),
        }
    }
}

/// Sixteen bytes.
pub fn default_key_length() -> (r: usize)
    ensures
        r == 16,
{
    16
}

/// A million keys.
pub fn default_key_count() -> (r: usize)
    ensures
        r == 1_000_000,
{
    1_000_000
}

/// The exponent that published cache benchmarks quote.
pub fn default_zipf_theta() -> (r: Double)
    ensures
        r == Double::fraction(99, 100),
{
    Double::ratio(99, 100)
}

/// How keys are drawn.
#[derive(Clone, Copy, Debug, PartialEq, Eq, Structural)]
pub enum Distribution {
    /// Every key equally likely.
    Uniform,
    /// Low ids are hot, by a power law.
    Zipf,
    /// The newest append batches are hot.
    Recency,
}

impl Default for Distribution {
    fn default() -> (r: Self)
        ensures
            r == Distribution::Uniform,
    {
        Distribution::Uniform
    }
}

/// How a key id is rendered into the on-wire key bytes.
#[derive(Clone, Copy, Debug, PartialEq, Eq, Structural)]
pub enum KeyFormat {
    /// Right-aligned lowercase hex of the id, zero-padded to `length` (default).
    Hex,
    /// Canonical 8-4-4-4-12 dashed UUID derived from the id. Requires
    /// `length = 36`.
    Uuid,
}

impl Default for KeyFormat {
    fn default() -> (r: Self)
        ensures
            r == KeyFormat::Hex,
    {
        KeyFormat::Hex
    }
}

impl KeyFormat {
    /// The number that stands for a format.
    pub open spec fn code(self) -> u8 {
        match self {
            KeyFormat::Hex => 0,
            KeyFormat::Uuid => 1,
        }
    }

    /// The number that stands for this format.
    pub fn to_u8(self) -> (r: u8)
        ensures
            r == self.code(),
    {
        match self {
            KeyFormat::Hex => 0,
            KeyFormat::Uuid => 1,
        }
    }

    /// The format that a number stands for; `Hex` for a number that stands for
    /// none.
    pub fn from_u8(v: u8) -> (r: Self)
        ensures
            r == if v == 1 {
                KeyFormat::Uuid
            } else {
                KeyFormat::Hex
            },
            forall|f: KeyFormat| v == #[trigger] f.code() ==> r == f,
    {
        match v {
            1 => KeyFormat::Uuid,
            _ => KeyFormat::Hex,
        }
    }
}

/// The mix of commands, in percent.
#[derive(Clone, Copy, Debug, PartialEq, Eq, Structural)]
pub struct Commands {
    pub get: u8,
    pub set: u8,
    pub delete: u8,
}

impl Commands {
    /// Whether every field has its default value.
    pub open spec fn is_default(self) -> bool {
        self.get == 80 && self.set == 20 && self.delete == 0
    }
}

impl Default for Commands {
    fn default() -> (r: Self)
        ensures
            r.is_default(),
    {
        Commands {
            get: default_get_ratio(),
            set: default_set_ratio(),
            delete: default_delete_ratio(),
        }
    }
}

/// Eighty percent.
pub fn default_get_ratio() -> (r: u8)
    ensures
        r == 80,
{
    80
}

/// Twenty percent.
pub fn default_set_ratio() -> (r: u8)
    ensures
        r == 20,
{
    20
}

/// None.
pub fn default_delete_ratio() -> (r: u8)
    ensures
        r == 0,
{
    0
}

/// The values that are written.
#[derive(Clone, Copy, Debug, PartialEq, Eq, Structural)]
pub struct Values {
    /// Bytes per value.
    pub length: usize,
}

impl Default for Values {
    fn default() -> (r: Self)
        ensures
            r.length == 64,
    {
        Values { length: default_value_length() }
    }
}

/// Sixty-four bytes.
pub fn default_value_length() -> (r: usize)
    ensures
        r == 64,
{
    64
}

/// How the moments of a request are taken.
#[derive(Clone, Copy, Debug, PartialEq, Eq, Structural)]
pub struct Timestamps {
    pub enabled: bool,
    pub mode: TimestampMode,
}

impl Default for Timestamps {
    fn default() -> (r: Self)
        ensures
            r.enabled,
            r.mode == TimestampMode::Userspace,
    {
        Timestamps { enabled: default_timestamps_enabled(), mode: TimestampMode::Userspace }
    }
}

/// Timestamps are taken.
pub fn default_timestamps_enabled() -> (r: bool)
    ensures
        r,
{
    true
}

/// Who takes the moments of a request.
#[derive(Clone, Copy, Debug, PartialEq, Eq, Structural)]
pub enum TimestampMode {
    /// This program.
    Userspace,
    /// The kernel.
    Software,
}

impl Default for TimestampMode {
    fn default() -> (r: Self)
        ensures
            r == TimestampMode::Userspace,
    {
        TimestampMode::Userspace
    }
}

/// Admin/metrics configuration.
#[derive(Clone, Debug)]
pub struct Admin {
    /// Listen address for Prometheus metrics endpoint.
    pub listen: Option<String>,
    /// Path to write Parquet output file.
    pub parquet: Option<String>,
    /// Interval for Parquet snapshots.
    pub parquet_interval: Duration,
    /// How results are printed.
    pub format: OutputFormat,
    /// When results are coloured.
    pub color: ColorMode,
}

impl Default for Admin {
    fn default() -> (r: Self)
        ensures
            r.listen is None,
            r.parquet is None,
            r.parquet_interval.nanos == 1_000_000_000,
            r.format == OutputFormat::Clean,
            r.color == ColorMode::Auto,
    {
        Admin {
            listen: None,
            parquet: None,
            parquet_interval: default_parquet_interval(),
            format: OutputFormat::Clean,
            color: ColorMode::Auto,
        }
    }
}

/// One second.
pub fn default_parquet_interval() -> (r: Duration)
    ensures
        r.nanos == 1_000_000_000,
{
    Duration::from_secs(1)
}

/// Why a configuration was not accepted.
#[derive(Clone, Debug)]
pub enum ConfigError {
    /// The file could not be read.
    Io(String),
    /// The file is not a configuration.
    Parse(String),
    /// The configuration does not make sense.
    Validation(String),
}

impl ConfigError {
    /// The error in words.
    pub open spec fn words(self) -> Seq<char> {
        match self {
            ConfigError::Io(e) => "failed to read config: "@ + e@,
            ConfigError::Parse(e) => "failed to parse config: "@ + e@,
            ConfigError::Validation(e) => "invalid config: "@ + e@,
        }
    }

    /// The error in words.
    pub fn message(&self) -> (r: String)
        ensures
            r@ == self.words(),
    {
        match self {
            ConfigError::Io(e) => {
                let mut r = String::from_str("failed to read config: ");
                r.append(e.as_str());
                r
            },
            ConfigError::Parse(e) => {
                let mut r = String::from_str("failed to parse config: ");
                r.append(e.as_str());
                r
            },
            ConfigError::Validation(e) => {
                let mut r = String::from_str("invalid config: ");
                r.append(e.as_str());
                r
            },
        }
    }
}

/// The number one.
pub open spec fn one() -> Double {
    Double::of_nat(1)
}

impl SaturationSearch {
    /// The first rule that the search breaks.
    pub open spec fn violation(self) -> Option<Seq<char>> {
        if self.start_rate == 0 {
            Some("saturation_search.start_rate must be > 0"@)
        } else if self.step_multiplier.le_spec(one()) {
            Some("saturation_search.step_multiplier must be > 1.0"@)
        } else if !(Double::zero().le_spec(self.min_throughput_ratio) && self.min_throughput_ratio.le_spec(
            one(),
        )) {
            Some("saturation_search.min_throughput_ratio must be between 0.0 and 1.0"@)
        } else if self.slo.p50 is None && self.slo.p99 is None && self.slo.p999 is None {
            Some("saturation_search.slo must have at least one threshold (p50, p99, or p999)"@)
        } else {
            None
        }
    }

    fn check(&self) -> (r: Option<String>)
        ensures
            match r {
                Some(e) => self.violation() == Some(e@),
                None => self.violation() is None,
            },
    {
        let one = Double::from_u64(1);
        if self.start_rate == 0 {
            Some(String::from_str("saturation_search.start_rate must be > 0"))
        } else if self.step_multiplier.le(one) {
            Some(String::from_str("saturation_search.step_multiplier must be > 1.0"))
        } else if !(Double::from_bits(0).le(self.min_throughput_ratio)
            && self.min_throughput_ratio.le(one)) {
            Some(
                String::from_str(
                    "saturation_search.min_throughput_ratio must be between 0.0 and 1.0",
                ),
            )
        } else if self.slo.p50.is_none() && self.slo.p99.is_none() && self.slo.p999.is_none() {
            Some(
                String::from_str(
                    "saturation_search.slo must have at least one threshold (p50, p99, or p999)",
                ),
            )
        } else {
            None
        }
    }
}

impl Target {
    /// The first rule that the TLS options break.
    pub open spec fn tls_violation(self) -> Option<Seq<char>> {
        if self.tls_cert_file is Some && self.tls_key_file is None {
            Some("tls_cert_file requires tls_key_file (the client key for mutual TLS)"@)
        } else if self.tls_cert_file is None && self.tls_key_file is Some {
            Some("tls_key_file requires tls_cert_file (the client certificate chain)"@)
        } else if !self.tls && (self.tls_ca_file is Some || self.tls_cert_file is Some
            || self.tls_key_file is Some) {
            Some("tls_ca_file / tls_cert_file / tls_key_file require tls = true"@)
        } else {
            None
        }
    }

    fn check_tls(&self) -> (r: Option<String>)
        ensures
            match r {
                Some(e) => self.tls_violation() == Some(e@),
                None => self.tls_violation() is None,
            },
    {
        if self.tls_cert_file.is_some() && self.tls_key_file.is_none() {
            Some(
                String::from_str(
                    "tls_cert_file requires tls_key_file (the client key for mutual TLS)",
                ),
            )
        } else if self.tls_cert_file.is_none() && self.tls_key_file.is_some() {
            Some(
                String::from_str(
                    "tls_key_file requires tls_cert_file (the client certificate chain)",
                ),
            )
        } else if !self.tls && (self.tls_ca_file.is_some() || self.tls_cert_file.is_some()
            || self.tls_key_file.is_some()) {
            Some(
                String::from_str("tls_ca_file / tls_cert_file / tls_key_file require tls = true"),
            )
        } else {
            None
        }
    }
}

impl Config {
    /// The first rule that the keyspace and the append stream break. The skew
    /// is quoted as `theta`.
    pub open spec fn keyspace_violation(self, theta: Seq<char>) -> Option<Seq<char>> {
        let ks = self.workload.keyspace;
        if ks.format == KeyFormat::Uuid && ks.length != 36 {
            Some("keyspace.format = uuid requires keyspace.length = 36"@)
        } else if ks.distribution == Distribution::Zipf && (!ks.zipf_theta.finite()
            || ks.zipf_theta.le_spec(Double::zero())) {
            Some("keyspace.zipf_theta must be finite and > 0 (got "@ + theta + ")"@)
        } else if ks.distribution == Distribution::Recency && self.workload.append is None {
            Some("keyspace.distribution = recency requires [workload.append]"@)
        } else if self.workload.append is Some && self.target.protocol == Protocol::Ping {
            Some("workload.append requires a protocol that can write (got ping)"@)
        } else {
            None
        }
    }

    fn check_keyspace(&self, theta: &str) -> (r: Option<String>)
        ensures
            match r {
                Some(e) => self.keyspace_violation(theta@) == Some(e@),
                None => self.keyspace_violation(theta@) is None,
            },
    {
        let ks = &self.workload.keyspace;
        if ks.format == KeyFormat::Uuid && ks.length != 36 {
            Some(String::from_str("keyspace.format = uuid requires keyspace.length = 36"))
        } else if ks.distribution == Distribution::Zipf && (!ks.zipf_theta.is_finite()
            || ks.zipf_theta.le(Double::from_bits(0))) {
            let mut e = String::from_str("keyspace.zipf_theta must be finite and > 0 (got ");
            e.append(theta);
            e.append(")");
            Some(e)
        } else if ks.distribution == Distribution::Recency && self.workload.append.is_none() {
            Some(String::from_str("keyspace.distribution = recency requires [workload.append]"))
        } else if self.workload.append.is_some() && self.target.protocol == Protocol::Ping {
            Some(String::from_str("workload.append requires a protocol that can write (got ping)"))
        } else {
            None
        }
    }

    /// The first rule that the configuration breaks. `theta` is the skew as a
    /// message quotes it, `linux` whether the kernel is one that can take
    /// timestamps.
    pub open spec fn violation(self, theta: Seq<char>, linux: bool) -> Option<Seq<char>> {
        let cmds = self.workload.commands;
        if self.target.endpoints@.len() == 0 {
            Some("endpoints must be specified"@)
        } else if self.general.threads == 0 {
            Some("threads must be >= 1"@)
        } else if self.target.tls_violation() is Some {
            self.target.tls_violation()
        } else if self.connection.total() == 0 {
            Some("connections must be >= 1"@)
        } else if self.workload.values.length == 0 {
            Some("workload.values.length must be >= 1"@)
        } else if self.keyspace_violation(theta) is Some {
            self.keyspace_violation(theta)
        } else if self.workload.values.length > VALUE_POOL_SIZE {
            Some(
                "workload.values.length ("@ + text::decimal(self.workload.values.length as nat)
                    + ") exceeds the value pool size ("@ + text::decimal(VALUE_POOL_SIZE as nat)
                    + ")"@,
            )
        } else if !linux && self.timestamps.mode == TimestampMode::Software {
            Some(
                "timestamps.mode = \"software\" (kernel SO_TIMESTAMPING) is only supported on Linux"@,
            )
        } else if cmds.get == 0 && cmds.set == 0 && cmds.delete == 0 {
            Some("at least one command ratio (get, set, delete) must be > 0"@)
        } else {
            match self.workload.saturation_search {
                Some(sat) => sat.violation(),
                None => None,
            }
        }
    }

    fn first_problem(&self, theta: &str, linux: bool) -> (r: Option<String>)
        ensures
            match r {
                Some(e) => self.violation(theta@, linux) == Some(e@),
                None => self.violation(theta@, linux) is None,
            },
    {
        if self.target.endpoints.len() == 0 {
            return Some(String::from_str("endpoints must be specified"));
        }
        if self.general.threads == 0 {
            return Some(String::from_str("threads must be >= 1"));
        }
        if let Some(e) = self.target.check_tls() {
            return Some(e);
        }
        if self.connection.total_connections() == 0 {
            return Some(String::from_str("connections must be >= 1"));
        }
        if self.workload.values.length == 0 {
            return Some(String::from_str("workload.values.length must be >= 1"));
        }
        if let Some(e) = self.check_keyspace(theta) {
            return Some(e);
        }
        if self.workload.values.length > VALUE_POOL_SIZE {
            let mut e = String::from_str("workload.values.length (");
            text::push_decimal(&mut e, self.workload.values.length as u128);
            e.append(") exceeds the value pool size (");
            text::push_decimal(&mut e, VALUE_POOL_SIZE as u128);
            e.append(")");
            return Some(e);
        }
        if !linux && self.timestamps.mode == TimestampMode::Software {
            return Some(
                String::from_str(
                    "timestamps.mode = \"software\" (kernel SO_TIMESTAMPING) is only supported on Linux",
                ),
            );
        }
        let cmds = &self.workload.commands;
        if cmds.get == 0 && cmds.set == 0 && cmds.delete == 0 {
            return Some(
                String::from_str("at least one command ratio (get, set, delete) must be > 0"),
            );
        }
        match &self.workload.saturation_search {
            Some(sat) => sat.check(),
            None => None,
        }
    }

    /// Validate config invariants that the file format cannot express: the
    /// first rule that is broken comes back as the error. `theta` is the skew
    /// as a message quotes it, `linux` whether the kernel is one that can take
    /// timestamps.
    pub fn validate(&self, theta: &str, linux: bool) -> (r: Result<(), ConfigError>)
        ensures
            match r {
                Ok(()) => self.violation(theta@, linux) is None,
                Err(ConfigError::Validation(e)) => self.violation(theta@, linux) == Some(e@),
                Err(_) => false,
            },
    {
        match self.first_problem(theta, linux) {
            Some(e) => Err(ConfigError::Validation(e)),
            None => Ok(()),
        }
    }
}

/// What an accepted configuration has: somewhere to connect to, someone to do
/// it, something to send that fits the value pool, and, where a saturation
/// search is asked for, a rate to start at and a threshold to judge by.
pub proof fn accepted_config_is_runnable(c: Config, theta: Seq<char>, linux: bool)
    requires
        c.violation(theta, linux) is None,
    ensures
        c.target.endpoints@.len() > 0,
        c.general.threads >= 1,
        c.connection.total() >= 1,
        1 <= c.workload.values.length <= VALUE_POOL_SIZE,
        c.workload.commands.get > 0 || c.workload.commands.set > 0 || c.workload.commands.delete
            > 0,
        c.target.tls_cert_file is Some <==> c.target.tls_key_file is Some,
        c.workload.keyspace.distribution == Distribution::Recency ==> c.workload.append is Some,
        c.workload.saturation_search matches Some(sat) ==> sat.start_rate > 0
            && sat.slo.highest() is Some,
{
}

/// The batch size is what is asked for, as far as the pipeline is that deep, and
/// the depth where nothing is asked for; it is at least one.
pub proof fn batches_fit_the_pipeline(c: Connection)
    ensures
        c.batch() >= 1,
        c.pipeline_depth >= 1 ==> c.batch() <= c.pipeline_depth,
        c.batch_size is None && c.pipeline_depth >= 1 ==> c.batch() == c.pipeline_depth,
        c.batch_size matches Some(n) && 1 <= n <= c.pipeline_depth ==> c.batch() == c.batch_size->0,
        c.batch_size matches Some(n) && n > c.pipeline_depth >= 1 ==> c.batch()
            == c.pipeline_depth,
        c.batch_size == Some(0usize) || c.pipeline_depth == 0 ==> c.batch() == 1,
{
}

/// The older name for the number of connections has precedence where it is
/// given.
pub proof fn a_pool_size_has_precedence(c: Connection)
    ensures
        c.pool_size matches Some(n) ==> c.total() == n,
        c.pool_size is None ==> c.total() == c.connections,
{
}

/// A configuration is accepted exactly when it keeps every one of the rules.
pub proof fn accepted_means_every_rule_is_kept(c: Config, theta: Seq<char>, linux: bool)
    ensures
        ({
            let t = c.target;
            let w = c.workload;
            let ks = w.keyspace;
            c.violation(theta, linux) is None <==> {
                &&& t.endpoints@.len() > 0
                &&& c.general.threads > 0
                &&& t.tls_cert_file is Some <==> t.tls_key_file is Some
                &&& !t.tls ==> t.tls_ca_file is None && t.tls_cert_file is None && t.tls_key_file
                    is None
                &&& c.connection.total() > 0
                &&& 0 < w.values.length <= VALUE_POOL_SIZE
                &&& ks.format == KeyFormat::Uuid ==> ks.length == 36
                &&& ks.distribution == Distribution::Zipf ==> ks.zipf_theta.finite()
                    && Double::zero().lt_spec(ks.zipf_theta)
                &&& ks.distribution == Distribution::Recency ==> w.append is Some
                &&& w.append is Some ==> t.protocol != Protocol::Ping
                &&& c.timestamps.mode == TimestampMode::Software ==> linux
                &&& w.commands.get > 0 || w.commands.set > 0 || w.commands.delete > 0
                &&& w.saturation_search matches Some(s) ==> {
                    &&& s.start_rate > 0
                    &&& !s.step_multiplier.le_spec(Double::of_nat(1))
                    &&& Double::zero().le_spec(s.min_throughput_ratio)
                        && s.min_throughput_ratio.le_spec(Double::of_nat(1))
                    &&& s.slo.p50 is Some || s.slo.p99 is Some || s.slo.p999 is Some
                }
            }
        }),
{
}

} // verus!
