//! Planning a run: pool sizes, rates, and what is refused at startup.

pub mod append;
pub mod lifecycle;
pub mod report;
pub mod tls;

use crate::config::{Config, Connection, Protocol, Workload};
use crate::text;
use crate::time::{Duration, MAX_NANOS};
use crate::worker::tokens;
use crate::worker::tokens::TokenBucket;
use rand_xoshiro::rand_core::{RngCore, SeedableRng};
use rand_xoshiro::Xoshiro256PlusPlus;
use vstd::prelude::*;
use vstd::string::*;

verus! {

/// Size of the shared random-byte value pool (1 GiB).
///
/// Workers pick random offsets into this pool for SET values. The configured
/// `workload.values.length` must not exceed this size.
pub const VALUE_POOL_SIZE: usize = 1024 * 1024 * 1024;

/// The seed of the value pool.
pub const VALUE_POOL_SEED: u64 = 0xdead_beef;

/// The runtime rejects per-worker pool sizes at or above `1 << 31`.
pub const RINGLINE_POOL_MAX: usize = 0x7fff_ffff;

/// The runtime's own default for the pools sized here; the floor for small
/// runs, so a small run never ends up with less headroom than the default.
pub const RINGLINE_POOL_DEFAULT: usize = 256;

/// Slack above the per-worker connection count, for pool users that are not
/// one to one with connections.
pub const POOL_HEADROOM: usize = 16;

/// The generator that a seed leads to.
pub uninterp spec fn seeded(seed: u64) -> Xoshiro256PlusPlus;

/// `SeedableRng::seed_from_u64` of the generator, which is deterministic.
#[verifier::external_body]
fn seed_generator(seed: u64) -> (r: Xoshiro256PlusPlus)
    ensures
        r == seeded(seed),
{
    Xoshiro256PlusPlus::seed_from_u64(seed)
}

/// The bytes that a generator fills `len` places with.
pub uninterp spec fn drawn_bytes(rng: Xoshiro256PlusPlus, len: nat) -> Seq<u8>;

/// `RngCore::fill_bytes`. Its bytes depend on the generator's state and are
/// laid out the same on every machine; they are named, and nothing is said of
/// them but how many they are.
#[verifier::external_body]
fn fill_drawn(rng: &mut Xoshiro256PlusPlus, len: usize) -> (r: Vec<u8>)
    ensures
        r@ == drawn_bytes(*old(rng), len as nat),
        r@.len() == len,
{
    let mut bytes = vec![0u8; len];
    rng.fill_bytes(&mut bytes);
    bytes
}

/// A pool of random bytes that values are taken from. It is seeded
/// deterministically, so runs are reproducible.
pub fn value_pool(len: usize) -> (r: Vec<u8>)
    ensures
        r@ == drawn_bytes(seeded(VALUE_POOL_SEED), len as nat),
        r@.len() == len,
{
    let mut rng = seed_generator(VALUE_POOL_SEED);
    fill_drawn(&mut rng, len)
}

/// Connections handled by the busiest worker.
///
/// Connections are split evenly across workers with the remainder spread one
/// each, so the quotient rounded up is the count the busiest worker sees.
pub open spec fn busiest_share(total_connections: nat, num_threads: nat) -> nat {
    let t = if num_threads == 0 {
        1
    } else {
        num_threads
    };
    (total_connections / t + if total_connections % t == 0 {
        0nat
    } else {
        1
    }) as nat
}

/// Connections handled by the busiest worker.
pub fn connections_per_worker(total_connections: usize, num_threads: usize) -> (r: usize)
    ensures
        r == busiest_share(total_connections as nat, num_threads as nat),
{
    let t: usize = if num_threads == 0 {
        1
    } else {
        num_threads
    };
    let q: usize = total_connections / t;
    if total_connections % t == 0 {
        q
    } else {
        proof {
            vstd::arithmetic::div_mod::lemma_fundamental_div_mod(total_connections as int, t as int);
            assert(q < total_connections) by (nonlinear_arith)
                requires
                    total_connections == t * q + total_connections % t,
                    total_connections % t > 0,
                    t >= 1,
                    q >= 0,
            ;
        }
        q + 1
    }
}

/// The busiest worker's share is what the largest of the workers' shares is:
/// no worker has more connections.
pub proof fn no_worker_exceeds_the_busiest(total: nat, num_threads: nat, worker_id: nat)
    requires
        num_threads > 0,
        worker_id < num_threads,
    ensures
        crate::worker::share_spec(total, num_threads, worker_id).0 <= busiest_share(
            total,
            num_threads,
        ),
{
}

/// A count within the limits of the runtime's pools.
pub open spec fn within_pool(n: int) -> int {
    if n < RINGLINE_POOL_DEFAULT {
        RINGLINE_POOL_DEFAULT as int
    } else if n > RINGLINE_POOL_MAX {
        RINGLINE_POOL_MAX as int
    } else {
        n
    }
}

fn clamp_to_pool(n: usize) -> (r: u32)
    ensures
        r == within_pool(n as int),
{
    if n < RINGLINE_POOL_DEFAULT {
        RINGLINE_POOL_DEFAULT as u32
    } else if n > RINGLINE_POOL_MAX {
        RINGLINE_POOL_MAX as u32
    } else {
        n as u32
    }
}

/// Capacity for standalone tasks to request from the runtime, per worker.
///
/// Every connection is a standalone task, and one beyond the capacity is never
/// created, so the capacity follows the connection count.
pub fn standalone_task_capacity(total_connections: usize, num_threads: usize) -> (r: u32)
    ensures
        r == within_pool(
            busiest_share(total_connections as nat, num_threads as nat) + POOL_HEADROOM,
        ),
{
    clamp_to_pool(
        connections_per_worker(total_connections, num_threads).saturating_add(POOL_HEADROOM),
    )
}

/// Timer slots to request from the runtime, per worker.
///
/// A connection can hold a request timeout and a retry sleep, so there are two
/// slots per connection.
pub fn timer_slots(total_connections: usize, num_threads: usize) -> (r: u32)
    ensures
        r == within_pool(
            2 * busiest_share(total_connections as nat, num_threads as nat) + POOL_HEADROOM,
        ),
{
    let share: usize = connections_per_worker(total_connections, num_threads);
    let doubled: usize = match share.checked_mul(2) {
        Some(n) => n,
        None => usize::MAX,
    };
    clamp_to_pool(doubled.saturating_add(POOL_HEADROOM))
}

/// Both pools hold what the busiest worker's connections take, unless the
/// runtime's limit rules it out, and no less than the runtime's default.
pub proof fn pools_cover_the_busiest_worker(total_connections: nat, num_threads: nat)
    ensures
        ({
            let share = busiest_share(total_connections, num_threads);
            let tasks = within_pool(share + POOL_HEADROOM);
            let timers = within_pool(2 * share + POOL_HEADROOM);
            &&& RINGLINE_POOL_DEFAULT <= tasks <= RINGLINE_POOL_MAX
            &&& RINGLINE_POOL_DEFAULT <= timers <= RINGLINE_POOL_MAX
            &&& share + POOL_HEADROOM <= RINGLINE_POOL_MAX ==> tasks >= share
            &&& 2 * share + POOL_HEADROOM <= RINGLINE_POOL_MAX ==> timers >= 2 * share
        }),
{
}

/// Warmup actually applied, in nanoseconds.
pub open spec fn warmup_nanos(config: Config) -> int {
    if config.workload.prefill {
        config.general.warmup.nanos + config.workload.prefill_settle.nanos
    } else {
        config.general.warmup.nanos as int
    }
}

/// Warmup actually applied, which is longer than `general.warmup` when prefill
/// ran.
///
/// Prefill leaves dirty pages in the server's page cache, which are written
/// back in one burst once they expire. Warmup samples are discarded, so
/// extending it past the deadline moves the burst out of the measurement.
pub fn effective_warmup(config: &Config) -> (r: Duration)
    requires
        warmup_nanos(*config) <= MAX_NANOS,
    ensures
        r.nanos == warmup_nanos(*config),
{
    if config.workload.prefill {
        config.general.warmup.plus(config.workload.prefill_settle)
    } else {
        config.general.warmup
    }
}

/// The rate that a run starts at; zero is unlimited.
pub fn initial_rate(workload: &Workload) -> (r: u64)
    ensures
        r == match workload.saturation_search {
            Some(s) => s.start_rate,
            None => match workload.rate_limit {
                Some(rate) => rate,
                None => 0,
            },
        },
{
    match &workload.saturation_search {
        Some(s) => s.start_rate,
        None => match workload.rate_limit {
            Some(rate) => rate,
            None => 0,
        },
    }
}

/// How a run's rate limiter is made.
#[derive(Clone, Copy, Debug, PartialEq, Eq, Structural)]
pub struct LimiterPlan {
    /// Tokens per second.
    pub rate: u64,
    /// Tokens at the start.
    pub available: u64,
    /// Tokens that it can hold.
    pub max_tokens: u64,
}

/// The rate limiter that a workload asks for: none without a rate, unless a
/// search will set one. It can hold a full batch, so that a batch can be funded
/// under very low rates too.
pub open spec fn planned_limiter(workload: Workload, connection: Connection) -> Option<LimiterPlan> {
    let rate = match workload.saturation_search {
        Some(s) => s.start_rate,
        None => match workload.rate_limit {
            Some(rate) => rate,
            None => 0,
        },
    };
    let batch = connection.batch();
    if rate > 0 || workload.saturation_search is Some {
        Some(
            LimiterPlan {
                rate,
                available: rate,
                max_tokens: if rate >= batch {
                    rate
                } else {
                    batch as u64
                },
            },
        )
    } else {
        None
    }
}

/// The rate limiter that a workload asks for.
pub fn limiter_plan(workload: &Workload, connection: &Connection) -> (r: Option<LimiterPlan>)
    ensures
        r == planned_limiter(*workload, *connection),
        r matches Some(p) ==> p.max_tokens >= 1 && p.available <= p.max_tokens,
{
    let rate: u64 = initial_rate(workload);
    if rate == 0 && workload.saturation_search.is_none() {
        return None;
    }
    let batch: u64 = connection.effective_batch_size() as u64;
    Some(
        LimiterPlan {
            rate,
            available: rate,
            max_tokens: if rate >= batch {
                rate
            } else {
                batch
            },
        },
    )
}

/// Whether a bucket, where there is one, was made as planned.
pub open spec fn made_as_planned(bucket: Option<TokenBucket>, plan: Option<LimiterPlan>) -> bool {
    match plan {
        Some(p) => bucket matches Some(b) && tokens::made_with(b) == (
            p.rate,
            p.available,
            p.max_tokens,
        ),
        None => bucket is None,
    }
}

/// The bucket of a plan, where there is one.
pub(crate) fn make_bucket(plan: Option<LimiterPlan>) -> (r: Option<TokenBucket>)
    requires
        plan matches Some(p) ==> p.max_tokens >= 1 && p.available <= p.max_tokens,
    ensures
        made_as_planned(r, plan),
{
    match plan {
        Some(p) => Some(TokenBucket::new(p.rate, p.available, p.max_tokens)),
        None => None,
    }
}

/// Makes the rate limiter that a workload asks for.
pub fn make_limiter(workload: &Workload, connection: &Connection) -> (r: Option<TokenBucket>)
    ensures
        made_as_planned(r, planned_limiter(*workload, *connection)),
{
    make_bucket(limiter_plan(workload, connection))
}

/// Why a run does not start.
#[derive(Clone, Debug)]
pub enum StartError {
    /// Cluster mode with a protocol that has none.
    NotResp(Protocol),
    /// Fewer connections than nodes to prefill.
    TooFewConnections { connections: usize, nodes: usize },
    /// No worker stayed alive; what each of them said.
    Workers(Vec<String>),
    /// The precheck failed.
    Precheck,
    /// The prefill timed out or stalled.
    Prefill,
}

/// How a protocol is named in messages.
pub open spec fn protocol_name(p: Protocol) -> Seq<char> {
    match p {
        Protocol::Resp => "Resp"@,
        Protocol::Resp3 => "Resp3"@,
        Protocol::Memcache => "Memcache"@,
        Protocol::MemcacheBinary => "MemcacheBinary"@,
        Protocol::Ping => "Ping"@,
    }
}

fn name_of(p: Protocol) -> (r: &'static str)
    ensures
        r@ == protocol_name(p),
{
    match p {
        Protocol::Resp => "Resp",
        Protocol::Resp3 => "Resp3",
        Protocol::Memcache => "Memcache",
        Protocol::MemcacheBinary => "MemcacheBinary",
        Protocol::Ping => "Ping",
    }
}

/// Lines, each after the given lead.
pub open spec fn listed(lead: Seq<char>, lines: Seq<String>) -> Seq<char>
    decreases lines.len(),
{
    if lines.len() == 0 {
        Seq::empty()
    } else {
        listed(lead, lines.drop_last()) + lead + lines.last()@
    }
}

impl StartError {
    /// The error in words.
    pub open spec fn words(self) -> Seq<char> {
        match self {
            StartError::NotResp(p) => "cluster mode requires resp protocol, got "@ + protocol_name(p),
            StartError::TooFewConnections { connections, nodes } =>
                "cluster prefill needs at least one connection per node, but --connections="@
                + text::decimal(connections as nat) + " < "@ + text::decimal(nodes as nat)
                + " cluster nodes. Increase --connections to >= "@ + text::decimal(nodes as nat)
                + " (ideally >= threads x nodes for an even spread)."@,
            StartError::Workers(errors) => if errors@.len() == 0 {
                "all worker threads exited immediately with no error"@
            } else {
                "all workers failed during startup:"@ + listed("\n  "@, errors@)
            },
            StartError::Precheck => "precheck failed: no connectivity"@,
            StartError::Prefill => "prefill failed: timed out or stalled"@,
        }
    }

    /// The error in words.
    pub fn message(&self) -> (r: String)
        ensures
            r@ == self.words(),
    {
        match self {
            StartError::NotResp(p) => {
                let mut r = String::from_str("cluster mode requires resp protocol, got ");
                r.append(name_of(*p));
                r
            },
            StartError::TooFewConnections { connections, nodes } => {
                let mut r = String::from_str(
                    "cluster prefill needs at least one connection per node, but --connections=",
                );
                text::push_decimal(&mut r, *connections as u128);
                r.append(" < ");
                text::push_decimal(&mut r, *nodes as u128);
                r.append(" cluster nodes. Increase --connections to >= ");
                text::push_decimal(&mut r, *nodes as u128);
                r.append(" (ideally >= threads x nodes for an even spread).");
                r
            },
            StartError::Workers(errors) => {
                if errors.len() == 0 {
                    return String::from_str("all worker threads exited immediately with no error");
                }
                let mut r = String::from_str("all workers failed during startup:");
                let mut i: usize = 0;
                while i < errors.len()
                    invariant
                        i <= errors@.len(),
                        r@ == "all workers failed during startup:"@ + listed(
                            "\n  "@,
                            errors@.take(i as int),
                        ),
                    decreases errors@.len() - i,
                {
                    r.append("\n  ");
                    r.append(errors[i].as_str());
                    proof {
                        let t = errors@.take(i + 1);
                        assert(t.drop_last() =~= errors@.take(i as int));
                        assert(r@ =~= "all workers failed during startup:"@ + listed("\n  "@, t));
                    }
                    i = i + 1;
                }
                assert(errors@.take(errors@.len() as int) =~= errors@);
                r
            },
            StartError::Precheck => String::from_str("precheck failed: no connectivity"),
            StartError::Prefill => String::from_str("prefill failed: timed out or stalled"),
        }
    }
}

/// Whether the target's protocol can be used as configured: only RESP has a
/// cluster mode.
pub fn check_cluster(cluster: bool, protocol: Protocol) -> (r: Result<(), StartError>)
    ensures
        r is Ok <==> (cluster ==> protocol == Protocol::Resp || protocol == Protocol::Resp3),
        r matches Err(e) ==> e == StartError::NotResp(protocol),
{
    if cluster && protocol != Protocol::Resp && protocol != Protocol::Resp3 {
        Err(StartError::NotResp(protocol))
    } else {
        Ok(())
    }
}

/// Prefill is drained from per-endpoint queues, so it can only complete if
/// every node has at least one connection. Fewer connections than nodes would
/// leave a queue that nothing drains.
pub fn check_prefill(prefill: bool, connections: usize, nodes: usize) -> (r: Result<(), StartError>)
    ensures
        r is Err <==> prefill && nodes > 1 && connections < nodes,
        r matches Err(e) ==> e == (StartError::TooFewConnections { connections, nodes }),
{
    if prefill && nodes > 1 && connections < nodes {
        Err(StartError::TooFewConnections { connections, nodes })
    } else {
        Ok(())
    }
}

/// How long workers may take to finish during shutdown: five seconds.
pub const WORKER_SHUTDOWN_NS: u128 = 5_000_000_000;

/// Whether a shutdown that began so long ago still waits for workers.
pub fn still_joining(elapsed: Duration) -> (r: bool)
    ensures
        r == (elapsed.nanos < WORKER_SHUTDOWN_NS),
{
    !Duration { nanos: WORKER_SHUTDOWN_NS }.saturating_sub(elapsed).is_zero()
}

/// The busiest worker is the first: its share is the largest there is.
pub proof fn the_first_worker_is_the_busiest(total: nat, num_threads: nat)
    requires
        num_threads > 0,
    ensures
        busiest_share(total, num_threads) == crate::worker::share_spec(total, num_threads, 0).0,
{
}

/// A count that the pools can hold is taken as it is; a smaller one is raised to
/// the runtime's default and a larger one cut to its limit.
pub proof fn pools_hold_what_they_can(n: int)
    ensures
        RINGLINE_POOL_DEFAULT <= n <= RINGLINE_POOL_MAX ==> within_pool(n) == n,
        n < RINGLINE_POOL_DEFAULT ==> within_pool(n) == RINGLINE_POOL_DEFAULT,
        n > RINGLINE_POOL_MAX ==> within_pool(n) == RINGLINE_POOL_MAX,
{
}

/// Prefill makes warmup longer by the time to settle, and nothing else does.
pub proof fn prefill_lengthens_warmup(config: Config)
    ensures
        config.workload.prefill ==> warmup_nanos(config) == config.general.warmup.nanos
            + config.workload.prefill_settle.nanos,
        !config.workload.prefill ==> warmup_nanos(config) == config.general.warmup.nanos,
{
}

/// There is a limiter exactly when there is a rate to keep or a search for one. A
/// search starts at its own rate, whatever the configured one is. The limiter
/// starts with a second's tokens, and holds those or a batch, whichever is more.
pub proof fn limiters_follow_the_rate(workload: Workload, connection: Connection)
    ensures
        ({
            let plan = planned_limiter(workload, connection);
            let searches = workload.saturation_search is Some;
            let limited = workload.rate_limit matches Some(rate) && rate > 0;
            &&& plan is Some <==> searches || limited
            &&& plan matches Some(p) ==> {
                &&& searches ==> p.rate == workload.saturation_search->0.start_rate
                &&& !searches ==> Some(p.rate) == workload.rate_limit
                &&& p.available == p.rate
                &&& p.max_tokens >= p.rate && p.max_tokens >= connection.batch()
                &&& p.max_tokens == p.rate || p.max_tokens == connection.batch()
            }
        }),
{
}

} // verus!
