//! What a worker decides: which keys to send where, when to wait, and what a
//! reply means.

pub mod append;
pub mod connect;
pub mod drive;
pub mod inflight;
pub mod keys;
pub mod queues;
pub mod reply;
pub mod routing;
pub mod tokens;

use vstd::prelude::*;

verus! {

/// Test phase, controlled by main thread and read by workers.
#[derive(Clone, Copy, Debug, PartialEq, Eq, Structural)]
pub enum Phase {
    /// Initial connection phase
    Connect,
    /// Precheck phase - verify basic connectivity with a test command
    Precheck,
    /// Prefill phase - write each key exactly once
    Prefill,
    /// Warmup phase - run workload; counter baselines are captured at the end so only Running phase data is reported
    Warmup,
    /// Main measurement phase - record metrics
    Running,
    /// Stop phase - workers should exit
    Stop,
}

impl Phase {
    /// The number that stands for a phase.
    pub open spec fn code(self) -> u8 {
        match self {
            Phase::Connect => 0,
            Phase::Precheck => 1,
            Phase::Prefill => 2,
            Phase::Warmup => 3,
            Phase::Running => 4,
            Phase::Stop => 5,
        }
    }

    /// The number that stands for this phase.
    pub fn to_u8(self) -> (r: u8)
        ensures
            r == self.code(),
    {
        match self {
            Phase::Connect => 0,
            Phase::Precheck => 1,
            Phase::Prefill => 2,
            Phase::Warmup => 3,
            Phase::Running => 4,
            Phase::Stop => 5,
        }
    }

    /// The phase that a number stands for; a number that stands for none means
    /// stop.
    pub fn from_u8(v: u8) -> (r: Self)
        ensures
            forall|p: Phase| v == #[trigger] p.code() ==> r == p,
            v > 5 ==> r == Phase::Stop,
    {
        match v {
            0 => Phase::Connect,
            1 => Phase::Precheck,
            2 => Phase::Prefill,
            3 => Phase::Warmup,
            4 => Phase::Running,
            _ => Phase::Stop,
        }
    }

    /// Whether metrics are recorded in this phase.
    pub fn is_recording(self) -> (r: bool)
        ensures
            r == (self == Phase::Running),
    {
        self == Phase::Running
    }

    /// Whether workers should exit.
    pub fn should_stop(self) -> (r: bool)
        ensures
            r == (self == Phase::Stop),
    {
        self == Phase::Stop
    }
}

/// Reason for a connection disconnect.
#[derive(Clone, Copy, Debug, PartialEq, Eq, Structural)]
pub enum DisconnectReason {
    /// Server closed connection (recv returned 0)
    Eof,
    /// Error during recv
    RecvError,
    /// Error during send
    SendError,
    /// Closed completion event from driver
    ClosedEvent,
    /// Error completion event from driver
    ErrorEvent,
    /// Failed to establish connection
    ConnectFailed,
    /// A request outlived `connection.request_timeout`; the connection was
    /// closed because replies are ordered and a stalled head blocks them all.
    Timeout,
}

/// The sum of two counts, counted in a machine integer that wraps.
pub open spec fn counted(n: usize, more: usize) -> usize {
    if n + more > usize::MAX {
        (n + more - usize::MAX - 1) as usize
    } else {
        (n + more) as usize
    }
}

fn count(n: usize, more: usize) -> (r: usize)
    ensures
        r == counted(n, more),
{
    n.wrapping_add(more)
}

/// State shared between workers and main thread.
#[derive(Clone, Copy, Debug, PartialEq, Eq, Structural)]
pub struct SharedState {
    /// Current test phase (controlled by main thread)
    pub phase: Phase,
    /// Number of workers whose event loops have started
    pub workers_started: usize,
    /// Number of workers that have completed precheck
    pub precheck_done: usize,
    /// Number of workers that have completed prefill
    pub prefill_complete: usize,
    /// Total number of prefill keys confirmed across all workers
    pub prefill_keys_confirmed: usize,
    /// Total number of prefill keys assigned across all workers
    pub prefill_keys_total: usize,
    /// Append stream: keys confirmed written by writer connections (cumulative).
    pub append_keys_confirmed: usize,
    /// Append stream: keys enqueued so far (cumulative). A batch is complete
    /// when confirmed catches up with this.
    pub append_keys_total: usize,
}

impl SharedState {
    /// Nothing done yet.
    pub open spec fn fresh() -> SharedState {
        SharedState {
            phase: Phase::Connect,
            workers_started: 0,
            precheck_done: 0,
            prefill_complete: 0,
            prefill_keys_confirmed: 0,
            prefill_keys_total: 0,
            append_keys_confirmed: 0,
            append_keys_total: 0,
        }
    }

    /// Nothing done yet.
    pub fn new() -> (r: Self)
        ensures
            r == SharedState::fresh(),
    {
        SharedState {
            phase: Phase::Connect,
            workers_started: 0,
            precheck_done: 0,
            prefill_complete: 0,
            prefill_keys_confirmed: 0,
            prefill_keys_total: 0,
            append_keys_confirmed: 0,
            append_keys_total: 0,
        }
    }

    /// Append stream: keys confirmed written so far.
    pub fn append_keys_confirmed(&self) -> (r: usize)
        ensures
            r == self.append_keys_confirmed,
    {
        self.append_keys_confirmed
    }

    /// Append stream: keys enqueued so far.
    pub fn append_keys_total(&self) -> (r: usize)
        ensures
            r == self.append_keys_total,
    {
        self.append_keys_total
    }

    /// Append stream: account for a batch of `n` keys just enqueued.
    pub fn add_append_total(&mut self, n: usize)
        ensures
            *final(self) == (SharedState {
                append_keys_total: counted(old(self).append_keys_total, n),
                ..*old(self)
            }),
    {
        self.append_keys_total = count(self.append_keys_total, n);
    }

    /// Get the current phase.
    pub fn phase(&self) -> (r: Phase)
        ensures
            r == self.phase,
    {
        self.phase
    }

    /// Set the phase (called by main thread).
    pub fn set_phase(&mut self, phase: Phase)
        ensures
            *final(self) == (SharedState { phase, ..*old(self) }),
    {
        self.phase = phase;
    }

    /// Mark one worker's event loop as started.
    pub fn mark_worker_started(&mut self)
        ensures
            *final(self) == (SharedState {
                workers_started: counted(old(self).workers_started, 1),
                ..*old(self)
            }),
    {
        self.workers_started = count(self.workers_started, 1);
    }

    /// Get the number of workers whose event loops have started.
    pub fn workers_started(&self) -> (r: usize)
        ensures
            r == self.workers_started,
    {
        self.workers_started
    }

    /// Mark one worker's precheck as complete.
    pub fn mark_precheck_complete(&mut self)
        ensures
            *final(self) == (SharedState {
                precheck_done: counted(old(self).precheck_done, 1),
                ..*old(self)
            }),
    {
        self.precheck_done = count(self.precheck_done, 1);
    }

    /// Get the number of workers that have completed precheck.
    pub fn precheck_complete_count(&self) -> (r: usize)
        ensures
            r == self.precheck_done,
    {
        self.precheck_done
    }

    /// Mark one worker's prefill as complete.
    pub fn mark_prefill_complete(&mut self)
        ensures
            *final(self) == (SharedState {
                prefill_complete: counted(old(self).prefill_complete, 1),
                ..*old(self)
            }),
    {
        self.prefill_complete = count(self.prefill_complete, 1);
    }

    /// Get the number of workers that have completed prefill.
    pub fn prefill_complete_count(&self) -> (r: usize)
        ensures
            r == self.prefill_complete,
    {
        self.prefill_complete
    }

    /// Add to the total prefill keys confirmed count.
    pub fn add_prefill_confirmed(&mut self, n: usize)
        ensures
            *final(self) == (SharedState {
                prefill_keys_confirmed: counted(old(self).prefill_keys_confirmed, n),
                ..*old(self)
            }),
    {
        self.prefill_keys_confirmed = count(self.prefill_keys_confirmed, n);
    }

    /// Get the total prefill keys confirmed across all workers.
    pub fn prefill_keys_confirmed(&self) -> (r: usize)
        ensures
            r == self.prefill_keys_confirmed,
    {
        self.prefill_keys_confirmed
    }

    /// Add to the total prefill keys assigned count.
    pub fn add_prefill_total(&mut self, n: usize)
        ensures
            *final(self) == (SharedState {
                prefill_keys_total: counted(old(self).prefill_keys_total, n),
                ..*old(self)
            }),
    {
        self.prefill_keys_total = count(self.prefill_keys_total, n);
    }

    /// Get the total prefill keys assigned across all workers.
    pub fn prefill_keys_total(&self) -> (r: usize)
        ensures
            r == self.prefill_keys_total,
    {
        self.prefill_keys_total
    }

    /// Confirm a single append-stream key was stored. A batch has fully landed
    /// when the confirmed count reaches the enqueued one.
    pub fn confirm_append_key(&mut self)
        ensures
            *final(self) == (SharedState {
                append_keys_confirmed: counted(old(self).append_keys_confirmed, 1),
                ..*old(self)
            }),
    {
        self.append_keys_confirmed = count(self.append_keys_confirmed, 1);
    }
}

impl Default for SharedState {
    fn default() -> (r: Self)
        ensures
            r == SharedState::fresh(),
    {
        Self::new()
    }
}

/// What a worker has completed.
#[derive(Clone, Copy, Debug, PartialEq, Eq, Structural)]
pub struct WorkerProgress {
    /// Prefill tracking: total keys assigned to this worker. Zero when keys
    /// are drained from queues that all workers share.
    pub prefill_total: usize,
    /// Number of prefill keys confirmed by this worker.
    pub prefill_confirmed: usize,
    /// Whether prefill is already complete for this worker.
    pub prefill_done: bool,
    /// Whether precheck is already complete for this worker.
    pub precheck_done: bool,
}

impl WorkerProgress {
    /// A worker with `prefill_total` keys of its own to write, and
    /// `connections` connections. One without connections passes the precheck
    /// at once.
    pub fn new(prefill_total: usize, connections: usize, shared: &mut SharedState) -> (r: Self)
        ensures
            r == (WorkerProgress {
                prefill_total,
                prefill_confirmed: 0,
                prefill_done: false,
                precheck_done: connections == 0,
            }),
            *final(shared) == if connections == 0 {
                SharedState { precheck_done: counted(old(shared).precheck_done, 1), ..*old(shared) }
            } else {
                *old(shared)
            },
    {
        if connections == 0 {
            shared.mark_precheck_complete();
        }
        WorkerProgress {
            prefill_total,
            prefill_confirmed: 0,
            prefill_done: false,
            precheck_done: connections == 0,
        }
    }

    /// Whether prefill is already complete for this worker.
    pub fn is_prefill_done(&self) -> (r: bool)
        ensures
            r == self.prefill_done,
    {
        self.prefill_done
    }

    /// Whether precheck is already complete for this worker.
    pub fn is_precheck_done(&self) -> (r: bool)
        ensures
            r == self.precheck_done,
    {
        self.precheck_done
    }

    /// Mark this worker's precheck as complete (only the first connection to succeed does this).
    pub fn mark_precheck_done(&mut self, shared: &mut SharedState)
        ensures
            *final(self) == (WorkerProgress { precheck_done: true, ..*old(self) }),
            *final(shared) == if old(self).precheck_done {
                *old(shared)
            } else {
                SharedState { precheck_done: counted(old(shared).precheck_done, 1), ..*old(shared) }
            },
    {
        if !self.precheck_done {
            self.precheck_done = true;
            shared.mark_precheck_complete();
        }
    }

    /// Mark this worker's prefill as complete (once).
    pub fn mark_prefill_done(&mut self, shared: &mut SharedState)
        ensures
            *final(self) == (WorkerProgress { prefill_done: true, ..*old(self) }),
            *final(shared) == if old(self).prefill_done {
                *old(shared)
            } else {
                SharedState {
                    prefill_complete: counted(old(shared).prefill_complete, 1),
                    ..*old(shared)
                }
            },
    {
        if !self.prefill_done {
            self.prefill_done = true;
            shared.mark_prefill_complete();
        }
    }

    /// Whether confirming one more key completes this worker's prefill.
    pub open spec fn completes(self) -> bool {
        &&& counted(self.prefill_confirmed, 1) >= self.prefill_total
        &&& self.prefill_total > 0
        &&& !self.prefill_done
    }
}

/// Confirm a single prefill key was successfully stored: it counts toward all
/// workers' progress, and completes this worker's prefill, once, when it was
/// the last of this worker's own keys.
pub fn confirm_prefill_key(worker: &mut WorkerProgress, shared: &mut SharedState)
    ensures
        *final(worker) == (WorkerProgress {
            prefill_confirmed: counted(old(worker).prefill_confirmed, 1),
            prefill_done: old(worker).prefill_done || old(worker).completes(),
            ..*old(worker)
        }),
        *final(shared) == (SharedState {
            prefill_keys_confirmed: counted(old(shared).prefill_keys_confirmed, 1),
            prefill_complete: if old(worker).completes() {
                counted(old(shared).prefill_complete, 1)
            } else {
                old(shared).prefill_complete
            },
            ..*old(shared)
        }),
{
    shared.add_prefill_confirmed(1);
    worker.prefill_confirmed = count(worker.prefill_confirmed, 1);
    if worker.prefill_confirmed >= worker.prefill_total && worker.prefill_total > 0
        && !worker.prefill_done {
        worker.prefill_done = true;
        shared.mark_prefill_complete();
    }
}

/// How the connections of a run are split over its workers.
pub open spec fn share_spec(total: nat, num_threads: nat, worker_id: nat) -> (nat, nat) {
    let n = if num_threads == 0 {
        1
    } else {
        num_threads
    };
    let base = total / n;
    let rem = total % n;
    (
        if worker_id < rem {
            base + 1
        } else {
            base
        },
        if worker_id < rem {
            worker_id * (base + 1)
        } else {
            rem * (base + 1) + (worker_id - rem) as nat * base
        },
    )
}

/// Split `total` connections across `num_threads` workers as evenly as they
/// go, returning this worker's share and the global index of its first
/// connection.
pub fn connection_share(total: usize, num_threads: usize, worker_id: usize) -> (r: (usize, usize))
    requires
        worker_id < num_threads || (num_threads == 0 && worker_id == 0),
    ensures
        (r.0 as nat, r.1 as nat) == share_spec(
            total as nat,
            num_threads as nat,
            worker_id as nat,
        ),
        r.0 + r.1 <= total,
{
    let n: usize = if num_threads == 0 {
        1
    } else {
        num_threads
    };
    proof {
        shares_are_contiguous(total as nat, n as nat, worker_id as nat);
        lemma_share_within(total as nat, n as nat, worker_id as nat);
    }
    let base: usize = total / n;
    let rem: usize = total % n;
    if worker_id < rem {
        proof {
            assert(worker_id * (base + 1) <= rem * (base + 1)) by (nonlinear_arith)
                requires
                    worker_id <= rem,
            ;
            lemma_share_start(total as nat, n as nat, rem as nat);
        }
        assert(base + 1 <= total) by {
            assert(total == n * base + rem) by (nonlinear_arith)
                requires
                    n > 0,
                    base == total / n,
                    rem == total % n,
            ;
            assert(n * base >= base) by (nonlinear_arith)
                requires
                    n >= 1,
            ;
        }
        (base + 1, worker_id * (base + 1))
    } else {
        proof {
            lemma_share_start(total as nat, n as nat, worker_id as nat);
            lemma_share_start(total as nat, n as nat, rem as nat);
            assert((worker_id - rem) * base >= 0) by (nonlinear_arith)
                requires
                    worker_id >= rem,
                    base >= 0,
            ;
            if rem > 0 {
                assert(total == n * base + rem) by (nonlinear_arith)
                    requires
                        n > 0,
                        base == total / n,
                        rem == total % n,
                ;
                assert(n * base >= base) by (nonlinear_arith)
                    requires
                        n >= 1,
                ;
            }
        }
        if rem == 0 {
            assert(0 * (base + 1) == 0);
            assert(rem * (base + 1) == 0);
            (base, worker_id * base)
        } else {
            (base, rem * (base + 1) + (worker_id - rem) * base)
        }
    }
}

/// A share starts where the shares before it end.
proof fn lemma_share_start(total: nat, n: nat, w: nat)
    requires
        n > 0,
        w <= n,
    ensures
        share_spec(total, n, w).1 == w * (total / n) + if w < total % n {
            w
        } else {
            total % n
        },
        share_spec(total, n, w).1 <= total,
{
    let base = total / n;
    let rem = total % n;
    assert(total == n * base + rem) by (nonlinear_arith)
        requires
            n > 0,
            base == total / n,
            rem == total % n,
    ;
    if w < rem {
        assert(w * (base + 1) == w * base + w) by (nonlinear_arith);
    } else {
        assert(rem * (base + 1) + (w - rem) * base == w * base + rem) by (nonlinear_arith);
    }
    assert(w * base <= n * base) by (nonlinear_arith)
        requires
            w <= n,
    ;
}

/// A share lies within the connections there are.
proof fn lemma_share_within(total: nat, n: nat, w: nat)
    requires
        n > 0,
        w < n,
    ensures
        share_spec(total, n, w).0 + share_spec(total, n, w).1 <= total,
{
    shares_are_contiguous(total, n, w);
    lemma_share_start(total, n, w + 1);
}

/// The shares of the workers follow one another without gap or overlap, the
/// first starting at connection zero and the last ending with the last
/// connection.
pub proof fn shares_are_contiguous(total: nat, num_threads: nat, worker_id: nat)
    requires
        num_threads > 0,
        worker_id < num_threads,
    ensures
        share_spec(total, num_threads, 0).1 == 0,
        share_spec(total, num_threads, worker_id).0 + share_spec(total, num_threads, worker_id).1
            == share_spec(total, num_threads, worker_id + 1).1,
        share_spec(total, num_threads, num_threads).1 == total,
{
    let n = num_threads;
    let base = total / n;
    let rem = total % n;
    lemma_share_start(total, n, 0);
    lemma_share_start(total, n, worker_id);
    lemma_share_start(total, n, worker_id + 1);
    lemma_share_start(total, n, n);
    assert((worker_id + 1) * base == worker_id * base + base) by (nonlinear_arith);
    assert(0 * base == 0);
    assert(total == n * base + rem) by (nonlinear_arith)
        requires
            n > 0,
            base == total / n,
            rem == total % n,
    ;
}

/// No two workers' shares differ by more than one connection.
pub proof fn shares_are_even(total: nat, num_threads: nat, a: nat, b: nat)
    requires
        num_threads > 0,
        a < num_threads,
        b < num_threads,
    ensures
        share_spec(total, num_threads, a).0 <= share_spec(total, num_threads, b).0 + 1,
{
}

/// One connection of a worker: which endpoint it serves and how it is seeded.
#[derive(Clone, Copy, Debug, PartialEq, Eq, Structural)]
pub struct Assignment {
    /// Index among all connections of the run.
    pub global_idx: usize,
    /// The endpoint it connects to.
    pub endpoint_idx: usize,
    /// Seed of its random draws.
    pub seed: u64,
}

/// The seed of connection `i` of a worker, in a space that starts at `base`;
/// seeds are counted in a machine integer that wraps.
pub open spec fn seed_spec(base: u64, worker_id: usize, i: usize) -> u64 {
    ((base + worker_id * 10_000 + i) % 0x1_0000_0000_0000_0000) as u64
}

fn seed_of(base: u64, worker_id: usize, i: usize) -> (r: u64)
    ensures
        r == seed_spec(base, worker_id, i),
{
    let s: u128 = (base as u128) + (worker_id as u128) * 10_000 + (i as u128);
    (s % 0x1_0000_0000_0000_0000) as u64
}

/// The connections of one worker: `mine` of them from global index `start`,
/// assigned to the endpoints in turn.
pub fn assignments(
    mine: usize,
    start: usize,
    num_endpoints: usize,
    worker_id: usize,
    seed_base: u64,
) -> (r: Vec<Assignment>)
    requires
        num_endpoints > 0,
        mine + start <= usize::MAX,
    ensures
        r@ == Seq::new(
            mine as nat,
            |i: int|
                Assignment {
                    global_idx: (start + i) as usize,
                    endpoint_idx: ((start + i) % (num_endpoints as int)) as usize,
                    seed: seed_spec(seed_base, worker_id, i as usize),
                },
        ),
{
    let mut r: Vec<Assignment> = Vec::new();
    let mut i: usize = 0;
    while i < mine
        invariant
            i <= mine,
            mine + start <= usize::MAX,
            num_endpoints > 0,
            r@.len() == i,
            forall|j: int|
                0 <= j < i ==> #[trigger] r@[j] == (Assignment {
                    global_idx: (start + j) as usize,
                    endpoint_idx: ((start + j) % (num_endpoints as int)) as usize,
                    seed: seed_spec(seed_base, worker_id, j as usize),
                }),
        decreases mine - i,
    {
        r.push(
            Assignment {
                global_idx: start + i,
                endpoint_idx: (start + i) % num_endpoints,
                seed: seed_of(seed_base, worker_id, i),
            },
        );
        i = i + 1;
    }
    r
}

/// Where the seeds of connections that run the workload start.
pub const READER_SEED: u64 = 42;

/// Where the seeds of connections that write the append stream start.
pub const WRITER_SEED: u64 = 0xA99E_0000_0000;

/// The CPU that a worker is pinned to: the configured ones in turn.
pub fn pinned_cpu(cpu_ids: &Vec<usize>, worker_id: usize) -> (r: Option<usize>)
    ensures
        cpu_ids@.len() == 0 ==> r is None,
        cpu_ids@.len() > 0 ==> r == Some(cpu_ids@[worker_id as int % cpu_ids@.len() as int]),
{
    if cpu_ids.len() == 0 {
        None
    } else {
        Some(cpu_ids[worker_id % cpu_ids.len()])
    }
}

/// What a worker does on a tick.
#[derive(Clone, Copy, Debug, PartialEq, Eq, Structural)]
pub enum Tick {
    /// The run is over: leave the event loop.
    Shutdown,
    /// Go on; `heartbeat` when a diagnostic line is due.
    Continue { heartbeat: bool },
}

/// What a worker remembers between ticks.
#[derive(Clone, Copy, Debug, PartialEq, Eq, Structural)]
pub struct TickState {
    /// Last observed phase.
    pub last_phase: Phase,
    /// Whether metrics are recorded.
    pub recording: bool,
    /// Ticks since the last heartbeat.
    pub tick_count: u64,
    /// When the last heartbeat was, in nanoseconds.
    pub last_diag_ns: u64,
}

/// The time between heartbeats: two seconds.
pub const HEARTBEAT_NS: u64 = 2_000_000_000;

impl TickState {
    /// A worker that has not seen a tick.
    pub fn new(now_ns: u64) -> (r: Self)
        ensures
            r == (TickState {
                last_phase: Phase::Connect,
                recording: false,
                tick_count: 0,
                last_diag_ns: now_ns,
            }),
    {
        TickState {
            last_phase: Phase::Connect,
            recording: false,
            tick_count: 0,
            last_diag_ns: now_ns,
        }
    }

    /// Notes the phase and says what to do: a change of phase decides whether
    /// metrics are recorded, and a stop ends the worker.
    pub fn tick(&mut self, phase: Phase, now_ns: u64) -> (r: Tick)
        requires
            old(self).tick_count < u64::MAX,
        ensures
            final(self).last_phase == phase,
            final(self).recording == if phase != old(self).last_phase {
                phase == Phase::Running
            } else {
                old(self).recording
            },
            r is Shutdown <==> phase == Phase::Stop,
            r is Shutdown ==> final(self).tick_count == old(self).tick_count
                && final(self).last_diag_ns == old(self).last_diag_ns,
            r matches Tick::Continue { heartbeat } ==> {
                &&& heartbeat == (now_ns - old(self).last_diag_ns >= HEARTBEAT_NS)
                &&& final(self).tick_count == if heartbeat {
                    0
                } else {
                    (old(self).tick_count + 1) as u64
                }
                &&& final(self).last_diag_ns == if heartbeat {
                    now_ns
                } else {
                    old(self).last_diag_ns
                }
            },
    {
        if phase != self.last_phase {
            self.recording = phase.is_recording();
            self.last_phase = phase;
        }
        if phase.should_stop() {
            return Tick::Shutdown;
        }
        self.tick_count = self.tick_count + 1;
        let heartbeat = now_ns.saturating_sub(self.last_diag_ns) >= HEARTBEAT_NS;
        if heartbeat {
            self.tick_count = 0;
            self.last_diag_ns = now_ns;
        }
        Tick::Continue { heartbeat }
    }
}

/// Counting goes on at zero after the largest machine integer.
pub proof fn counts_wrap_around(n: usize, more: usize)
    ensures
        n + more <= usize::MAX ==> counted(n, more) == n + more,
        n + more > usize::MAX ==> counted(n, more) + usize::MAX + 1 == n + more,
{
}

/// A worker's prefill is completed by the confirmation that makes its confirmed
/// keys as many as it has, once, and never for a worker without keys.
pub proof fn the_last_key_completes_a_prefill(w: WorkerProgress)
    requires
        w.prefill_confirmed < w.prefill_total,
    ensures
        w.completes() <==> !w.prefill_done && w.prefill_confirmed + 1 == w.prefill_total,
{
}

/// Earlier workers have no fewer connections than later ones.
pub proof fn earlier_workers_have_no_fewer(total: nat, num_threads: nat, a: nat, b: nat)
    requires
        a <= b < num_threads,
    ensures
        share_spec(total, num_threads, b).0 <= share_spec(total, num_threads, a).0,
{
}

/// The connections of a run have different seeds, as long as a worker has no
/// more than ten thousand of them and the seeds can be counted.
pub proof fn seeds_are_distinct(base: u64, worker: usize, i: usize, other: usize, j: usize)
    requires
        i < 10_000,
        j < 10_000,
        base + worker * 10_000 + i <= u64::MAX,
        base + other * 10_000 + j <= u64::MAX,
        (worker, i) != (other, j),
    ensures
        seed_spec(base, worker, i) != seed_spec(base, other, j),
        seed_spec(base, worker, i) == base + worker * 10_000 + i,
{
}

} // verus!
