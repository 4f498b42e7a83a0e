//! Driving the workload on one connection: what to send next, when to wait,
//! and what a reply changes.
//!
//! The connection's owner performs the I/O. It asks what to do, fires the
//! requests it is handed, and reports what came of them.

use crate::client::{RedirectKind, RequestResult, RequestType};
use crate::keydist;
use crate::time::Duration;
use crate::worker::inflight::InFlight;
use crate::worker::queues::PrefillQueues;
use crate::worker::reply;
use crate::worker::reply::{CounterDeltas, Purpose};
use crate::worker::routing;
use crate::worker::routing::Routes;
use crate::worker::tokens;
use crate::worker::tokens::{Funding, TokenBucket};
use crate::worker::{confirm_prefill_key, Phase, SharedState, WorkerProgress};
use rand_xoshiro::Xoshiro256PlusPlus;
use std::collections::VecDeque;
use vstd::prelude::*;

verus! {

/// Minimum value size at which a zero-copy send is worth its cost.
pub const ZC_VALUE_THRESHOLD: usize = 4_096;

/// Prefill SETs in flight on a connection, so that prefill does not overwhelm
/// the server.
pub const PREFILL_IN_FLIGHT: usize = 16;

/// Per-connection cap on pending backfill keys. Bounds memory when misses
/// outpace their backfill; what exceeds it is dropped.
pub const BACKFILL_QUEUE_CAP: usize = 1_024;

/// Which family of protocols a connection speaks.
#[derive(Clone, Copy, Debug, PartialEq, Eq, Structural)]
pub enum Flavor {
    Resp,
    Memcache,
}

/// What does not change while a connection is driven.
#[derive(Clone, Copy, Debug, PartialEq, Eq, Structural)]
pub struct DriveParams {
    pub flavor: Flavor,
    /// Weight of GETs.
    pub get_ratio: u8,
    /// Weight of SETs.
    pub set_ratio: u8,
    /// Weight of DELETEs.
    pub delete_ratio: u8,
    /// Bytes per value.
    pub value_len: usize,
    /// Bytes in the pool that values are taken from.
    pub pool_len: usize,
    /// Whether a miss is backfilled.
    pub backfill_on_miss: bool,
    /// The endpoint that the connection serves.
    pub endpoint_idx: usize,
    /// How many endpoints there are.
    pub num_endpoints: usize,
    /// Requests in flight.
    pub pipeline_depth: usize,
    /// Requests per coalesced send.
    pub batch_size: usize,
}

/// The state of a connection's workload.
pub struct Driver {
    pub params: DriveParams,
    /// Tokens that were already charged to this connection.
    pub carried_tokens: u64,
    /// Requests that may still be fired in this round.
    pub budget: usize,
    /// Whether the rate limiter refused this round.
    pub turned_away: bool,
    /// Prefill keys in flight, oldest first.
    pub prefill_in_flight: VecDeque<usize>,
    /// Keys that missed and are to be stored.
    pub backfill_queue: Vec<usize>,
    /// Everything in flight, oldest first.
    pub sent: VecDeque<Fire>,
    /// Everything in flight, with its deadline.
    pub inflight: InFlight,
}

/// What a round begins with.
#[derive(Clone, Copy, Debug, PartialEq, Eq, Structural)]
pub enum Turn {
    /// The run is over.
    Stop,
    /// Fire prefill keys.
    Prefill,
    /// Fire the workload.
    Load,
    /// Fire nothing.
    Idle,
}

/// What a limited round needs before it can fire.
#[derive(Clone, Copy, Debug, PartialEq, Eq, Structural)]
pub enum TokenNeed {
    /// Nothing: the budget is known.
    Known,
    /// An answer to the request for this many tokens.
    Ask(u64),
}

/// What to fire next.
#[derive(Clone, Copy, Debug, PartialEq, Eq, Structural)]
pub enum NextLoad {
    /// Nothing more in this round.
    Done,
    /// Fire this request again: it was redirected here.
    Retry(Fire),
    /// Store this key, which missed.
    Backfill(usize),
    /// Pick a key.
    Pick,
}

/// How a key is picked.
#[derive(Clone, Copy, Debug, PartialEq, Eq, Structural)]
pub enum DrawKind {
    /// From the whole keyspace.
    Any,
    /// From the list of the endpoint's keys.
    Listed,
    /// From the whole keyspace, until one leads to the endpoint.
    Routed,
}

/// A command of the workload.
#[derive(Clone, Copy, Debug, PartialEq, Eq, Structural)]
pub enum Command {
    Get,
    Store,
    Delete,
}

/// A request to be fired.
#[derive(Clone, Copy, Debug, PartialEq, Eq, Structural)]
pub struct Fire {
    pub command: Command,
    pub key_id: usize,
    pub user_data: u64,
}

/// Where the value of a SET lies in the value pool, and how it is sent.
#[derive(Clone, Copy, Debug, PartialEq, Eq, Structural)]
pub struct ValuePlan {
    pub offset: usize,
    pub len: usize,
    /// Sent from the pool itself rather than copied.
    pub zero_copy: bool,
}

/// How to wait once nothing more can be fired.
#[derive(Clone, Copy, Debug, PartialEq, Eq, Structural)]
pub enum Wait {
    /// For a reply.
    Reply,
    /// For this many tokens from the dispatcher.
    Tokens(u64),
    /// For this long.
    Nap(Duration),
}

/// What a reply changed, beyond the driver's own state.
#[derive(Clone, Copy, Debug, PartialEq, Eq, Structural)]
pub struct ReplyEffects {
    /// A backfill was stored.
    pub backfill_stored: bool,
    /// The request moved to another node and is to be fired again there.
    pub retry: Option<Fire>,
    /// What is counted.
    pub counters: CounterDeltas,
}

/// The command that a roll out of the sum of the weights chooses: GETs first,
/// then DELETEs, then SETs.
pub open spec fn command_for(roll: nat, get_ratio: nat, delete_ratio: nat) -> Command {
    if roll < get_ratio {
        Command::Get
    } else if roll < get_ratio + delete_ratio {
        Command::Delete
    } else {
        Command::Store
    }
}

/// The command that a roll out of the sum of the weights chooses.
pub fn choose_command(roll: usize, get_ratio: u8, delete_ratio: u8) -> (r: Command)
    ensures
        r == command_for(roll as nat, get_ratio as nat, delete_ratio as nat),
{
    if roll < get_ratio as usize {
        Command::Get
    } else if roll < get_ratio as usize + delete_ratio as usize {
        Command::Delete
    } else {
        Command::Store
    }
}

/// How many of the first `n` rolls choose a command.
pub open spec fn rolls_for(command: Command, n: nat, get_ratio: nat, delete_ratio: nat) -> nat
    decreases n,
{
    if n == 0 {
        0
    } else {
        rolls_for(command, (n - 1) as nat, get_ratio, delete_ratio) + if command_for(
            (n - 1) as nat,
            get_ratio,
            delete_ratio,
        ) == command {
            1nat
        } else {
            0
        }
    }
}

proof fn lemma_rolls_for(n: nat, get_ratio: nat, delete_ratio: nat)
    ensures
        rolls_for(Command::Get, n, get_ratio, delete_ratio) == if n <= get_ratio {
            n
        } else {
            get_ratio
        },
        rolls_for(Command::Delete, n, get_ratio, delete_ratio) == if n <= get_ratio {
            0
        } else if n <= get_ratio + delete_ratio {
            (n - get_ratio) as nat
        } else {
            delete_ratio
        },
        rolls_for(Command::Store, n, get_ratio, delete_ratio) == if n <= get_ratio + delete_ratio {
            0
        } else {
            (n - get_ratio - delete_ratio) as nat
        },
    decreases n,
{
    if n > 0 {
        lemma_rolls_for((n - 1) as nat, get_ratio, delete_ratio);
    }
}

/// The ratios are weights: of as many rolls as they sum up to, each command is
/// chosen by as many as its weight says.
pub proof fn ratios_are_weights(get_ratio: nat, set_ratio: nat, delete_ratio: nat)
    ensures
        ({
            let n = get_ratio + set_ratio + delete_ratio;
            &&& rolls_for(Command::Get, n, get_ratio, delete_ratio) == get_ratio
            &&& rolls_for(Command::Store, n, get_ratio, delete_ratio) == set_ratio
            &&& rolls_for(Command::Delete, n, get_ratio, delete_ratio) == delete_ratio
        }),
{
    lemma_rolls_for(get_ratio + set_ratio + delete_ratio, get_ratio, delete_ratio);
}

impl DriveParams {
    /// The sum of the weights.
    pub open spec fn weights(self) -> nat {
        self.get_ratio as nat + self.set_ratio as nat + self.delete_ratio as nat
    }
}

/// The fire that a picked key and a roll lead to. A GET carries its key id, so
/// that a miss can be backfilled.
pub open spec fn fire_for(p: DriveParams, key_id: usize, roll: nat) -> Fire {
    let command = command_for(roll, p.get_ratio as nat, p.delete_ratio as nat);
    Fire {
        command,
        key_id,
        user_data: if command == Command::Get {
            key_id as u64
        } else {
            0
        },
    }
}

/// Requests to be fired again, for each endpoint.
pub struct RetryQueues {
    queues: Vec<VecDeque<Fire>>,
}

impl View for RetryQueues {
    type V = Seq<Seq<Fire>>;

    /// The requests of each queue, front first.
    closed spec fn view(&self) -> Seq<Seq<Fire>> {
        self.queues@.map_values(|q: VecDeque<Fire>| q@)
    }
}

impl RetryQueues {
    /// As many empty queues as there are endpoints.
    pub fn new(num: usize) -> (r: Self)
        ensures
            r@ == Seq::new(num as nat, |i: int| Seq::<Fire>::empty()),
    {
        let mut r = RetryQueues { queues: Vec::new() };
        assert(r@ =~= Seq::<Seq<Fire>>::empty());
        r.cover(num);
        assert(r@ =~= Seq::new(num as nat, |i: int| Seq::<Fire>::empty()));
        r
    }

    /// Adds empty queues until there are `num`.
    pub fn cover(&mut self, num: usize)
        ensures
            final(self)@ == Seq::new(
                if num as nat > old(self)@.len() {
                    num as nat
                } else {
                    old(self)@.len()
                },
                |i: int|
                    if i < old(self)@.len() {
                        old(self)@[i]
                    } else {
                        Seq::<Fire>::empty()
                    },
            ),
    {
        let ghost before = self@;
        assert(self@ =~= Seq::new(
            before.len(),
            |i: int|
                if i < before.len() {
                    before[i]
                } else {
                    Seq::<Fire>::empty()
                },
        ));
        while self.queues.len() < num
            invariant
                before == old(self)@,
                before.len() <= self@.len(),
                self@.len() <= num || self@.len() == before.len(),
                self@ == Seq::new(
                    self@.len(),
                    |i: int|
                        if i < before.len() {
                            before[i]
                        } else {
                            Seq::<Fire>::empty()
                        },
                ),
            decreases num - self@.len(),
        {
            let ghost prior = self@;
            self.queues.push(VecDeque::new());
            assert(self@ =~= prior.push(Seq::<Fire>::empty()));
            assert(self@ =~= Seq::new(
                self@.len(),
                |i: int|
                    if i < before.len() {
                        before[i]
                    } else {
                        Seq::<Fire>::empty()
                    },
            ));
        }
    }

    /// Queues a request for the endpoint that it moved to.
    pub fn push(&mut self, endpoint_idx: usize, fire: Fire)
        requires
            endpoint_idx < old(self)@.len(),
        ensures
            final(self)@ == old(self)@.update(
                endpoint_idx as int,
                old(self)@[endpoint_idx as int].push(fire),
            ),
    {
        self.queues[endpoint_idx].push_back(fire);
        assert(self@ =~= old(self)@.update(
            endpoint_idx as int,
            old(self)@[endpoint_idx as int].push(fire),
        ));
    }

    /// The next request for an endpoint.
    pub fn pop(&mut self, endpoint_idx: usize) -> (r: Option<Fire>)
        requires
            endpoint_idx < old(self)@.len(),
        ensures
            ({
                let q = old(self)@[endpoint_idx as int];
                if q.len() == 0 {
                    r is None && final(self)@ == old(self)@
                } else {
                    r == Some(q[0]) && final(self)@ == old(self)@.update(
                        endpoint_idx as int,
                        q.skip(1),
                    )
                }
            }),
    {
        let r = self.queues[endpoint_idx].pop_front();
        proof {
            let q = old(self)@[endpoint_idx as int];
            if r is None {
                assert(self@ =~= old(self)@);
            } else {
                assert(self@[endpoint_idx as int] =~= q.skip(1));
                assert(self@ =~= old(self)@.update(endpoint_idx as int, q.skip(1)));
            }
        }
        r
    }
}

/// A search for a key that leads to an endpoint: how many draws did not.
#[derive(Clone, Copy, Debug, PartialEq, Eq, Structural)]
pub struct KeySearch {
    pub misses: usize,
    pub max_misses: usize,
}

/// What became of a drawn key.
#[derive(Clone, Copy, Debug, PartialEq, Eq, Structural)]
pub enum Verdict {
    /// It leads to the endpoint.
    Take,
    /// It does not; draw another.
    Again,
    /// It does not, and no more are drawn in this round.
    GiveUp,
}

impl KeySearch {
    /// A search over so many endpoints.
    pub fn new(num_endpoints: usize) -> (r: Self)
        ensures
            r.misses == 0,
            r.max_misses == if num_endpoints * 64 > usize::MAX {
                usize::MAX as int
            } else if num_endpoints == 0 {
                64
            } else {
                num_endpoints * 64
            },
            r.misses < r.max_misses,
    {
        KeySearch { misses: 0, max_misses: routing::max_routing_attempts(num_endpoints) }
    }

    /// Considers a drawn key. A key that does not lead to the endpoint costs no
    /// token, so each endpoint receives traffic in proportion to the share of
    /// the key distribution that it owns.
    pub fn consider(&mut self, candidate: usize, routes: &Routes<'_>, endpoint_idx: usize) -> (r:
        Verdict)
        requires
            routes.wf(),
            old(self).misses < old(self).max_misses,
        ensures
            r is Take <==> routes.leads_to(candidate) == endpoint_idx,
            r is Take ==> *final(self) == *old(self),
            r is GiveUp <==> routes.leads_to(candidate) != endpoint_idx && old(self).misses + 1
                >= old(self).max_misses,
            !(r is Take) ==> *final(self) == (KeySearch {
                misses: (old(self).misses + 1) as usize,
                ..*old(self)
            }),
            r is Again ==> final(self).misses < final(self).max_misses,
    {
        if routes.route_id(candidate) == endpoint_idx {
            return Verdict::Take;
        }
        self.misses = self.misses + 1;
        if self.misses >= self.max_misses {
            Verdict::GiveUp
        } else {
            Verdict::Again
        }
    }
}

/// A random one of an endpoint's keys; none when it owns none.
pub fn listed_key(keys: &Vec<u32>, rng: &mut Xoshiro256PlusPlus) -> (r: Option<usize>)
    ensures
        match r {
            None => keys@.len() == 0,
            Some(k) => exists|i: int| 0 <= i < keys@.len() && #[trigger] keys@[i] == k,
        },
{
    if keys.len() == 0 {
        return None;
    }
    let i: usize = keydist::draw(rng, 0, keys.len());
    assert(keys@[i as int] == keys[i as int]);
    Some(keys[i] as usize)
}

/// A random place for a value in the pool.
pub fn value_offset(rng: &mut Xoshiro256PlusPlus, value_len: usize, pool_len: usize) -> (r: usize)
    requires
        0 < value_len <= pool_len,
    ensures
        r + value_len <= pool_len,
{
    keydist::draw(rng, 0, pool_len - value_len + 1)
}

impl Driver {
    /// What every state keeps.
    pub open spec fn wf(self) -> bool {
        &&& self.params.endpoint_idx < self.params.num_endpoints
        &&& self.params.weights() > 0
        &&& self.carried_tokens <= usize::MAX
        &&& self.sent@.len() == self.inflight.fired@.len()
    }

    /// A connection that was just established, with the keys that its
    /// predecessor left to backfill.
    pub fn new(params: DriveParams, backfill_queue: Vec<usize>, request_timeout: Duration) -> (r:
        Self)
        requires
            params.endpoint_idx < params.num_endpoints,
            params.weights() > 0,
        ensures
            r.wf(),
            r.params == params,
            r.carried_tokens == 0,
            r.budget == 0,
            !r.turned_away,
            r.prefill_in_flight@ == Seq::<usize>::empty(),
            r.backfill_queue == backfill_queue,
            r.sent@ == Seq::<Fire>::empty(),
            r.inflight.fired@ == Seq::<Duration>::empty(),
            r.inflight.timeout == request_timeout,
            r.inflight.timer is None,
    {
        Driver {
            params,
            carried_tokens: 0,
            budget: 0,
            turned_away: false,
            prefill_in_flight: VecDeque::new(),
            backfill_queue,
            sent: VecDeque::new(),
            inflight: InFlight::new(request_timeout, params.pipeline_depth),
        }
    }

    /// There are this many endpoints by now.
    pub fn endpoints_grew(&mut self, num_endpoints: usize)
        requires
            old(self).wf(),
            num_endpoints >= old(self).params.num_endpoints,
        ensures
            final(self).wf(),
            *final(self) == (Driver {
                params: DriveParams { num_endpoints, ..old(self).params },
                ..*old(self)
            }),
    {
        self.params.num_endpoints = num_endpoints;
    }

    /// Whether there is room for a whole batch, so that requests accumulate
    /// into one coalesced send rather than one per response.
    pub open spec fn wants_fire(self, pending: usize) -> bool {
        if self.params.pipeline_depth >= pending {
            self.params.pipeline_depth - pending >= self.params.batch_size
        } else {
            self.params.batch_size == 0
        }
    }

    /// Begins a round.
    pub fn begin(&mut self, phase: Phase, prefill_done: bool, pending: usize) -> (r: Turn)
        ensures
            r == if phase == Phase::Stop {
                Turn::Stop
            } else if phase == Phase::Prefill && !prefill_done {
                if old(self).wants_fire(pending) {
                    Turn::Prefill
                } else {
                    Turn::Idle
                }
            } else if (phase == Phase::Warmup || phase == Phase::Running) && old(self).wants_fire(
                pending,
            ) {
                Turn::Load
            } else {
                Turn::Idle
            },
            *final(self) == (Driver { budget: 0, turned_away: false, ..*old(self) }),
    {
        self.budget = 0;
        self.turned_away = false;
        if phase.should_stop() {
            return Turn::Stop;
        }
        let want_fire = self.params.pipeline_depth.saturating_sub(pending)
            >= self.params.batch_size;
        if phase == Phase::Prefill && !prefill_done {
            if want_fire {
                Turn::Prefill
            } else {
                Turn::Idle
            }
        } else if (phase == Phase::Warmup || phase == Phase::Running) && want_fire {
            Turn::Load
        } else {
            Turn::Idle
        }
    }

    /// How many prefill SETs may be in flight.
    pub open spec fn prefill_depth(self) -> usize {
        if self.params.pipeline_depth < PREFILL_IN_FLIGHT {
            self.params.pipeline_depth
        } else {
            PREFILL_IN_FLIGHT
        }
    }

    /// The next prefill key to store, while the pipeline has room.
    pub fn next_prefill(&self, queues: &mut PrefillQueues, routes: &Routes<'_>, pending: usize) -> (r:
        Option<Fire>)
        requires
            self.wf(),
            routes.wf(),
            routes.num_endpoints == self.params.num_endpoints,
            old(queues)@.len() >= routes.num_endpoints,
        ensures
            final(queues)@.len() == old(queues)@.len(),
            pending >= self.prefill_depth() ==> r is None && final(queues)@ == old(queues)@,
            pending < self.prefill_depth() ==> {
                let (after, key) = routing::taken(
                    old(queues)@,
                    *routes,
                    self.params.endpoint_idx as int,
                );
                &&& final(queues)@ == after
                &&& r == match key {
                    None => None,
                    Some(k) => Some(
                        Fire {
                            command: Command::Store,
                            key_id: k,
                            user_data: (k as u64) | reply::PREFILL_MARKER,
                        },
                    ),
                }
            },
    {
        if pending >= self.params.pipeline_depth || pending >= PREFILL_IN_FLIGHT {
            return None;
        }
        match routing::take_owned(queues, routes, self.params.endpoint_idx) {
            None => None,
            Some(k) => Some(
                Fire {
                    command: Command::Store,
                    key_id: k,
                    user_data: reply::marked(k, Purpose::Prefill),
                },
            ),
        }
    }

    /// A prefill key was fired.
    pub fn prefill_sent(&mut self, fire: Fire, fired_at: Duration)
        requires
            old(self).wf(),
        ensures
            final(self).wf(),
            final(self).prefill_in_flight@ == old(self).prefill_in_flight@.push(fire.key_id),
            final(self).sent@ == old(self).sent@.push(fire),
            final(self).inflight.fired@ == old(self).inflight.fired@.push(fired_at),
            final(self).inflight.timeout == old(self).inflight.timeout,
            final(self).inflight.timer == old(self).inflight.timer,
            *final(self) == (Driver {
                prefill_in_flight: final(self).prefill_in_flight,
                sent: final(self).sent,
                inflight: final(self).inflight,
                ..*old(self)
            }),
    {
        self.prefill_in_flight.push_back(fire.key_id);
        self.sent.push_back(fire);
        self.inflight.push(fired_at);
    }

    /// A prefill key could not be fired: it goes back to the front of its
    /// queue.
    pub fn prefill_refused(&self, queues: &mut PrefillQueues, key_id: usize)
        requires
            self.params.endpoint_idx < old(queues)@.len(),
        ensures
            final(queues)@ == old(queues)@.update(
                self.params.endpoint_idx as int,
                seq![key_id] + old(queues)@[self.params.endpoint_idx as int],
            ),
    {
        queues.push_front(self.params.endpoint_idx, key_id);
    }

    /// What a round needs before it can fire: without a limiter a batch is
    /// free; tokens that were already charged are spent first; else a batch
    /// of tokens, no more than the limiter holds, is asked for.
    pub fn token_need(&mut self, capacity: Option<u64>) -> (r: TokenNeed)
        requires
            old(self).wf(),
        ensures
            final(self).wf(),
            ({
                let o = *old(self);
                let n = match capacity {
                    Some(c) => if o.params.batch_size as u64 <= c {
                        o.params.batch_size as u64
                    } else {
                        c
                    },
                    None => 0,
                };
                let asks = capacity is Some && o.carried_tokens == 0 && n > 0;
                &&& r == if asks {
                    TokenNeed::Ask(n)
                } else {
                    TokenNeed::Known
                }
                &&& *final(self) == if capacity is None {
                    Driver { budget: o.params.batch_size, ..o }
                } else if o.carried_tokens > 0 {
                    Driver { budget: o.carried_tokens as usize, carried_tokens: 0, ..o }
                } else if asks {
                    Driver { budget: 0, ..o }
                } else {
                    Driver { budget: 0, turned_away: true, ..o }
                }
            }),
    {
        match capacity {
            None => {
                self.budget = self.params.batch_size;
                TokenNeed::Known
            },
            Some(c) => {
                if self.carried_tokens > 0 {
                    self.budget = self.carried_tokens as usize;
                    self.carried_tokens = 0;
                    return TokenNeed::Known;
                }
                self.budget = 0;
                let n: u64 = if self.params.batch_size as u64 <= c {
                    self.params.batch_size as u64
                } else {
                    c
                };
                if n > 0 {
                    TokenNeed::Ask(n)
                } else {
                    self.turned_away = true;
                    TokenNeed::Known
                }
            },
        }
    }

    /// The limiter's answer to the request for `asked` tokens: all of them or
    /// none. A round without tokens was turned away.
    pub fn token_answer(&mut self, asked: u64, funded: bool)
        requires
            old(self).wf(),
            asked <= usize::MAX,
        ensures
            final(self).wf(),
            *final(self) == if funded {
                Driver { budget: asked as usize, ..*old(self) }
            } else {
                Driver { budget: 0, turned_away: true, ..*old(self) }
            },
    {
        if funded {
            self.budget = asked as usize;
        } else {
            self.budget = 0;
            self.turned_away = true;
        }
    }

    /// Acquires the tokens of a round up front, so that the round fires one
    /// coalesced batch.
    pub fn acquire_budget(&mut self, rl: Option<&TokenBucket>)
        requires
            old(self).wf(),
        ensures
            final(self).wf(),
            rl is None ==> *final(self) == (Driver {
                budget: old(self).params.batch_size,
                ..*old(self)
            }),
            rl is Some && old(self).carried_tokens > 0 ==> *final(self) == (Driver {
                budget: old(self).carried_tokens as usize,
                carried_tokens: 0,
                ..*old(self)
            }),
            rl is Some && old(self).carried_tokens == 0 ==> {
                &&& final(self).budget <= old(self).params.batch_size
                &&& *final(self) == (Driver {
                    budget: final(self).budget,
                    turned_away: old(self).turned_away || final(self).budget == 0,
                    ..*old(self)
                })
            },
    {
        let capacity: Option<u64> = match rl {
            Some(rl) => Some(tokens::capacity(rl)),
            None => None,
        };
        match self.token_need(capacity) {
            TokenNeed::Known => {},
            TokenNeed::Ask(n) => {
                let funded = match rl {
                    Some(rl) => tokens::try_fund(rl, n) == Funding::Funded,
                    None => false,
                };
                self.token_answer(n, funded);
            },
        }
    }

    /// What to fire next: requests that were redirected here come first, then
    /// keys that missed, latest first. Either takes one of the round's tokens.
    pub fn next_load(&mut self, retries: &mut RetryQueues, pending: usize) -> (r: NextLoad)
        requires
            old(self).params.endpoint_idx < old(retries)@.len(),
        ensures
            ({
                let o = *old(self);
                let ep = o.params.endpoint_idx as int;
                let w = old(retries)@[ep];
                let q = o.backfill_queue@;
                if pending >= o.params.pipeline_depth || o.budget == 0 {
                    &&& r == NextLoad::Done
                    &&& *final(self) == o
                    &&& final(retries)@ == old(retries)@
                } else if w.len() > 0 {
                    &&& r == NextLoad::Retry(w[0])
                    &&& *final(self) == (Driver { budget: (o.budget - 1) as usize, ..o })
                    &&& final(retries)@ == old(retries)@.update(ep, w.skip(1))
                } else if q.len() > 0 {
                    &&& r == NextLoad::Backfill(q.last())
                    &&& final(self).backfill_queue@ == q.drop_last()
                    &&& *final(self) == (Driver {
                        backfill_queue: final(self).backfill_queue,
                        budget: (o.budget - 1) as usize,
                        ..o
                    })
                    &&& final(retries)@ == old(retries)@
                } else {
                    &&& r == NextLoad::Pick
                    &&& *final(self) == o
                    &&& final(retries)@ == old(retries)@
                }
            }),
            old(self).wf() ==> final(self).wf(),
    {
        if pending >= self.params.pipeline_depth || self.budget == 0 {
            return NextLoad::Done;
        }
        if let Some(fire) = retries.pop(self.params.endpoint_idx) {
            self.budget = self.budget - 1;
            return NextLoad::Retry(fire);
        }
        if self.backfill_queue.len() == 0 {
            return NextLoad::Pick;
        }
        match self.backfill_queue.pop() {
            Some(key) => {
                self.budget = self.budget - 1;
                NextLoad::Backfill(key)
            },
            None => NextLoad::Pick,
        }
    }

    /// The request that stores a key that missed.
    pub fn backfill_fire(&self, key_id: usize) -> (r: Fire)
        ensures
            r == (Fire {
                command: Command::Store,
                key_id,
                user_data: (key_id as u64) | reply::BACKFILL_MARKER,
            }),
    {
        Fire {
            command: Command::Store,
            key_id,
            user_data: reply::marked(key_id, Purpose::Backfill),
        }
    }

    /// How the next key is picked. A uniform draw from an endpoint's own list
    /// is a uniform draw from the keyspace; with skewed keys it would give
    /// every endpoint the same load, so those are drawn from the keyspace
    /// until one leads to the endpoint. So are all keys once a slot has moved,
    /// as the lists no longer say who owns them.
    pub fn draw_kind(&self, uniform: bool, moved: bool) -> (r: DrawKind)
        ensures
            r == if self.params.num_endpoints <= 1 {
                DrawKind::Any
            } else if self.params.flavor == Flavor::Resp && uniform && !moved {
                DrawKind::Listed
            } else {
                DrawKind::Routed
            },
    {
        if self.params.num_endpoints <= 1 {
            DrawKind::Any
        } else if self.params.flavor == Flavor::Resp && uniform && !moved {
            DrawKind::Listed
        } else {
            DrawKind::Routed
        }
    }

    /// The request for a picked key, by a roll out of the sum of the weights. It
    /// takes one of the round's tokens.
    pub fn fire_rolled(&mut self, key_id: usize, roll: usize) -> (r: Fire)
        requires
            old(self).budget > 0,
        ensures
            r == fire_for(old(self).params, key_id, roll as nat),
            *final(self) == (Driver { budget: (old(self).budget - 1) as usize, ..*old(self) }),
    {
        self.budget = self.budget - 1;
        let command = choose_command(roll, self.params.get_ratio, self.params.delete_ratio);
        let user_data: u64 = if command == Command::Get {
            key_id as u64
        } else {
            0
        };
        Fire { command, key_id, user_data }
    }

    /// The request for a picked key, by a random roll.
    pub fn fire_picked(&mut self, key_id: usize, rng: &mut Xoshiro256PlusPlus) -> (r: Fire)
        requires
            old(self).wf(),
            old(self).budget > 0,
        ensures
            exists|roll: nat|
                roll < old(self).params.weights() && r == #[trigger] fire_for(
                    old(self).params,
                    key_id,
                    roll,
                ),
            *final(self) == (Driver { budget: (old(self).budget - 1) as usize, ..*old(self) }),
    {
        let weights: usize = self.params.get_ratio as usize + self.params.set_ratio as usize
            + self.params.delete_ratio as usize;
        let roll: usize = keydist::draw(rng, 0, weights);
        let ghost g = roll as nat;
        let r = self.fire_rolled(key_id, roll);
        assert(r == fire_for(old(self).params, key_id, g));
        r
    }

    /// Where the value of a SET comes from. Small values are copied where the
    /// protocol can, as pinning the pool costs more than the copy.
    pub fn value_plan(&self, rng: &mut Xoshiro256PlusPlus) -> (r: ValuePlan)
        requires
            0 < self.params.value_len <= self.params.pool_len,
        ensures
            r.len == self.params.value_len,
            r.offset + r.len <= self.params.pool_len,
            r.zero_copy == (self.params.flavor == Flavor::Memcache || self.params.value_len
                >= ZC_VALUE_THRESHOLD),
    {
        ValuePlan {
            offset: value_offset(rng, self.params.value_len, self.params.pool_len),
            len: self.params.value_len,
            zero_copy: self.params.flavor == Flavor::Memcache || self.params.value_len
                >= ZC_VALUE_THRESHOLD,
        }
    }

    /// A request of the workload was fired.
    pub fn load_sent(&mut self, fire: Fire, fired_at: Duration)
        requires
            old(self).wf(),
        ensures
            final(self).wf(),
            final(self).sent@ == old(self).sent@.push(fire),
            final(self).inflight.fired@ == old(self).inflight.fired@.push(fired_at),
            final(self).inflight.timeout == old(self).inflight.timeout,
            final(self).inflight.timer == old(self).inflight.timer,
            *final(self) == (Driver {
                sent: final(self).sent,
                inflight: final(self).inflight,
                ..*old(self)
            }),
    {
        self.sent.push_back(fire);
        self.inflight.push(fired_at);
    }

    /// A backfill could not be fired: its key is kept for the next round.
    pub fn backfill_refused(&mut self, key_id: usize)
        ensures
            final(self).backfill_queue@ == old(self).backfill_queue@.push(key_id),
            *final(self) == (Driver { backfill_queue: final(self).backfill_queue, ..*old(self) }),
    {
        self.backfill_queue.push(key_id);
    }

    /// How to wait. With requests in flight, for a reply. Without, only a
    /// connection that the limiter has just turned away waits for tokens; any
    /// other polls.
    pub fn wait(&self, pending: usize, has_dispatcher: bool) -> (r: Wait)
        ensures
            r == if pending > 0 {
                Wait::Reply
            } else if has_dispatcher && self.turned_away {
                Wait::Tokens(self.params.batch_size as u64)
            } else {
                Wait::Nap(Duration { nanos: tokens::IDLE_SLEEP_MIN_NS })
            },
    {
        if pending > 0 {
            Wait::Reply
        } else if has_dispatcher && self.turned_away {
            Wait::Tokens(self.params.batch_size as u64)
        } else {
            Wait::Nap(Duration { nanos: tokens::IDLE_SLEEP_MIN_NS })
        }
    }

    /// The dispatcher settled this connection's claim. The tokens are charged
    /// already, so the next round spends them before it asks for more.
    pub fn tokens_granted(&mut self, granted: u64)
        requires
            old(self).wf(),
            granted <= usize::MAX,
        ensures
            final(self).wf(),
            *final(self) == (Driver { carried_tokens: granted, ..*old(self) }),
    {
        self.carried_tokens = granted;
    }

    /// Whether a reply is a miss to be backfilled.
    pub open spec fn backfills(self, result: RequestResult) -> bool {
        &&& self.params.backfill_on_miss
        &&& result.request_type == RequestType::Get
        &&& result.success
        &&& result.hit == Some(false)
        &&& self.backfill_queue@.len() < BACKFILL_QUEUE_CAP
        &&& result.key_id is Some
    }

    /// The prefill key that a reply answers: the oldest in flight.
    pub open spec fn answered(self, result: RequestResult) -> usize {
        if self.prefill_in_flight@.len() > 0 {
            self.prefill_in_flight@[0]
        } else {
            result.key_id->0
        }
    }

    /// Whether a reply sends its request to another node for good. A prefill
    /// key has its own way there: it is queued again.
    pub open spec fn moves(result: RequestResult) -> bool {
        &&& !result.prefill
        &&& result.redirect matches Some(r) && r.kind == RedirectKind::Moved
    }

    /// A reply arrived: the oldest request is answered. A prefill key is
    /// confirmed, or queued again when it was not stored; a miss is kept for
    /// backfill; a request that moved to another node is handed back.
    pub fn on_reply(
        &mut self,
        result: &RequestResult,
        queues: &mut PrefillQueues,
        worker: &mut WorkerProgress,
        shared: &mut SharedState,
    ) -> (r: ReplyEffects)
        requires
            old(self).wf(),
            result.prefill ==> result.key_id is Some,
            old(self).params.endpoint_idx < old(queues)@.len(),
        ensures
            final(self).wf(),
            final(self).inflight.fired@ == if old(self).inflight.fired@.len() > 0 {
                old(self).inflight.fired@.skip(1)
            } else {
                old(self).inflight.fired@
            },
            final(self).inflight.timeout == old(self).inflight.timeout,
            final(self).inflight.timer == old(self).inflight.timer,
            final(self).sent@ == if old(self).sent@.len() > 0 {
                old(self).sent@.skip(1)
            } else {
                old(self).sent@
            },
            final(self).prefill_in_flight@ == if result.prefill && old(
                self,
            ).prefill_in_flight@.len() > 0 {
                old(self).prefill_in_flight@.skip(1)
            } else {
                old(self).prefill_in_flight@
            },
            final(queues)@ == if result.prefill && !result.success {
                old(queues)@.update(
                    old(self).params.endpoint_idx as int,
                    old(queues)@[old(self).params.endpoint_idx as int].push(
                        old(self).answered(*result),
                    ),
                )
            } else {
                old(queues)@
            },
            result.prefill && result.success ==> {
                &&& *final(worker) == (WorkerProgress {
                    prefill_confirmed: crate::worker::counted(old(worker).prefill_confirmed, 1),
                    prefill_done: old(worker).prefill_done || old(worker).completes(),
                    ..*old(worker)
                })
                &&& *final(shared) == (SharedState {
                    prefill_keys_confirmed: crate::worker::counted(
                        old(shared).prefill_keys_confirmed,
                        1,
                    ),
                    prefill_complete: if old(worker).completes() {
                        crate::worker::counted(old(shared).prefill_complete, 1)
                    } else {
                        old(shared).prefill_complete
                    },
                    ..*old(shared)
                })
            },
            !(result.prefill && result.success) ==> *final(worker) == *old(worker)
                && *final(shared) == *old(shared),
            final(self).backfill_queue@ == if old(self).backfills(*result) {
                old(self).backfill_queue@.push(result.key_id->0)
            } else {
                old(self).backfill_queue@
            },
            *final(self) == (Driver {
                inflight: final(self).inflight,
                sent: final(self).sent,
                prefill_in_flight: final(self).prefill_in_flight,
                backfill_queue: final(self).backfill_queue,
                ..*old(self)
            }),
            r.retry == if Driver::moves(*result) && old(self).sent@.len() > 0 {
                Some(old(self).sent@[0])
            } else {
                None
            },
            r.backfill_stored == (result.backfill && result.request_type == RequestType::Store
                && result.success),
            r.counters == (CounterDeltas {
                responses: 1,
                errors: reply::one_if(result.redirect is None && result.is_error_response),
                hits: reply::one_if(result.hit == Some(true)),
                misses: reply::one_if(result.hit == Some(false)),
                gets: reply::one_if(result.request_type == RequestType::Get),
                sets: reply::one_if(result.request_type == RequestType::Store),
                deletes: reply::one_if(result.request_type == RequestType::Delete),
                redirects: reply::one_if(result.redirect is Some),
            }),
    {
        self.inflight.pop();
        let fire = self.sent.pop_front();
        assert(old(self).sent@.len() > 0 ==> self.sent@ =~= old(self).sent@.skip(1));
        let moved = !result.prefill && match &result.redirect {
            Some(r) => r.kind == RedirectKind::Moved,
            None => false,
        };
        if result.prefill {
            let oldest = self.prefill_in_flight.pop_front();
            assert(old(self).prefill_in_flight@.len() > 0 ==> self.prefill_in_flight@ =~= old(
                self,
            ).prefill_in_flight@.skip(1));
            let key: usize = match oldest {
                Some(k) => k,
                None => result.key_id.unwrap(),
            };
            if result.success {
                confirm_prefill_key(worker, shared);
            } else {
                queues.push_back(self.params.endpoint_idx, key);
            }
        }
        let miss = match result.hit {
            Some(h) => !h,
            None => false,
        };
        if self.params.backfill_on_miss && result.request_type == RequestType::Get && result.success
            && miss && self.backfill_queue.len() < BACKFILL_QUEUE_CAP {
            if let Some(k) = result.key_id {
                self.backfill_queue.push(k);
            }
        }
        ReplyEffects {
            backfill_stored: result.backfill && result.request_type == RequestType::Store
                && result.success,
            retry: if moved {
                fire
            } else {
                None
            },
            counters: reply::record_counters(result),
        }
    }

    /// The connection was lost: prefill keys in flight go back to the queues
    /// of their owners.
    pub fn on_disconnect(&mut self, queues: &mut PrefillQueues, routes: &Routes<'_>)
        requires
            routes.wf(),
            old(queues)@.len() >= routes.num_endpoints,
        ensures
            final(queues)@ == routing::handed_back(
                old(queues)@,
                *routes,
                old(self).prefill_in_flight@,
            ),
            final(queues)@.len() == old(queues)@.len(),
            final(self).prefill_in_flight@ == Seq::<usize>::empty(),
            *final(self) == (Driver {
                prefill_in_flight: final(self).prefill_in_flight,
                ..*old(self)
            }),
    {
        routing::requeue_drained(queues, routes, &mut self.prefill_in_flight);
    }

    /// The keys left to backfill, for the next connection.
    pub fn into_backfill(self) -> (r: Vec<usize>)
        ensures
            r == self.backfill_queue,
    {
        self.backfill_queue
    }
}

/// What a ping connection does in a round.
#[derive(Clone, Copy, Debug, PartialEq, Eq, Structural)]
pub enum PingTurn {
    /// The run is over.
    Stop,
    /// Wait a millisecond for the phase to advance; `mark_prefill` when this
    /// worker's prefill, of which there is none, is to be reported complete.
    Idle { mark_prefill: bool },
    /// Send a ping.
    Send,
}

/// Decides a round of a ping connection.
pub fn ping_turn(phase: Phase, prefill_done: bool) -> (r: PingTurn)
    ensures
        r == if phase == Phase::Stop {
            PingTurn::Stop
        } else if phase == Phase::Warmup || phase == Phase::Running {
            PingTurn::Send
        } else {
            PingTurn::Idle { mark_prefill: phase == Phase::Prefill && !prefill_done }
        },
{
    if phase.should_stop() {
        PingTurn::Stop
    } else if phase == Phase::Warmup || phase == Phase::Running {
        PingTurn::Send
    } else {
        PingTurn::Idle { mark_prefill: phase == Phase::Prefill && !prefill_done }
    }
}

/// How often a key is queued or in flight.
pub open spec fn held(queues: Seq<Seq<usize>>, in_flight: Seq<usize>, key: usize) -> nat {
    crate::worker::queues::queued(queues, key) + in_flight.to_multiset().count(key)
}

proof fn lemma_oldest(in_flight: Seq<usize>, key: usize)
    requires
        in_flight.len() > 0,
    ensures
        in_flight.to_multiset().count(key) == in_flight.skip(1).to_multiset().count(key) + if key
            == in_flight[0] {
            1nat
        } else {
            0
        },
{
    broadcast use vstd::seq_lib::group_to_multiset_ensures;

    let first = in_flight[0];
    assert(seq![first] + in_flight.skip(1) =~= in_flight);
    vstd::seq_lib::lemma_multiset_commutative(seq![first], in_flight.skip(1));
    assert(seq![first] =~= Seq::<usize>::empty().push(first));
}

/// No prefill key is lost or doubled on its way: firing one, having it
/// refused, having it fail and losing the connection leave every key queued or
/// in flight as often as before. Only a reply that confirms a key takes it out.
pub proof fn prefill_keys_are_conserved(
    queues: Seq<Seq<usize>>,
    in_flight: Seq<usize>,
    routes: Routes<'_>,
    ep: int,
    key: usize,
)
    requires
        0 <= ep < queues.len(),
        forall|id: usize| #[trigger] routes.leads_to(id) < queues.len(),
    ensures
        ({
            let (after, got) = routing::taken(queues, routes, ep);
            match got {
                Some(k) => held(after, in_flight.push(k), key) == held(queues, in_flight, key),
                None => held(after, in_flight, key) == held(queues, in_flight, key),
            }
        }),
        ({
            let (after, got) = routing::taken(queues, routes, ep);
            got matches Some(k) ==> held(
                after.update(ep, seq![k] + after[ep]),
                in_flight,
                key,
            ) == held(queues, in_flight, key)
        }),
        in_flight.len() > 0 ==> held(
            queues.update(ep, queues[ep].push(in_flight[0])),
            in_flight.skip(1),
            key,
        ) == held(queues, in_flight, key),
        in_flight.len() > 0 ==> held(queues, in_flight, key) == held(
            queues,
            in_flight.skip(1),
            key,
        ) + if key == in_flight[0] {
            1nat
        } else {
            0
        },
        held(routing::handed_back(queues, routes, in_flight), Seq::empty(), key) == held(
            queues,
            in_flight,
            key,
        ),
{
    broadcast use vstd::seq_lib::group_to_multiset_ensures;

    let (after, got) = routing::taken(queues, routes, ep);
    routing::taking_loses_no_key(queues, routes, ep, key);
    if let Some(k) = got {
        crate::worker::queues::pushing_queues_once(after, ep, k, key);
    }
    if in_flight.len() > 0 {
        lemma_oldest(in_flight, key);
        crate::worker::queues::pushing_queues_once(queues, ep, in_flight[0], key);
    }
    routing::handing_back_loses_no_key(queues, routes, in_flight, key);
}

/// A request of the workload carries its key id only as a GET does, for a miss
/// to be backfilled; the key is the picked one whatever the roll.
pub proof fn only_gets_carry_their_key(p: DriveParams, key_id: usize, roll: nat)
    ensures
        ({
            let f = fire_for(p, key_id, roll);
            &&& f.key_id == key_id
            &&& f.command == Command::Get <==> roll < p.get_ratio
            &&& f.command == Command::Delete <==> p.get_ratio <= roll < p.get_ratio + p.delete_ratio
            &&& f.command == Command::Get ==> f.user_data == key_id
            &&& f.command != Command::Get ==> f.user_data == 0
        }),
{
}

/// A round fires only where a whole batch fits into the pipeline beside what is
/// pending.
pub proof fn a_round_has_room_for_a_batch(d: Driver, pending: usize)
    requires
        d.params.batch_size > 0,
    ensures
        d.wants_fire(pending) <==> pending + d.params.batch_size <= d.params.pipeline_depth,
{
}

/// Prefill has no more SETs in flight than the pipeline is deep, and no more than
/// sixteen.
pub proof fn prefill_is_no_deeper_than_the_pipeline(d: Driver)
    ensures
        d.prefill_depth() <= d.params.pipeline_depth,
        d.prefill_depth() <= PREFILL_IN_FLIGHT,
        d.prefill_depth() == d.params.pipeline_depth || d.prefill_depth() == PREFILL_IN_FLIGHT,
{
}

/// A key is backfilled exactly when backfill is on, its GET succeeded and missed,
/// its id is known and there is room for it. No other reply is.
pub proof fn only_misses_are_backfilled(d: Driver, result: RequestResult)
    ensures
        d.backfills(result) ==> d.params.backfill_on_miss && result.hit == Some(false)
            && result.success && result.request_type == RequestType::Get && result.key_id is Some
            && d.backfill_queue@.len() < BACKFILL_QUEUE_CAP,
        d.params.backfill_on_miss && result.hit == Some(false) && result.success
            && result.request_type == RequestType::Get && result.key_id is Some
            && d.backfill_queue@.len() < BACKFILL_QUEUE_CAP ==> d.backfills(result),
{
}

/// A reply that is not of prefill moves its request exactly when it is a
/// permanent redirect: an ASK does not.
pub proof fn only_permanent_redirects_move(result: RequestResult)
    ensures
        Driver::moves(result) ==> !result.prefill && result.redirect is Some
            && result.redirect->0.kind == RedirectKind::Moved,
        result.redirect is None ==> !Driver::moves(result),
        result.redirect matches Some(r) && r.kind == RedirectKind::Ask ==> !Driver::moves(result),
        !result.prefill && (result.redirect matches Some(r) && r.kind == RedirectKind::Moved)
            ==> Driver::moves(result),
{
}

/// Prefill replies come in order: the key that a reply answers is the one that
/// was fired first of those in flight.
pub proof fn replies_answer_the_oldest_key(d: Driver, key: usize, result: RequestResult)
    requires
        d.prefill_in_flight@.len() > 0,
        d.prefill_in_flight@[0] == key,
    ensures
        d.answered(result) == key,
{
}

} // verus!
