//! The append stream: connections that write batches of new keys.
//!
//! The stream is a role with its own connections. A writer drains the append
//! queue of its endpoint: take ids, fire SETs, confirm on response, queue
//! again on failure. Batches are enqueued one at a time, and the new keyspace
//! head is published once every SET of a batch is confirmed.

use crate::client::RequestResult;
use crate::time::Duration;
use crate::worker::drive::{Command, Fire};
use crate::worker::inflight::InFlight;
use crate::worker::queues::PrefillQueues;
use crate::worker::reply;
use crate::worker::reply::Purpose;
use crate::worker::routing;
use crate::worker::routing::Routes;
use crate::worker::{Phase, SharedState};
use std::collections::VecDeque;
use vstd::prelude::*;

verus! {

/// The state of one writer connection.
pub struct AppendWriter {
    pub endpoint_idx: usize,
    pub num_endpoints: usize,
    pub pipeline_depth: usize,
    /// SETs that may still be fired in this round.
    pub budget: usize,
    /// Keys in flight, oldest first.
    pub in_flight: VecDeque<usize>,
    /// Everything in flight, with its deadline.
    pub inflight: InFlight,
}

/// What a writer's round begins with.
#[derive(Clone, Copy, Debug, PartialEq, Eq, Structural)]
pub enum AppendTurn {
    /// The run is over.
    Stop,
    /// There are keys to write and this much room in the pipeline.
    Fire { free: usize },
    /// There is nothing to fire.
    Idle,
}

/// How a writer waits.
#[derive(Clone, Copy, Debug, PartialEq, Eq, Structural)]
pub enum AppendWait {
    /// For a reply.
    Reply,
    /// A millisecond, between batches or paced out.
    Nap(Duration),
}

impl AppendWriter {
    /// What every state keeps.
    pub open spec fn wf(self) -> bool {
        self.endpoint_idx < self.num_endpoints
    }

    /// A writer whose connection was just established.
    pub fn new(
        endpoint_idx: usize,
        num_endpoints: usize,
        pipeline_depth: usize,
        request_timeout: Duration,
    ) -> (r: Self)
        requires
            endpoint_idx < num_endpoints,
        ensures
            r.wf(),
            r.endpoint_idx == endpoint_idx,
            r.num_endpoints == num_endpoints,
            r.pipeline_depth == pipeline_depth,
            r.budget == 0,
            r.in_flight@ == Seq::<usize>::empty(),
            r.inflight.fired@ == Seq::<Duration>::empty(),
            r.inflight.timeout == request_timeout,
            r.inflight.timer is None,
    {
        AppendWriter {
            endpoint_idx,
            num_endpoints,
            pipeline_depth,
            budget: 0,
            in_flight: VecDeque::new(),
            inflight: InFlight::new(request_timeout, pipeline_depth),
        }
    }

    /// Begins a round.
    pub fn begin(&self, phase: Phase, pending: usize, queues: &PrefillQueues) -> (r: AppendTurn)
        requires
            self.endpoint_idx < queues@.len(),
        ensures
            r == if phase == Phase::Stop {
                AppendTurn::Stop
            } else if pending < self.pipeline_depth && queues@[self.endpoint_idx as int].len() > 0 {
                AppendTurn::Fire { free: (self.pipeline_depth - pending) as usize }
            } else {
                AppendTurn::Idle
            },
    {
        if phase.should_stop() {
            return AppendTurn::Stop;
        }
        let free: usize = self.pipeline_depth.saturating_sub(pending);
        if free > 0 && !queues.is_empty(self.endpoint_idx) {
            AppendTurn::Fire { free }
        } else {
            AppendTurn::Idle
        }
    }

    /// Sets how many SETs this round may fire.
    pub fn open_round(&mut self, budget: usize)
        ensures
            *final(self) == (AppendWriter { budget, ..*old(self) }),
    {
        self.budget = budget;
    }

    /// The next key to write, while the round's budget and the pipeline have
    /// room. A key that is fired takes one of the budget; one that is handed
    /// to another endpoint takes none.
    pub fn next(&mut self, queues: &mut PrefillQueues, routes: &Routes<'_>, pending: usize) -> (r:
        Option<Fire>)
        requires
            old(self).wf(),
            routes.wf(),
            routes.num_endpoints == old(self).num_endpoints,
            old(queues)@.len() >= routes.num_endpoints,
        ensures
            final(self).wf(),
            final(queues)@.len() == old(queues)@.len(),
            ({
                let o = *old(self);
                let (after, key) = routing::taken(old(queues)@, *routes, o.endpoint_idx as int);
                if o.budget == 0 || pending >= o.pipeline_depth {
                    r is None && *final(self) == o && final(queues)@ == old(queues)@
                } else {
                    &&& final(queues)@ == after
                    &&& match key {
                        None => r is None && *final(self) == o,
                        Some(k) => {
                            &&& r == Some(
                                Fire {
                                    command: Command::Store,
                                    key_id: k,
                                    user_data: (k as u64) | reply::APPEND_MARKER,
                                },
                            )
                            &&& *final(self) == (AppendWriter {
                                budget: (o.budget - 1) as usize,
                                ..o
                            })
                        },
                    }
                }
            }),
    {
        if self.budget == 0 || pending >= self.pipeline_depth {
            return None;
        }
        match routing::take_owned(queues, routes, self.endpoint_idx) {
            None => None,
            Some(k) => {
                self.budget = self.budget - 1;
                Some(
                    Fire {
                        command: Command::Store,
                        key_id: k,
                        user_data: reply::marked(k, Purpose::Append),
                    },
                )
            },
        }
    }

    /// A key was fired.
    pub fn sent(&mut self, key_id: usize, fired_at: Duration)
        ensures
            final(self).in_flight@ == old(self).in_flight@.push(key_id),
            final(self).inflight.fired@ == old(self).inflight.fired@.push(fired_at),
            final(self).inflight.timeout == old(self).inflight.timeout,
            final(self).inflight.timer == old(self).inflight.timer,
            *final(self) == (AppendWriter {
                in_flight: final(self).in_flight,
                inflight: final(self).inflight,
                ..*old(self)
            }),
    {
        self.in_flight.push_back(key_id);
        self.inflight.push(fired_at);
    }

    /// A key could not be fired: it goes back to the front of its queue.
    pub fn refused(&self, queues: &mut PrefillQueues, key_id: usize)
        requires
            self.endpoint_idx < old(queues)@.len(),
        ensures
            final(queues)@ == old(queues)@.update(
                self.endpoint_idx as int,
                seq![key_id] + old(queues)@[self.endpoint_idx as int],
            ),
    {
        queues.push_front(self.endpoint_idx, key_id);
    }

    /// How to wait: for a reply, or a millisecond when nothing is in flight.
    pub fn wait(&self, pending: usize) -> (r: AppendWait)
        ensures
            r == if pending > 0 {
                AppendWait::Reply
            } else {
                AppendWait::Nap(Duration { nanos: 1_000_000 })
            },
    {
        if pending > 0 {
            AppendWait::Reply
        } else {
            AppendWait::Nap(Duration { nanos: 1_000_000 })
        }
    }

    /// The key that a reply answers: the oldest in flight.
    pub open spec fn answered(self, result: RequestResult) -> usize {
        if self.in_flight@.len() > 0 {
            self.in_flight@[0]
        } else {
            result.key_id->0
        }
    }

    /// A reply arrived: the key is confirmed, or queued again when it was not
    /// stored. Returns whether an append SET failed.
    pub fn on_reply(
        &mut self,
        result: &RequestResult,
        queues: &mut PrefillQueues,
        shared: &mut SharedState,
    ) -> (r: bool)
        requires
            old(self).wf(),
            result.append ==> result.key_id is Some,
            old(self).endpoint_idx < old(queues)@.len(),
        ensures
            final(self).wf(),
            r == (result.append && !result.success),
            final(self).inflight.fired@ == if old(self).inflight.fired@.len() > 0 {
                old(self).inflight.fired@.skip(1)
            } else {
                old(self).inflight.fired@
            },
            final(self).inflight.timeout == old(self).inflight.timeout,
            final(self).inflight.timer == old(self).inflight.timer,
            final(self).in_flight@ == if result.append && old(self).in_flight@.len() > 0 {
                old(self).in_flight@.skip(1)
            } else {
                old(self).in_flight@
            },
            final(queues)@ == if r {
                old(queues)@.update(
                    old(self).endpoint_idx as int,
                    old(queues)@[old(self).endpoint_idx as int].push(old(self).answered(*result)),
                )
            } else {
                old(queues)@
            },
            *final(shared) == if result.append && result.success {
                SharedState {
                    append_keys_confirmed: crate::worker::counted(
                        old(shared).append_keys_confirmed,
                        1,
                    ),
                    ..*old(shared)
                }
            } else {
                *old(shared)
            },
            *final(self) == (AppendWriter {
                inflight: final(self).inflight,
                in_flight: final(self).in_flight,
                ..*old(self)
            }),
    {
        self.inflight.pop();
        if !result.append {
            return false;
        }
        let oldest = self.in_flight.pop_front();
        assert(old(self).in_flight@.len() > 0 ==> self.in_flight@ =~= old(self).in_flight@.skip(1));
        let key: usize = match oldest {
            Some(k) => k,
            None => result.key_id.unwrap(),
        };
        if result.success {
            shared.confirm_append_key();
            false
        } else {
            queues.push_back(self.endpoint_idx, key);
            true
        }
    }

    /// The connection was lost: keys in flight go back to the queues of their
    /// owners.
    pub fn on_disconnect(&mut self, queues: &mut PrefillQueues, routes: &Routes<'_>)
        requires
            routes.wf(),
            old(queues)@.len() >= routes.num_endpoints,
        ensures
            final(queues)@ == routing::handed_back(old(queues)@, *routes, old(self).in_flight@),
            final(queues)@.len() == old(queues)@.len(),
            final(self).in_flight@ == Seq::<usize>::empty(),
            *final(self) == (AppendWriter { in_flight: final(self).in_flight, ..*old(self) }),
    {
        routing::requeue_drained(queues, routes, &mut self.in_flight);
    }
}

} // verus!
