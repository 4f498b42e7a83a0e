//! The life of one connection: establish, negotiate, check, drive, retry.

use crate::config::Protocol;
use crate::time::Duration;
use crate::worker::{DisconnectReason, Phase};
use vstd::prelude::*;

verus! {

/// What a connection is for.
#[derive(Clone, Copy, Debug, PartialEq, Eq, Structural)]
pub enum Role {
    /// It runs the workload.
    Reader,
    /// It writes the append stream.
    Writer,
}

/// How a connection shows that its server is there.
#[derive(Clone, Copy, Debug, PartialEq, Eq, Structural)]
pub enum Probe {
    /// A PING.
    Ping,
    /// A VERSION.
    Version,
    /// Being connected is enough.
    Connected,
}

/// The probe of a protocol. The binary Memcache protocol has none: some
/// servers drop the connection on it.
pub fn probe_of(protocol: Protocol) -> (r: Probe)
    ensures
        r == match protocol {
            Protocol::Resp | Protocol::Resp3 | Protocol::Ping => Probe::Ping,
            Protocol::Memcache => Probe::Version,
            Protocol::MemcacheBinary => Probe::Connected,
        },
{
    match protocol {
        Protocol::Resp => Probe::Ping,
        Protocol::Resp3 => Probe::Ping,
        Protocol::Ping => Probe::Ping,
        Protocol::Memcache => Probe::Version,
        Protocol::MemcacheBinary => Probe::Connected,
    }
}

/// What happened to a connection.
#[derive(Clone, Copy, Debug, PartialEq, Eq, Structural)]
pub enum Event {
    /// Nothing yet: the task starts or comes back from a pause.
    Idle,
    /// The attempt could not even be made.
    NotInitiated,
    /// The attempt failed or took too long.
    ConnectFailed,
    /// The connection is established.
    Connected,
    /// The protocol was negotiated, or not.
    Negotiated { ok: bool },
    /// The probe was answered, or not.
    Probed { ok: bool },
    /// A poll of the phase is due.
    Polled,
    /// The workload ended.
    Driven { lost: Option<DisconnectReason> },
}

/// What a connection's task does next.
#[derive(Clone, Copy, Debug, PartialEq, Eq, Structural)]
pub enum Action {
    /// End the task.
    Finish,
    /// Try to connect.
    Connect,
    /// Negotiate RESP3.
    Negotiate,
    /// Send the probe.
    Probe(Probe),
    /// Look at the phase again after this time.
    Poll(Duration),
    /// Drive the workload.
    Drive,
    /// Start over after this time.
    Retry(Duration),
}

/// What an event adds to the metrics and to the worker's progress.
#[derive(Clone, Copy, Debug, PartialEq, Eq, Structural)]
pub struct ConnectEffects {
    /// The connection became active.
    pub opened: bool,
    /// The connection is no longer active.
    pub closed: bool,
    /// The connection counts as failed.
    pub failed: bool,
    /// Why it was lost.
    pub lost: Option<DisconnectReason>,
    /// The worker's precheck is complete.
    pub precheck_ok: bool,
}

/// No effect.
pub open spec fn no_effects() -> ConnectEffects {
    ConnectEffects { opened: false, closed: false, failed: false, lost: None, precheck_ok: false }
}

/// The pause before a connection is tried again: 100 milliseconds.
pub const RETRY_NS: u128 = 100_000_000;

/// The pause between looks at the phase: 10 milliseconds.
pub const POLL_NS: u128 = 10_000_000;

/// What decides the steps of a connection.
#[derive(Clone, Copy, Debug, PartialEq, Eq, Structural)]
pub struct ConnectParams {
    pub role: Role,
    pub protocol: Protocol,
}

impl ConnectParams {
    /// The probe of the connection's protocol.
    pub open spec fn probe(self) -> Probe {
        match self.protocol {
            Protocol::Resp | Protocol::Resp3 | Protocol::Ping => Probe::Ping,
            Protocol::Memcache => Probe::Version,
            Protocol::MemcacheBinary => Probe::Connected,
        }
    }

    /// Once it can talk: the first connections of a worker are checked during
    /// the precheck, all others go to work.
    pub open spec fn talking(self, phase: Phase, precheck_done: bool) -> (Action, bool) {
        if self.role == Role::Reader && phase == Phase::Precheck && !precheck_done {
            if self.probe() == Probe::Connected {
                (Action::Poll(Duration { nanos: POLL_NS }), true)
            } else {
                (Action::Probe(self.probe()), false)
            }
        } else {
            (Action::Drive, false)
        }
    }

    /// What follows an event.
    pub open spec fn next_spec(self, phase: Phase, precheck_done: bool, event: Event) -> (
        Action,
        ConnectEffects,
    ) {
        let retry = Action::Retry(Duration { nanos: RETRY_NS });
        let dropped = ConnectEffects { closed: true, failed: true, ..no_effects() };
        match event {
            Event::Idle => (
                if phase == Phase::Stop {
                    Action::Finish
                } else {
                    Action::Connect
                },
                no_effects(),
            ),
            Event::NotInitiated => (retry, ConnectEffects { failed: true, ..no_effects() }),
            Event::ConnectFailed => (
                retry,
                ConnectEffects {
                    failed: true,
                    lost: Some(DisconnectReason::ConnectFailed),
                    ..no_effects()
                },
            ),
            Event::Connected => if self.protocol == Protocol::Resp3 {
                (Action::Negotiate, ConnectEffects { opened: true, ..no_effects() })
            } else {
                let (action, precheck_ok) = self.talking(phase, precheck_done);
                (action, ConnectEffects { opened: true, precheck_ok, ..no_effects() })
            },
            Event::Negotiated { ok } => if ok {
                let (action, precheck_ok) = self.talking(phase, precheck_done);
                (action, ConnectEffects { precheck_ok, ..no_effects() })
            } else {
                (retry, dropped)
            },
            Event::Probed { ok } => if ok {
                (
                    if phase == Phase::Precheck {
                        Action::Poll(Duration { nanos: POLL_NS })
                    } else {
                        Action::Drive
                    },
                    ConnectEffects { precheck_ok: true, ..no_effects() },
                )
            } else {
                (retry, dropped)
            },
            Event::Polled => (
                if phase == Phase::Precheck {
                    Action::Poll(Duration { nanos: POLL_NS })
                } else {
                    Action::Drive
                },
                no_effects(),
            ),
            Event::Driven { lost } => (
                if lost is None {
                    Action::Finish
                } else {
                    retry
                },
                ConnectEffects { closed: true, lost, ..no_effects() },
            ),
        }
    }

    /// Decides what follows an event on a connection.
    pub fn next(&self, phase: Phase, precheck_done: bool, event: Event) -> (r: (
        Action,
        ConnectEffects,
    ))
        ensures
            r == self.next_spec(phase, precheck_done, event),
    {
        let mut fx = ConnectEffects {
            opened: false,
            closed: false,
            failed: false,
            lost: None,
            precheck_ok: false,
        };
        let retry = Action::Retry(Duration { nanos: RETRY_NS });
        match event {
            Event::Idle => if phase.should_stop() {
                (Action::Finish, fx)
            } else {
                (Action::Connect, fx)
            },
            Event::NotInitiated => {
                fx.failed = true;
                (retry, fx)
            },
            Event::ConnectFailed => {
                fx.failed = true;
                fx.lost = Some(DisconnectReason::ConnectFailed);
                (retry, fx)
            },
            Event::Connected => {
                fx.opened = true;
                if self.protocol == Protocol::Resp3 {
                    return (Action::Negotiate, fx);
                }
                let (action, precheck_ok) = self.once_talking(phase, precheck_done);
                fx.precheck_ok = precheck_ok;
                (action, fx)
            },
            Event::Negotiated { ok } => {
                if !ok {
                    fx.closed = true;
                    fx.failed = true;
                    return (retry, fx);
                }
                let (action, precheck_ok) = self.once_talking(phase, precheck_done);
                fx.precheck_ok = precheck_ok;
                (action, fx)
            },
            Event::Probed { ok } => {
                if !ok {
                    fx.closed = true;
                    fx.failed = true;
                    return (retry, fx);
                }
                fx.precheck_ok = true;
                if phase == Phase::Precheck {
                    (Action::Poll(Duration { nanos: POLL_NS }), fx)
                } else {
                    (Action::Drive, fx)
                }
            },
            Event::Polled => if phase == Phase::Precheck {
                (Action::Poll(Duration { nanos: POLL_NS }), fx)
            } else {
                (Action::Drive, fx)
            },
            Event::Driven { lost } => {
                fx.closed = true;
                fx.lost = lost;
                if lost.is_none() {
                    (Action::Finish, fx)
                } else {
                    (retry, fx)
                }
            },
        }
    }

    fn once_talking(&self, phase: Phase, precheck_done: bool) -> (r: (Action, bool))
        ensures
            r == self.talking(phase, precheck_done),
    {
        if self.role == Role::Reader && phase == Phase::Precheck && !precheck_done {
            let probe = probe_of(self.protocol);
            if probe == Probe::Connected {
                (Action::Poll(Duration { nanos: POLL_NS }), true)
            } else {
                (Action::Probe(probe), false)
            }
        } else {
            (Action::Drive, false)
        }
    }
}

/// A connection that opened closes again before it is retried or finished:
/// every event that leads to either either closes it or comes before it
/// opened.
pub proof fn connections_close_before_retry(
    p: ConnectParams,
    phase: Phase,
    precheck_done: bool,
    event: Event,
)
    ensures
        ({
            let (action, fx) = p.next_spec(phase, precheck_done, event);
            let over = action is Retry || action is Finish;
            &&& over ==> fx.closed || event is Idle || event is NotInitiated || event
                is ConnectFailed
            &&& fx.closed ==> over
            &&& fx.opened <==> event is Connected
        }),
{
}

/// Resolve the TLS server name for an endpoint: none without TLS, else the
/// explicit hostname, else the endpoint's IP address.
pub fn resolve_tls_server_name(tls: bool, hostname: &Option<String>, ip: &str) -> (r: Option<
    String,
>)
    ensures
        !tls ==> r is None,
        tls ==> r is Some && r->0@ == match *hostname {
            Some(h) => h@,
            None => ip@,
        },
{
    if !tls {
        return None;
    }
    match hostname {
        Some(h) => Some(h.clone()),
        None => Some(ip.to_owned()),
    }
}

/// A connection that could not be made or used counts as failed, and one that
/// was lost does not; either is tried again after a tenth of a second. Only a
/// connection that was established and is lost, or could not be used, closes.
pub proof fn failures_are_retried(
    p: ConnectParams,
    phase: Phase,
    precheck_done: bool,
    event: Event,
)
    ensures
        ({
            let (action, fx) = p.next_spec(phase, precheck_done, event);
            let unusable = event == (Event::Negotiated { ok: false }) || event == (Event::Probed {
                ok: false,
            });
            let unmade = event is NotInitiated || event is ConnectFailed;
            let gone = event matches Event::Driven { lost } && lost is Some;
            &&& action is Retry <==> unusable || unmade || gone
            &&& action matches Action::Retry(d) ==> d.nanos == 100 * 1_000_000
            &&& fx.failed <==> unusable || unmade
            &&& fx.closed <==> unusable || event is Driven
            &&& fx.lost == match event {
                Event::ConnectFailed => Some(DisconnectReason::ConnectFailed),
                Event::Driven { lost } => lost,
                _ => None,
            }
            &&& action is Finish <==> (event is Idle && phase == Phase::Stop) || event == (
            Event::Driven { lost: None })
        }),
{
}

/// A connection drives the workload once it can talk, unless it is a reader
/// during the precheck: such a one is probed first, where the protocol has a
/// probe and no other connection of the worker has passed, and then looks at
/// the phase every hundredth of a second until the precheck is over.
pub proof fn readers_are_prechecked(
    p: ConnectParams,
    phase: Phase,
    precheck_done: bool,
    event: Event,
)
    requires
        event is Connected && p.protocol != Protocol::Resp3 || event == (Event::Negotiated {
            ok: true,
        }),
    ensures
        ({
            let (action, fx) = p.next_spec(phase, precheck_done, event);
            let checks = p.role == Role::Reader && phase == Phase::Precheck && !precheck_done;
            let silent = p.protocol == Protocol::MemcacheBinary;
            &&& action == Action::Drive <==> !checks
            &&& checks && !silent ==> !fx.precheck_ok && action == Action::Probe(
                if p.protocol == Protocol::Memcache {
                    Probe::Version
                } else {
                    Probe::Ping
                },
            )
            &&& checks && silent ==> action == Action::Poll(Duration { nanos: 10_000_000 })
            &&& fx.precheck_ok <==> checks && silent
        }),
{
}

/// RESP3 is negotiated right after connecting, and no other protocol is.
pub proof fn only_resp3_is_negotiated(p: ConnectParams, phase: Phase, precheck_done: bool, event: Event)
    ensures
        p.next_spec(phase, precheck_done, event).0 is Negotiate <==> event is Connected
            && p.protocol == Protocol::Resp3,
{
}

/// A probe that was answered completes the precheck, and the connection goes to
/// work as soon as the phase is another one.
pub proof fn work_starts_after_the_precheck(p: ConnectParams, phase: Phase, precheck_done: bool)
    ensures
        ({
            let (polled, none) = p.next_spec(phase, precheck_done, Event::Polled);
            let (probed, fx) = p.next_spec(phase, precheck_done, Event::Probed { ok: true });
            &&& polled == probed
            &&& phase == Phase::Precheck ==> polled == Action::Poll(
                Duration { nanos: 10_000_000 },
            )
            &&& phase != Phase::Precheck ==> polled == Action::Drive
            &&& fx.precheck_ok && !none.precheck_ok
        }),
{
}

} // verus!
