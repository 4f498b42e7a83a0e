//! Requests in flight on one connection, and their deadline.
//!
//! Replies on a pipelined connection are ordered, so a stalled head stalls
//! every request behind it, and the only recovery is to abandon the
//! connection: count everything in flight as timed out, close, reconnect.

use crate::time::Duration;
use std::collections::VecDeque;
use vstd::prelude::*;

verus! {

/// Fire times of the requests in flight on one connection, oldest first.
/// Replies are FIFO, so the front entry is always the request the next reply
/// answers, and its age is the age of the oldest outstanding request.
///
/// Also keeps when the connection's deadline timer fires. The timer outlives
/// individual replies: it is armed for the oldest request's deadline and left
/// running when that request's reply arrives. The oldest request only gets
/// younger as replies arrive, so a running timer never fires later than the
/// true deadline.
pub struct InFlight {
    /// When each request was fired.
    pub fired: VecDeque<Duration>,
    /// How long a request may take; zero disables the deadline.
    pub timeout: Duration,
    /// When the running timer fires.
    pub timer: Option<Duration>,
}

/// How the next reply is awaited.
#[derive(Clone, Copy, Debug, PartialEq, Eq, Structural)]
pub enum Await {
    /// Without a bound: nothing is in flight or the timeout is disabled.
    Unbounded,
    /// Under the timer that is already running.
    Running,
    /// Under a timer to be armed for this time.
    Arm(Duration),
}

/// What a fired timer means.
#[derive(Clone, Copy, Debug, PartialEq, Eq, Structural)]
pub enum TimerFired {
    /// The oldest request has time left: arm the timer for it.
    Rearm(Duration),
    /// The oldest request has expired, and with it all that are in flight.
    Expired { requests: usize },
}

impl InFlight {
    /// Requests are fired in order.
    pub open spec fn ordered(self) -> bool {
        forall|i: int, j: int|
            0 <= i <= j < self.fired@.len() ==> self.fired@[i].nanos <= self.fired@[j].nanos
    }

    /// A running timer fires no later than the oldest request's deadline.
    pub open spec fn timely(self) -> bool {
        self.fired@.len() > 0 && self.timeout.nanos > 0 ==> (self.timer matches Some(t) ==> t.nanos
            <= self.fired@[0].nanos + self.timeout.nanos)
    }

    /// The time left before the oldest request expires.
    pub open spec fn left(self, now: Duration) -> Option<Duration> {
        if self.timeout.nanos == 0 || self.fired@.len() == 0 {
            None
        } else {
            Some(self.timeout.less(now.less(self.fired@[0])))
        }
    }

    /// Nothing in flight.
    pub fn new(timeout: Duration, capacity: usize) -> (r: Self)
        ensures
            r.fired@ == Seq::<Duration>::empty(),
            r.timeout == timeout,
            r.timer is None,
            r.ordered(),
            r.timely(),
    {
        InFlight { fired: VecDeque::with_capacity(capacity), timeout, timer: None }
    }

    /// A request was fired.
    pub fn push(&mut self, fired_at: Duration)
        ensures
            final(self).fired@ == old(self).fired@.push(fired_at),
            final(self).timeout == old(self).timeout,
            final(self).timer == old(self).timer,
            old(self).ordered() && (old(self).fired@.len() > 0 ==> old(self).fired@.last().nanos
                <= fired_at.nanos) ==> final(self).ordered(),
            old(self).timely() && (old(self).fired@.len() > 0 || (old(self).timer matches Some(t)
                ==> t.nanos <= fired_at.nanos + old(self).timeout.nanos)) ==> final(self).timely(),
    {
        self.fired.push_back(fired_at);
    }

    /// The oldest request was answered.
    pub fn pop(&mut self)
        ensures
            final(self).fired@ == if old(self).fired@.len() > 0 {
                old(self).fired@.skip(1)
            } else {
                old(self).fired@
            },
            final(self).timeout == old(self).timeout,
            final(self).timer == old(self).timer,
            old(self).ordered() ==> final(self).ordered(),
            old(self).ordered() && old(self).timely() ==> final(self).timely(),
    {
        let _ = self.fired.pop_front();
        assert(old(self).fired@.len() > 0 ==> self.fired@ =~= old(self).fired@.skip(1));
    }

    /// How many requests are in flight.
    pub fn len(&self) -> (r: usize)
        ensures
            r == self.fired@.len(),
    {
        self.fired.len()
    }

    /// Time left before the oldest in-flight request expires. `None` when no
    /// deadline applies (timeout disabled, or nothing in flight); zero when it
    /// has already expired.
    pub fn remaining(&self, now: Duration) -> (r: Option<Duration>)
        ensures
            r == self.left(now),
    {
        if self.timeout.is_zero() || self.fired.len() == 0 {
            return None;
        }
        let oldest: Duration = self.fired[0];
        Some(self.timeout.saturating_sub(now.saturating_sub(oldest)))
    }

    /// How to await the next reply at `now`. A timer left armed from an
    /// earlier reply keeps running.
    pub fn before_recv(&self, now: Duration) -> (r: Await)
        ensures
            r == match self.left(now) {
                None => Await::Unbounded,
                Some(d) => if self.timer is Some {
                    Await::Running
                } else {
                    Await::Arm(d)
                },
            },
    {
        match self.remaining(now) {
            None => Await::Unbounded,
            Some(d) => if self.timer.is_some() {
                Await::Running
            } else {
                Await::Arm(d)
            },
        }
    }

    /// The timer was armed at `now` to fire after `after`.
    pub fn armed(&mut self, now: Duration, after: Duration)
        requires
            now.nanos + after.nanos <= u128::MAX,
        ensures
            final(self).timer == Some(Duration { nanos: (now.nanos + after.nanos) as u128 }),
            final(self).fired@ == old(self).fired@,
            final(self).timeout == old(self).timeout,
            old(self).ordered() ==> final(self).ordered(),
            old(self).left(now) == Some(after) && old(self).fired@[0].nanos <= now.nanos
                && after.nanos > 0 ==> final(self).timely(),
    {
        self.timer = Some(Duration { nanos: now.nanos + after.nanos });
    }

    /// The timer fired at `now`: it is no longer running. Either the oldest
    /// request has time left, or it has expired.
    pub fn timer_fired(&mut self, now: Duration) -> (r: TimerFired)
        ensures
            final(self).timer is None,
            final(self).fired@ == old(self).fired@,
            final(self).timeout == old(self).timeout,
            final(self).timely(),
            old(self).ordered() ==> final(self).ordered(),
            r == match old(self).left(now) {
                Some(d) => if d.nanos > 0 {
                    TimerFired::Rearm(d)
                } else {
                    TimerFired::Expired { requests: old(self).fired@.len() as usize }
                },
                None => TimerFired::Expired { requests: old(self).fired@.len() as usize },
            },
    {
        self.timer = None;
        let requests: usize = self.fired.len();
        match self.remaining(now) {
            Some(d) => if !d.is_zero() {
                TimerFired::Rearm(d)
            } else {
                TimerFired::Expired { requests }
            },
            None => TimerFired::Expired { requests },
        }
    }
}

/// A deadline is reported as passed exactly when the oldest request is at
/// least as old as the timeout, and never before.
pub proof fn expiry_is_the_oldest_request_s_age(f: InFlight, now: Duration)
    requires
        f.timeout.nanos > 0,
        f.fired@.len() > 0,
        f.fired@[0].nanos <= now.nanos,
    ensures
        f.left(now) == Some(Duration { nanos: 0 }) <==> now.nanos - f.fired@[0].nanos
            >= f.timeout.nanos,
{
}

/// The oldest request's age and the time it has left make up the timeout; once
/// it is older it has none left. Younger requests have no say.
pub proof fn age_and_time_left_make_up_the_timeout(f: InFlight, g: InFlight, now: Duration)
    requires
        f.timeout.nanos > 0,
        f.fired@.len() > 0,
        f.fired@[0].nanos <= now.nanos,
        g.timeout == f.timeout,
        g.fired@.len() > 0,
        g.fired@[0] == f.fired@[0],
    ensures
        f.left(now) is Some,
        now.nanos - f.fired@[0].nanos <= f.timeout.nanos ==> (now.nanos - f.fired@[0].nanos)
            + f.left(now)->0.nanos == f.timeout.nanos,
        now.nanos - f.fired@[0].nanos > f.timeout.nanos ==> f.left(now)->0.nanos == 0,
        g.left(now) == f.left(now),
{
}

/// Without a timeout, or with nothing in flight, no deadline applies.
pub proof fn no_deadline_without_a_request(f: InFlight, now: Duration)
    ensures
        f.left(now) is None <==> f.timeout.nanos == 0 || f.fired@.len() == 0,
{
}

} // verus!
