//! The phases of a run, from the precheck to the end.

use crate::double::Double;
use crate::output::PrefillStallCause;
use crate::time::{Duration, MAX_NANOS};
use crate::worker::Phase;
use vstd::prelude::*;

verus! {

/// Between progress reports during prefill, and between samples during the
/// run: one second.
pub const REPORT_INTERVAL_NS: u128 = 1_000_000_000;

/// How long prefill may go without progress: thirty seconds.
pub const PREFILL_STALL_NS: u128 = 30_000_000_000;

/// What decides the phases of a run.
#[derive(Clone, Copy, Debug, PartialEq, Eq, Structural)]
pub struct RunPlan {
    /// Worker threads.
    pub num_threads: usize,
    /// Whether the keyspace is written before the run.
    pub prefill: bool,
    /// Warmup, with what prefill adds to it.
    pub warmup: Duration,
    /// How long is measured.
    pub duration: Duration,
    /// Whether a saturation search decides when the run ends.
    pub has_saturation: bool,
    /// How long the precheck may take once all workers have started; zero is
    /// unlimited.
    pub precheck_timeout: Duration,
    /// How long prefill may take; zero is unlimited.
    pub prefill_timeout: Duration,
}

impl RunPlan {
    /// Whether the plan's times can be added.
    pub open spec fn wf(self) -> bool {
        self.warmup.nanos + self.duration.nanos <= MAX_NANOS
    }
}

/// What the runner sees at a tick.
#[derive(Clone, Copy, Debug, PartialEq, Eq, Structural)]
pub struct Observed {
    /// The time.
    pub now: Duration,
    /// Whether nobody asked the run to stop.
    pub running: bool,
    /// Workers whose precheck is complete.
    pub precheck_complete: usize,
    /// Workers that have started.
    pub workers_started: usize,
    /// Whether all worker threads have exited.
    pub all_finished: bool,
    /// Prefill keys that were confirmed.
    pub confirmed: usize,
    /// Prefill keys in all.
    pub total: usize,
    /// Whether a saturation search is done.
    pub saturation_done: bool,
}

/// Where a run is.
#[derive(Clone, Copy, Debug, PartialEq, Eq, Structural)]
pub struct RunState {
    pub phase: Phase,
    /// When the precheck timer started: once all workers have, so that slow
    /// worker startup does not count against connectivity.
    pub precheck_start: Option<Duration>,
    pub prefill_start: Duration,
    /// The confirmed keys at the last progress.
    pub last_confirmed: usize,
    /// When prefill last made progress.
    pub last_progress: Duration,
    /// When prefill progress was last reported.
    pub last_progress_report: Duration,
    pub warmup_start: Option<Duration>,
    pub running_start: Option<Duration>,
    /// When a sample was last reported.
    pub last_report: Duration,
}

/// What a tick led to.
#[derive(Clone, Copy, Debug, PartialEq, Eq, Structural)]
pub enum RunStep {
    /// Nothing.
    Wait,
    /// The run was asked to stop, after so long of measuring.
    Interrupted { ran: Duration },
    /// All workers are connected; the next phase has begun.
    PrecheckPassed { elapsed: Duration },
    /// The workers could not connect.
    PrecheckFailed { elapsed: Duration },
    /// Prefill goes on; progress is to be reported for the given interval.
    Prefilling { elapsed: Duration, report: Option<Duration> },
    /// All keys are confirmed; warmup has begun.
    PrefillDone,
    /// Prefill made no progress or took too long.
    PrefillFailed { elapsed: Duration, report: Option<Duration>, stalled: bool },
    /// Warmup is over; measuring has begun.
    Started,
    /// A sample is to be reported for the given interval.
    Report { interval: Duration },
    /// The run is complete, after so long of measuring.
    Finished { ran: Duration },
}

impl RunState {
    /// The state when the workers were launched.
    pub fn new(now: Duration) -> (r: Self)
        ensures
            r.wf(),
            r == (RunState {
                phase: Phase::Precheck,
                precheck_start: None,
                prefill_start: now,
                last_confirmed: 0,
                last_progress: now,
                last_progress_report: now,
                warmup_start: None,
                running_start: None,
                last_report: now,
            }),
    {
        RunState {
            phase: Phase::Precheck,
            precheck_start: None,
            prefill_start: now,
            last_confirmed: 0,
            last_progress: now,
            last_progress_report: now,
            warmup_start: None,
            running_start: None,
            last_report: now,
        }
    }

    /// What every state of a run that goes on keeps.
    pub open spec fn wf(self) -> bool {
        match self.phase {
            Phase::Precheck | Phase::Prefill => self.running_start is None,
            Phase::Warmup => self.warmup_start is Some && self.running_start is None,
            Phase::Running => self.warmup_start is Some && self.running_start is Some,
            _ => false,
        }
    }

    /// The run at its end.
    pub open spec fn stopped(self) -> RunState {
        RunState { phase: Phase::Stop, ..self }
    }

    /// The run at the start of warmup.
    pub open spec fn warming(self, now: Duration) -> RunState {
        RunState { phase: Phase::Warmup, warmup_start: Some(now), ..self }
    }

    /// How long was measured, given what it is when nothing was.
    pub open spec fn ran(self, now: Duration, otherwise: Duration) -> Duration {
        match self.running_start {
            Some(t) => now.less(t),
            None => otherwise,
        }
    }

    /// A tick of the precheck.
    pub open spec fn prechecked(self, p: RunPlan, o: Observed) -> (RunState, RunStep) {
        if o.precheck_complete >= p.num_threads {
            let elapsed = match self.precheck_start {
                Some(t) => o.now.less(t),
                None => Duration { nanos: 0 },
            };
            (
                if p.prefill {
                    RunState {
                        phase: Phase::Prefill,
                        prefill_start: o.now,
                        last_progress: o.now,
                        ..self
                    }
                } else {
                    self.warming(o.now)
                },
                RunStep::PrecheckPassed { elapsed },
            )
        } else {
            match self.precheck_start {
                Some(t) => if p.precheck_timeout.nanos != 0 && o.now.less(t).nanos
                    >= p.precheck_timeout.nanos {
                    (self.stopped(), RunStep::PrecheckFailed { elapsed: o.now.less(t) })
                } else {
                    (self, RunStep::Wait)
                },
                None => if o.workers_started >= p.num_threads {
                    (RunState { precheck_start: Some(o.now), ..self }, RunStep::Wait)
                } else if o.all_finished {
                    (self.stopped(), RunStep::PrecheckFailed { elapsed: p.precheck_timeout })
                } else {
                    (self, RunStep::Wait)
                },
            }
        }
    }

    /// A tick of the prefill.
    pub open spec fn prefilled(self, p: RunPlan, o: Observed) -> (RunState, RunStep) {
        if o.total > 0 && o.confirmed >= o.total {
            (self.warming(o.now), RunStep::PrefillDone)
        } else {
            let elapsed = o.now.less(self.prefill_start);
            let interval = o.now.less(self.last_progress_report);
            let reports = interval.nanos >= REPORT_INTERVAL_NS && o.total > 0;
            let report = if reports {
                Some(interval)
            } else {
                None
            };
            let progress = o.confirmed > self.last_confirmed;
            let next = RunState {
                last_progress_report: if reports {
                    o.now
                } else {
                    self.last_progress_report
                },
                last_confirmed: if progress {
                    o.confirmed
                } else {
                    self.last_confirmed
                },
                last_progress: if progress {
                    o.now
                } else {
                    self.last_progress
                },
                ..self
            };
            let stalled = o.now.less(next.last_progress).nanos >= PREFILL_STALL_NS;
            let timed_out = p.prefill_timeout.nanos != 0 && elapsed.nanos
                >= p.prefill_timeout.nanos;
            if stalled || timed_out {
                (next.stopped(), RunStep::PrefillFailed { elapsed, report, stalled })
            } else {
                (next, RunStep::Prefilling { elapsed, report })
            }
        }
    }

    /// A tick of warmup or of the run.
    pub open spec fn measured(self, p: RunPlan, o: Observed) -> (RunState, RunStep) {
        let elapsed = o.now.less(self.warmup_start->0);
        let time_done = elapsed.nanos >= p.warmup.nanos + p.duration.nanos;
        if o.saturation_done || (time_done && !p.has_saturation) {
            (self.stopped(), RunStep::Finished { ran: self.ran(o.now, p.duration) })
        } else if self.phase == Phase::Warmup {
            if elapsed.nanos >= p.warmup.nanos {
                (
                    RunState {
                        phase: Phase::Running,
                        running_start: Some(o.now),
                        last_report: o.now,
                        ..self
                    },
                    RunStep::Started,
                )
            } else {
                (self, RunStep::Wait)
            }
        } else {
            let interval = o.now.less(self.last_report);
            if interval.nanos >= REPORT_INTERVAL_NS {
                (RunState { last_report: o.now, ..self }, RunStep::Report { interval })
            } else {
                (self, RunStep::Wait)
            }
        }
    }

    /// What a tick leads to.
    pub open spec fn stepped(self, p: RunPlan, o: Observed) -> (RunState, RunStep) {
        if !o.running {
            (
                self.stopped(),
                RunStep::Interrupted { ran: self.ran(o.now, Duration { nanos: 0 }) },
            )
        } else if self.phase == Phase::Precheck {
            self.prechecked(p, o)
        } else if self.phase == Phase::Prefill {
            self.prefilled(p, o)
        } else {
            self.measured(p, o)
        }
    }

    fn tick_precheck(&mut self, p: &RunPlan, o: &Observed) -> (r: RunStep)
        requires
            old(self).wf(),
        ensures
            (*final(self), r) == old(self).prechecked(*p, *o),
    {
        if o.precheck_complete >= p.num_threads {
            let elapsed = match self.precheck_start {
                Some(t) => o.now.saturating_sub(t),
                None => Duration::zero(),
            };
            if p.prefill {
                self.phase = Phase::Prefill;
                self.prefill_start = o.now;
                self.last_progress = o.now;
            } else {
                self.phase = Phase::Warmup;
                self.warmup_start = Some(o.now);
            }
            return RunStep::PrecheckPassed { elapsed };
        }
        match self.precheck_start {
            Some(t) => {
                let elapsed = o.now.saturating_sub(t);
                if !p.precheck_timeout.is_zero() && elapsed.nanos >= p.precheck_timeout.nanos {
                    self.phase = Phase::Stop;
                    RunStep::PrecheckFailed { elapsed }
                } else {
                    RunStep::Wait
                }
            },
            None => {
                if o.workers_started >= p.num_threads {
                    self.precheck_start = Some(o.now);
                    RunStep::Wait
                } else if o.all_finished {
                    self.phase = Phase::Stop;
                    RunStep::PrecheckFailed { elapsed: p.precheck_timeout }
                } else {
                    RunStep::Wait
                }
            },
        }
    }

    fn tick_prefill(&mut self, p: &RunPlan, o: &Observed) -> (r: RunStep)
        requires
            old(self).wf(),
        ensures
            (*final(self), r) == old(self).prefilled(*p, *o),
    {
        if o.total > 0 && o.confirmed >= o.total {
            self.phase = Phase::Warmup;
            self.warmup_start = Some(o.now);
            return RunStep::PrefillDone;
        }
        let elapsed = o.now.saturating_sub(self.prefill_start);
        let interval = o.now.saturating_sub(self.last_progress_report);
        let mut report: Option<Duration> = None;
        if interval.nanos >= REPORT_INTERVAL_NS && o.total > 0 {
            report = Some(interval);
            self.last_progress_report = o.now;
        }
        if o.confirmed > self.last_confirmed {
            self.last_confirmed = o.confirmed;
            self.last_progress = o.now;
        }
        let stalled = o.now.saturating_sub(self.last_progress).nanos >= PREFILL_STALL_NS;
        let timed_out = !p.prefill_timeout.is_zero() && elapsed.nanos >= p.prefill_timeout.nanos;
        if stalled || timed_out {
            self.phase = Phase::Stop;
            RunStep::PrefillFailed { elapsed, report, stalled }
        } else {
            RunStep::Prefilling { elapsed, report }
        }
    }

    fn tick_measured(&mut self, p: &RunPlan, o: &Observed) -> (r: RunStep)
        requires
            p.wf(),
            old(self).wf(),
            old(self).phase == Phase::Warmup || old(self).phase == Phase::Running,
        ensures
            (*final(self), r) == old(self).measured(*p, *o),
    {
        let elapsed = match self.warmup_start {
            Some(t) => o.now.saturating_sub(t),
            None => Duration::zero(),
        };
        let time_done = elapsed.nanos >= p.warmup.plus(p.duration).nanos;
        if o.saturation_done || (time_done && !p.has_saturation) {
            let ran = match self.running_start {
                Some(t) => o.now.saturating_sub(t),
                None => p.duration,
            };
            self.phase = Phase::Stop;
            return RunStep::Finished { ran };
        }
        if self.phase == Phase::Warmup {
            if elapsed.nanos >= p.warmup.nanos {
                self.phase = Phase::Running;
                self.running_start = Some(o.now);
                self.last_report = o.now;
                return RunStep::Started;
            }
            return RunStep::Wait;
        }
        let interval = o.now.saturating_sub(self.last_report);
        if interval.nanos >= REPORT_INTERVAL_NS {
            self.last_report = o.now;
            RunStep::Report { interval }
        } else {
            RunStep::Wait
        }
    }

    /// Decides what a tick leads to.
    pub fn step(&mut self, p: &RunPlan, o: &Observed) -> (r: RunStep)
        requires
            p.wf(),
            old(self).wf(),
        ensures
            (*final(self), r) == old(self).stepped(*p, *o),
            final(self).phase != Phase::Stop ==> final(self).wf(),
    {
        if !o.running {
            let ran = match self.running_start {
                Some(t) => o.now.saturating_sub(t),
                None => Duration::zero(),
            };
            self.phase = Phase::Stop;
            return RunStep::Interrupted { ran };
        }
        if self.phase == Phase::Precheck {
            self.tick_precheck(p, o)
        } else if self.phase == Phase::Prefill {
            self.tick_prefill(p, o)
        } else {
            self.tick_measured(p, o)
        }
    }
}

/// The likely cause of a prefill that stalled or timed out.
pub open spec fn cause_of(
    conns_active: i64,
    bytes_rx: u64,
    stalled: bool,
    confirmed: usize,
    total: usize,
    elapsed: Duration,
) -> PrefillStallCause {
    if conns_active == 0 {
        PrefillStallCause::NoConnections
    } else if bytes_rx == 0 {
        PrefillStallCause::NoResponses
    } else if stalled {
        PrefillStallCause::Stalled
    } else if confirmed > 0 && total > confirmed {
        let rate = Double::quotient(Double::of_nat(confirmed as nat), elapsed.secs());
        PrefillStallCause::TooSlow {
            estimated_remaining_secs: if Double::zero().lt_spec(rate) {
                Double::quotient(Double::of_nat((total - confirmed) as nat), rate)
            } else {
                Double::zero()
            },
        }
    } else {
        PrefillStallCause::Unknown
    }
}

/// The likely cause of a prefill that stalled or timed out. One that was still
/// progressing gets an estimate of the time it would have needed.
pub fn stall_cause(
    conns_active: i64,
    bytes_rx: u64,
    stalled: bool,
    confirmed: usize,
    total: usize,
    elapsed: Duration,
) -> (r: PrefillStallCause)
    ensures
        r == cause_of(conns_active, bytes_rx, stalled, confirmed, total, elapsed),
{
    if conns_active == 0 {
        PrefillStallCause::NoConnections
    } else if bytes_rx == 0 {
        PrefillStallCause::NoResponses
    } else if stalled {
        PrefillStallCause::Stalled
    } else if confirmed > 0 && total > confirmed {
        let rate = Double::from_u64(confirmed as u64).over(elapsed.as_secs());
        let remaining = Double::from_u64((total - confirmed) as u64);
        PrefillStallCause::TooSlow {
            estimated_remaining_secs: if Double::from_bits(0).lt(rate) {
                remaining.over(rate)
            } else {
                Double::from_bits(0)
            },
        }
    } else {
        PrefillStallCause::Unknown
    }
}

/// The order of the phases.
pub open spec fn rank(phase: Phase) -> int {
    match phase {
        Phase::Connect => 0,
        Phase::Precheck => 1,
        Phase::Prefill => 2,
        Phase::Warmup => 3,
        Phase::Running => 4,
        Phase::Stop => 5,
    }
}

/// A run moves through its phases in order and never back.
pub proof fn phases_move_forward(s: RunState, p: RunPlan, o: Observed)
    requires
        s.wf(),
    ensures
        rank(s.stepped(p, o).0.phase) >= rank(s.phase),
        s.stepped(p, o).0.phase == Phase::Prefill && s.phase != Phase::Prefill ==> p.prefill,
{
}

/// Prefill gives way to warmup exactly when all of its keys are confirmed.
pub proof fn warmup_follows_a_complete_prefill(s: RunState, p: RunPlan, o: Observed)
    requires
        s.wf(),
        s.phase == Phase::Prefill,
        o.running,
    ensures
        s.stepped(p, o).0.phase == Phase::Warmup <==> o.total > 0 && o.confirmed >= o.total,
{
}

/// Nothing is measured before warmup is over, and a run without a search
/// measures for as long as it was asked to.
pub proof fn measuring_keeps_its_times(s: RunState, p: RunPlan, o: Observed)
    requires
        s.wf(),
        p.wf(),
        s.phase == Phase::Warmup || s.phase == Phase::Running,
        o.running,
        !p.has_saturation,
        !o.saturation_done,
    ensures
        ({
            let elapsed = o.now.less(s.warmup_start->0);
            let step = s.stepped(p, o).1;
            &&& step is Started ==> elapsed.nanos >= p.warmup.nanos
            &&& step is Finished <==> elapsed.nanos >= p.warmup.nanos + p.duration.nanos
        }),
{
}

/// A search decides for itself when the run ends: no time does.
pub proof fn a_search_controls_its_own_end(s: RunState, p: RunPlan, o: Observed)
    requires
        s.wf(),
        p.wf(),
        s.phase == Phase::Warmup || s.phase == Phase::Running,
        o.running,
        p.has_saturation,
    ensures
        s.stepped(p, o).0.phase == Phase::Stop <==> o.saturation_done,
{
}

/// The precheck timer does not run before all workers have started: until
/// then a precheck fails only if every worker has exited.
pub proof fn startup_does_not_count_against_the_precheck(s: RunState, p: RunPlan, o: Observed)
    requires
        s.wf(),
        s.phase == Phase::Precheck,
        s.precheck_start is None,
        o.workers_started < p.num_threads,
        o.running,
    ensures
        s.stepped(p, o).1 is PrecheckFailed ==> o.all_finished,
        !o.all_finished && o.precheck_complete < p.num_threads ==> s.stepped(p, o) == (
            s,
            RunStep::Wait,
        ),
{
}

/// The state after a sequence of ticks.
pub open spec fn ticked(s: RunState, p: RunPlan, ticks: Seq<Observed>) -> RunState
    decreases ticks.len(),
{
    if ticks.len() == 0 {
        s
    } else {
        ticked(s, p, ticks.drop_last()).stepped(p, ticks.last()).0
    }
}

/// What tick `i` of a sequence led to.
pub open spec fn led_to(s: RunState, p: RunPlan, ticks: Seq<Observed>, i: int) -> RunStep {
    ticked(s, p, ticks.take(i)).stepped(p, ticks[i]).1
}

/// Whether tick `i` of a sequence saw more keys confirmed than every tick
/// before it, and than none.
pub open spec fn rises(ticks: Seq<Observed>, i: int) -> bool {
    ticks[i].confirmed > 0 && forall|j: int|
        0 <= j < i ==> (#[trigger] ticks[j]).confirmed < ticks[i].confirmed
}

/// Whether a prefill has just begun.
pub open spec fn prefill_begins(s: RunState) -> bool {
    s.wf() && s.phase == Phase::Prefill && s.last_confirmed == 0 && s.last_progress
        == s.prefill_start
}

proof fn lemma_last_rise(s: RunState, p: RunPlan, ticks: Seq<Observed>) -> (last: int)
    requires
        prefill_begins(s),
        forall|i: int| 0 <= i < ticks.len() ==> #[trigger] led_to(s, p, ticks, i) is Prefilling,
    ensures
        ({
            let t = ticked(s, p, ticks);
            &&& t.phase == Phase::Prefill
            &&& t.prefill_start == s.prefill_start
            &&& -1 <= last < ticks.len()
            &&& last == -1 ==> t.last_confirmed == 0 && t.last_progress == s.prefill_start
            &&& last >= 0 ==> rises(ticks, last) && t.last_confirmed == ticks[last].confirmed
                && t.last_progress == ticks[last].now
            &&& forall|i: int|
                0 <= i < ticks.len() ==> (#[trigger] ticks[i]).confirmed <= t.last_confirmed
        }),
    decreases ticks.len(),
{
    if ticks.len() == 0 {
        -1
    } else {
        let before = ticks.drop_last();
        let n = before.len() as int;
        assert forall|i: int| 0 <= i < before.len() implies #[trigger] led_to(
            s,
            p,
            before,
            i,
        ) is Prefilling by {
            assert(before.take(i) =~= ticks.take(i));
            assert(led_to(s, p, ticks, i) is Prefilling);
        }
        let last = lemma_last_rise(s, p, before);
        assert(ticks.take(n) =~= before);
        assert(led_to(s, p, ticks, n) is Prefilling);
        let b = ticked(s, p, before);
        let t = ticked(s, p, ticks);
        assert forall|i: int| 0 <= i < ticks.len() implies (#[trigger] ticks[i]).confirmed
            <= t.last_confirmed by {
            if i < n {
                assert(before[i].confirmed <= b.last_confirmed);
            }
        }
        if ticks[n].confirmed > b.last_confirmed {
            assert forall|j: int| 0 <= j < n implies (#[trigger] ticks[j]).confirmed
                < ticks[n].confirmed by {
                assert(before[j].confirmed <= b.last_confirmed);
            }
            n
        } else {
            if last >= 0 {
                assert forall|j: int| 0 <= j < last implies (#[trigger] ticks[j]).confirmed
                    < ticks[last].confirmed by {
                    assert(before[j].confirmed < before[last].confirmed);
                }
            }
            last
        }
    }
}

/// Prefill stalls exactly when the confirmed count has not risen for thirty
/// seconds. Take any sequence of ticks of a prefill that went on, and one more
/// tick at which it is not complete. Let `last` be the last tick, this one
/// among them, that saw more keys confirmed than every tick before it, or minus
/// one if none did. The tick fails as stalled if and only if thirty seconds
/// have passed since tick `last`, or since prefill began. A tick that itself
/// saw a new highest count never does.
pub proof fn prefill_stalls_when_nothing_is_confirmed(
    s: RunState,
    p: RunPlan,
    ticks: Seq<Observed>,
    last: int,
)
    requires
        prefill_begins(s),
        ticks.len() > 0,
        forall|i: int|
            0 <= i < ticks.len() - 1 ==> #[trigger] led_to(s, p, ticks, i) is Prefilling,
        ticks.last().running,
        ticks.last().total == 0 || ticks.last().confirmed < ticks.last().total,
        -1 <= last < ticks.len(),
        last >= 0 ==> rises(ticks, last),
        forall|i: int| last < i < ticks.len() ==> !#[trigger] rises(ticks, i),
    ensures
        ({
            let now = ticks.last().now.nanos as int;
            let begun = s.prefill_start.nanos as int;
            let since = if last >= 0 {
                ticks[last].now.nanos as int
            } else {
                begun
            };
            let step = led_to(s, p, ticks, ticks.len() - 1);
            let stalls = now - since >= 30 * 1_000_000_000;
            let late = p.prefill_timeout.nanos > 0 && p.prefill_timeout.nanos <= if now >= begun {
                now - begun
            } else {
                0
            };
            &&& (step matches RunStep::PrefillFailed { stalled, .. } && stalled) <==> stalls
            &&& step is PrefillFailed <==> stalls || late
            &&& step is Prefilling <==> !stalls && !late
            &&& last == ticks.len() - 1 ==> !stalls
        }),
{
    let before = ticks.drop_last();
    let n = before.len() as int;
    assert forall|i: int| 0 <= i < before.len() implies #[trigger] led_to(
        s,
        p,
        before,
        i,
    ) is Prefilling by {
        assert(before.take(i) =~= ticks.take(i));
        assert(led_to(s, p, ticks, i) is Prefilling);
    }
    let known = lemma_last_rise(s, p, before);
    let b = ticked(s, p, before);
    assert(ticks.take(n) =~= before);
    let o = ticks[n];
    if o.confirmed > b.last_confirmed {
        assert forall|j: int| 0 <= j < n implies (#[trigger] ticks[j]).confirmed < o.confirmed by {
            assert(before[j].confirmed <= b.last_confirmed);
        }
        assert(rises(ticks, n));
        assert(last == n);
    } else {
        if known >= 0 {
            assert forall|j: int| 0 <= j < known implies (#[trigger] ticks[j]).confirmed
                < ticks[known].confirmed by {
                assert(before[j].confirmed < before[known].confirmed);
            }
            assert(rises(ticks, known));
            assert(ticks[known].confirmed == b.last_confirmed);
        }
        if last > known {
            if last < n {
                assert(before[last].confirmed <= b.last_confirmed);
            }
            assert(known >= 0 ==> ticks[known].confirmed < ticks[last].confirmed);
            assert(false);
        }
        assert(last == known);
    }
}

/// A prefill begins with no key confirmed and its clock at the moment that the
/// precheck passed, whatever went before.
pub proof fn prefill_begins_when_the_precheck_passes(
    s: RunState,
    p: RunPlan,
    ticks: Seq<Observed>,
)
    requires
        s.wf(),
        s.phase == Phase::Precheck,
        s.last_confirmed == 0,
        ticks.len() > 0,
        forall|i: int| 0 <= i < ticks.len() - 1 ==> #[trigger] led_to(s, p, ticks, i) is Wait,
        ticks.last().running,
    ensures
        ({
            let t = ticked(s, p, ticks);
            let passed = ticks.last().precheck_complete >= p.num_threads;
            &&& t.phase == Phase::Prefill <==> passed && p.prefill
            &&& t.phase == Phase::Warmup <==> passed && !p.prefill
            &&& t.phase == Phase::Prefill ==> prefill_begins(t) && t.prefill_start
                == ticks.last().now
            &&& t.phase == Phase::Warmup ==> t.warmup_start == Some(ticks.last().now)
        }),
{
    assert(ticks.drop_last() =~= ticks.take(ticks.len() - 1));
    lemma_precheck_waits(s, p, ticks.drop_last(), ticks);
}

proof fn lemma_precheck_waits(s: RunState, p: RunPlan, some: Seq<Observed>, ticks: Seq<Observed>)
    requires
        s.wf(),
        s.phase == Phase::Precheck,
        s.last_confirmed == 0,
        some.len() < ticks.len(),
        some == ticks.take(some.len() as int),
        forall|i: int| 0 <= i < ticks.len() - 1 ==> #[trigger] led_to(s, p, ticks, i) is Wait,
    ensures
        ({
            let t = ticked(s, p, some);
            &&& t.wf()
            &&& t.phase == Phase::Precheck
            &&& t.last_confirmed == 0
        }),
    decreases some.len(),
{
    if some.len() > 0 {
        let n = some.len() - 1;
        assert(some.drop_last() =~= ticks.take(n));
        lemma_precheck_waits(s, p, some.drop_last(), ticks);
        assert(led_to(s, p, ticks, n) is Wait);
    }
}

/// A precheck passes exactly when as many workers are through as there are
/// threads. One that has not passed fails exactly when its timeout, if it has
/// one, has run since the tick at which all workers had started.
pub proof fn a_precheck_is_timed_from_full_startup(s: RunState, p: RunPlan, o: Observed, all: Duration)
    requires
        s.wf(),
        s.phase == Phase::Precheck,
        s.precheck_start == Some(all),
        all.nanos <= o.now.nanos,
        o.running,
    ensures
        ({
            let step = s.stepped(p, o).1;
            let passed = o.precheck_complete >= p.num_threads;
            let waited = Duration { nanos: (o.now.nanos - all.nanos) as u128 };
            let late = p.precheck_timeout.nanos > 0 && all.nanos + p.precheck_timeout.nanos
                <= o.now.nanos;
            &&& step == RunStep::PrecheckPassed { elapsed: waited } <==> passed
            &&& step == RunStep::PrecheckFailed { elapsed: waited } <==> !passed && late
            &&& step == RunStep::Wait <==> !passed && !late
            &&& step == RunStep::Wait ==> s.stepped(p, o).0 == s
        }),
{
}

/// The clock of a precheck starts at the first tick that sees all workers
/// started, and never before.
pub proof fn the_precheck_clock_starts_once_all_have(s: RunState, p: RunPlan, o: Observed)
    requires
        s.wf(),
        s.phase == Phase::Precheck,
        s.precheck_start is None,
        o.running,
        o.precheck_complete < p.num_threads,
    ensures
        s.stepped(p, o).0.precheck_start == if o.workers_started >= p.num_threads {
            Some(o.now)
        } else {
            None::<Duration>
        },
        o.workers_started >= p.num_threads ==> s.stepped(p, o).1 == RunStep::Wait,
        o.workers_started < p.num_threads ==> (s.stepped(p, o).1 is PrecheckFailed
            <==> o.all_finished),
{
}

/// A run that is told to stop stops at once, in whatever phase, and says for
/// how long it was measuring: not at all before warmup was over.
pub proof fn an_interrupted_run_stops(s: RunState, p: RunPlan, o: Observed)
    requires
        s.wf(),
        !o.running,
    ensures
        s.stepped(p, o).0.phase == Phase::Stop,
        s.phase != Phase::Running ==> s.stepped(p, o).1 == (RunStep::Interrupted {
            ran: Duration { nanos: 0 },
        }),
        s.phase == Phase::Running && s.running_start->0.nanos <= o.now.nanos ==> s.stepped(p, o).1
            == (RunStep::Interrupted {
            ran: Duration { nanos: (o.now.nanos - s.running_start->0.nanos) as u128 },
        }),
{
}

/// While a run is measured, a sample is reported exactly when a second or more
/// has passed since the last one, for as long as has passed; the next second is
/// counted from there. Nothing else of the run changes.
pub proof fn samples_are_a_second_apart(s: RunState, p: RunPlan, o: Observed)
    requires
        s.wf(),
        s.phase == Phase::Running,
        o.running,
        !(s.stepped(p, o).1 is Finished),
        s.last_report.nanos <= o.now.nanos,
    ensures
        ({
            let (t, step) = s.stepped(p, o);
            let passed = (o.now.nanos - s.last_report.nanos) as u128;
            &&& passed >= 1_000_000_000 ==> step == RunStep::Report {
                interval: Duration { nanos: passed },
            } && t == (RunState { last_report: o.now, ..s })
            &&& passed < 1_000_000_000 ==> step == RunStep::Wait && t == s
        }),
{
}

/// Warmup gives way to measuring exactly when its time is up, and the measured
/// time and the first sample start at that tick.
pub proof fn measuring_starts_after_warmup(s: RunState, p: RunPlan, o: Observed)
    requires
        s.wf(),
        p.wf(),
        s.phase == Phase::Warmup,
        o.running,
        !(s.stepped(p, o).1 is Finished),
        s.warmup_start->0.nanos <= o.now.nanos,
    ensures
        ({
            let (t, step) = s.stepped(p, o);
            let over = s.warmup_start->0.nanos + p.warmup.nanos <= o.now.nanos;
            &&& over ==> step == RunStep::Started && t.phase == Phase::Running && t.running_start
                == Some(o.now) && t.last_report == o.now
            &&& !over ==> step == RunStep::Wait && t == s
        }),
{
}

/// Progress of a prefill is reported at most once a second, for the time since
/// the last report, and only once it is known how many keys there are.
pub proof fn prefill_progress_is_a_second_apart(s: RunState, p: RunPlan, o: Observed)
    requires
        s.wf(),
        s.phase == Phase::Prefill,
        o.running,
        o.confirmed < o.total || o.total == 0,
        s.last_progress_report.nanos <= o.now.nanos,
        s.prefill_start.nanos <= o.now.nanos,
    ensures
        ({
            let (t, step) = s.stepped(p, o);
            let passed = (o.now.nanos - s.last_progress_report.nanos) as u128;
            let due = if passed >= 1_000_000_000 && o.total > 0 {
                Some(Duration { nanos: passed })
            } else {
                None
            };
            let since = Duration { nanos: (o.now.nanos - s.prefill_start.nanos) as u128 };
            &&& step matches RunStep::Prefilling { elapsed, report } ==> elapsed == since && report
                == due
            &&& step matches RunStep::PrefillFailed { elapsed, report, stalled } ==> elapsed
                == since && report == due
            &&& t.last_progress_report == if due is Some {
                o.now
            } else {
                s.last_progress_report
            }
        }),
{
}

/// Why a prefill failed is told by the first of these that holds: there is no
/// connection, nothing was received, nothing was confirmed of late. Only a
/// prefill that was still making progress is called too slow, with an estimate
/// of the time for the keys that are left at the rate seen so far.
pub proof fn causes_are_told_apart(
    conns_active: i64,
    bytes_rx: u64,
    stalled: bool,
    confirmed: usize,
    total: usize,
    elapsed: Duration,
)
    ensures
        ({
            let cause = cause_of(conns_active, bytes_rx, stalled, confirmed, total, elapsed);
            let alive = conns_active != 0 && bytes_rx > 0;
            &&& cause is NoConnections <==> conns_active == 0
            &&& cause is NoResponses <==> conns_active != 0 && bytes_rx == 0
            &&& cause is Stalled <==> alive && stalled
            &&& cause is TooSlow <==> alive && !stalled && 0 < confirmed < total
            &&& cause is Unknown <==> alive && !stalled && !(0 < confirmed < total)
            &&& cause matches PrefillStallCause::TooSlow { estimated_remaining_secs } ==> {
                let rate = Double::quotient(Double::of_nat(confirmed as nat), elapsed.secs());
                Double::zero().lt_spec(rate) ==> estimated_remaining_secs == Double::quotient(
                    Double::of_nat((total - confirmed) as nat),
                    rate,
                )
            }
        }),
{
}

/// Warmup is timed from the tick at which it began: that of the last confirmed
/// key, or of the precheck where nothing is written first.
pub proof fn warmup_is_timed_from_its_start(s: RunState, p: RunPlan, o: Observed)
    requires
        s.wf(),
        s.phase == Phase::Precheck || s.phase == Phase::Prefill,
        s.stepped(p, o).0.phase == Phase::Warmup,
    ensures
        s.stepped(p, o).0.warmup_start == Some(o.now),
        s.phase == Phase::Prefill ==> s.stepped(p, o).1 == RunStep::PrefillDone,
        s.phase == Phase::Precheck ==> s.stepped(p, o).1 is PrecheckPassed && !p.prefill,
{
}

/// A finished run says how long it measured: since warmup was over, or, where it
/// never was, for as long as it was asked to.
pub proof fn a_finished_run_says_how_long_it_measured(s: RunState, p: RunPlan, o: Observed, ran: Duration)
    requires
        s.wf(),
        o.running,
        s.stepped(p, o).1 == (RunStep::Finished { ran }),
    ensures
        s.stepped(p, o).0.phase == Phase::Stop,
        s.phase == Phase::Running && s.running_start->0.nanos <= o.now.nanos ==> ran.nanos
            + s.running_start->0.nanos == o.now.nanos,
        s.phase == Phase::Warmup ==> ran == p.duration,
{
}

} // verus!
