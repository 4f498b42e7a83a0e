use cachecannon::config::{SaturationSearch, SloThresholds};
use cachecannon::double::Double;
use cachecannon::output::Percentile;
use cachecannon::saturation::{
    format_duration_short, percentile_us, Latencies, Progress, RateSearch, SaturationSearchState,
    SearchOutcome, StepMeasurement,
};
use cachecannon::time::Duration;

fn dbl(x: f64) -> Double {
    Double::from_bits(x.to_bits())
}

fn latencies(p50: f64, p99: f64, p999: f64) -> Latencies {
    Latencies {
        p50_us: dbl(p50),
        p99_us: dbl(p99),
        p999_us: dbl(p999),
    }
}

fn search_config() -> SaturationSearch {
    SaturationSearch {
        slo: SloThresholds {
            p50: Some(Duration::from_micros(100)),
            p99: None,
            p999: Some(Duration::from_millis(1)),
        },
        start_rate: 1000,
        step_multiplier: dbl(1.05),
        sample_window: Duration::from_secs(5),
        drain_window: Duration::from_millis(500),
        stop_after_failures: 3,
        confirm_failures: 0,
        floor_improvement_ratio: dbl(0.0),
        max_rate: 100_000_000,
        min_throughput_ratio: dbl(0.9),
        bisect_tolerance: dbl(0.05),
        max_bisect_steps: 8,
    }
}

#[test]
fn test_slo_check() {
    let state = SaturationSearchState::new(search_config(), Duration::zero());

    // Under thresholds - should pass
    assert!(state.slo_fail_reason(&latencies(50.0, 500.0, 800.0)).is_none());

    // p50 over threshold - should fail
    assert!(state.slo_fail_reason(&latencies(150.0, 500.0, 800.0)).is_some());

    // p999 over threshold - should fail
    assert!(state.slo_fail_reason(&latencies(50.0, 500.0, 1500.0)).is_some());
}

#[test]
fn the_slo_is_shown_and_judged_by_its_highest_percentile() {
    let state = SaturationSearchState::new(search_config(), Duration::zero());
    assert_eq!(state.slo_threshold_us(), Some(dbl(1000.0)));
    assert_eq!(
        state.slo_percentile(&latencies(50.0, 500.0, 800.0)),
        (Percentile::P999, dbl(800.0))
    );
    assert!(state.slo_display().contains("p999"));
    assert_eq!(Percentile::P50.label(), "p50");
    assert_eq!(percentile_us(Some(1_500)), dbl(1.5));
    assert_eq!(percentile_us(None), dbl(0.0));
}

#[test]
fn test_format_duration_short() {
    // Exact boundaries
    assert_eq!(format_duration_short(Duration::from_micros(500)), "500us");
    assert_eq!(format_duration_short(Duration::from_millis(1)), "1ms");
    assert_eq!(format_duration_short(Duration::from_secs(1)), "1s");

    // Sub-unit precision preserved
    assert_eq!(format_duration_short(Duration::from_micros(1500)), "1.5ms");
    assert_eq!(
        format_duration_short(Duration::from_micros(1_500_000)),
        "1.5s"
    );
}

// Oracle: every rate <= `knee` passes, every rate above fails.
fn run_to_completion(knee: u64) -> Option<u64> {
    run_to_completion_with(knee, 0)
}

fn run_to_completion_with(knee: u64, confirm_failures: u32) -> Option<u64> {
    let mut s = RateSearch::new(
        /* start_rate */ 1000,
        /* step_multiplier */ dbl(2.0),
        /* max_rate */ 1_000_000,
        /* bisect_tolerance */ dbl(0.05),
        /* max_bisect_steps */ 8,
        confirm_failures,
        /* floor */ dbl(0.0),
    );
    let mut rate = 1000u64;
    loop {
        let passed = rate <= knee;
        match s.advance(passed, dbl(1000.0)) {
            SearchOutcome::Probe(next) => rate = next,
            SearchOutcome::Done { knee } => return knee,
        }
    }
}

#[test]
fn converges_near_the_true_knee() {
    let found = run_to_completion(30_000).expect("a knee");
    let rel = (found as f64 - 30_000.0).abs() / 30_000.0;
    assert!(rel <= 0.05, "found {found}, rel error {rel}");
    assert!(found <= 30_000, "reported knee must actually pass SLO");
}

#[test]
fn stops_within_max_bisect_steps() {
    let mut s = RateSearch::new(1000, dbl(2.0), 1_000_000, dbl(0.0), 4, 0, dbl(0.0));
    let mut rate = 1000u64;
    let mut probes = 0;
    loop {
        probes += 1;
        assert!(probes < 100, "must terminate");
        match s.advance(rate <= 12_345, dbl(1000.0)) {
            SearchOutcome::Probe(next) => rate = next,
            SearchOutcome::Done { .. } => break,
        }
    }
}

#[test]
fn climb_to_max_rate_without_failure_reports_max() {
    let found = run_to_completion(10_000_000);
    assert_eq!(found, Some(1_000_000));
}

#[test]
fn knee_invariant_holds_across_a_sweep() {
    // For any knee — below start, in range, above max, unreachable — the
    // reported knee (if any) must be a rate that actually passed (<= knee),
    // and the search must terminate quickly.
    for &knee in &[0u64, 500, 1000, 1500, 7777, 30_000, 999_999, 5_000_000] {
        let mut s = RateSearch::new(1000, dbl(2.0), 1_000_000, dbl(0.05), 8, 0, dbl(0.0));
        let mut rate = 1000u64;
        let mut probes = 0;
        let found = loop {
            probes += 1;
            assert!(probes < 200, "must terminate for knee={knee}");
            match s.advance(rate <= knee, dbl(1000.0)) {
                SearchOutcome::Probe(next) => rate = next,
                SearchOutcome::Done { knee: k } => break k,
            }
        };
        if let Some(k) = found {
            assert!(
                k <= knee,
                "reported knee {k} did not pass for true knee {knee}"
            );
        }
    }
}

#[test]
fn everything_fails_reports_no_knee() {
    // start_rate already fails the SLO (knee below start): no compliant rate.
    let found = run_to_completion(0);
    assert_eq!(found, None);
}

#[test]
fn zero_tolerance_and_zero_max_steps_still_terminate() {
    // tolerance 0 forces termination via max_bisect_steps / hi-lo<=1.
    let mut s = RateSearch::new(1000, dbl(2.0), 1_000_000, dbl(0.0), 0, 0, dbl(0.0));
    let mut rate = 1000u64;
    let mut probes = 0;
    loop {
        probes += 1;
        assert!(probes < 200, "must terminate with zero knobs");
        match s.advance(rate <= 12_345, dbl(1000.0)) {
            SearchOutcome::Probe(next) => rate = next,
            SearchOutcome::Done { .. } => break,
        }
    }
}

fn run_with_one_transient_failure(confirm_failures: u32) -> Option<u64> {
    let mut s = RateSearch::new(
        1000,
        dbl(2.0),
        1_000_000,
        dbl(0.05),
        8,
        confirm_failures,
        dbl(0.0),
    );
    let mut rate = 1000u64;
    let mut first_sample = true;
    loop {
        // One transient failure, then the honest oracle forever after.
        let passed = if first_sample {
            first_sample = false;
            false
        } else {
            rate <= 50_000
        };
        match s.advance(passed, dbl(1000.0)) {
            SearchOutcome::Probe(next) => rate = next,
            SearchOutcome::Done { knee } => return knee,
        }
    }
}

/// Oracle: the true knee is 50k, but the first sample at the start rate
/// reports a spurious failure. Without confirmation the search treats 1000 as
/// the ceiling and bisects below it, converging tidily on a knee far too low.
#[test]
fn a_transient_first_failure_does_not_cap_the_search() {
    let without = run_with_one_transient_failure(0).expect("baseline still reports some knee");
    assert!(
        without < 1000,
        "expected the unconfirmed search to be capped below the start rate, got {without}"
    );

    let with = run_with_one_transient_failure(1).expect("confirmed search must find a knee");
    let rel = (with as f64 - 50_000.0).abs() / 50_000.0;
    assert!(
        rel <= 0.05,
        "confirmed search should recover the true knee ~50k, got {with}"
    );
}

/// A real failure must still be acted on -- confirmation must not turn a
/// genuine ceiling into an endless retry loop.
#[test]
fn persistent_failures_still_converge_with_confirmation() {
    for knee in [5_000u64, 50_000, 250_000] {
        let found = run_to_completion_with(knee, 1).expect("must find a knee");
        let rel = (found as f64 - knee as f64).abs() / knee as f64;
        assert!(rel <= 0.05, "knee {knee}: found {found}, rel error {rel}");
        assert!(found <= knee, "reported knee must actually pass SLO");
    }
}

/// confirm_failures = 0 acts on the first failure.
#[test]
fn zero_confirmations_matches_legacy_behavior() {
    for knee in [5_000u64, 50_000, 250_000] {
        assert_eq!(run_to_completion(knee), run_to_completion_with(knee, 0));
    }
}

/// Each rate gets its own confirmation budget: a failure at one rate must
/// not leave a partial count that makes the next rate fail early.
#[test]
fn confirmation_budget_resets_per_rate() {
    let mut s = RateSearch::new(1000, dbl(2.0), 1_000_000, dbl(0.05), 8, 1, dbl(0.0));
    // Fail once at the start rate -- should re-probe the SAME rate.
    assert_eq!(s.advance(false, dbl(1000.0)), SearchOutcome::Probe(1000));
    // Then pass; the search should climb rather than stay put.
    match s.advance(true, dbl(1000.0)) {
        SearchOutcome::Probe(next) => assert!(next > 1000, "should climb, got {next}"),
        other => panic!("expected a climb, got {other:?}"),
    }
}

// Latency is rate-independent: slightly worse as rate drops, as observed.
fn latency_for(rate: u64) -> f64 {
    900.0 - (rate as f64).min(5000.0) * 0.04
}

fn run_against_a_floor(floor_ratio: f64) -> (usize, Option<u64>, bool) {
    let mut s = RateSearch::new(
        5000,
        dbl(2.0),
        1_000_000,
        dbl(0.05),
        8,
        0,
        dbl(floor_ratio),
    );
    let mut rate = 5000u64;
    let mut probes = 0usize;
    loop {
        probes += 1;
        // Nothing ever passes.
        match s.advance(false, dbl(latency_for(rate))) {
            SearchOutcome::Probe(next) => rate = next,
            SearchOutcome::Done { knee } => return (probes, knee, s.floor_detected()),
        }
    }
}

/// The target has a latency floor above the SLO, so no rate passes and
/// reducing the rate does not help.
#[test]
fn a_latency_floor_stops_the_search_early() {
    let (probes_off, knee_off, floor_off) = run_against_a_floor(0.0);
    assert_eq!(knee_off, None);
    assert!(!floor_off);
    assert!(
        probes_off >= 9,
        "with detection off the search should bisect to its step limit, took {probes_off}"
    );

    let (probes_on, knee_on, floor_on) = run_against_a_floor(0.10);
    assert_eq!(knee_on, None, "a floor means no compliant rate");
    assert!(
        floor_on,
        "the floor should be reported, not just 'never met'"
    );
    assert!(
        probes_on <= 4,
        "detection should stop within a few probes, took {probes_on}"
    );
}

/// A genuinely load-bound target must still be bisected properly.
#[test]
fn floor_detection_does_not_fire_on_a_load_bound_target() {
    // Latency falls steeply with rate; the true knee is 12_345.
    let mut s = RateSearch::new(1000, dbl(2.0), 1_000_000, dbl(0.05), 8, 0, dbl(0.10));
    let mut rate = 1000u64;
    let found = loop {
        let passed = rate <= 12_345;
        // Well under SLO when passing, and improving fast as rate drops.
        let latency = 100.0 + rate as f64 / 50.0;
        match s.advance(passed, dbl(latency)) {
            SearchOutcome::Probe(next) => rate = next,
            SearchOutcome::Done { knee } => break knee,
        }
    };
    assert!(
        !s.floor_detected(),
        "load-bound target misreported as a floor"
    );
    let found = found.expect("a load-bound target has a knee");
    let rel = (found as f64 - 12_345.0).abs() / 12_345.0;
    assert!(rel <= 0.05, "found {found}, rel error {rel}");
}

/// Once a rate has passed, the bisection is narrowing a real interval and
/// must run to tolerance -- floor detection must not cut that short.
#[test]
fn floor_detection_is_inert_once_a_rate_has_passed() {
    let mut s = RateSearch::new(1000, dbl(2.0), 1_000_000, dbl(0.05), 8, 0, dbl(0.10));
    // Pass once so last_good is set, then fail with flat latency forever.
    assert!(matches!(
        s.advance(true, dbl(100.0)),
        SearchOutcome::Probe(_)
    ));
    for _ in 0..8 {
        if let SearchOutcome::Done { knee } = s.advance(false, dbl(900.0)) {
            assert!(!s.floor_detected(), "floor fired despite a known-good rate");
            assert!(knee.is_some(), "a rate passed, so a knee must be reported");
            return;
        }
    }
    panic!("search did not terminate");
}

fn measured(responses: u64, p50: f64, p999: f64) -> StepMeasurement {
    StepMeasurement {
        responses,
        sent: latencies(p50, p50, p999),
        perceived: latencies(p50, p50, p999),
        slip_p99_us: dbl(0.0),
    }
}

#[test]
fn a_step_drains_then_measures_then_decides() {
    let mut config = search_config();
    config.step_multiplier = dbl(2.0);
    config.max_rate = 3_000;
    let mut s = SaturationSearchState::new(config, Duration::zero());
    assert!(!SaturationSearchState::ignores_stop_after_failures(&config));
    // The drain window is half a second.
    assert!(s.ready());
    assert_eq!(
        s.check_and_advance(Duration::from_millis(400), &measured(0, 0.0, 0.0)),
        Progress::Waiting
    );
    assert_eq!(
        s.check_and_advance(Duration::from_millis(500), &measured(100, 0.0, 0.0)),
        Progress::Baseline
    );
    // The sample window is five seconds from the baseline.
    assert_eq!(
        s.check_and_advance(Duration::from_millis(5_000), &measured(4_000, 50.0, 800.0)),
        Progress::Waiting
    );
    assert_eq!(
        s.check_and_advance(Duration::from_millis(5_500), &measured(5_100, 50.0, 800.0)),
        Progress::Stepped { first: true, outcome: SearchOutcome::Probe(2_000) }
    );
    assert_eq!(s.results[0].achieved_rate, dbl(1_000.0));
    assert!(s.results[0].slo_passed);
    assert_eq!(s.current_rate, 2_000);
    assert!(!s.is_completed());
    // The next step fails on throughput: half of what was asked for arrives.
    assert_eq!(
        s.check_and_advance(Duration::from_millis(6_000), &measured(6_000, 0.0, 0.0)),
        Progress::Baseline
    );
    let p = s.check_and_advance(Duration::from_millis(11_000), &measured(11_000, 50.0, 800.0));
    assert!(matches!(p, Progress::Stepped { first: false, outcome: SearchOutcome::Probe(1_500) }));
    assert!(!s.results[1].slo_passed);
    assert!(s.results[1].fail_reason.contains("hroughput"), "{}", s.results[1].fail_reason);
    let r = s.results();
    assert_eq!(r.max_compliant_rate, None, "the search is not complete");
    assert_eq!(r.steps.len(), 2);
    assert!(!r.latency_floor);
}

#[test]
fn thresholds_are_judged_to_the_nanosecond() {
    let mut config = search_config();
    config.slo = SloThresholds { p50: None, p99: Some(Duration::from_nanos(1_500)), p999: None };
    let state = SaturationSearchState::new(config, Duration::zero());
    assert_eq!(state.slo_threshold_us(), Some(dbl(1.5)));
    assert!(state.slo_fail_reason(&latencies(0.0, 1.2, 0.0)).is_none());
    assert!(state.slo_fail_reason(&latencies(0.0, 1.5, 0.0)).is_none());
    assert!(state.slo_fail_reason(&latencies(0.0, 1.501, 0.0)).is_some());
    // A percentile that is the threshold meets it.
    let at = f64::from_bits(percentile_us(Some(1_500)).to_bits());
    assert!(state.slo_fail_reason(&latencies(0.0, at, 0.0)).is_none());
}

/// Runs a search against a target that holds the SLO up to `limit`; returns
/// the rates in order, the knee and how many came after the climb.
fn search_to(limit: u64, confirm: u32, steps: u32) -> (Vec<u64>, Option<u64>, u32) {
    let mut s = RateSearch::new(100, dbl(1.5), 10_000, dbl(0.0), steps, confirm, dbl(0.0));
    let mut rate = 100;
    let mut rates = Vec::new();
    let mut bisecting = 0;
    loop {
        rates.push(rate);
        let climbing = s.is_climbing();
        let outcome = s.advance(rate <= limit, dbl(1.0));
        if !climbing {
            bisecting += 1;
        }
        match outcome {
            SearchOutcome::Probe(next) => rate = next,
            SearchOutcome::Done { knee } => return (rates, knee, bisecting),
        }
    }
}

#[test]
fn the_knee_is_the_highest_rate_that_passed() {
    for limit in [0, 1, 99, 100, 733, 4_000, 9_999] {
        for steps in [0, 1, 5, 40] {
            let (rates, knee, bisecting) = search_to(limit, 1, steps);
            assert_eq!(knee, rates.iter().copied().filter(|r| *r <= limit).max());
            assert!(rates.iter().all(|r| (1..=10_000).contains(r)));
            assert!(bisecting <= steps.max(1) * 2, "{bisecting} for {steps}");
        }
    }
    let (rates, knee, _) = search_to(10_000, 0, 8);
    assert_eq!((rates.last().copied(), knee), (Some(10_000), Some(10_000)));
}

#[test]
fn probes_lie_between_the_last_good_and_the_failed_rate() {
    let (rates, _, _) = search_to(733, 0, 40);
    let first_bad = rates.iter().position(|r| *r > 733).unwrap();
    let mut good = rates[first_bad - 1];
    let mut bad = rates[first_bad];
    for r in &rates[first_bad + 1..] {
        assert!(good < *r && *r < bad, "{r} between {good} and {bad}");
        if *r <= 733 {
            good = *r;
        } else {
            bad = *r;
        }
    }
}
