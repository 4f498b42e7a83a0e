use cachecannon::config::{
    Append, Connection, Pace, Protocol, SaturationSearch, SloThresholds, Target, Workload,
};
use cachecannon::double::Double;
use cachecannon::metrics::{observe, perceived_ns, slip_ns, Completed};
use cachecannon::client::RequestType;
use cachecannon::output::PrefillStallCause;
use cachecannon::runner::append::{
    logs_at_info, make_writer_limiter, spread_rate, writer_limiter, AppendStep, AppendStream,
};
use cachecannon::runner::lifecycle::{stall_cause, Observed, RunPlan, RunState, RunStep};
use cachecannon::runner::report::{
    latency_stats, prefill_sample, results, sample, BucketEnds, Counters, PrefillMark, RunFacts,
    RunHistograms,
};
use cachecannon::runner::tls::{check_ca, check_chain, load_roots, tls_plan};
use cachecannon::runner::{
    check_cluster, check_prefill, connections_per_worker, initial_rate, limiter_plan, make_limiter,
    standalone_task_capacity, still_joining, timer_slots, value_pool, LimiterPlan, StartError,
    VALUE_POOL_SEED, VALUE_POOL_SIZE,
};
use cachecannon::time::Duration;
use cachecannon::worker::tokens::Funding;
use cachecannon::worker::Phase;
use rand_xoshiro::rand_core::{RngCore, SeedableRng};
use rand_xoshiro::Xoshiro256PlusPlus;
use rustls::pki_types::pem::PemObject;
use rustls::pki_types::CertificateDer;

fn dbl(x: f64) -> Double {
    Double::from_bits(x.to_bits())
}

#[test]
fn covers_the_connection_count_that_was_silently_capped() {
    // 4096 connections over 8 threads needs 512 per worker, but a default of
    // 256 admits only 255.
    let capacity = standalone_task_capacity(4096, 8);
    assert!(
        capacity as usize >= 4096usize.div_ceil(8),
        "capacity {capacity} must cover 512 connections per worker"
    );
}

#[test]
fn uneven_split_covers_the_busiest_worker() {
    // 4097 over 8 gives one worker 513; ceiling division must not round down.
    assert!(standalone_task_capacity(4097, 8) as usize >= 513);
}

#[test]
fn small_runs_keep_the_ringline_default_as_a_floor() {
    assert_eq!(standalone_task_capacity(8, 8), 256);
    assert_eq!(standalone_task_capacity(0, 8), 256);
}

#[test]
fn zero_threads_does_not_divide_by_zero() {
    assert_eq!(standalone_task_capacity(64, 0), 256);
}

#[test]
fn timer_slots_cover_the_connection_count_that_panicked() {
    let slots = timer_slots(4096, 8);
    assert!(
        slots as usize >= 4096usize.div_ceil(8),
        "timer slots {slots} must cover 512 connections per worker"
    );
}

#[test]
fn timer_slots_allow_more_than_one_timer_per_connection() {
    // A connection can hold a request timeout and a retry sleep at once.
    assert!(timer_slots(4096, 8) as usize >= 2 * 4096usize.div_ceil(8));
}

#[test]
fn timer_slots_keep_the_ringline_default_as_a_floor() {
    assert_eq!(timer_slots(8, 8), 256);
    assert_eq!(timer_slots(0, 8), 256);
}

#[test]
fn timer_slots_survive_zero_threads_and_absurd_counts() {
    assert_eq!(timer_slots(64, 0), 256);
    assert!((timer_slots(usize::MAX, 1) as u64) < (1 << 31));
}

#[test]
fn absurd_connection_counts_stay_within_ringline_limits() {
    // ringline rejects >= 1 << 31 at config validation.
    assert!((standalone_task_capacity(usize::MAX, 1) as u64) < (1 << 31));
}

#[test]
fn pool_sizes_are_exact() {
    assert_eq!(connections_per_worker(4097, 8), 513);
    assert_eq!(standalone_task_capacity(4096, 8), 528);
    assert_eq!(timer_slots(4096, 8), 1040);
}

#[test]
fn the_value_pool_is_reproducible() {
    assert_eq!(VALUE_POOL_SIZE, 1 << 30);
    let pool = value_pool(100);
    let mut expected = vec![0u8; 100];
    Xoshiro256PlusPlus::seed_from_u64(VALUE_POOL_SEED).fill_bytes(&mut expected);
    assert_eq!(pool, expected);
    assert_ne!(pool, vec![0u8; 100]);
}

#[test]
fn limiters_hold_at_least_a_batch() {
    let mut w = Workload::default();
    let mut c = Connection::default();
    c.pipeline_depth = 32;
    assert_eq!(initial_rate(&w), 0);
    assert_eq!(limiter_plan(&w, &c), None);
    w.rate_limit = Some(10);
    assert_eq!(
        limiter_plan(&w, &c),
        Some(LimiterPlan { rate: 10, available: 10, max_tokens: 32 })
    );
    w.rate_limit = Some(1_000);
    assert_eq!(
        limiter_plan(&w, &c),
        Some(LimiterPlan { rate: 1_000, available: 1_000, max_tokens: 1_000 })
    );
    w.saturation_search = Some(SaturationSearch::with_slo(SloThresholds {
        p50: None,
        p99: Some(Duration::from_millis(1)),
        p999: None,
    }));
    w.saturation_search.as_mut().unwrap().start_rate = 7;
    assert_eq!(initial_rate(&w), 7);
}

#[test]
fn what_cannot_run_is_refused() {
    assert!(check_cluster(true, Protocol::Resp3).is_ok());
    assert!(check_cluster(false, Protocol::Ping).is_ok());
    assert_eq!(
        check_cluster(true, Protocol::MemcacheBinary).unwrap_err().message(),
        "cluster mode requires resp protocol, got MemcacheBinary"
    );
    assert!(check_prefill(true, 3, 3).is_ok());
    assert!(check_prefill(true, 0, 1).is_ok());
    assert!(check_prefill(false, 1, 3).is_ok());
    assert_eq!(
        check_prefill(true, 2, 3).unwrap_err().message(),
        "cluster prefill needs at least one connection per node, but --connections=2 < 3 \
         cluster nodes. Increase --connections to >= 3 (ideally >= threads x nodes for an even \
         spread)."
    );
    assert_eq!(
        StartError::Workers(vec!["worker 0: x".into(), "worker 1: y".into()]).message(),
        "all workers failed during startup:\n  worker 0: x\n  worker 1: y"
    );
    assert_eq!(
        StartError::Workers(Vec::new()).message(),
        "all worker threads exited immediately with no error"
    );
    assert_eq!(StartError::Precheck.message(), "precheck failed: no connectivity");
    assert_eq!(StartError::Prefill.message(), "prefill failed: timed out or stalled");
    assert!(still_joining(Duration::from_millis(4_999)));
    assert!(!still_joining(Duration::from_secs(5)));
}

#[test]
fn slip_is_backlog_over_rate() {
    assert_eq!(slip_ns(0, 1_000), 0);
    assert_eq!(slip_ns(100, 0), 0);
    assert_eq!(slip_ns(500, 1_000), 500_000_000);
    assert_eq!(slip_ns(u64::MAX, 1), u64::MAX);
    assert_eq!(perceived_ns(1_000, 500), 1_500);
}

#[test]
fn each_command_is_observed_under_its_kind() {
    let completed = |command| Completed {
        command,
        latency_ns: 10,
        ttfb_ns: Some(4),
        tx_bytes: 1,
        rx_bytes: 2,
    };
    let get = observe(&completed(RequestType::Get), 5);
    assert_eq!((get.get_ns, get.get_ttfb_ns, get.set_ns), (Some(10), Some(4), None));
    assert_eq!((get.response_ns, get.perceived_ns), (10, 15));
    assert_eq!((get.bytes_tx, get.bytes_rx), (1, 2));
    let set = observe(&completed(RequestType::Store), 0);
    assert_eq!((set.get_ns, set.get_ttfb_ns, set.set_ns), (None, None, Some(10)));
    assert_eq!(observe(&completed(RequestType::Delete), 0).delete_ns, Some(10));
    assert_eq!(observe(&completed(RequestType::Ping), 0).get_ns, Some(10));
    assert_eq!(observe(&completed(RequestType::Other), 0).get_ns, None);
}

fn plan() -> RunPlan {
    RunPlan {
        num_threads: 2,
        prefill: true,
        warmup: Duration::from_secs(10),
        duration: Duration::from_secs(60),
        has_saturation: false,
        precheck_timeout: Duration::from_secs(5),
        prefill_timeout: Duration::from_secs(300),
    }
}

fn seen(secs: u64) -> Observed {
    Observed {
        now: Duration::from_secs(secs),
        running: true,
        precheck_complete: 0,
        workers_started: 0,
        all_finished: false,
        confirmed: 0,
        total: 100,
        saturation_done: false,
    }
}

#[test]
fn a_run_goes_through_its_phases() {
    let p = plan();
    let mut s = RunState::new(Duration::zero());
    assert_eq!(s.step(&p, &seen(100)), RunStep::Wait);
    assert_eq!(s.precheck_start, None, "the timer waits for the workers");
    let started = Observed { workers_started: 2, ..seen(101) };
    assert_eq!(s.step(&p, &started), RunStep::Wait);
    let ok = Observed { precheck_complete: 2, ..seen(103) };
    assert_eq!(
        s.step(&p, &ok),
        RunStep::PrecheckPassed { elapsed: Duration::from_secs(2) }
    );
    assert_eq!(s.phase, Phase::Prefill);
    let some = Observed { confirmed: 40, ..seen(110) };
    assert_eq!(
        s.step(&p, &some),
        RunStep::Prefilling {
            elapsed: Duration::from_secs(7),
            report: Some(Duration::from_secs(110)),
        }
    );
    let all = Observed { confirmed: 100, ..seen(111) };
    assert_eq!(s.step(&p, &all), RunStep::PrefillDone);
    assert_eq!(s.step(&p, &seen(120)), RunStep::Wait);
    assert_eq!(s.step(&p, &seen(121)), RunStep::Started);
    assert_eq!(s.phase, Phase::Running);
    assert_eq!(
        s.step(&p, &seen(122)),
        RunStep::Report { interval: Duration::from_secs(1) }
    );
    assert_eq!(s.step(&p, &seen(122)), RunStep::Wait);
    assert_eq!(
        s.step(&p, &seen(181)),
        RunStep::Finished { ran: Duration::from_secs(60) }
    );
    assert_eq!(s.phase, Phase::Stop);
}

#[test]
fn a_precheck_fails_after_its_timeout() {
    let p = plan();
    let mut s = RunState::new(Duration::zero());
    s.step(&p, &Observed { workers_started: 2, ..seen(1) });
    assert_eq!(s.step(&p, &seen(5)), RunStep::Wait);
    assert_eq!(
        s.step(&p, &seen(6)),
        RunStep::PrecheckFailed { elapsed: Duration::from_secs(5) }
    );
    // A timeout of zero is none.
    let patient = RunPlan { precheck_timeout: Duration::zero(), ..plan() };
    let mut s = RunState::new(Duration::zero());
    s.step(&patient, &Observed { workers_started: 2, ..seen(1) });
    assert_eq!(s.step(&patient, &seen(100_000)), RunStep::Wait);
    // Workers that all exit fail it at once.
    let mut s = RunState::new(Duration::zero());
    assert_eq!(
        s.step(&p, &Observed { all_finished: true, ..seen(0) }),
        RunStep::PrecheckFailed { elapsed: Duration::from_secs(5) }
    );
}

#[test]
fn prefill_stalls_and_times_out() {
    let p = plan();
    let mut s = RunState::new(Duration::zero());
    s.step(&p, &Observed { precheck_complete: 2, ..seen(0) });
    s.step(&p, &Observed { confirmed: 1, ..seen(20) });
    assert!(matches!(
        s.step(&p, &Observed { confirmed: 1, ..seen(49) }),
        RunStep::Prefilling { .. }
    ));
    assert!(matches!(
        s.step(&p, &Observed { confirmed: 1, ..seen(50) }),
        RunStep::PrefillFailed { stalled: true, .. }
    ));

    let quick = RunPlan { prefill_timeout: Duration::from_secs(10), ..plan() };
    let mut s = RunState::new(Duration::zero());
    s.step(&quick, &Observed { precheck_complete: 2, ..seen(0) });
    assert!(matches!(
        s.step(&quick, &Observed { confirmed: 1, ..seen(10) }),
        RunStep::PrefillFailed { stalled: false, .. }
    ));
}

#[test]
fn the_cause_of_a_stall_is_guessed() {
    let d = Duration::from_secs(10);
    assert_eq!(stall_cause(0, 5, true, 1, 2, d), PrefillStallCause::NoConnections);
    assert_eq!(stall_cause(1, 0, true, 1, 2, d), PrefillStallCause::NoResponses);
    assert_eq!(stall_cause(1, 5, true, 1, 2, d), PrefillStallCause::Stalled);
    // 25 keys in 10 s leaves 75 keys for 30 s.
    assert_eq!(
        stall_cause(1, 5, false, 25, 100, d),
        PrefillStallCause::TooSlow { estimated_remaining_secs: dbl(30.0) }
    );
    assert_eq!(stall_cause(1, 5, false, 0, 100, d), PrefillStallCause::Unknown);
}

#[test]
fn a_search_is_not_ended_by_the_clock() {
    let p = RunPlan { prefill: false, has_saturation: true, ..plan() };
    let mut s = RunState::new(Duration::zero());
    s.step(&p, &Observed { precheck_complete: 2, ..seen(0) });
    assert_eq!(s.phase, Phase::Warmup);
    assert_eq!(s.step(&p, &seen(10)), RunStep::Started);
    assert!(matches!(s.step(&p, &seen(10_000)), RunStep::Report { .. }));
    assert_eq!(
        s.step(&p, &Observed { saturation_done: true, ..seen(10_001) }),
        RunStep::Finished { ran: Duration::from_secs(9_991) }
    );
}

#[test]
fn a_signal_ends_a_run_at_once() {
    let p = plan();
    let mut s = RunState::new(Duration::zero());
    assert_eq!(
        s.step(&p, &Observed { running: false, ..seen(3) }),
        RunStep::Interrupted { ran: Duration::zero() }
    );
    assert_eq!(s.phase, Phase::Stop);
}

#[test]
fn append_batches_open_and_publish_in_turn() {
    let mut a = AppendStream::new(100, Duration::from_secs(60), 1_000, Duration::from_secs(5));
    assert_eq!(a.step(Duration::from_secs(64), 0, 0), AppendStep::Wait);
    assert_eq!(
        a.step(Duration::from_secs(65), 0, 0),
        AppendStep::Open { start: 1_000, count: 100 }
    );
    // The next one waits for this one, however late it is.
    assert_eq!(a.step(Duration::from_secs(500), 99, 100), AppendStep::Wait);
    assert_eq!(
        a.step(Duration::from_secs(501), 100, 100),
        AppendStep::Publish { head: 1_100 }
    );
    assert_eq!(
        a.step(Duration::from_secs(502), 100, 100),
        AppendStep::Open { start: 1_100, count: 100 }
    );
    assert_eq!(a.batches, 1);
}

#[test]
fn spread_batches_are_paced_over_their_interval() {
    assert_eq!(spread_rate(100_000, Duration::from_secs(60)), 1_667);
    assert_eq!(spread_rate(60, Duration::from_secs(60)), 1);
    assert_eq!(spread_rate(1, Duration::from_secs(60)), 1);
    assert!(logs_at_info(Duration::from_secs(10)));
    assert!(!logs_at_info(Duration::from_millis(9_999)));
}

fn counters(n: u64) -> Counters {
    Counters {
        requests: n,
        responses: 2 * n,
        errors: n,
        conn_failures: n,
        hits: 3 * n,
        misses: n,
        get_count: n,
        set_count: n,
        backfill_set_count: n,
        bytes_tx: n,
        bytes_rx: n,
        request_timeouts: n,
        append_set_count: 2 * n,
    }
}

fn ends(p50: u64) -> BucketEnds {
    BucketEnds {
        p50: Some(p50),
        p90: Some(p50),
        p99: Some(p50),
        p999: Some(p50),
        p9999: Some(p50),
        max: None,
    }
}

#[test]
fn samples_are_differences_over_time() {
    let s = sample(&counters(10), &counters(20), Duration::from_secs(2), &ends(1_500));
    assert_eq!(s.req_per_sec, dbl(10.0));
    assert_eq!(s.err_per_sec, dbl(10.0));
    assert_eq!(s.hit_pct, dbl(75.0));
    assert_eq!(s.latency.p50_us, dbl(1.5));
    assert_eq!(s.latency.max_us, dbl(0.0));
    let idle = sample(&counters(10), &counters(10), Duration::from_secs(1), &ends(0));
    assert_eq!(idle.hit_pct, dbl(0.0));
    assert!(counters(20).can_sample(&counters(10)));
    assert!(!counters(10).can_sample(&counters(20)));
    assert_eq!(latency_stats(&ends(2_000)).p99_us, dbl(2.0));
}

#[test]
fn prefill_progress_is_a_difference_too() {
    let a = PrefillMark { confirmed: 10, errors: 1, conn_failures: 2 };
    let b = PrefillMark { confirmed: 30, errors: 2, conn_failures: 5 };
    let s = prefill_sample(&a, &b, Duration::from_secs(9), Duration::from_secs(2), 100, 4);
    assert_eq!(s.set_per_sec, dbl(10.0));
    assert_eq!(s.err_per_sec, dbl(0.5));
    assert_eq!((s.confirmed, s.total, s.reconnects, s.conns_active), (30, 100, 3, 4));
}

#[test]
fn results_leave_out_what_came_before() {
    let h = RunHistograms {
        get: ends(1_000),
        get_ttfb: ends(2_000),
        set: ends(3_000),
        backfill_set: ends(4_000),
        append_set: ends(7_000),
        schedule_slip: ends(5_000),
        perceived: ends(6_000),
    };
    let f = RunFacts {
        ran: Duration::from_secs(10),
        conns_active: 4,
        conns_total: 5,
        dropped_before: 3,
        dropped: 13,
        append_batches: 2,
    };
    let r = results(&counters(10), &counters(40), &h, &f);
    assert_eq!((r.requests, r.responses, r.errors), (30, 60, 60));
    assert_eq!((r.hits, r.misses, r.conns_failed), (90, 30, 30));
    assert_eq!(r.duration_secs, dbl(10.0));
    assert_eq!(r.set_latencies.p50_us, dbl(3.0));
    assert_eq!(r.requests_dropped, 10);
    assert_eq!((r.timeouts, r.append_set_count, r.append_batches), (30, 60, 2));
    assert_eq!(r.append_set_latencies.p50_us, dbl(7.0));
    assert_eq!(r.offered(), 40);
    assert_eq!(r.overload_pct(), dbl(25.0));
}

#[test]
fn certificate_files_are_judged() {
    assert_eq!(check_ca("ca.pem", 2, 2, 0), Ok(None));
    assert_eq!(
        check_ca("ca.pem", 3, 2, 1),
        Ok(Some("tls_ca_file ca.pem: 1 certificate(s) rejected, 2 loaded".to_string()))
    );
    assert_eq!(
        check_ca("ca.pem", 0, 0, 0),
        Err("tls_ca_file ca.pem contains no certificates".to_string())
    );
    assert_eq!(
        check_ca("ca.pem", 12, 0, 12),
        Err("tls_ca_file ca.pem contains no usable CA certificates (12 rejected)".to_string())
    );
    assert_eq!(check_chain("c.pem", 1), Ok(()));
    assert_eq!(
        check_chain("c.pem", 0),
        Err("tls_cert_file c.pem contains no certificates".to_string())
    );
}

/// A self-signed certificate.
const CERTIFICATE: &[u8] = b"-----BEGIN CERTIFICATE-----
MIIBpjCCAU2gAwIBAgIUMwK1SZdIC6CElXsHNWsiIAA2ZBAwCgYIKoZIzj0EAwIw
GzEZMBcGA1UEAwwQY2FjaGVjYW5ub24tdGVzdDAeFw0yNjExMTYwMzU3NTFaFw0z
NjExMTMwMzU3NTFaMBsxGTAXBgNVBAMMEGNhY2hlY2Fubm9uLXRlc3QwWTATBgcq
hkjOPQIBBggqhkjOPQMBBwNCAATkOnK9Z7XATTmTgX/YhV9AqSMevB4XakIo6WCS
HRjZHD6F4X/Ylmes2C5SAeJU+98mjaqehRoyNnXcwe80j7YIo28wbTAdBgNVHQ4E
FgQU89v9FF+qR31Q4CRFkaxRqrz1WI0wHwYDVR0jBBgwFoAU89v9FF+qR31Q4CRF
kaxRqrz1WI0wDwYDVR0TAQH/BAUwAwEB/zAaBgNVHREEEzARgglsb2NhbGhvc3SH
BH8AAAEwCgYIKoZIzj0EAwIDRwAwRAIgbnZ4KFvNLFwzXDZFs17/sciIRohCm+0R
eee6y+0q1jYCIByyxLrlW/yKXb/wa6oTmUrXynMPvOqFycoxf2t3WGEg
-----END CERTIFICATE-----\n";

fn certificates(pem: &[u8]) -> Vec<Vec<u8>> {
    CertificateDer::pem_slice_iter(pem).map(|c| c.expect("a certificate").to_vec()).collect()
}

fn tls_target() -> Target {
    Target {
        endpoints: vec!["127.0.0.1:11211".to_string()],
        protocol: Protocol::Memcache,
        tls: true,
        tls_hostname: None,
        tls_verify: true,
        tls_ca_file: None,
        tls_cert_file: None,
        tls_key_file: None,
        cluster: false,
    }
}

#[test]
fn no_cert_options_uses_public_roots() {
    let target = tls_target();
    let plan = tls_plan(&target).expect("plain TLS config should build");
    assert!(plan.ca_file.is_none() && plan.identity.is_none() && plan.verify);
    let mut plain = tls_target();
    plain.tls = false;
    assert!(tls_plan(&plain).is_none());
}

#[test]
fn ca_file_without_certificates_is_rejected() {
    // An empty/garbage CA file would otherwise leave an empty root store and
    // fail every handshake with an opaque error.
    let certs = certificates(b"not a certificate\n");
    let e = load_roots("empty.pem", certs).expect_err("a CA file with no certs must not build");
    assert_eq!(e, "tls_ca_file empty.pem contains no certificates");
}

#[test]
fn private_ca_is_accepted_as_a_root() {
    let mut target = tls_target();
    target.tls_ca_file = Some("c.crt".to_string());
    let plan = tls_plan(&target).unwrap();
    let path = plan.ca_file.expect("the CA file replaces the public roots");
    let (roots, warning) = load_roots(path, certificates(CERTIFICATE))
        .expect("a private CA should load as a trust root");
    assert_eq!(roots.len(), 1);
    assert_eq!(warning, None);
}

#[test]
fn certificates_that_are_none_are_refused() {
    let junk = || b"no certificate".to_vec();
    let e = load_roots("ca.pem", vec![junk(), junk()]).unwrap_err();
    assert_eq!(e, "tls_ca_file ca.pem contains no usable CA certificates (2 rejected)");
    let mut certs = certificates(CERTIFICATE);
    certs.push(junk());
    let (roots, warning) = load_roots("ca.pem", certs).unwrap();
    assert_eq!(roots.len(), 1);
    assert_eq!(
        warning,
        Some("tls_ca_file ca.pem: 1 certificate(s) rejected, 1 loaded".to_string())
    );
}

#[test]
fn client_certificate_is_accepted_for_mutual_tls() {
    let mut target = tls_target();
    target.tls_cert_file = Some("c.crt".to_string());
    target.tls_key_file = Some("c.key".to_string());
    // Client auth must also apply on the unverified-server path, so a
    // self-signed server and client auth can be used together.
    for verify in [true, false] {
        target.tls_verify = verify;
        let plan = tls_plan(&target).unwrap();
        assert_eq!(plan.verify, verify);
        let (chain, key) = plan.identity.expect("client auth should apply");
        assert_eq!((chain.as_str(), key.as_str()), ("c.crt", "c.key"));
        check_chain(chain, certificates(CERTIFICATE).len())
            .expect("a client certificate should build");
    }
    target.tls_key_file = None;
    assert!(tls_plan(&target).unwrap().identity.is_none());
}

#[test]
fn only_spread_batches_are_paced() {
    let mut append = Append {
        batch: 3_000,
        every: Duration::from_secs(60),
        pace: Pace::Burst,
        connections: 1,
        pipeline_depth: 32,
    };
    assert_eq!(writer_limiter(&append), None);
    append.pace = Pace::Spread;
    let plan = LimiterPlan { rate: 50, available: 0, max_tokens: 50 };
    assert_eq!(writer_limiter(&append), Some(plan));
    append.batch = 60;
    let plan = LimiterPlan { rate: 1, available: 0, max_tokens: 32 };
    assert_eq!(writer_limiter(&append), Some(plan));
}

#[test]
fn limiters_are_made_as_planned() {
    let connection = Connection::default();
    let mut workload = Workload::default();
    assert!(make_limiter(&workload, &connection).is_none());
    workload.rate_limit = Some(50);
    let rl = make_limiter(&workload, &connection).unwrap();
    assert_eq!(rl.take(50), Funding::Funded);
    assert_eq!(rl.take(51), Funding::TooLarge);
    let append = Append {
        batch: 60,
        every: Duration::from_secs(60),
        pace: Pace::Spread,
        connections: 1,
        pipeline_depth: 4,
    };
    let rl = make_writer_limiter(&append).unwrap();
    assert!(matches!(rl.take(4), Funding::Wait(_)));
    assert_eq!(rl.take(5), Funding::TooLarge);
}
