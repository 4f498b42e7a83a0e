use cachecannon::client::{RedirectKind, RequestResult, RequestType};
use cachecannon::config::{KeyFormat, Protocol};
use cachecannon::time::Duration;
use cachecannon::worker::append::{AppendTurn, AppendWait, AppendWriter};
use cachecannon::worker::connect::{
    probe_of, resolve_tls_server_name, Action, ConnectParams, Event, Probe, Role,
};
use cachecannon::worker::drive::{
    choose_command, listed_key, ping_turn, Command, DrawKind, DriveParams, Driver, Fire, Flavor,
    KeySearch, NextLoad, PingTurn, RetryQueues, Turn, Verdict, Wait,
};
use cachecannon::worker::inflight::{Await, InFlight, TimerFired};
use cachecannon::worker::keys::{render_key, write_key};
use cachecannon::worker::queues::PrefillQueues;
use cachecannon::worker::reply::{
    apply_redirect, endpoint_index, map_memcache_op, map_respmeta, marked, parse_resp_redirect,
    ping_counters, record_counters, redirect_count, unmarked, MemcacheOp, OpKind, Purpose, Redirected, RespMeta,
};
use cachecannon::worker::routing::{
    build_endpoint_keys, build_prefill_queues, build_ring, enqueue_append_batch,
    max_routing_attempts, requeue_drained, route_partition, take_owned, Routes, SLOT_COUNT,
};
use cachecannon::worker::tokens::{
    append_grant, append_request, append_token_budget, dispatcher_nap, limiter_slip, ping_nap,
    claim_request, ping_request, ping_token, Acquire, Claim, Funding, Head, Settlement,
    TokenBucket, TokenDispatcher,
};
use cachecannon::worker::{
    assignments, confirm_prefill_key, connection_share, pinned_cpu, DisconnectReason, Phase,
    SharedState, Tick, TickState, WorkerProgress, READER_SEED, WRITER_SEED,
};
use rand_xoshiro::rand_core::SeedableRng;
use rand_xoshiro::Xoshiro256PlusPlus;
use std::collections::VecDeque;

fn rng() -> Xoshiro256PlusPlus {
    Xoshiro256PlusPlus::seed_from_u64(42)
}

fn secs(n: u64) -> Duration {
    Duration::from_secs(n)
}

fn after(t: Duration, ms: u64) -> Duration {
    t.plus(Duration::from_millis(ms))
}

#[test]
fn no_deadline_when_disabled_or_idle() {
    let now = secs(100);
    let mut idle = InFlight::new(Duration::from_secs(1), 4);
    assert_eq!(idle.remaining(now), None, "nothing in flight");
    idle.push(now);
    let disabled = InFlight::new(Duration::zero(), 4);
    let mut disabled = disabled;
    disabled.push(now);
    assert_eq!(disabled.remaining(now), None, "zero timeout disables");
    assert_eq!(disabled.before_recv(now), Await::Unbounded);
}

#[test]
fn deadline_tracks_the_oldest_request() {
    let t0 = secs(100);
    let mut f = InFlight::new(Duration::from_millis(1000), 4);
    f.push(t0);
    f.push(after(t0, 600));
    assert_eq!(
        f.remaining(after(t0, 300)),
        Some(Duration::from_millis(700))
    );
    // Oldest answered: the deadline now belongs to the second request.
    f.pop();
    assert_eq!(
        f.remaining(after(t0, 300)),
        Some(Duration::from_millis(1000))
    );
    assert_eq!(f.len(), 1);
}

#[test]
fn expired_request_reports_zero_not_underflow() {
    let t0 = secs(100);
    let mut f = InFlight::new(Duration::from_millis(100), 4);
    f.push(t0);
    assert_eq!(f.remaining(after(t0, 5_000)), Some(Duration::zero()));
}

#[test]
fn a_timer_outlives_replies() {
    let t0 = secs(100);
    let mut f = InFlight::new(Duration::from_millis(1000), 4);
    f.push(t0);
    f.push(after(t0, 600));
    assert_eq!(f.before_recv(t0), Await::Arm(Duration::from_millis(1000)));
    f.armed(t0, Duration::from_millis(1000));
    f.pop();
    assert_eq!(f.before_recv(after(t0, 700)), Await::Running);
    // It fires for a request that was answered: armed again for the next one.
    assert_eq!(
        f.timer_fired(after(t0, 1000)),
        TimerFired::Rearm(Duration::from_millis(600))
    );
    f.armed(after(t0, 1000), Duration::from_millis(600));
    assert_eq!(
        f.timer_fired(after(t0, 1600)),
        TimerFired::Expired { requests: 1 }
    );
}

fn queued(d: &mut TokenDispatcher, want: u64) -> u64 {
    match d.acquire(want) {
        Acquire::Queued { id, .. } => id,
        Acquire::Closed => panic!("closed"),
    }
}

fn limiter(rate: u64) -> TokenBucket {
    TokenBucket::new(rate, rate, rate.max(1))
}

#[test]
fn dispatch_funds_what_the_limiter_can_pay_for() {
    let mut d = TokenDispatcher::new();
    let a = queued(&mut d, 1);
    let b = queued(&mut d, 1);
    let (_, settled) = d.dispatch(&limiter(100));
    assert_eq!((settled[0].id, settled[0].granted), (a, 1));
    assert_eq!((settled[1].id, settled[1].granted), (b, 1));
    assert!(d.queue.is_empty(), "funded slots must leave the queue");
}

#[test]
fn an_unfundable_head_keeps_its_place() {
    // The head is what the limiter cannot pay for, so nothing behind it is
    // reachable either -- service is FIFO. It must stay queued rather than
    // be dropped, or the waiter never gets funded at all.
    let mut d = TokenDispatcher::new();
    let head = queued(&mut d, 10);
    let rl = limiter(10);
    assert_eq!(rl.take(10), Funding::Funded, "drain the bucket");
    let (nap, settled) = d.dispatch(&rl);
    assert!(settled.is_empty());
    assert_eq!(d.queue.len(), 1, "head must be put back");
    assert_eq!(d.queue[0].id, head);
    assert!(nap.is_some(), "caller needs to know how long to wait");
}

#[test]
fn an_empty_queue_reports_nothing_to_wait_for() {
    let mut d = TokenDispatcher::new();
    assert!(d.dispatch(&limiter(100)).0.is_none());
    // Whoever comes next wakes it.
    assert_eq!(d.acquire(1), Acquire::Queued { id: 0, wake: true });
    assert_eq!(d.acquire(1), Acquire::Queued { id: 1, wake: false });
}

#[test]
fn drain_releases_every_waiter_and_closes_for_good() {
    // `drain` can only reach whoever is queued at that instant. Closing has
    // to be sticky, or a connection arriving afterwards queues behind a
    // dispatcher that has exited and hangs shutdown.
    let mut d = TokenDispatcher::new();
    let slot = queued(&mut d, 1);
    let released = d.drain();
    assert_eq!(released.len(), 1);
    assert_eq!(
        (released[0].id, released[0].granted),
        (slot, 0),
        "released, not funded"
    );
    assert!(d.queue.is_empty());
    assert!(d.closed, "close must persist past the drain");
    assert_eq!(d.acquire(1), Acquire::Closed);
}

#[test]
fn a_claim_never_outlives_its_funding() {
    // The limiter is debited only for slots that actually get granted, so a
    // run cannot be charged for requests it never sends.
    let mut d = TokenDispatcher::new();
    let rl = limiter(4);
    for _ in 0..6 {
        queued(&mut d, 1);
    }
    let (_, settled) = d.dispatch(&rl);
    let funded: u64 = settled.iter().map(|s| s.granted).sum::<u64>();
    assert_eq!(funded, 4, "what was granted was paid for");
    assert_eq!(d.queue.len(), 2, "4 of 6 fundable at rate 4");
}

#[test]
fn oversized_claims_are_cut_to_the_capacity() {
    let mut d = TokenDispatcher::new();
    queued(&mut d, 1_000);
    let (nap, settled) = d.dispatch(&limiter(8));
    assert_eq!(nap, None);
    assert_eq!(settled[0].granted, 8);
}

#[test]
fn waits_are_bounded() {
    let ms = Duration::from_millis;
    assert_eq!(dispatcher_nap(None), ms(50));
    assert_eq!(dispatcher_nap(Some(ms(3))), ms(3));
    assert_eq!(dispatcher_nap(Some(ms(3_000))), ms(50));
    assert_eq!(dispatcher_nap(Some(Duration::from_nanos(1))), Duration::from_micros(1));
    assert_eq!(ping_nap(Funding::Funded), None);
    assert_eq!(ping_nap(Funding::Wait(ms(2))), Some(ms(2)));
    assert_eq!(ping_nap(Funding::Wait(Duration::from_nanos(9))), Some(Duration::from_micros(50)));
    assert_eq!(ping_nap(Funding::TooLarge), Some(ms(1)));
}

#[test]
fn buckets_grant_what_they_hold() {
    let rl = TokenBucket::new(1_000, 3, 8);
    assert_eq!(rl.take(9), Funding::TooLarge);
    assert!(limiter_slip(&rl) >= 3_000_000, "three tokens are three milliseconds");
    assert_eq!(rl.take(3), Funding::Funded);
    assert!(matches!(rl.take(8), Funding::Wait(_)));
    assert_eq!(rl.dropped(), 0);
    // A rate of zero is unlimited.
    rl.set_rate(0);
    assert_eq!(rl.take(1_000_000), Funding::Funded);
    let slow = TokenBucket::new(1, 1, 1);
    assert_eq!(ping_token(&slow), None);
    assert!(ping_token(&slow).unwrap().nanos > 500_000_000);
}

#[test]
fn writers_take_a_batch_or_a_single_token() {
    assert_eq!(append_request(10, 4), 4);
    assert_eq!(append_request(0, 4), 1);
    assert_eq!(append_grant(8, true, false), 8);
    assert_eq!(append_grant(8, false, true), 1);
    assert_eq!(append_grant(1, false, true), 0);
    assert_eq!(append_token_budget(None, 7), 7);
    let rl = TokenBucket::new(1, 5, 8);
    assert_eq!(append_token_budget(Some(&rl), 4), 4);
    assert_eq!(append_token_budget(Some(&rl), 4), 1);
    assert_eq!(append_token_budget(Some(&rl), 4), 0);
}

#[test]
fn confirm_prefill_key_single_worker() {
    let mut shared = SharedState::new();
    let mut worker = WorkerProgress::new(3, 1, &mut shared);

    // Confirm 2 of 3 keys — worker should not be done yet.
    confirm_prefill_key(&mut worker, &mut shared);
    confirm_prefill_key(&mut worker, &mut shared);
    assert!(!worker.is_prefill_done());
    assert_eq!(shared.prefill_complete_count(), 0);

    // Confirm the 3rd key — worker should now be done.
    confirm_prefill_key(&mut worker, &mut shared);
    assert!(worker.is_prefill_done());
    assert_eq!(shared.prefill_complete_count(), 1);
    assert_eq!(shared.prefill_keys_confirmed(), 3);
}

#[test]
fn confirm_prefill_key_multiple_workers_independent() {
    // Two workers, each with 50 keys. Interleaved confirmations must not
    // cause one worker to finish early due to the other's progress.
    let mut shared = SharedState::new();
    let mut worker0 = WorkerProgress::new(50, 1, &mut shared);
    let mut worker1 = WorkerProgress::new(50, 1, &mut shared);

    // Worker 1 confirms all 50 of its keys first.
    for _ in 0..50 {
        confirm_prefill_key(&mut worker1, &mut shared);
    }
    assert!(worker1.is_prefill_done());
    assert_eq!(shared.prefill_complete_count(), 1);

    // Worker 0 has confirmed 0 keys — must NOT be done even though
    // global confirmed (50) >= worker 0's total (50).
    assert!(!worker0.is_prefill_done());

    // Worker 0 confirms 49 of its 50 keys — still not done.
    for _ in 0..49 {
        confirm_prefill_key(&mut worker0, &mut shared);
    }
    assert!(!worker0.is_prefill_done());
    assert_eq!(shared.prefill_complete_count(), 1);

    // Worker 0 confirms its last key — now done.
    confirm_prefill_key(&mut worker0, &mut shared);
    assert!(worker0.is_prefill_done());
    assert_eq!(shared.prefill_complete_count(), 2);
    assert_eq!(shared.prefill_keys_confirmed(), 100);
}

#[test]
fn confirm_prefill_key_marks_complete_only_once() {
    let mut shared = SharedState::new();
    let mut worker = WorkerProgress::new(2, 1, &mut shared);

    confirm_prefill_key(&mut worker, &mut shared);
    confirm_prefill_key(&mut worker, &mut shared);
    assert!(worker.is_prefill_done());
    assert_eq!(shared.prefill_complete_count(), 1);

    // Extra confirmations (e.g. late responses) should not double-count.
    confirm_prefill_key(&mut worker, &mut shared);
    assert_eq!(shared.prefill_complete_count(), 1);
}

#[test]
fn confirm_prefill_key_zero_total_never_completes() {
    let mut shared = SharedState::new();
    let mut worker = WorkerProgress::new(0, 1, &mut shared);

    // A worker with prefill_total=0 should never trigger completion
    // via confirm_prefill_key (it's handled at init time instead).
    confirm_prefill_key(&mut worker, &mut shared);
    assert_eq!(shared.prefill_complete_count(), 0);
}

#[test]
fn phases_and_shared_counts() {
    for code in 0..6u8 {
        assert_eq!(Phase::from_u8(code).to_u8(), code);
    }
    assert!(Phase::Running.is_recording() && !Phase::Warmup.is_recording());
    assert!(Phase::Stop.should_stop());
    let mut s = SharedState::new();
    s.set_phase(Phase::Precheck);
    assert_eq!(s.phase(), Phase::Precheck);
    s.mark_worker_started();
    s.add_prefill_total(7);
    s.add_append_total(3);
    s.confirm_append_key();
    assert_eq!((s.workers_started(), s.prefill_keys_total()), (1, 7));
    assert_eq!((s.append_keys_total(), s.append_keys_confirmed()), (3, 1));
    // A worker without connections has nothing to check.
    let mut idle = WorkerProgress::new(0, 0, &mut s);
    assert!(idle.is_precheck_done());
    assert_eq!(s.precheck_complete_count(), 1);
    idle.mark_precheck_done(&mut s);
    assert_eq!(s.precheck_complete_count(), 1);
}

#[test]
fn connections_are_shared_out_evenly() {
    let shares: Vec<(usize, usize)> = (0..3).map(|w| connection_share(8, 3, w)).collect();
    assert_eq!(shares, vec![(3, 0), (3, 3), (2, 6)]);
    let a = assignments(3, 3, 2, 1, READER_SEED);
    assert_eq!(a[0].global_idx, 3);
    assert_eq!((a[0].endpoint_idx, a[1].endpoint_idx), (1, 0));
    assert_eq!((a[0].seed, a[2].seed), (10_042, 10_044));
    assert_eq!(assignments(1, 0, 1, 0, WRITER_SEED)[0].seed, WRITER_SEED);
    assert_eq!(pinned_cpu(&vec![4, 6], 3), Some(6));
    assert_eq!(pinned_cpu(&Vec::new(), 3), None);
}

#[test]
fn ticks_follow_the_phase() {
    let mut t = TickState::new(0);
    assert_eq!(t.tick(Phase::Running, 1), Tick::Continue { heartbeat: false });
    assert!(t.recording);
    assert_eq!(t.tick(Phase::Running, 2_000_000_000), Tick::Continue { heartbeat: true });
    assert_eq!(t.tick_count, 0);
    assert_eq!(t.tick(Phase::Stop, 3_000_000_000), Tick::Shutdown);
    assert!(!t.recording);
}

#[test]
fn keys_are_rendered_from_their_ids() {
    assert_eq!(render_key(0xabc, 6, KeyFormat::Hex), b"000abc");
    assert_eq!(
        render_key(0xabc, 36, KeyFormat::Uuid),
        b"00000000-0000-0000-0000-000000000abc"
    );
    let mut buf = vec![0u8; 4];
    write_key(&mut buf, 0x12345, KeyFormat::Hex);
    assert_eq!(buf, b"2345");
}

fn addresses(n: usize) -> Vec<String> {
    (0..n).map(|i| format!("10.0.0.{i}:6379")).collect()
}

#[test]
fn keys_are_partitioned_by_the_ring() {
    let endpoints = addresses(3);
    let ids: Vec<&str> = endpoints.iter().map(|s| s.as_str()).collect();
    let expected = ketama::Ring::build(&ids);
    let ring = build_ring(&endpoints);
    let lists = build_endpoint_keys(1_000, 16, KeyFormat::Hex, &endpoints, &None);
    let mut seen = 0;
    for (ep, list) in lists.iter().enumerate() {
        for &id in list {
            let key = render_key(id as usize, 16, KeyFormat::Hex);
            assert_eq!(route_partition(&None, &ring, 3, &key), ep);
            assert_eq!(expected.route(&key), ep);
            seen += 1;
        }
    }
    assert_eq!(seen, 1_000);
    assert!(lists.iter().all(|l| !l.is_empty()), "no endpoint is left out");
    assert!(build_endpoint_keys(1_000, 16, KeyFormat::Hex, &addresses(1), &None).is_empty());
}

#[test]
fn keys_are_partitioned_by_slots() {
    let endpoints = addresses(2);
    let mut table = vec![0u16; SLOT_COUNT];
    for slot in SLOT_COUNT / 2..SLOT_COUNT {
        table[slot] = 1;
    }
    let table = Some(table);
    let ring = build_ring(&endpoints);
    let key = b"foo".to_vec();
    // The slot of "foo" is 12182.
    assert_eq!(resp_proto::hash_slot(&key), 12182);
    assert_eq!(route_partition(&table, &ring, 2, &key), 1);
    let queues = build_prefill_queues(100, 16, KeyFormat::Hex, &endpoints, &table);
    assert_eq!(queues.len(), 2);
}

#[test]
fn queues_hand_keys_to_their_owners() {
    let endpoints = addresses(2);
    let ring = build_ring(&endpoints);
    let table = Some(vec![1u16; SLOT_COUNT]);
    let routes = Routes {
        slot_table: &table,
        ring: &ring,
        num_endpoints: 2,
        key_len: 16,
        format: KeyFormat::Hex,
    };
    let mut queues = PrefillQueues::new(2);
    queues.push_back(0, 7);
    queues.push_back(0, 8);
    // Both belong to the other endpoint now.
    assert_eq!(take_owned(&mut queues, &routes, 0), None);
    assert!(queues.is_empty(0));
    assert_eq!(take_owned(&mut queues, &routes, 1), Some(7));
    let mut lost: VecDeque<usize> = VecDeque::from(vec![7, 9]);
    requeue_drained(&mut queues, &routes, &mut lost);
    assert!(lost.is_empty());
    assert_eq!(queues.pop_front(1), Some(8));
    assert_eq!(queues.pop_front(1), Some(7));
    assert_eq!(queues.pop_front(1), Some(9));
    queues.push_front(1, 3);
    assert_eq!(queues.pop_front(1), Some(3));
    enqueue_append_batch(&mut queues, 100, 2, 16, KeyFormat::Hex, &endpoints, &table);
    assert_eq!((queues.pop_front(1), queues.pop_front(1)), (Some(100), Some(101)));
    assert_eq!(max_routing_attempts(0), 64);
    assert_eq!(max_routing_attempts(3), 192);
    assert_eq!(max_routing_attempts(usize::MAX), usize::MAX);
}

#[test]
fn markers_are_undone() {
    let marked_id = marked(0x1234, Purpose::Prefill);
    assert_eq!(marked_id, (1 << 62) | 0x1234);
    assert_eq!(unmarked(marked_id), 0x1234);
    assert_eq!(marked(1, Purpose::Backfill) >> 63, 1);
    assert_eq!(unmarked(marked(5, Purpose::Append)), 5);
}

#[test]
fn redirects_are_read_and_applied() {
    let r = parse_resp_redirect("MOVED 3999 127.0.0.1:6381").unwrap();
    assert_eq!((r.kind, r.slot, r.address.as_str()), (RedirectKind::Moved, 3999, "127.0.0.1:6381"));
    let r = parse_resp_redirect("ASK 12 h:1").unwrap();
    assert_eq!(r.kind, RedirectKind::Ask);
    for bad in ["ERR x", "MOVED", "MOVED x h:1", "MOVED 99999999 h:1"] {
        assert!(parse_resp_redirect(bad).is_none(), "{bad}");
    }
    let mut table = Some(vec![0u16; SLOT_COUNT]);
    let mut endpoints = addresses(3);
    assert_eq!(
        apply_redirect(&mut table, &mut endpoints, RedirectKind::Moved, 7, Some("10.0.0.2:6379")),
        Redirected::Moved { endpoint: 2, added: false }
    );
    assert_eq!(table.as_ref().unwrap()[7], 2);
    // A node that is not known yet is added.
    assert_eq!(
        apply_redirect(&mut table, &mut endpoints, RedirectKind::Moved, 8, Some("10.0.0.9:6379")),
        Redirected::Moved { endpoint: 3, added: true }
    );
    assert_eq!(table.as_ref().unwrap()[8], 3);
    assert_eq!(endpoints[3], "10.0.0.9:6379");
    assert_eq!(
        apply_redirect(&mut table, &mut endpoints, RedirectKind::Ask, 9, Some("10.0.0.1:6379")),
        Redirected::Ignored
    );
    assert_eq!(
        apply_redirect(&mut table, &mut endpoints, RedirectKind::Moved, 9, None),
        Redirected::Ignored
    );
    assert_eq!(table.as_ref().unwrap()[9], 0);
    let mut none = None;
    assert_eq!(
        apply_redirect(&mut none, &mut endpoints, RedirectKind::Moved, 9, Some("x")),
        Redirected::Ignored
    );
    assert_eq!(endpoint_index(&addresses(3), "10.0.0.2:6379"), Some(2));
    assert_eq!(endpoint_index(&addresses(3), "x"), None);
}

fn meta(kind: OpKind, success: bool, value_len: Option<u64>, user_data: u64) -> RespMeta {
    RespMeta { kind, success, value_len, user_data, latency_ns: 9, error: None }
}

#[test]
fn replies_become_results() {
    let hit = map_respmeta(&meta(OpKind::Get, true, Some(64), 5));
    assert_eq!((hit.request_type, hit.hit, hit.key_id), (RequestType::Get, Some(true), Some(5)));
    let miss = map_respmeta(&meta(OpKind::Get, true, None, 5));
    assert_eq!(miss.hit, Some(false));
    let prefill = map_respmeta(&meta(OpKind::Store, true, None, marked(5, Purpose::Prefill)));
    assert!(prefill.prefill && !prefill.backfill);
    assert_eq!(prefill.key_id, Some(5));
    let mut moved = meta(OpKind::Get, false, None, 5);
    moved.error = Some("MOVED 1 h:1".into());
    let moved = map_respmeta(&moved);
    assert!(moved.redirect.is_some());
    assert_eq!(record_counters(&moved).errors, 0, "a redirect is no error");
    let failed = map_respmeta(&meta(OpKind::Get, false, None, 5));
    assert_eq!(record_counters(&failed).errors, 1);
    let c = record_counters(&hit);
    assert_eq!((c.responses, c.hits, c.misses, c.gets, c.sets), (1, 1, 0, 1, 0));
    let set = map_memcache_op(MemcacheOp::Store { ok: true, user_data: 0, latency_ns: 1 });
    assert_eq!(record_counters(&set).sets, 1);
    let del = map_memcache_op(MemcacheOp::Delete { ok: true, latency_ns: 1 });
    assert_eq!(record_counters(&del).deletes, 1);
    let get = map_memcache_op(MemcacheOp::Get { found: Some(false), user_data: 3, latency_ns: 1 });
    assert_eq!((get.hit, get.key_id), (Some(false), Some(3)));
    assert_eq!(ping_counters(false).errors, 1);
    assert_eq!(ping_counters(true).gets, 1);
}

fn params() -> DriveParams {
    DriveParams {
        flavor: Flavor::Resp,
        get_ratio: 80,
        set_ratio: 15,
        delete_ratio: 5,
        value_len: 64,
        pool_len: 1_000,
        backfill_on_miss: true,
        endpoint_idx: 0,
        num_endpoints: 1,
        pipeline_depth: 8,
        batch_size: 4,
    }
}

fn get_result(hit: bool) -> RequestResult {
    map_respmeta(&meta(OpKind::Get, true, if hit { Some(1) } else { None }, 17))
}

#[test]
fn a_round_waits_for_a_whole_batch() {
    let mut d = Driver::new(params(), Vec::new(), Duration::zero());
    assert_eq!(d.begin(Phase::Running, false, 4), Turn::Load);
    assert_eq!(d.begin(Phase::Running, false, 5), Turn::Idle);
    assert_eq!(d.begin(Phase::Precheck, false, 0), Turn::Idle);
    assert_eq!(d.begin(Phase::Prefill, false, 0), Turn::Prefill);
    assert_eq!(d.begin(Phase::Prefill, true, 0), Turn::Idle);
    assert_eq!(d.begin(Phase::Stop, false, 0), Turn::Stop);
}

#[test]
fn rounds_spend_tokens_and_carry_grants() {
    let mut d = Driver::new(params(), Vec::new(), Duration::zero());
    d.begin(Phase::Running, false, 0);
    d.acquire_budget(None);
    assert_eq!(d.budget, 4);
    let rl = TokenBucket::new(1, 4, 100);
    d.begin(Phase::Running, false, 0);
    d.acquire_budget(Some(&rl));
    assert_eq!((d.budget, d.turned_away), (4, false));
    d.begin(Phase::Running, false, 0);
    d.acquire_budget(Some(&rl));
    assert_eq!((d.budget, d.turned_away), (0, true));
    assert_eq!(d.wait(0, true), Wait::Tokens(4));
    assert_eq!(d.wait(1, true), Wait::Reply);
    assert_eq!(d.wait(0, false), Wait::Nap(Duration::from_micros(100)));
    d.tokens_granted(3);
    d.begin(Phase::Running, false, 0);
    d.acquire_budget(Some(&rl));
    assert_eq!((d.budget, d.carried_tokens, d.turned_away), (3, 0, false));
    // A connection that was not turned away does not park.
    assert_eq!(d.wait(0, true), Wait::Nap(Duration::from_micros(100)));
}

#[test]
fn misses_are_backfilled_before_anything_else() {
    let mut d = Driver::new(params(), Vec::new(), Duration::zero());
    let mut queues = PrefillQueues::new(1);
    let mut shared = SharedState::new();
    let mut worker = WorkerProgress::new(0, 1, &mut shared);
    let mut retries = RetryQueues::new(1);
    d.begin(Phase::Running, false, 0);
    d.acquire_budget(None);
    assert_eq!(d.next_load(&mut retries, 0), NextLoad::Pick);
    let fire = d.fire_rolled(17, 0);
    assert_eq!(fire, Fire { command: Command::Get, key_id: 17, user_data: 17 });
    d.load_sent(fire, secs(1));
    assert_eq!(d.budget, 3);
    let fx = d.on_reply(&get_result(false), &mut queues, &mut worker, &mut shared);
    assert_eq!(fx.counters.misses, 1);
    assert_eq!(d.inflight.len(), 0);
    assert_eq!(d.next_load(&mut retries, 0), NextLoad::Backfill(17));
    let back = d.backfill_fire(17);
    assert_eq!(back.user_data, (1 << 63) | 17);
    d.backfill_refused(17);
    assert_eq!(d.next_load(&mut retries, 0), NextLoad::Backfill(17));
    d.load_sent(back, secs(2));
    let stored = map_respmeta(&meta(OpKind::Store, true, None, back.user_data));
    let fx = d.on_reply(&stored, &mut queues, &mut worker, &mut shared);
    assert!(fx.backfill_stored);
    assert_eq!(d.next_load(&mut retries, 8), NextLoad::Done);
    // A hit is not backfilled.
    d.on_reply(&get_result(true), &mut queues, &mut worker, &mut shared);
    assert!(d.into_backfill().is_empty());
}

#[test]
fn commands_follow_their_shares() {
    let mut gets = 0;
    let mut deletes = 0;
    for roll in 0..100 {
        match choose_command(roll, 80, 5) {
            Command::Get => gets += 1,
            Command::Delete => deletes += 1,
            Command::Store => {}
        }
    }
    assert_eq!((gets, deletes), (80, 5));
    let mut d = Driver::new(params(), Vec::new(), Duration::zero());
    d.budget = 1_000;
    let mut r = rng();
    let mut gets = 0;
    for _ in 0..1_000 {
        if d.fire_picked(1, &mut r).command == Command::Get {
            gets += 1;
        }
    }
    assert!((700..900).contains(&gets), "{gets}");
    // The ratios are weights: one to one is half and half.
    let even = DriveParams { get_ratio: 1, set_ratio: 1, delete_ratio: 0, ..params() };
    let mut d = Driver::new(even, Vec::new(), Duration::zero());
    d.budget = 1_000;
    let mut gets = 0;
    for _ in 0..1_000 {
        if d.fire_picked(1, &mut r).command == Command::Get {
            gets += 1;
        }
    }
    assert!((400..600).contains(&gets), "{gets}");
}

#[test]
fn moved_requests_are_fired_again_at_their_new_node() {
    let mut d = Driver::new(params(), Vec::new(), Duration::zero());
    let mut queues = PrefillQueues::new(1);
    let mut retries = RetryQueues::new(1);
    let mut shared = SharedState::new();
    let mut worker = WorkerProgress::new(0, 1, &mut shared);
    let fire = Fire { command: Command::Delete, key_id: 9, user_data: 0 };
    d.load_sent(fire, secs(1));
    let mut moved = meta(OpKind::Del, false, None, 0);
    moved.error = Some("MOVED 7 10.0.0.1:6379".into());
    let fx = d.on_reply(&map_respmeta(&moved), &mut queues, &mut worker, &mut shared);
    assert_eq!(fx.retry, Some(fire));
    // The new node is the second endpoint.
    retries.cover(2);
    queues.cover(2);
    assert_eq!(queues.len(), 2);
    retries.push(1, fire);
    d.endpoints_grew(2);
    d.budget = 2;
    assert_eq!(d.next_load(&mut retries, 0), NextLoad::Pick);
    let mut other = Driver::new(
        DriveParams { endpoint_idx: 1, num_endpoints: 2, ..params() },
        Vec::new(),
        Duration::zero(),
    );
    other.budget = 2;
    assert_eq!(other.next_load(&mut retries, 0), NextLoad::Retry(fire));
    assert_eq!(other.budget, 1);
    assert_eq!(retries.pop(1), None);
    // ASK is counted, no more.
    d.load_sent(fire, secs(2));
    moved.error = Some("ASK 7 10.0.0.1:6379".into());
    let fx = d.on_reply(&map_respmeta(&moved), &mut queues, &mut worker, &mut shared);
    assert_eq!(fx.retry, None);
}

#[test]
fn prefill_keeps_sixteen_in_flight() {
    let endpoints = addresses(1);
    let ring = build_ring(&endpoints);
    let routes = Routes {
        slot_table: &None,
        ring: &ring,
        num_endpoints: 1,
        key_len: 16,
        format: KeyFormat::Hex,
    };
    let mut queues = build_prefill_queues(100, 16, KeyFormat::Hex, &endpoints, &None);
    let p = DriveParams { pipeline_depth: 64, ..params() };
    let d = Driver::new(p, Vec::new(), Duration::zero());
    assert!(d.next_prefill(&mut queues, &routes, 15).is_some());
    assert!(d.next_prefill(&mut queues, &routes, 16).is_none());
}

#[test]
fn keys_are_picked_by_the_shape_of_the_target() {
    let mut p = params();
    let one = Driver::new(p, Vec::new(), Duration::zero());
    assert_eq!(one.draw_kind(true, false), DrawKind::Any);
    p.num_endpoints = 3;
    let resp = Driver::new(p, Vec::new(), Duration::zero());
    assert_eq!(resp.draw_kind(true, false), DrawKind::Listed);
    assert_eq!(resp.draw_kind(false, false), DrawKind::Routed);
    assert_eq!(resp.draw_kind(true, true), DrawKind::Routed);
    p.flavor = Flavor::Memcache;
    let mc = Driver::new(p, Vec::new(), Duration::zero());
    assert_eq!(mc.draw_kind(true, false), DrawKind::Routed);

    let mut r = rng();
    assert_eq!(listed_key(&Vec::new(), &mut r), None);
    let keys = vec![3u32, 5, 8];
    let mut drawn = [0; 9];
    for _ in 0..300 {
        drawn[listed_key(&keys, &mut r).unwrap()] += 1;
    }
    assert!(drawn[3] > 0 && drawn[5] > 0 && drawn[8] > 0);
    assert_eq!(drawn[3] + drawn[5] + drawn[8], 300);
}

#[test]
fn a_search_for_a_key_gives_up() {
    let endpoints = addresses(2);
    let ring = build_ring(&endpoints);
    let table = Some(vec![1u16; SLOT_COUNT]);
    let routes = Routes {
        slot_table: &table,
        ring: &ring,
        num_endpoints: 2,
        key_len: 16,
        format: KeyFormat::Hex,
    };
    let mut s = KeySearch::new(2);
    assert_eq!(s.max_misses, 128);
    for _ in 0..127 {
        assert_eq!(s.consider(1, &routes, 0), Verdict::Again);
    }
    assert_eq!(s.consider(1, &routes, 0), Verdict::GiveUp);
    assert_eq!(KeySearch::new(2).consider(1, &routes, 1), Verdict::Take);
}

#[test]
fn values_lie_within_the_pool() {
    let mut p = params();
    p.value_len = 4_096;
    p.pool_len = 4_100;
    let d = Driver::new(p, Vec::new(), Duration::zero());
    let mut r = rng();
    let mut offsets = [0; 5];
    for _ in 0..200 {
        let v = d.value_plan(&mut r);
        assert!(v.zero_copy && v.len == 4_096);
        offsets[v.offset] += 1;
    }
    assert!(offsets.iter().all(|&n| n > 0), "{offsets:?}");
    p.value_len = 4_095;
    let small = Driver::new(p, Vec::new(), Duration::zero());
    assert!(!small.value_plan(&mut r).zero_copy);
}

#[test]
fn prefill_keys_come_back_until_they_are_stored() {
    let endpoints = addresses(1);
    let ring = build_ring(&endpoints);
    let routes = Routes {
        slot_table: &None,
        ring: &ring,
        num_endpoints: 1,
        key_len: 16,
        format: KeyFormat::Hex,
    };
    let mut queues = build_prefill_queues(3, 16, KeyFormat::Hex, &endpoints, &None);
    let mut shared = SharedState::new();
    let mut worker = WorkerProgress::new(3, 1, &mut shared);
    let mut d = Driver::new(params(), Vec::new(), Duration::zero());
    for expected in 0..3 {
        let fire = d.next_prefill(&mut queues, &routes, expected).unwrap();
        assert_eq!(fire.key_id, expected);
        d.prefill_sent(fire, secs(1));
    }
    assert_eq!(d.next_prefill(&mut queues, &routes, 3), None);
    let reply = |ok, id| map_respmeta(&meta(OpKind::Store, ok, None, marked(id, Purpose::Prefill)));
    d.on_reply(&reply(true, 0), &mut queues, &mut worker, &mut shared);
    assert_eq!(shared.prefill_keys_confirmed(), 1);
    // The second one fails and is queued again.
    d.on_reply(&reply(false, 1), &mut queues, &mut worker, &mut shared);
    assert_eq!(shared.prefill_keys_confirmed(), 1);
    // The connection is lost with the third one.
    d.on_disconnect(&mut queues, &routes);
    assert_eq!((queues.pop_front(0), queues.pop_front(0)), (Some(1), Some(2)));
    d.prefill_refused(&mut queues, 9);
    assert_eq!(queues.pop_front(0), Some(9));
}

#[test]
fn writers_drain_their_queue() {
    let endpoints = addresses(1);
    let ring = build_ring(&endpoints);
    let routes = Routes {
        slot_table: &None,
        ring: &ring,
        num_endpoints: 1,
        key_len: 16,
        format: KeyFormat::Hex,
    };
    let mut queues = PrefillQueues::new(1);
    let mut shared = SharedState::new();
    let mut w = AppendWriter::new(0, 1, 4, Duration::zero());
    assert_eq!(w.begin(Phase::Running, 0, &queues), AppendTurn::Idle);
    assert_eq!(w.wait(0), AppendWait::Nap(Duration::from_millis(1)));
    assert_eq!(w.wait(1), AppendWait::Reply);
    enqueue_append_batch(&mut queues, 50, 3, 16, KeyFormat::Hex, &endpoints, &None);
    assert_eq!(w.begin(Phase::Running, 1, &queues), AppendTurn::Fire { free: 3 });
    assert_eq!(w.begin(Phase::Stop, 1, &queues), AppendTurn::Stop);
    w.open_round(2);
    let fire = w.next(&mut queues, &routes, 0).unwrap();
    assert_eq!((fire.key_id, fire.user_data), (50, (1 << 61) | 50));
    w.sent(50, secs(1));
    let fire = w.next(&mut queues, &routes, 1).unwrap();
    w.refused(&mut queues, fire.key_id);
    assert_eq!(w.next(&mut queues, &routes, 1), None, "the budget is spent");
    let reply = |ok| map_respmeta(&meta(OpKind::Store, ok, None, marked(50, Purpose::Append)));
    assert!(w.on_reply(&reply(false), &mut queues, &mut shared));
    assert_eq!(shared.append_keys_confirmed(), 0);
    w.sent(50, secs(2));
    assert!(!w.on_reply(&reply(true), &mut queues, &mut shared));
    assert_eq!(shared.append_keys_confirmed(), 1);
    w.sent(70, secs(3));
    w.on_disconnect(&mut queues, &routes);
    let rest: Vec<usize> = (0..4).map(|_| queues.pop_front(0).unwrap()).collect();
    assert_eq!(rest, vec![51, 52, 50, 70]);
}

#[test]
fn connections_are_checked_then_driven() {
    let p = ConnectParams { role: Role::Reader, protocol: Protocol::Resp3 };
    let pre = Phase::Precheck;
    assert_eq!(p.next(pre, false, Event::Idle).0, Action::Connect);
    assert_eq!(p.next(Phase::Stop, false, Event::Idle).0, Action::Finish);
    let (a, fx) = p.next(pre, false, Event::Connected);
    assert_eq!(a, Action::Negotiate);
    assert!(fx.opened);
    let (a, _) = p.next(pre, false, Event::Negotiated { ok: true });
    assert_eq!(a, Action::Probe(Probe::Ping));
    let (a, fx) = p.next(pre, false, Event::Negotiated { ok: false });
    assert_eq!(a, Action::Retry(Duration::from_millis(100)));
    assert!(fx.closed && fx.failed);
    let (a, fx) = p.next(pre, false, Event::Probed { ok: true });
    assert_eq!(a, Action::Poll(Duration::from_millis(10)));
    assert!(fx.precheck_ok);
    assert_eq!(p.next(Phase::Warmup, true, Event::Polled).0, Action::Drive);
    let lost = Some(DisconnectReason::Eof);
    let (a, fx) = p.next(Phase::Running, true, Event::Driven { lost });
    assert_eq!(a, Action::Retry(Duration::from_millis(100)));
    assert_eq!(fx.lost, lost);
    assert_eq!(p.next(Phase::Stop, true, Event::Driven { lost: None }).0, Action::Finish);
    let (_, fx) = p.next(pre, false, Event::ConnectFailed);
    assert_eq!(fx.lost, Some(DisconnectReason::ConnectFailed));
    let (_, fx) = p.next(pre, false, Event::NotInitiated);
    assert!(fx.failed && fx.lost.is_none());

    // A live connection is enough for the binary protocol.
    let binary = ConnectParams { role: Role::Reader, protocol: Protocol::MemcacheBinary };
    let (a, fx) = binary.next(pre, false, Event::Connected);
    assert_eq!(a, Action::Poll(Duration::from_millis(10)));
    assert!(fx.precheck_ok);
    // Writers are not checked.
    let writer = ConnectParams { role: Role::Writer, protocol: Protocol::Memcache };
    assert_eq!(writer.next(pre, false, Event::Connected).0, Action::Drive);
    assert_eq!(probe_of(Protocol::Memcache), Probe::Version);
}

#[test]
fn server_names_are_hostnames_or_addresses() {
    assert_eq!(resolve_tls_server_name(false, &Some("h".into()), "1.2.3.4"), None);
    assert_eq!(
        resolve_tls_server_name(true, &Some("h".into()), "1.2.3.4"),
        Some("h".to_string())
    );
    assert_eq!(
        resolve_tls_server_name(true, &None, "1.2.3.4"),
        Some("1.2.3.4".to_string())
    );
}

#[test]
fn pings_wait_for_their_phase() {
    assert_eq!(ping_turn(Phase::Stop, false), PingTurn::Stop);
    assert_eq!(ping_turn(Phase::Warmup, false), PingTurn::Send);
    assert_eq!(ping_turn(Phase::Prefill, false), PingTurn::Idle { mark_prefill: true });
    assert_eq!(ping_turn(Phase::Prefill, true), PingTurn::Idle { mark_prefill: false });
    assert_eq!(ping_turn(Phase::Connect, false), PingTurn::Idle { mark_prefill: false });
}

#[test]
fn a_claim_is_granted_what_was_asked_for_it() {
    let claim = Claim { id: 7, want: 10 };
    assert_eq!(claim_request(&claim, 4), 4);
    assert_eq!(claim_request(&claim, 40), 10);
    assert_eq!(claim_request(&Claim { id: 7, want: 0 }, 4), 1);
    assert_eq!(ping_request(), 1);

    let mut d = TokenDispatcher::new();
    let id = queued(&mut d, 10);
    let wait = Duration::from_millis(3);
    assert_eq!(d.settle_claim(4, Funding::Wait(wait)), Head::Kept(wait));
    assert_eq!(d.queue.len(), 1, "it keeps its place");
    assert_eq!(
        d.settle_claim(4, Funding::Funded),
        Head::Settled(Settlement { id, granted: 4 })
    );
    assert!(d.queue.is_empty());
    let id = queued(&mut d, 10);
    assert_eq!(
        d.settle_claim(40, Funding::TooLarge),
        Head::Settled(Settlement { id, granted: 0 })
    );
}

#[test]
fn redirects_are_counted() {
    for error in ["MOVED 7 10.0.0.1:6379", "ASK 7 10.0.0.1:6379"] {
        let mut m = meta(OpKind::Get, false, None, 5);
        m.error = Some(error.to_string());
        let result = map_respmeta(&m);
        assert_eq!(redirect_count(&result), 1);
        assert_eq!(record_counters(&result).redirects, 1);
        assert_eq!(record_counters(&result).errors, 0);
    }
    let hit = map_respmeta(&meta(OpKind::Get, true, Some(1), 5));
    assert_eq!(redirect_count(&hit), 0);
    assert_eq!(ping_counters(true).redirects, 0);
}
