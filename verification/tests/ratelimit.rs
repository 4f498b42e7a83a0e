use cachecannon::ratelimit::DynamicRateLimiter;

#[test]
fn test_unlimited() {
    let mut rl = DynamicRateLimiter::new(0);
    assert!(rl.try_acquire(0));
    assert!(rl.try_acquire(0));
    assert!(rl.try_acquire(0));
}

#[test]
fn test_basic_limiting() {
    let mut rl = DynamicRateLimiter::new(10);
    // Should be able to acquire 10 tokens (the initial bucket)
    for _ in 0..10 {
        assert!(rl.try_acquire(0));
    }
    // 11th should fail
    assert!(!rl.try_acquire(0));
}

#[test]
fn test_refill() {
    let mut rl = DynamicRateLimiter::new(1000);
    // Drain the bucket
    for _ in 0..1000 {
        rl.try_acquire(0);
    }
    assert!(!rl.try_acquire(0));

    // Wait for some tokens to refill (100ms = ~100 tokens at 1000/s)
    let later = 100_000_000;

    // Should have some tokens now
    assert!(rl.try_acquire(later));
    // And exactly as many as the time is worth.
    for _ in 0..99 {
        assert!(rl.try_acquire(later));
    }
    assert!(!rl.try_acquire(later));
}

#[test]
fn test_dynamic_rate_change() {
    let mut rl = DynamicRateLimiter::new(10);

    // Drain at 10/s
    for _ in 0..10 {
        rl.try_acquire(0);
    }
    assert!(!rl.try_acquire(0));

    // Increase rate to 100/s - tokens don't reset, but refill faster
    rl.set_rate(100);
    assert_eq!(rl.rate(), 100);

    // Wait for some tokens to refill at the new rate
    let later = 50_000_000;

    // Should have ~5 tokens (100/s * 0.05s)
    assert!(rl.try_acquire(later));
}

#[test]
fn a_long_pause_is_worth_one_second() {
    let mut rl = DynamicRateLimiter::new(10);
    for _ in 0..10 {
        assert!(rl.try_acquire(0));
    }
    let later = 3_600_000_000_000;
    for _ in 0..10 {
        assert!(rl.try_acquire(later));
    }
    assert!(!rl.try_acquire(later));
}

#[test]
fn an_idle_bucket_is_full_however_long_it_was_idle() {
    for idle in [1_000_000_000, 1 << 54, u64::MAX] {
        let mut rl = DynamicRateLimiter::new(1_024_000);
        while rl.try_acquire(0) {}
        for _ in 0..1_024_000 {
            assert!(rl.try_acquire(idle));
        }
        assert!(!rl.try_acquire(idle));
    }
}
