use cachecannon::double::Double;

fn dbl(x: f64) -> Double {
    Double::from_bits(x.to_bits())
}

fn same(a: Double, b: f64) -> bool {
    a.to_bits() == b.to_bits() || (a.is_nan() && b.is_nan())
}

/// Numbers of all magnitudes, signs and kinds.
fn numbers() -> Vec<f64> {
    let mut v = vec![
        0.0,
        -0.0,
        1.0,
        -1.0,
        0.1,
        0.5,
        1.5,
        2.5,
        1e-300,
        1e300,
        f64::MAX,
        f64::MIN,
        f64::MIN_POSITIVE,
        5e-324,
        f64::INFINITY,
        f64::NEG_INFINITY,
        f64::NAN,
        9_007_199_254_740_993.0,
        1.05,
        0.99,
    ];
    let mut x: u64 = 0x9E37_79B9_7F4A_7C15;
    for _ in 0..60 {
        x ^= x << 13;
        x ^= x >> 7;
        x ^= x << 17;
        v.push(f64::from_bits(x));
        v.push((x >> 11) as f64 / 1e6);
    }
    v
}

#[test]
fn arithmetic_matches_the_hardware() {
    for &a in &numbers() {
        for &b in &numbers() {
            let (x, y) = (dbl(a), dbl(b));
            assert!(same(x.times(y), a * b), "{a} * {b}");
            assert!(same(x.over(y), a / b), "{a} / {b}");
            assert!(same(x.plus(y), a + b), "{a} + {b}");
            assert!(same(x.minus(y), a - b), "{a} - {b}");
            assert_eq!(x.lt(y), a < b, "{a} < {b}");
            assert_eq!(x.le(y), a <= b, "{a} <= {b}");
        }
    }
}

#[test]
fn conversions_match_the_hardware() {
    for &a in &numbers() {
        assert_eq!(dbl(a).to_u64(), a as u64, "{a}");
        assert_eq!(dbl(a).is_nan(), a.is_nan());
        assert_eq!(dbl(a).is_finite(), a.is_finite());
        assert!(same(dbl(a).negated(), -a), "{a}");
    }
    for n in [0u64, 1, 7, 1 << 53, (1 << 53) + 1, u64::MAX, u64::MAX - 1025] {
        assert!(same(Double::from_u64(n), n as f64), "{n}");
    }
    assert!(same(Double::from_u128(1 << 100), (1u128 << 100) as f64));
    assert!(same(Double::ratio(105, 100), 1.05));
    assert!(same(Double::ratio(99, 100), 0.99));
    assert!(same(Double::ratio(1, 3), 1.0 / 3.0));
}
