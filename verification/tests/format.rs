use cachecannon::double::Double;
use cachecannon::output::{ColorMode, OutputFormat};
use cachecannon::output::format::{
    format_3sig, format_bandwidth_bps, format_bytes, format_count, format_latency_padded,
    format_latency_us, format_pct, format_pct_padded, format_rate, format_rate_padded,
};

fn dbl(x: f64) -> Double {
    Double::from_bits(x.to_bits())
}

#[test]
fn test_format_rate() {
    // 3 significant figures without suffix
    assert_eq!(format_rate(dbl(1.23)), "1.23");
    assert_eq!(format_rate(dbl(12.3)), "12.3");
    assert_eq!(format_rate(dbl(500.0)), "500");
    // 3 significant figures with K suffix
    assert_eq!(format_rate(dbl(1_230.0)), "1.23K");
    assert_eq!(format_rate(dbl(12_300.0)), "12.3K");
    assert_eq!(format_rate(dbl(234_000.0)), "234K");
    // 3 significant figures with M suffix
    assert_eq!(format_rate(dbl(1_230_000.0)), "1.23M");
    assert_eq!(format_rate(dbl(12_300_000.0)), "12.3M");
    assert_eq!(format_rate(dbl(234_000_000.0)), "234M");
    // Edge cases: values that round up at boundaries
    assert_eq!(format_rate(dbl(99_950.0)), "100K"); // not "100.0K"
    assert_eq!(format_rate(dbl(100_000.0)), "100K");
    assert_eq!(format_rate(dbl(9_995.0)), "10.0K"); // not "10.00K"
}

#[test]
fn test_format_latency() {
    // Microseconds - 3 significant figures
    assert_eq!(format_latency_us(dbl(1.23)), "1.23us");
    assert_eq!(format_latency_us(dbl(42.5)), "42.5us");
    assert_eq!(format_latency_us(dbl(999.0)), "999us");
    // Milliseconds - 3 significant figures
    assert_eq!(format_latency_us(dbl(1_230.0)), "1.23ms");
    assert_eq!(format_latency_us(dbl(42_500.0)), "42.5ms");
    assert_eq!(format_latency_us(dbl(200_000.0)), "200ms");
    // Seconds - 3 significant figures
    assert_eq!(format_latency_us(dbl(1_230_000.0)), "1.23s");
    assert_eq!(format_latency_us(dbl(42_500_000.0)), "42.5s");
    assert_eq!(format_latency_us(dbl(200_000_000.0)), "200s");
}

#[test]
fn test_format_pct() {
    // 3 significant figures
    assert_eq!(format_pct(dbl(100.0)), "100");
    assert_eq!(format_pct(dbl(95.23)), "95.2");
    assert_eq!(format_pct(dbl(9.99)), "9.99");
    assert_eq!(format_pct(dbl(0.01)), "0.01");
    assert_eq!(format_pct(dbl(0.0)), "0.00");
}

#[test]
fn test_format_bandwidth() {
    assert_eq!(format_bandwidth_bps(dbl(500.0)), "500 bps");
    assert_eq!(format_bandwidth_bps(dbl(1_500.0)), "1.5 Kbps");
    assert_eq!(format_bandwidth_bps(dbl(892_000_000.0)), "892.0 Mbps");
    assert_eq!(format_bandwidth_bps(dbl(1_240_000_000.0)), "1.24 Gbps");
}

#[test]
fn texts_are_padded_on_the_left() {
    assert_eq!(format_rate_padded(dbl(500.0), 6), "   500");
    assert_eq!(format_latency_padded(dbl(999.0), 4), "999us");
    assert_eq!(format_pct_padded(dbl(0.01), 5), " 0.01");
    assert_eq!(format_3sig(dbl(12.34), "x"), "12.3x");
}

#[test]
fn counts_and_bytes_are_scaled() {
    let count = format_count(1_234_567);
    assert!(count.ends_with('M'), "{count}");
    assert_eq!(format_count(999), "999");
    let bytes = format_bytes(1_536);
    assert!(bytes.contains("KB") || bytes.contains("KiB"), "{bytes}");
}

#[test]
fn formatting_matches_the_hardware() {
    // Rounding goes to the nearest number, ties to even, as in `{:.2}`.
    for i in 0..2_000u32 {
        let x = f64::from(i) * 0.00731;
        let expected = if x < 10.0 {
            format!("{x:.2}")
        } else if x < 100.0 {
            format!("{x:.1}")
        } else {
            format!("{x:.0}")
        };
        let shown = format_pct(dbl(x));
        // The width is chosen by the rounded value, so boundaries may differ
        // in the number of places, never in value.
        assert_eq!(
            shown.parse::<f64>().unwrap(),
            expected.parse::<f64>().unwrap(),
            "{x}"
        );
    }
}

#[test]
fn rounding_carries_into_the_next_unit() {
    assert_eq!(format_rate(dbl(999.4)), "999");
    assert_eq!(format_rate(dbl(999.7)), "1.00K");
    assert_eq!(format_rate(dbl(999_700.0)), "1.00M");
    assert_eq!(format_latency_us(dbl(9.997)), "10.0us");
    assert_eq!(format_latency_us(dbl(99.97)), "100us");
    assert_eq!(format_latency_us(dbl(999.7)), "1.00ms");
    assert_eq!(format_latency_us(dbl(999_700.0)), "1.00s");
    assert_eq!(format_bandwidth_bps(dbl(999.7)), "1.0 Kbps");
    assert_eq!(format_bandwidth_bps(dbl(999_960.0)), "1.0 Mbps");
    assert_eq!(format_bandwidth_bps(dbl(999_960_000.0)), "1.00 Gbps");
    assert_eq!(format_count(999_949), "999.9K");
    assert_eq!(format_count(999_960), "1.0M");
}

#[test]
fn large_counts_stay_in_millions() {
    assert_eq!(format_count(2_500_000), "2.5M");
    assert_eq!(format_count(2_500_000_000), "2500.0M");
}

#[test]
fn formats_and_colors_have_names() {
    assert_eq!(OutputFormat::named("clean"), Some(OutputFormat::Clean));
    assert_eq!(OutputFormat::named("json"), Some(OutputFormat::Json));
    assert_eq!(OutputFormat::named("verbose"), Some(OutputFormat::Verbose));
    assert_eq!(OutputFormat::named("quiet"), Some(OutputFormat::Quiet));
    assert_eq!(OutputFormat::named("loud"), None);
    assert_eq!(ColorMode::named("auto"), Some(ColorMode::default()));
    assert_eq!(ColorMode::named("red"), None);
    assert!(ColorMode::named("always").unwrap().colors(false));
    assert!(!ColorMode::named("never").unwrap().colors(true));
    assert!(ColorMode::Auto.colors(true) && !ColorMode::Auto.colors(false));
}
