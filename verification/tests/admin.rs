use cachecannon::admin::{
    counts_fit, generate_prometheus_output, msgpack_temp_path, response_head, route, sanitize_name,
    series, takes_snapshot, totals, write_help, Bucket, HistogramReading, Label, Metric, Page, Quantile, Reading,
    SeriesValue, Slot,
};
use cachecannon::worker::Phase;

fn label(key: &str, value: &str) -> Label {
    Label { key: key.to_string(), value: value.to_string() }
}

fn metric(name: &str, description: Option<&str>, reading: Reading) -> Metric {
    Metric {
        name: name.to_string(),
        description: description.map(|d| d.to_string()),
        metadata: Vec::new(),
        reading,
    }
}

#[test]
fn names_are_made_legal() {
    assert_eq!(sanitize_name("requests_sent"), "requests_sent");
    assert_eq!(sanitize_name("ringline/connections/active"), "ringline_connections_active");
    assert_eq!(sanitize_name("a:b-c.é"), "a:b_c__");
}

#[test]
fn help_is_escaped_and_optional() {
    let mut out = String::new();
    write_help(&mut out, "x", &Some("a\\b\nc".to_string()));
    assert_eq!(out, "# HELP x a\\\\b\\nc\n");
    write_help(&mut out, "x", &Some(String::new()));
    write_help(&mut out, "x", &None);
    assert_eq!(out, "# HELP x a\\\\b\\nc\n");
}

fn histogram() -> HistogramReading {
    HistogramReading {
        quantiles: vec![Quantile { name: "0.5".to_string(), end: 7 }],
        buckets: vec![
            Bucket { start: 0, end: 3, count: 2 },
            Bucket { start: 4, end: 7, count: 5 },
        ],
        grouping_power: 7,
        max_value_power: 64,
    }
}

#[test]
fn metrics_are_rendered_as_text() {
    let slots = vec![
        Slot { index: 4, labels: vec![label("op", "recv_parked")], value: 9 },
        Slot { index: 5, labels: Vec::new(), value: 1 },
    ];
    let metrics = vec![
        metric("requests_sent", Some("Requests."), Reading::Counter(12)),
        metric("conns", None, Reading::Gauge(-3)),
        metric("ringline/pool", None, Reading::Group(slots)),
        metric("empty", Some("Never written."), Reading::Group(Vec::new())),
        metric("lat", None, Reading::Histogram(histogram())),
    ];
    assert_eq!(
        generate_prometheus_output(&metrics),
        "# HELP requests_sent Requests.\n\
         # TYPE requests_sent counter\n\
         requests_sent 12\n\
         # TYPE conns gauge\n\
         conns -3\n\
         # TYPE ringline_pool counter\n\
         ringline_pool{op=\"recv_parked\"} 9\n\
         ringline_pool 1\n\
         # TYPE lat summary\n\
         lat{quantile=\"0.5\"} 7\n\
         lat_count 7\n\
         lat_sum 27\n"
    );
}

#[test]
fn sums_do_not_overflow() {
    let huge = vec![Bucket { start: u64::MAX - 1, end: u64::MAX, count: u64::MAX }];
    assert!(counts_fit(&huge));
    let middle = u128::from(u64::MAX - 1);
    assert_eq!(totals(&huge), (u64::MAX, u128::from(u64::MAX) * middle));
    let two = vec![huge[0], Bucket { start: 0, end: 0, count: 1 }];
    assert!(!counts_fit(&two));
}

#[test]
fn series_carry_their_metric() {
    let mut m = metric("ringline/pool", None, Reading::Group(vec![Slot {
        index: 4,
        labels: vec![label("op", "x")],
        value: 9,
    }]));
    m.metadata = vec![label("unit", "events")];
    let s = series(&m);
    assert_eq!(s.len(), 1);
    assert_eq!(s[0].name, "ringline/poolx4");
    let pairs: Vec<(&str, &str)> =
        s[0].metadata.iter().map(|l| (l.key.as_str(), l.value.as_str())).collect();
    assert_eq!(pairs, vec![("metric", "ringline/pool"), ("unit", "events"), ("op", "x")]);
    assert_eq!(s[0].value, SeriesValue::Counter(9));

    let s = series(&metric("lat", None, Reading::Histogram(histogram())));
    assert_eq!(s[0].value, SeriesValue::Histogram);
    assert_eq!(s[0].metadata[1].key, "grouping_power");
    assert_eq!(s[0].metadata[2].value, "64");
    assert_eq!(series(&metric("g", None, Reading::Gauge(-1)))[0].value, SeriesValue::Gauge(-1));
    assert_eq!(series(&metric("c", None, Reading::Counter(1)))[0].name, "c");
}

#[test]
fn paths_are_routed() {
    assert_eq!(route(b"GET / HTTP/1.1\r\n\r\n"), Page::Prometheus);
    assert_eq!(route(b"GET /metrics HTTP/1.1\r\n\r\n"), Page::Prometheus);
    assert_eq!(route(b"GET /metrics/binary HTTP/1.1\r\n\r\n"), Page::Snapshot);
    assert_eq!(route(b"GET /other HTTP/1.1\r\n\r\n"), Page::NotFound);
    assert_eq!(route(b"GET\r\n"), Page::NotFound);
    assert_eq!(route(b""), Page::NotFound);
}

#[test]
fn responses_state_their_length() {
    assert_eq!(
        response_head(Page::Prometheus, 12),
        "HTTP/1.1 200 OK\r\nContent-Type: text/plain; version=0.0.4\r\nContent-Length: 12\r\n\
         Connection: close\r\n\r\n"
    );
    assert!(response_head(Page::NotFound, 0).starts_with("HTTP/1.1 404 "));
    assert!(response_head(Page::Snapshot, 5).contains("Content-Length: 5\r\n"));
    assert_eq!(msgpack_temp_path("/x/run.parquet"), "/x/run.parquet.msgpack.tmp");
}

#[test]
fn only_the_run_is_recorded() {
    assert!(takes_snapshot(Phase::Running, false));
    assert!(!takes_snapshot(Phase::Warmup, false));
    assert!(takes_snapshot(Phase::Stop, true));
}
