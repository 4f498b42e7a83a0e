use cachecannon::client::momento::momento_endpoint;
use cachecannon::config::parse::{humantime_parse, humantime_parts, parse_cpu_list};
use cachecannon::config::{
    Admin, Append, Config, ConfigError, Connection, Distribution, General, KeyFormat, Pace,
    Protocol, SaturationSearch, SloThresholds, Target, TimestampMode, Timestamps, Workload,
};
use cachecannon::double::Double;
use cachecannon::keydist::KeyDist;
use cachecannon::runner::effective_warmup;
use cachecannon::time::Duration;
use rand_distr::Distribution as Sampled;
use rand_xoshiro::rand_core::SeedableRng;
use rand_xoshiro::Xoshiro256PlusPlus;
use toml::{Table, Value};

fn dbl(x: f64) -> Double {
    Double::from_bits(x.to_bits())
}

fn number(v: &Value) -> f64 {
    match v {
        Value::Integer(n) => *n as f64,
        Value::Float(x) => *x,
        other => panic!("no number: {other:?}"),
    }
}

fn count(v: &Value) -> usize {
    v.as_integer().expect("an integer") as usize
}

fn text(v: &Value) -> String {
    v.as_str().expect("a string").to_string()
}

fn span(v: &Value) -> Duration {
    humantime_parse(v.as_str().expect("a string")).expect("a duration")
}

fn table(t: &Table, name: &str) -> Table {
    match t.get(name) {
        Some(Value::Table(t)) => t.clone(),
        Some(other) => panic!("no table: {other:?}"),
        None => Table::new(),
    }
}

/// Reads a configuration document.
fn read(doc: &str) -> Config {
    let doc: Table = doc.parse().expect("the document should parse");
    let mut general = General::with_threads(1);
    for (k, v) in &table(&doc, "general") {
        match k.as_str() {
            "threads" => general.threads = count(v),
            "ringline_diag" => general.ringline_diag = v.as_bool().unwrap(),
            "warmup" => general.warmup = span(v),
            other => panic!("unknown key {other}"),
        }
    }
    let mut target = Target {
        endpoints: Vec::new(),
        protocol: Protocol::Resp,
        tls: false,
        tls_hostname: None,
        tls_verify: true,
        tls_ca_file: None,
        tls_cert_file: None,
        tls_key_file: None,
        cluster: false,
    };
    for (k, v) in &table(&doc, "target") {
        match k.as_str() {
            "endpoints" => {
                target.endpoints = v.as_array().unwrap().iter().map(text).collect();
            }
            "protocol" => {
                target.protocol = match v.as_str().unwrap() {
                    "resp" => Protocol::Resp,
                    "resp3" => Protocol::Resp3,
                    "memcache" => Protocol::Memcache,
                    "memcache-binary" => Protocol::MemcacheBinary,
                    "ping" => Protocol::Ping,
                    other => panic!("unknown protocol {other}"),
                };
            }
            "tls" => target.tls = v.as_bool().unwrap(),
            "tls_ca_file" => target.tls_ca_file = Some(text(v)),
            "tls_cert_file" => target.tls_cert_file = Some(text(v)),
            "tls_key_file" => target.tls_key_file = Some(text(v)),
            other => panic!("unknown key {other}"),
        }
    }
    let mut connection = Connection::default();
    for (k, v) in &table(&doc, "connection") {
        match k.as_str() {
            "connections" => connection.connections = count(v),
            other => panic!("unknown key {other}"),
        }
    }
    let mut workload = Workload::default();
    let w = table(&doc, "workload");
    for (k, v) in &w {
        match k.as_str() {
            "prefill" => workload.prefill = v.as_bool().unwrap(),
            "prefill_settle" => workload.prefill_settle = span(v),
            "keyspace" | "commands" | "values" | "append" | "saturation_search" => {}
            other => panic!("unknown key {other}"),
        }
    }
    for (k, v) in &table(&w, "keyspace") {
        let ks = &mut workload.keyspace;
        match k.as_str() {
            "length" => ks.length = count(v),
            "count" => ks.count = count(v),
            "distribution" => {
                ks.distribution = match v.as_str().unwrap() {
                    "uniform" => Distribution::Uniform,
                    "zipf" => Distribution::Zipf,
                    "recency" => Distribution::Recency,
                    other => panic!("unknown distribution {other}"),
                };
            }
            "zipf_theta" => ks.zipf_theta = dbl(number(v)),
            "format" => {
                ks.format = match v.as_str().unwrap() {
                    "hex" => KeyFormat::Hex,
                    "uuid" => KeyFormat::Uuid,
                    other => panic!("unknown format {other}"),
                };
            }
            "hot_generations" => ks.hot_generations = count(v),
            other => panic!("unknown key {other}"),
        }
    }
    for (k, v) in &table(&w, "commands") {
        match k.as_str() {
            "get" => workload.commands.get = count(v) as u8,
            "set" => workload.commands.set = count(v) as u8,
            "delete" => workload.commands.delete = count(v) as u8,
            other => panic!("unknown key {other}"),
        }
    }
    for (k, v) in &table(&w, "values") {
        match k.as_str() {
            "length" => workload.values.length = count(v),
            other => panic!("unknown key {other}"),
        }
    }
    if w.contains_key("append") {
        let a = table(&w, "append");
        workload.append = Some(Append {
            batch: count(&a["batch"]),
            every: span(&a["every"]),
            pace: Pace::default(),
            connections: 1,
            pipeline_depth: 32,
        });
    }
    if w.contains_key("saturation_search") {
        let s = table(&w, "saturation_search");
        let slo = table(&s, "slo");
        let mut search = SaturationSearch::with_slo(SloThresholds {
            p50: slo.get("p50").map(span),
            p99: slo.get("p99").map(span),
            p999: slo.get("p999").map(span),
        });
        for (k, v) in &s {
            match k.as_str() {
                "step_multiplier" => search.step_multiplier = dbl(number(v)),
                "start_rate" => search.start_rate = count(v) as u64,
                "min_throughput_ratio" => search.min_throughput_ratio = dbl(number(v)),
                "slo" => {}
                other => panic!("unknown key {other}"),
            }
        }
        workload.saturation_search = Some(search);
    }
    Config {
        general,
        target,
        connection,
        workload,
        timestamps: Timestamps::default(),
        admin: Admin::default(),
    }
}

fn validate(config: &Config) -> Result<(), ConfigError> {
    let theta = f64::from_bits(config.workload.keyspace.zipf_theta.to_bits());
    config.validate(&theta.to_string(), true)
}

fn parse_config(doc: &str) -> Result<Config, ConfigError> {
    let config = read(doc);
    validate(&config)?;
    Ok(config)
}

#[test]
fn test_single_cpu() {
    assert_eq!(parse_cpu_list("0").unwrap(), vec![0]);
    assert_eq!(parse_cpu_list("5").unwrap(), vec![5]);
}

#[test]
fn test_range() {
    assert_eq!(parse_cpu_list("0-3").unwrap(), vec![0, 1, 2, 3]);
    assert_eq!(parse_cpu_list("8-11").unwrap(), vec![8, 9, 10, 11]);
}

#[test]
fn test_list() {
    assert_eq!(parse_cpu_list("0,2,4").unwrap(), vec![0, 2, 4]);
}

#[test]
fn test_mixed() {
    assert_eq!(
        parse_cpu_list("0-3,8-11,13").unwrap(),
        vec![0, 1, 2, 3, 8, 9, 10, 11, 13]
    );
}

#[test]
fn test_with_spaces() {
    assert_eq!(
        parse_cpu_list("0-3, 8-11, 13").unwrap(),
        vec![0, 1, 2, 3, 8, 9, 10, 11, 13]
    );
}

#[test]
fn test_duplicates_removed() {
    assert_eq!(parse_cpu_list("0,0,1,1").unwrap(), vec![0, 1]);
}

#[test]
fn test_invalid_range() {
    assert!(parse_cpu_list("3-0").is_err());
}

#[test]
fn cpu_lists_are_sorted_and_their_faults_named() {
    assert_eq!(parse_cpu_list("9,2-3,2").unwrap(), vec![2, 3, 9]);
    for bad in ["x", "1-x", "x-1", "1-2-3", "-1"] {
        assert!(parse_cpu_list(bad).is_err(), "{bad} was accepted");
    }
}

#[test]
fn durations_have_units() {
    let nanos = |s: &str| humantime_parse(s).unwrap().nanos;
    assert_eq!(nanos("100ns"), 100);
    assert_eq!(nanos("500us"), 500_000);
    assert_eq!(nanos("1ms"), 1_000_000);
    assert_eq!(nanos("60s"), 60_000_000_000);
    assert_eq!(nanos("10m"), 600_000_000_000);
    assert_eq!(nanos("1h"), 3_600_000_000_000);
    assert_eq!(nanos(" 7 "), 7_000_000_000);
    assert_eq!(nanos("2 mins"), 120_000_000_000);
    assert_eq!(humantime_parts("3hrs").unwrap(), (3, 3_600_000_000_000));
    assert_eq!(humantime_parse("").unwrap_err(), "empty duration");
    assert_eq!(humantime_parse("5 parsecs").unwrap_err(), "unknown time unit: parsecs");
    assert!(humantime_parse("s").unwrap_err().starts_with("invalid number: "));
}

#[test]
fn ringline_diag_defaults_off_and_parses() {
    let config = parse_config("[target]\nendpoints = [\"127.0.0.1:6379\"]\n").unwrap();
    assert!(!config.general.ringline_diag);
    let config = parse_config(
        "[general]\nringline_diag = true\n[target]\nendpoints = [\"127.0.0.1:6379\"]\n",
    )
    .unwrap();
    assert!(config.general.ringline_diag);
}

#[test]
fn valid_minimal_config() {
    let config = parse_config(
        r#"
            [target]
            endpoints = ["127.0.0.1:6379"]
            "#,
    );
    assert!(config.is_ok());
}

#[test]
fn accepts_memcache_binary() {
    let cfg = parse_config(
        r#"
            [target]
            endpoints = ["127.0.0.1:11211"]
            protocol = "memcache-binary"
            "#,
    )
    .expect("memcache-binary config should be valid");
    assert_eq!(cfg.target.protocol, Protocol::MemcacheBinary);
}

#[test]
fn accepts_zipf_theta_of_one() {
    // rejection-inversion has no singularity at theta == 1, so it is a legal
    // (and commonly quoted) skew rather than something to exclude.
    validate(&read(
        r#"
            [target]
            endpoints = ["127.0.0.1:11211"]
            protocol = "memcache-binary"
            [workload.keyspace]
            distribution = "zipf"
            zipf_theta = 1.0
            "#,
    ))
    .expect("theta = 1 must be accepted");
}

#[test]
fn rejects_nonpositive_or_nan_zipf_theta() {
    for bad in ["0.0", "-0.5", "nan"] {
        let err = validate(&read(&format!(
            r#"
                [target]
                endpoints = ["127.0.0.1:11211"]
                protocol = "memcache-binary"
                [workload.keyspace]
                distribution = "zipf"
                zipf_theta = {bad}
                "#
        )))
        .unwrap_err();
        assert!(
            format!("{err:?}").contains("zipf_theta"),
            "theta={bad} gave unexpected error: {err:?}"
        );
    }
}

#[test]
fn accepts_zipf_with_multiple_endpoints() {
    // Skew across a sharded fleet is realistic and supported: hot keys hash
    // to particular shards and those shards see disproportionate load, which
    // is the imbalance the setup exists to measure.
    validate(&read(
        r#"
            [target]
            endpoints = ["127.0.0.1:11211", "127.0.0.1:11212"]
            protocol = "memcache-binary"
            [workload.keyspace]
            distribution = "zipf"
            "#,
    ))
    .expect("zipf across shards must be allowed");
}

#[test]
fn zipf_theta_defaults_to_ycsb_value() {
    let cfg = read(
        r#"
            [target]
            endpoints = ["127.0.0.1:11211"]
            protocol = "memcache-binary"
            [workload.keyspace]
            distribution = "zipf"
            "#,
    );
    validate(&cfg).expect("default theta must be valid");
    assert_eq!(cfg.workload.keyspace.zipf_theta, dbl(0.99));
}

#[test]
fn accepts_uuid_keyspace() {
    let cfg = parse_config(
        r#"
            [target]
            endpoints = ["127.0.0.1:11211"]
            [workload.keyspace]
            length = 36
            format = "uuid"
            "#,
    )
    .expect("uuid keyspace with length 36 should be valid");
    assert_eq!(cfg.workload.keyspace.format, KeyFormat::Uuid);
}

#[test]
fn rejects_uuid_keyspace_wrong_length() {
    let err = parse_config(
        r#"
            [target]
            endpoints = ["127.0.0.1:11211"]
            [workload.keyspace]
            length = 16
            format = "uuid"
            "#,
    )
    .unwrap_err();
    assert!(err.message().contains("length = 36"));
}

#[test]
fn rejects_zero_threads() {
    let err = parse_config(
        r#"
            [general]
            threads = 0
            [target]
            endpoints = ["127.0.0.1:6379"]
            "#,
    )
    .unwrap_err();
    assert!(err.message().contains("threads"));
}

#[test]
fn rejects_zero_connections() {
    let err = parse_config(
        r#"
            [target]
            endpoints = ["127.0.0.1:6379"]
            [connection]
            connections = 0
            "#,
    )
    .unwrap_err();
    assert!(err.message().contains("connections"));
}

#[test]
fn rejects_all_zero_command_ratios() {
    let err = parse_config(
        r#"
            [target]
            endpoints = ["127.0.0.1:6379"]
            [workload.commands]
            get = 0
            set = 0
            delete = 0
            "#,
    )
    .unwrap_err();
    assert!(err.message().contains("command ratio"));
}

#[test]
fn rejects_step_multiplier_at_one() {
    let err = parse_config(
        r#"
            [target]
            endpoints = ["127.0.0.1:6379"]
            [workload.saturation_search]
            step_multiplier = 1.0
            [workload.saturation_search.slo]
            p99 = "1ms"
            "#,
    )
    .unwrap_err();
    assert!(err.message().contains("step_multiplier"));
}

#[test]
fn rejects_step_multiplier_below_one() {
    let err = parse_config(
        r#"
            [target]
            endpoints = ["127.0.0.1:6379"]
            [workload.saturation_search]
            step_multiplier = 0.5
            [workload.saturation_search.slo]
            p99 = "1ms"
            "#,
    )
    .unwrap_err();
    assert!(err.message().contains("step_multiplier"));
}

#[test]
fn rejects_zero_start_rate() {
    let err = parse_config(
        r#"
            [target]
            endpoints = ["127.0.0.1:6379"]
            [workload.saturation_search]
            start_rate = 0
            [workload.saturation_search.slo]
            p99 = "1ms"
            "#,
    )
    .unwrap_err();
    assert!(err.message().contains("start_rate"));
}

#[test]
fn rejects_min_throughput_ratio_out_of_range() {
    let err = parse_config(
        r#"
            [target]
            endpoints = ["127.0.0.1:6379"]
            [workload.saturation_search]
            min_throughput_ratio = 1.5
            [workload.saturation_search.slo]
            p99 = "1ms"
            "#,
    )
    .unwrap_err();
    assert!(err.message().contains("min_throughput_ratio"));
}

#[test]
fn rejects_saturation_search_without_slo_thresholds() {
    let err = parse_config(
        r#"
            [target]
            endpoints = ["127.0.0.1:6379"]
            [workload.saturation_search]
            [workload.saturation_search.slo]
            "#,
    )
    .unwrap_err();
    assert!(err.message().contains("at least one threshold"));
}

#[test]
fn accepts_valid_saturation_search() {
    let config = parse_config(
        r#"
            [target]
            endpoints = ["127.0.0.1:6379"]
            [workload.saturation_search]
            step_multiplier = 1.05
            min_throughput_ratio = 0.9
            [workload.saturation_search.slo]
            p99 = "1ms"
            "#,
    );
    assert!(config.is_ok());
}

#[test]
fn rejects_zero_value_length() {
    let err = parse_config(
        r#"
            [target]
            endpoints = ["127.0.0.1:6379"]
            [workload.values]
            length = 0
            "#,
    )
    .unwrap_err();
    assert!(err.message().contains("values.length"));
}

#[test]
fn rejects_value_length_exceeding_pool() {
    let err = parse_config(
        r#"
            [target]
            endpoints = ["127.0.0.1:6379"]
            [workload.values]
            length = 2_000_000_000
            "#,
    )
    .unwrap_err();
    assert!(err.message().contains("value pool size"));
    assert_eq!(
        err.message(),
        "invalid config: workload.values.length (2000000000) exceeds the value pool size (1073741824)"
    );
}

/// Minimal valid document; individual tests append `[target]` keys.
fn config_with_target(extra: &str) -> Result<Config, ConfigError> {
    let doc = format!(
        r#"
[target]
endpoints = ["127.0.0.1:11211"]
{extra}

[connection]
connections = 1
"#
    );
    let config = read(&doc);
    validate(&config).map(|()| config)
}

#[test]
fn client_cert_without_key_is_rejected() {
    let err = config_with_target("tls = true\ntls_cert_file = \"client.crt\"")
        .expect_err("a client cert without its key must not validate");
    assert!(
        format!("{err:?}").contains("tls_key_file"),
        "error should name the missing option: {err:?}"
    );
}

#[test]
fn client_key_without_cert_is_rejected() {
    let err = config_with_target("tls = true\ntls_key_file = \"client.key\"")
        .expect_err("a client key without its cert must not validate");
    assert!(
        format!("{err:?}").contains("tls_cert_file"),
        "error should name the missing option: {err:?}"
    );
}

#[test]
fn cert_options_without_tls_are_rejected() {
    // Silently ignoring these would look like the CA file was honored.
    let err = config_with_target("tls_ca_file = \"ca.pem\"")
        .expect_err("cert options without tls = true must not validate");
    assert!(
        format!("{err:?}").contains("tls = true"),
        "error should say TLS must be enabled: {err:?}"
    );
}

#[test]
fn matched_cert_and_key_with_tls_validates() {
    config_with_target(
        "tls = true\ntls_ca_file = \"ca.pem\"\ntls_cert_file = \"c.crt\"\ntls_key_file = \"c.key\"",
    )
    .expect("a complete client-auth config should validate");
}

#[test]
fn tls_options_remain_optional() {
    let config = config_with_target("").expect("plain config should validate");
    assert!(config.target.tls_ca_file.is_none());
    assert!(config.target.tls_cert_file.is_none());
    assert!(config.target.tls_key_file.is_none());
}

#[test]
fn every_other_rule_is_named() {
    let good = read("[target]\nendpoints = [\"127.0.0.1:6379\"]\n");
    let message = |c: &Config, linux: bool| c.validate("0.99", linux).unwrap_err().message();

    let mut c = good.clone();
    c.target.endpoints.clear();
    assert_eq!(message(&c, true), "invalid config: endpoints must be specified");

    let mut c = good.clone();
    c.timestamps.mode = TimestampMode::Software;
    assert!(c.validate("0.99", true).is_ok());
    assert!(message(&c, false).contains("only supported on Linux"));

    let mut c = good.clone();
    c.workload.keyspace.distribution = Distribution::Recency;
    assert!(message(&c, true).contains("recency requires [workload.append]"));

    let mut c = good.clone();
    c.target.protocol = Protocol::Ping;
    c.workload.append = Some(Append {
        batch: 1,
        every: Duration::from_secs(1),
        pace: Pace::Burst,
        connections: 1,
        pipeline_depth: 1,
    });
    assert!(message(&c, true).contains("got ping"));

    assert_eq!(ConfigError::Io("x".into()).message(), "failed to read config: x");
    assert_eq!(ConfigError::Parse("x".into()).message(), "failed to parse config: x");
}

#[test]
fn pools_and_batches_follow_the_connection_settings() {
    let mut c = Connection::default();
    assert_eq!(c.total_connections(), 1);
    c.connections = 12;
    c.pipeline_depth = 32;
    assert_eq!(c.effective_batch_size(), 32);
    c.batch_size = Some(8);
    assert_eq!(c.effective_batch_size(), 8);
    c.batch_size = Some(0);
    assert_eq!(c.effective_batch_size(), 1);
    c.batch_size = Some(100);
    assert_eq!(c.effective_batch_size(), 32);
}

fn cfg(prefill: bool, warmup: &str, settle: Option<&str>) -> Config {
    let settle_line = settle
        .map(|s| format!("prefill_settle = \"{s}\""))
        .unwrap_or_default();
    read(&format!(
        r#"
            [general]
            warmup = "{warmup}"
            [target]
            endpoints = ["127.0.0.1:11211"]
            protocol = "memcache-binary"
            [workload]
            prefill = {prefill}
            {settle_line}
            "#
    ))
}

#[test]
fn prefill_settle_defaults_to_past_dirty_expire() {
    // Linux dirty_expire_centisecs is 3000 (30s); a shorter default would
    // leave the writeback burst inside the first measured window.
    let c = cfg(true, "10s", None);
    assert!(
        c.workload.prefill_settle.nanos >= Duration::from_secs(31).nanos,
        "default settle {:?} does not outlast a 30s dirty expiry",
        c.workload.prefill_settle
    );
}

#[test]
fn warmup_is_extended_only_when_prefill_runs() {
    // Without prefill there are no dirty pages to wait on, so a run against
    // a memory-only server must pay nothing.
    assert_eq!(
        effective_warmup(&cfg(false, "10s", Some("60s"))),
        Duration::from_secs(10)
    );
    assert_eq!(
        effective_warmup(&cfg(true, "10s", Some("60s"))),
        Duration::from_secs(70)
    );
}

#[test]
fn zero_settle_restores_the_previous_behavior() {
    assert_eq!(
        effective_warmup(&cfg(true, "10s", Some("0s"))),
        Duration::from_secs(10)
    );
}

fn rng() -> Xoshiro256PlusPlus {
    Xoshiro256PlusPlus::seed_from_u64(0xC0FFEE)
}

/// Draws a key, and for a power law its rank first.
fn sample(d: &KeyDist, r: &mut Xoshiro256PlusPlus) -> usize {
    let rank = match d {
        KeyDist::Zipf(z) => {
            let theta = f64::from_bits(z.theta().to_bits());
            rand_distr::Zipf::new(z.n as f64, theta).unwrap().sample(r) as u64
        }
        _ => 0,
    };
    d.sample(r, rank)
}

/// A config asking for zipf must produce a sampler that is actually skewed.
#[test]
fn zipf_config_produces_a_skewed_sampler() {
    let cfg = read(
        r#"
            [target]
            endpoints = ["127.0.0.1:11211"]
            protocol = "memcache-binary"
            [workload.keyspace]
            count = 10000
            distribution = "zipf"
            "#,
    );
    assert!(KeyDist::can_sample(&cfg.workload));
    let d = KeyDist::from_workload(&cfg.workload);
    assert!(matches!(d, KeyDist::Zipf(_)), "config asked for zipf");
    let mut r = rng();
    let mut hot = 0usize;
    for _ in 0..100_000 {
        if sample(&d, &mut r) < 100 {
            hot += 1;
        }
    }
    let frac = hot as f64 / 100_000.0;
    assert!(
        frac > 0.25,
        "sampler built from a zipf config behaves uniformly ({frac:.3})"
    );
}

#[test]
fn uniform_config_produces_a_uniform_sampler() {
    let cfg = read(
        r#"
            [target]
            endpoints = ["127.0.0.1:11211"]
            protocol = "memcache-binary"
            [workload.keyspace]
            count = 10000
            "#,
    );
    assert!(matches!(
        KeyDist::from_workload(&cfg.workload),
        KeyDist::Uniform { .. }
    ));
}

#[test]
fn recency_config_produces_a_recency_sampler() {
    let cfg = read(
        r#"
            [target]
            endpoints = ["127.0.0.1:6379"]
            protocol = "resp"
            [workload.keyspace]
            count = 10000
            distribution = "recency"
            hot_generations = 4
            [workload.append]
            batch = 100
            every = "1s"
            "#,
    );
    assert!(KeyDist::can_sample(&cfg.workload));
    let d = KeyDist::from_workload(&cfg.workload);
    assert!(matches!(d, KeyDist::Recency(_)));
    assert_eq!(d.len(), 10_000);
    let mut r = rng();
    let mut hot = 0usize;
    for _ in 0..100_000 {
        // Hot window is the top 400 ids.
        if sample(&d, &mut r) >= 9_600 {
            hot += 1;
        }
    }
    let frac = hot as f64 / 100_000.0;
    assert!((0.78..0.82).contains(&frac), "hot share {frac}");
}

#[test]
fn a_configured_momento_endpoint_wins() {
    assert_eq!(momento_endpoint(None, "cache.own"), "cache.own");
    assert_eq!(momento_endpoint(Some("cell-1"), "cache.own"), "cell-1");
}
