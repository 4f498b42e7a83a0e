use cachecannon::double::Double;
use cachecannon::search::reply::{
    array_of, check_dbsize, check_load, index_ready, info_field, next_scan, parse_knn_reply, Reply,
    ReplyValue, Scan,
};
use cachecannon::search::score::{
    hits, mean_ns, percentile_ns, recall, skipped, sum_fits, summarize, PhaseTimings, RunReport,
    Tally,
};
use cachecannon::search::{
    batch_end, batch_rows, check_k, create_command, deal, doc_key, query_command, stages,
    total_queries, Arg, Dataset, SearchArgs, Stage,
};
use cachecannon::time::Duration;

fn dbl(x: f64) -> Double {
    Double::from_bits(x.to_bits())
}

fn bulk(s: &str) -> Reply {
    Reply {
        value: ReplyValue::Bulk(s.as_bytes().to_vec()),
        shown: format!("BulkString({s:?})"),
    }
}

fn integer(n: i64) -> Reply {
    Reply { value: ReplyValue::Integer(n), shown: format!("Integer({n})") }
}

fn error(s: &str) -> Reply {
    Reply { value: ReplyValue::Error(s.as_bytes().to_vec()), shown: format!("Error({s:?})") }
}

fn array(items: Vec<Reply>) -> Reply {
    Reply { value: ReplyValue::Array(items), shown: "Array(..)".to_string() }
}

fn null() -> Reply {
    Reply { value: ReplyValue::Other, shown: "Null".to_string() }
}

fn dataset() -> Dataset {
    Dataset {
        train_rows: 1_000,
        train_cols: 128,
        test_rows: 10,
        test_cols: 128,
        neighbor_rows: 10,
        neighbor_cols: 100,
        metric: "euclidean".to_string(),
    }
}

#[test]
fn datasets_are_checked() {
    let mut d = dataset();
    assert!(d.check().is_ok());
    assert_eq!((d.dim(), d.neighbors_k()), (128, 100));
    assert_eq!(d.distance_metric_arg(), Ok("L2"));
    d.metric = "angular".to_string();
    assert_eq!(d.distance_metric_arg(), Ok("COSINE"));
    d.metric = "jac\"card".to_string();
    assert_eq!(
        d.distance_metric_arg().unwrap_err(),
        "unsupported dataset metric \"jac\\\"card\" (expected euclidean or angular)"
    );
    d.test_cols = 64;
    assert_eq!(d.check().unwrap_err(), "train dim 128 != test dim 64");
    d.test_cols = 128;
    d.neighbor_rows = 9;
    assert_eq!(d.check().unwrap_err(), "neighbors rows 9 != test rows 10");
}

#[test]
fn blobs_are_little_endian() {
    let row = [1.0f32, -2.5, 3.25e-3];
    let bits: Vec<u32> = row.iter().map(|v| v.to_bits()).collect();
    let mut expected = Vec::new();
    for v in row {
        expected.extend_from_slice(&v.to_le_bytes());
    }
    assert_eq!(Dataset::f32_le_blob(&bits), expected);
}

#[test]
fn k_is_bounded_by_the_ground_truth() {
    assert!(check_k(10, 100, "x").is_ok());
    assert_eq!(
        check_k(101, 100, "d.hdf5").unwrap_err(),
        "k = 101 exceeds ground-truth depth 100 in d.hdf5"
    );
    assert!(check_k(1_001, 2_000, "x").unwrap_err().starts_with("k > 1000"));
}

#[test]
fn batches_fit_the_byte_budget() {
    // A row of 128 dimensions costs 600 bytes.
    assert_eq!(batch_rows(256, 128), Ok(256));
    assert_eq!(batch_rows(1_000, 128), Ok(436));
    assert_eq!(batch_rows(0, 128), Ok(1));
    let e = batch_rows(256, 100_000).unwrap_err();
    assert!(e.starts_with("a single 100000-dim vector (400088 bytes as an HSET)"), "{e}");
    assert_eq!(batch_end(0, 256, 1_000), 256);
    assert_eq!(batch_end(900, 256, 1_000), 1_000);
}

#[test]
fn stages_clean_up_first() {
    assert_eq!(stages(true, false), vec![Stage::Verify, Stage::Query]);
    assert_eq!(stages(false, true).last(), Some(&Stage::Query));
    assert_eq!(stages(false, false).len(), 6);
    assert_eq!(stages(false, false)[0], Stage::DropIndex);
}

fn texts(args: &[Arg]) -> Vec<String> {
    args.iter()
        .map(|a| match a {
            Arg::Text(t) => t.clone(),
            Arg::Blob => "<blob>".to_string(),
        })
        .collect()
}

#[test]
fn commands_are_spelled_out() {
    assert_eq!(
        texts(&create_command("idx", 128, "L2", 16, 200)).join(" "),
        "FT.CREATE idx ON HASH PREFIX 1 doc: SCHEMA vec VECTOR HNSW 10 TYPE FLOAT32 DIM 128 \
         DISTANCE_METRIC L2 M 16 EF_CONSTRUCTION 200"
    );
    assert_eq!(
        texts(&query_command("idx", 10, 128)).join(" "),
        "FT.SEARCH idx *=>[KNN 10 @vec $BLOB EF_RUNTIME $EF] PARAMS 4 BLOB <blob> EF 128 \
         NOCONTENT LIMIT 0 10 DIALECT 2"
    );
    assert_eq!(doc_key(42), "doc:42");
}

#[test]
fn queries_are_dealt_in_rounds() {
    assert_eq!(total_queries(10, 3), 30);
    assert_eq!(total_queries(10, 0), 10);
    assert_eq!(deal(13, 30, 10), Some(3));
    assert_eq!(deal(30, 30, 10), None);
    assert_eq!(deal(0, 0, 0), None);
    let args = SearchArgs {
        dataset: "d".into(),
        host: "h".into(),
        port: 6379,
        k: 10,
        ef_search: 128,
        m: 16,
        ef_construction: 200,
        index: "i".into(),
        load_batch: 256,
        keep_index: false,
        reuse_index: false,
        query_loops: 1,
        query_clients: 1,
    };
    assert_eq!(total_queries(7, args.query_loops), 7);
}

#[test]
fn neighbors_are_read_from_replies() {
    let ok = array(vec![integer(2), bulk("doc:5"), bulk("doc:-17")]);
    assert_eq!(parse_knn_reply(&ok).unwrap(), vec![5, -17]);
    assert_eq!(parse_knn_reply(&array(Vec::new())).unwrap(), Vec::<i64>::new());
    assert_eq!(parse_knn_reply(&error("no index")).unwrap_err(), "no index");
    assert_eq!(parse_knn_reply(&null()).unwrap_err(), "unexpected reply Null");
    let bad = |item| parse_knn_reply(&array(vec![integer(1), item])).unwrap_err();
    assert_eq!(bad(bulk("foo:1")), "key \"foo:1\" is not doc:<integer>");
    assert_eq!(bad(bulk("doc:x")), "key \"doc:x\" is not doc:<integer>");
    assert_eq!(bad(integer(3)), "unexpected key element Integer(3)");
    for row in [0usize, 9, 10, 12_345] {
        let reply = array(vec![integer(1), bulk(&doc_key(row))]);
        assert_eq!(parse_knn_reply(&reply).unwrap(), vec![row as i64]);
    }
}

#[test]
fn readiness_comes_in_two_shapes() {
    let valkey = |state: &str, backfill: &str, queue: i64| {
        vec![
            bulk("index_name"),
            bulk("i"),
            bulk("state"),
            bulk(state),
            bulk("backfill_in_progress"),
            bulk(backfill),
            bulk("mutation_queue_size"),
            integer(queue),
        ]
    };
    assert_eq!(index_ready(&valkey("ready", "0", 0), None), Ok(true));
    assert_eq!(index_ready(&valkey("ready", "0", 3), None), Ok(false));
    assert_eq!(index_ready(&valkey("building", "0", 0), None), Ok(false));
    assert_eq!(info_field(&valkey("ready", "0", 3), "mutation_queue_size"), Some("3".into()));
    assert_eq!(info_field(&valkey("ready", "0", 3), "nothing"), None);

    let redis = vec![bulk("percent_indexed"), bulk("1"), bulk("indexing"), bulk("0")];
    assert_eq!(index_ready(&redis, Some(dbl(1.0))), Ok(true));
    assert_eq!(index_ready(&redis, Some(dbl(0.5))), Ok(false));
    assert_eq!(
        index_ready(&redis, None).unwrap_err(),
        "percent_indexed not numeric: \"1\""
    );
    let busy = vec![bulk("percent_indexed"), bulk("1"), bulk("indexing"), bulk("1")];
    assert_eq!(index_ready(&busy, Some(dbl(1.0))), Ok(false));
    assert!(index_ready(&vec![bulk("x"), bulk("y")], None)
        .unwrap_err()
        .ends_with("unsupported server?"));
    // A name without a value ends the list.
    assert_eq!(info_field(&vec![bulk("state")], "state"), None);
}

#[test]
fn other_replies_are_checked() {
    assert!(check_load(&vec![integer(1), integer(1)]).is_ok());
    assert_eq!(
        check_load(&vec![integer(1), error("oom"), error("x")]).unwrap_err(),
        "HSET error during load: oom"
    );
    assert!(check_dbsize(&integer(1_000), 1_000).is_ok());
    assert_eq!(
        check_dbsize(&integer(-1), 1_000).unwrap_err(),
        "--reuse-index: DBSIZE -1 does not match dataset train count 1000"
    );
    assert_eq!(
        check_dbsize(&null(), 1).unwrap_err(),
        "--reuse-index: DBSIZE: unexpected reply Null"
    );
    assert!(matches!(next_scan(&bulk("0"), "doc:*"), Ok(Scan::Complete)));
    assert!(matches!(next_scan(&bulk("10"), "doc:*"), Ok(Scan::From(c)) if c == b"10"));
    assert_eq!(
        next_scan(&error("boom"), "doc:*").unwrap_err(),
        "cleanup EVAL doc:*: boom"
    );
    assert_eq!(
        next_scan(&integer(1), "doc:*").unwrap_err(),
        "cleanup EVAL doc:*: unexpected reply Integer(1)"
    );
    assert_eq!(array_of(&array(vec![null()]), "a: ", "b: ").unwrap().len(), 1);
    assert_eq!(array_of(&error("e"), "a: ", "b: ").unwrap_err(), "a: e");
    assert_eq!(array_of(&null(), "a: ", "b: ").unwrap_err(), "b: Null");
    // Bytes that are no text are replaced.
    let broken = Reply { value: ReplyValue::Error(vec![b'a', 0xff]), shown: String::new() };
    assert_eq!(array_of(&broken, "", "").unwrap_err(), "a\u{fffd}");
}

#[test]
fn recall_counts_distinct_hits() {
    let truth = vec![1, 2, 3, 4, 5];
    assert_eq!(hits(&vec![5, 1, 1, 9], &truth, 5), 2);
    // Only the first k of the truth count.
    assert_eq!(hits(&vec![5, 1], &truth, 2), 1);
    assert_eq!(hits(&Vec::new(), &truth, 5), 0);
    assert_eq!(recall(&vec![1, 2, 3, 3], &truth, 4), dbl(0.75));
}

#[test]
fn percentiles_are_nearest_ranks() {
    let v: Vec<u64> = (1..=10).collect();
    assert_eq!(percentile_ns(&v, dbl(50.0)), 5);
    assert_eq!(percentile_ns(&v, dbl(90.0)), 9);
    assert_eq!(percentile_ns(&v, dbl(99.0)), 10);
    assert_eq!(percentile_ns(&v, dbl(99.9)), 10);
    assert_eq!(percentile_ns(&v, dbl(0.0)), 1);
    assert_eq!(percentile_ns(&Vec::new(), dbl(50.0)), 0);
    assert_eq!(mean_ns(&v), 5);
    assert!(sum_fits(&v));
    assert!(!sum_fits(&vec![u64::MAX, 1]));
    for n in 1..300usize {
        let v: Vec<u64> = (0..n as u64).collect();
        for q in [50.0f64, 90.0, 99.0, 99.9] {
            let rank = ((q / 100.0) * n as f64).ceil() as usize;
            assert_eq!(percentile_ns(&v, dbl(q)), v[rank.clamp(1, n) - 1]);
        }
    }
}

#[test]
fn a_run_is_summarized() {
    let mut a = Tally::new();
    a.add_query(3_000_000, dbl(1.0));
    a.add_query(1_000_000, dbl(0.5));
    let mut b = Tally::new();
    b.add_query(2_000_000, dbl(0.0));
    a.merge(&b);
    let query = a.finish(3, Duration::from_secs(2));
    assert_eq!(query.mean_recall, dbl(0.5));
    let report = RunReport {
        load: PhaseTimings { items: 1_000, elapsed: Duration::from_secs(4), batch: 256 },
        index: skipped(),
        query,
    };
    let s = summarize(&report);
    assert_eq!((s.p50_ms, s.max_ms, s.mean_ms), (dbl(2.0), dbl(3.0), dbl(2.0)));
    assert_eq!((s.qps, s.load_rate), (dbl(1.5), dbl(250.0)));
    assert_eq!((s.p90_ms, s.p99_ms, s.p999_ms), (dbl(3.0), dbl(3.0), dbl(3.0)));
}
