//! Vector-search benchmarking.
//!
//! Measures search performance the way ann-benchmarks does: load a dataset,
//! build an HNSW index, then run a fixed query set and score every result
//! against precomputed ground truth. A result is a point in (recall, latency,
//! QPS) space, never a lone number.
//!
//! Three phases, measured independently:
//!
//! - load: pipelined `HSET doc:<row> vec <bytes>` for every train vector.
//! - index: create an HNSW index, then poll until the backfill completes and
//!   the mutation queue drains.
//! - query: the test vectors, each with one request in flight per client.

pub mod reply;
pub mod score;

use crate::text;
use vstd::prelude::*;
use vstd::string::*;

verus! {

/// A pipeline batch is issued as a single send, so this caps how deep the load
/// pipeline runs. The cap is byte-based so vector dimensionality cannot blow
/// up the batch size.
pub const LOAD_BATCH_BYTE_BUDGET: usize = 262_144;

/// Approximate per-command overhead: verb, argument headers, line ends.
pub const HSET_OVERHEAD_BYTES: usize = 64;

/// The largest number of neighbors that a reply can hold: replies are parsed
/// with a cap on their elements.
pub const MAX_K: usize = 1_000;

/// What a search run is asked for.
#[derive(Clone, Debug)]
pub struct SearchArgs {
    /// Path to an ann-benchmarks-format dataset.
    pub dataset: String,
    /// Server hostname or IP.
    pub host: String,
    /// Server port.
    pub port: u16,
    /// Neighbors to retrieve per query; recall is scored at this k.
    pub k: usize,
    /// HNSW `EF_RUNTIME` for the query phase.
    pub ef_search: usize,
    /// HNSW `M`, the max outgoing edges per node.
    pub m: usize,
    /// HNSW `EF_CONSTRUCTION`.
    pub ef_construction: usize,
    /// Index name.
    pub index: String,
    /// Number of HSETs per pipelined batch in the load phase.
    pub load_batch: usize,
    /// Keep the index after the run.
    pub keep_index: bool,
    /// Query an index that is there already.
    pub reuse_index: bool,
    /// How often the test set is run.
    pub query_loops: usize,
    /// Connections that query at the same time.
    pub query_clients: usize,
}

/// The shape of a dataset. The ann-benchmarks convention: `train` is loaded
/// into the store, `test` is the query set, and row `i` of `neighbors` holds
/// the indices into `train` of the true nearest neighbors of `test[i]`.
#[derive(Clone, Debug)]
pub struct Dataset {
    pub train_rows: usize,
    pub train_cols: usize,
    pub test_rows: usize,
    pub test_cols: usize,
    pub neighbor_rows: usize,
    pub neighbor_cols: usize,
    /// Metric as recorded in the file.
    pub metric: String,
}

/// How Rust shows a text in quotes.
pub uninterp spec fn debug_text(t: Seq<char>) -> Seq<char>;

/// `format!` with `{:?}` on a string, which quotes and escapes it. What it
/// gives depends on the text alone; it is named, and nothing else is said.
#[verifier::external_body]
pub(crate) fn quoted(t: &str) -> (r: String)
    ensures
        r@ == debug_text(t@),
{
    format!("{:?}", t)
}

/// The bytes of 32-bit patterns, each with its lowest byte first.
pub open spec fn le_bytes(bits: Seq<u32>) -> Seq<u8> {
    Seq::new(
        4 * bits.len(),
        |i: int|
            if i % 4 == 0 {
                (bits[i / 4] & 0xff) as u8
            } else if i % 4 == 1 {
                ((bits[i / 4] >> 8) & 0xff) as u8
            } else if i % 4 == 2 {
                ((bits[i / 4] >> 16) & 0xff) as u8
            } else {
                ((bits[i / 4] >> 24) & 0xff) as u8
            },
    )
}

impl Dataset {
    /// The dimension of the vectors.
    pub fn dim(&self) -> (r: usize)
        ensures
            r == self.train_cols,
    {
        self.train_cols
    }

    /// Ground-truth depth: the maximum k recall can be scored at.
    pub fn neighbors_k(&self) -> (r: usize)
        ensures
            r == self.neighbor_cols,
    {
        self.neighbor_cols
    }

    /// The `DISTANCE_METRIC` argument for a metric.
    pub open spec fn metric_arg(metric: Seq<char>) -> Option<Seq<char>> {
        if metric == "euclidean"@ {
            Some("L2"@)
        } else if metric == "angular"@ || metric == "cosine"@ {
            Some("COSINE"@)
        } else {
            None
        }
    }

    /// The metric mapped to the server's `DISTANCE_METRIC` argument.
    /// ann-benchmarks "angular" datasets are unit-normalized, so cosine
    /// distance gives the same ranking.
    pub fn distance_metric_arg(&self) -> (r: Result<&'static str, String>)
        ensures
            match r {
                Ok(a) => Dataset::metric_arg(self.metric@) == Some(a@),
                Err(e) => Dataset::metric_arg(self.metric@) is None && e@
                    == "unsupported dataset metric "@ + debug_text(self.metric@)
                    + " (expected euclidean or angular)"@,
            },
    {
        let t = text::chars_of(self.metric.as_str());
        if text::same(&t, "euclidean") {
            Ok("L2")
        } else if text::same(&t, "angular") || text::same(&t, "cosine") {
            Ok("COSINE")
        } else {
            let mut e = String::from_str("unsupported dataset metric ");
            e.append(quoted(self.metric.as_str()).as_str());
            e.append(" (expected euclidean or angular)");
            Err(e)
        }
    }

    /// A row of FLOAT32 patterns as the little-endian blob that the server
    /// expects. Endianness is a correctness requirement: a mismatch silently
    /// wrecks recall rather than erroring.
    pub fn f32_le_blob(bits: &Vec<u32>) -> (r: Vec<u8>)
        ensures
            r@ == le_bytes(bits@),
    {
        let mut blob: Vec<u8> = Vec::new();
        let mut i: usize = 0;
        while i < bits.len()
            invariant
                i <= bits@.len(),
                blob@ == le_bytes(bits@.take(i as int)),
            decreases bits@.len() - i,
        {
            let v: u32 = bits[i];
            blob.push((v & 0xff) as u8);
            blob.push(((v >> 8) & 0xff) as u8);
            blob.push(((v >> 16) & 0xff) as u8);
            blob.push(((v >> 24) & 0xff) as u8);
            proof {
                let t = bits@.take(i + 1);
                let before = le_bytes(bits@.take(i as int));
                assert forall|j: int| 0 <= j < 4 * i implies #[trigger] le_bytes(t)[j]
                    == before[j] by {
                    assert(t[j / 4] == bits@.take(i as int)[j / 4]);
                }
                assert(blob@ =~= le_bytes(t));
            }
            i = i + 1;
        }
        assert(bits@.take(bits@.len() as int) =~= bits@);
        blob
    }

    /// What is wrong with a dataset's shape.
    pub open spec fn fault(self) -> Option<Seq<char>> {
        if self.train_cols != self.test_cols {
            Some(
                "train dim "@ + text::decimal(self.train_cols as nat) + " != test dim "@
                    + text::decimal(self.test_cols as nat),
            )
        } else if self.neighbor_rows != self.test_rows {
            Some(
                "neighbors rows "@ + text::decimal(self.neighbor_rows as nat) + " != test rows "@
                    + text::decimal(self.test_rows as nat),
            )
        } else {
            None
        }
    }

    /// Whether the parts of a dataset fit together.
    pub fn check(&self) -> (r: Result<(), String>)
        ensures
            match r {
                Ok(_) => self.fault() is None,
                Err(e) => self.fault() == Some(e@),
            },
    {
        if self.train_cols != self.test_cols {
            let mut e = String::from_str("train dim ");
            text::push_decimal(&mut e, self.train_cols as u128);
            e.append(" != test dim ");
            text::push_decimal(&mut e, self.test_cols as u128);
            return Err(e);
        }
        if self.neighbor_rows != self.test_rows {
            let mut e = String::from_str("neighbors rows ");
            text::push_decimal(&mut e, self.neighbor_rows as u128);
            e.append(" != test rows ");
            text::push_decimal(&mut e, self.test_rows as u128);
            return Err(e);
        }
        Ok(())
    }
}

/// A 32-bit pattern, from the four bytes that it was written as.
pub open spec fn from_le(b0: u8, b1: u8, b2: u8, b3: u8) -> u32 {
    (b0 as u32) | ((b1 as u32) << 8) | ((b2 as u32) << 16) | ((b3 as u32) << 24)
}

/// A blob holds its patterns: reading four bytes back, lowest first, gives
/// the pattern that was written.
pub proof fn blobs_read_back(bits: Seq<u32>, i: int)
    requires
        0 <= i < bits.len(),
    ensures
        ({
            let b = le_bytes(bits);
            &&& b.len() == 4 * bits.len()
            &&& from_le(b[4 * i], b[4 * i + 1], b[4 * i + 2], b[4 * i + 3]) == bits[i]
        }),
{
    let v = bits[i];
    let b = le_bytes(bits);
    assert((4 * i) / 4 == i && (4 * i + 1) / 4 == i && (4 * i + 2) / 4 == i && (4 * i + 3) / 4
        == i);
    assert((4 * i) % 4 == 0 && (4 * i + 1) % 4 == 1 && (4 * i + 2) % 4 == 2 && (4 * i + 3) % 4
        == 3);
    assert((((v & 0xff) as u8) as u32) | (((((v >> 8) & 0xff) as u8) as u32) << 8) | (((((v
        >> 16) & 0xff) as u8) as u32) << 16) | (((((v >> 24) & 0xff) as u8) as u32) << 24) == v)
        by (bit_vector);
}

/// What is wrong with the number of neighbors that is asked for.
pub open spec fn k_fault(k: nat, depth: nat, path: Seq<char>) -> Option<Seq<char>> {
    if k > depth {
        Some(
            "k = "@ + text::decimal(k) + " exceeds ground-truth depth "@ + text::decimal(depth)
                + " in "@ + path,
        )
    } else if k > MAX_K {
        Some("k > 1000 exceeds the reply-size ceiling (see issue #113)"@)
    } else {
        None
    }
}

/// Whether recall can be scored at `k`.
pub fn check_k(k: usize, depth: usize, path: &str) -> (r: Result<(), String>)
    ensures
        match r {
            Ok(_) => k_fault(k as nat, depth as nat, path@) is None,
            Err(e) => k_fault(k as nat, depth as nat, path@) == Some(e@),
        },
{
    if k > depth {
        let mut e = String::from_str("k = ");
        text::push_decimal(&mut e, k as u128);
        e.append(" exceeds ground-truth depth ");
        text::push_decimal(&mut e, depth as u128);
        e.append(" in ");
        e.append(path);
        return Err(e);
    }
    if k > MAX_K {
        return Err(String::from_str("k > 1000 exceeds the reply-size ceiling (see issue #113)"));
    }
    Ok(())
}

/// What a search run does, in order.
#[derive(Clone, Copy, Debug, PartialEq, Eq, Structural)]
pub enum Stage {
    /// Check that the index is ready and the keyspace matches the dataset.
    Verify,
    /// Drop the index; that there is none is no error.
    DropIndex,
    /// Delete every key under the prefix.
    DeleteKeys,
    Load,
    Index,
    Query,
}

/// The stages of a run. A previous run's index would make load throughput and
/// build time lies, and stale keys would poison recall, so both go first.
pub fn stages(reuse_index: bool, keep_index: bool) -> (r: Vec<Stage>)
    ensures
        r@ == if reuse_index {
            seq![Stage::Verify, Stage::Query]
        } else if keep_index {
            seq![Stage::DropIndex, Stage::DeleteKeys, Stage::Load, Stage::Index, Stage::Query]
        } else {
            seq![
                Stage::DropIndex,
                Stage::DeleteKeys,
                Stage::Load,
                Stage::Index,
                Stage::Query,
                Stage::DropIndex,
            ]
        },
{
    if reuse_index {
        let r: Vec<Stage> = vec![Stage::Verify, Stage::Query];
        assert(r@ =~= seq![Stage::Verify, Stage::Query]);
        return r;
    }
    let mut r: Vec<Stage> = vec![
        Stage::DropIndex,
        Stage::DeleteKeys,
        Stage::Load,
        Stage::Index,
        Stage::Query,
    ];
    if !keep_index {
        r.push(Stage::DropIndex);
    }
    r
}

/// Bytes of a row in a pipeline batch.
pub open spec fn row_cost(dim: nat) -> nat {
    4 * dim + 4 + 20 + HSET_OVERHEAD_BYTES as nat
}

/// Rows per pipelined batch: capped by what is asked for and by the byte
/// budget; an error when a single row exceeds the budget.
pub fn batch_rows(load_batch: usize, dim: usize) -> (r: Result<usize, String>)
    requires
        row_cost(dim as nat) <= usize::MAX,
    ensures
        match r {
            Ok(n) => {
                let asked = if load_batch < 1 {
                    1
                } else {
                    load_batch as int
                };
                let fitting = LOAD_BATCH_BYTE_BUDGET as int / row_cost(dim as nat) as int;
                &&& row_cost(dim as nat) <= LOAD_BATCH_BYTE_BUDGET
                &&& n == if asked <= fitting {
                    asked
                } else {
                    fitting
                }
                &&& n >= 1
            },
            Err(e) => row_cost(dim as nat) > LOAD_BATCH_BYTE_BUDGET && e@ == "a single "@
                + text::decimal(dim as nat) + "-dim vector ("@ + text::decimal(row_cost(dim as nat))
                + " bytes as an HSET) exceeds the per-send budget of "@ + text::decimal(262_144)
                + " bytes; the send path cannot carry it (see the ceiling note above)"@,
        },
{
    let asked: usize = if load_batch < 1 {
        1
    } else {
        load_batch
    };
    let cost: usize = 4 * dim + 4 + 20 + HSET_OVERHEAD_BYTES;
    if cost > LOAD_BATCH_BYTE_BUDGET {
        let mut e = String::from_str("a single ");
        text::push_decimal(&mut e, dim as u128);
        e.append("-dim vector (");
        text::push_decimal(&mut e, cost as u128);
        e.append(" bytes as an HSET) exceeds the per-send budget of ");
        text::push_decimal(&mut e, LOAD_BATCH_BYTE_BUDGET as u128);
        e.append(" bytes; the send path cannot carry it (see the ceiling note above)");
        return Err(e);
    }
    let fitting: usize = LOAD_BATCH_BYTE_BUDGET / cost;
    proof {
        vstd::arithmetic::div_mod::lemma_div_is_ordered(
            cost as int,
            LOAD_BATCH_BYTE_BUDGET as int,
            cost as int,
        );
        vstd::arithmetic::div_mod::lemma_div_by_self(cost as int);
    }
    Ok(
        if asked <= fitting {
            asked
        } else {
            fitting
        },
    )
}

/// A batch of that many rows stays within the byte budget.
pub proof fn batches_stay_within_the_budget(rows: nat, dim: nat)
    requires
        row_cost(dim) <= LOAD_BATCH_BYTE_BUDGET,
        rows <= LOAD_BATCH_BYTE_BUDGET as int / row_cost(dim) as int,
    ensures
        rows * row_cost(dim) <= LOAD_BATCH_BYTE_BUDGET,
{
    let c = row_cost(dim) as int;
    let q = LOAD_BATCH_BYTE_BUDGET as int / c;
    vstd::arithmetic::div_mod::lemma_fundamental_div_mod(LOAD_BATCH_BYTE_BUDGET as int, c);
    vstd::arithmetic::div_mod::lemma_mod_bound(LOAD_BATCH_BYTE_BUDGET as int, c);
    assert(rows * c <= q * c) by (nonlinear_arith)
        requires
            rows <= q,
            c > 0,
    ;
    assert(q * c == c * q) by (nonlinear_arith);
}

/// The end of the batch that starts at a row.
pub fn batch_end(row: usize, batch: usize, rows: usize) -> (r: usize)
    requires
        row <= rows,
    ensures
        r == if row + batch <= rows {
            row + batch
        } else {
            rows as int
        },
{
    if rows - row >= batch {
        row + batch
    } else {
        rows
    }
}

/// The key of a row.
pub open spec fn doc_key_text(row: nat) -> Seq<char> {
    "doc:"@ + text::decimal(row)
}

/// The key of a row.
pub fn doc_key(row: usize) -> (r: String)
    ensures
        r@ == doc_key_text(row as nat),
{
    let mut r = String::from_str("doc:");
    text::push_decimal(&mut r, row as u128);
    r
}

/// An argument of a command.
#[derive(Clone, Debug)]
pub enum Arg {
    Text(String),
    /// The bytes of the query vector.
    Blob,
}

/// The text of an argument; none of the blob.
pub open spec fn arg_text(a: Arg) -> Option<Seq<char>> {
    match a {
        Arg::Text(t) => Some(t@),
        Arg::Blob => None,
    }
}

/// The texts of a command's arguments.
pub open spec fn arg_texts(args: Seq<Arg>) -> Seq<Option<Seq<char>>> {
    args.map_values(|a: Arg| arg_text(a))
}

fn put(args: &mut Vec<Arg>, t: &str)
    ensures
        arg_texts(final(args)@) == arg_texts(old(args)@).push(Some(t@)),
{
    let ghost before = args@;
    args.push(Arg::Text(String::from_str(t)));
    assert(arg_texts(args@) =~= arg_texts(before).push(Some(t@)));
}

fn put_number(args: &mut Vec<Arg>, n: usize)
    ensures
        arg_texts(final(args)@) == arg_texts(old(args)@).push(Some(text::decimal(n as nat))),
{
    let mut t = String::new();
    text::push_decimal(&mut t, n as u128);
    assert(t@ =~= text::decimal(n as nat));
    put(args, t.as_str());
}

/// The command that creates the index.
pub fn create_command(
    index: &str,
    dim: usize,
    metric: &str,
    m: usize,
    ef_construction: usize,
) -> (r: Vec<Arg>)
    ensures
        arg_texts(r@) == seq![
            Some("FT.CREATE"@),
            Some(index@),
            Some("ON"@),
            Some("HASH"@),
            Some("PREFIX"@),
            Some("1"@),
            Some("doc:"@),
            Some("SCHEMA"@),
            Some("vec"@),
            Some("VECTOR"@),
            Some("HNSW"@),
            Some("10"@),
            Some("TYPE"@),
            Some("FLOAT32"@),
            Some("DIM"@),
            Some(text::decimal(dim as nat)),
            Some("DISTANCE_METRIC"@),
            Some(metric@),
            Some("M"@),
            Some(text::decimal(m as nat)),
            Some("EF_CONSTRUCTION"@),
            Some(text::decimal(ef_construction as nat)),
        ],
{
    let mut r: Vec<Arg> = Vec::new();
    put(&mut r, "FT.CREATE");
    put(&mut r, index);
    put(&mut r, "ON");
    put(&mut r, "HASH");
    put(&mut r, "PREFIX");
    put(&mut r, "1");
    put(&mut r, "doc:");
    put(&mut r, "SCHEMA");
    put(&mut r, "vec");
    put(&mut r, "VECTOR");
    put(&mut r, "HNSW");
    put(&mut r, "10");
    put(&mut r, "TYPE");
    put(&mut r, "FLOAT32");
    put(&mut r, "DIM");
    put_number(&mut r, dim);
    put(&mut r, "DISTANCE_METRIC");
    put(&mut r, metric);
    put(&mut r, "M");
    put_number(&mut r, m);
    put(&mut r, "EF_CONSTRUCTION");
    put_number(&mut r, ef_construction);
    assert(arg_texts(r@) =~= seq![
        Some("FT.CREATE"@),
        Some(index@),
        Some("ON"@),
        Some("HASH"@),
        Some("PREFIX"@),
        Some("1"@),
        Some("doc:"@),
        Some("SCHEMA"@),
        Some("vec"@),
        Some("VECTOR"@),
        Some("HNSW"@),
        Some("10"@),
        Some("TYPE"@),
        Some("FLOAT32"@),
        Some("DIM"@),
        Some(text::decimal(dim as nat)),
        Some("DISTANCE_METRIC"@),
        Some(metric@),
        Some("M"@),
        Some(text::decimal(m as nat)),
        Some("EF_CONSTRUCTION"@),
        Some(text::decimal(ef_construction as nat)),
    ]);
    r
}

/// The query that retrieves `k` neighbors.
pub open spec fn knn_text(k: nat) -> Seq<char> {
    "*=>[KNN "@ + text::decimal(k) + " @vec $BLOB EF_RUNTIME $EF]"@
}

/// The command of one query.
pub fn query_command(index: &str, k: usize, ef_search: usize) -> (r: Vec<Arg>)
    ensures
        arg_texts(r@) == seq![
            Some("FT.SEARCH"@),
            Some(index@),
            Some(knn_text(k as nat)),
            Some("PARAMS"@),
            Some("4"@),
            Some("BLOB"@),
            None,
            Some("EF"@),
            Some(text::decimal(ef_search as nat)),
            Some("NOCONTENT"@),
            Some("LIMIT"@),
            Some("0"@),
            Some(text::decimal(k as nat)),
            Some("DIALECT"@),
            Some("2"@),
        ],
{
    let mut r: Vec<Arg> = Vec::new();
    let mut knn = String::from_str("*=>[KNN ");
    text::push_decimal(&mut knn, k as u128);
    knn.append(" @vec $BLOB EF_RUNTIME $EF]");
    put(&mut r, "FT.SEARCH");
    put(&mut r, index);
    put(&mut r, knn.as_str());
    put(&mut r, "PARAMS");
    put(&mut r, "4");
    put(&mut r, "BLOB");
    let ghost before = r@;
    r.push(Arg::Blob);
    assert(arg_texts(r@) =~= arg_texts(before).push(None));
    put(&mut r, "EF");
    put_number(&mut r, ef_search);
    put(&mut r, "NOCONTENT");
    put(&mut r, "LIMIT");
    put(&mut r, "0");
    put_number(&mut r, k);
    put(&mut r, "DIALECT");
    put(&mut r, "2");
    assert(arg_texts(r@) =~= seq![
        Some("FT.SEARCH"@),
        Some(index@),
        Some(knn_text(k as nat)),
        Some("PARAMS"@),
        Some("4"@),
        Some("BLOB"@),
        None,
        Some("EF"@),
        Some(text::decimal(ef_search as nat)),
        Some("NOCONTENT"@),
        Some("LIMIT"@),
        Some("0"@),
        Some(text::decimal(k as nat)),
        Some("DIALECT"@),
        Some("2"@),
    ]);
    r
}

/// Queries in all: the test set, as often as asked for.
pub fn total_queries(test_rows: usize, query_loops: usize) -> (r: usize)
    requires
        test_rows * query_loops <= usize::MAX,
    ensures
        r == if query_loops == 0 {
            test_rows as int
        } else {
            test_rows * query_loops
        },
{
    if query_loops == 0 {
        test_rows
    } else {
        test_rows * query_loops
    }
}

/// The test vector of the query with this number; none once all are dealt.
pub fn deal(next: usize, total: usize, test_rows: usize) -> (r: Option<usize>)
    requires
        total > 0 ==> test_rows > 0,
    ensures
        r == if next < total {
            Some((next as int % test_rows as int) as usize)
        } else {
            None
        },
        r matches Some(i) ==> i < test_rows,
{
    if next < total {
        Some(next % test_rows)
    } else {
        None
    }
}

/// Recall can be scored at any depth up to that of the ground truth and a
/// thousand.
pub proof fn recall_is_scored_within_the_truth(k: nat, depth: nat, path: Seq<char>)
    ensures
        k_fault(k, depth, path) is None <==> k <= depth && k <= 1_000,
{
}

/// A dataset's parts fit together exactly when its vectors have one dimension
/// and every test vector has its neighbors.
pub proof fn fitting_parts_are_accepted(d: Dataset)
    ensures
        d.fault() is None <==> d.train_cols == d.test_cols && d.neighbor_rows == d.test_rows,
{
}

/// Euclidean datasets are searched by L2, angular and cosine ones by cosine, and
/// no others are.
pub proof fn metrics_have_their_argument(metric: Seq<char>)
    ensures
        metric == "euclidean"@ ==> Dataset::metric_arg(metric) == Some("L2"@),
        metric == "angular"@ || metric == "cosine"@ ==> Dataset::metric_arg(metric) == Some(
            "COSINE"@,
        ),
        metric != "euclidean"@ && metric != "angular"@ && metric != "cosine"@
            ==> Dataset::metric_arg(metric) is None,
{
    reveal_strlit("euclidean");
    reveal_strlit("angular");
    reveal_strlit("cosine");
    assert("euclidean"@.len() == 9 && "angular"@.len() == 7 && "cosine"@.len() == 6);
}

/// A row of a batch takes the bytes of its vector, four for each dimension, and
/// a fixed amount for the rest of its command.
pub proof fn rows_cost_their_vector(dim: nat)
    ensures
        row_cost(dim) >= 4 * dim,
        row_cost(dim + 1) == row_cost(dim) + 4,
        row_cost(0) == 24 + HSET_OVERHEAD_BYTES,
{
}

} // verus!
