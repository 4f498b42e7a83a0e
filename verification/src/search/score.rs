//! Scoring a search run.
//!
//! Recall is the headline; latency and throughput are only meaningful next to
//! it.

use crate::double::Double;
use crate::time::Duration;
use vstd::prelude::*;

verus! {

/// How long a phase took, and how much it did.
#[derive(Clone, Copy, Debug, PartialEq, Eq, Structural)]
pub struct PhaseTimings {
    pub items: usize,
    pub elapsed: Duration,
    /// Effective rows per pipelined batch, of the load phase only.
    pub batch: usize,
}

/// What the query phase measured.
#[derive(Clone, Debug)]
pub struct QueryStats {
    pub queries: usize,
    pub elapsed: Duration,
    pub latencies_ns: Vec<u64>,
    pub mean_recall: Double,
}

/// What a search run measured.
#[derive(Clone, Debug)]
pub struct RunReport {
    pub load: PhaseTimings,
    pub index: PhaseTimings,
    pub query: QueryStats,
}

/// A phase that was skipped.
pub fn skipped() -> (r: PhaseTimings)
    ensures
        r == (PhaseTimings { items: 0, elapsed: Duration { nanos: 0 }, batch: 0 }),
{
    PhaseTimings { items: 0, elapsed: Duration::zero(), batch: 0 }
}

/// The true neighbors that count: the first `k`.
pub open spec fn true_ids(truth: Seq<i32>, k: nat) -> Set<i64> {
    Seq::new(
        if k <= truth.len() {
            k
        } else {
            truth.len()
        },
        |i: int| truth[i] as i64,
    ).to_set()
}

/// The ids that were rightly returned, each once.
pub open spec fn hit_set(returned: Seq<i64>, truth: Seq<i32>, k: nat) -> Set<i64> {
    returned.to_set().intersect(true_ids(truth, k))
}

/// Whether one of the first `k` true neighbors is this id.
fn is_true(truth: &Vec<i32>, k: usize, id: i64) -> (r: bool)
    ensures
        r == true_ids(truth@, k as nat).contains(id),
{
    let n: usize = if k <= truth.len() {
        k
    } else {
        truth.len()
    };
    let ghost s = Seq::new(n as nat, |i: int| truth@[i] as i64);
    assert(s.to_set() == true_ids(truth@, k as nat));
    let mut i: usize = 0;
    while i < n
        invariant
            i <= n <= truth@.len(),
            s.to_set() == true_ids(truth@, k as nat),
            s == Seq::new(n as nat, |i: int| truth@[i] as i64),
            forall|j: int| 0 <= j < i ==> s[j] != id,
        decreases n - i,
    {
        if truth[i] as i64 == id {
            assert(s[i as int] == id);
            assert(s.contains(id));
            assert(s.to_set().contains(id));
            return true;
        }
        i = i + 1;
    }
    assert(!s.contains(id));
    false
}

fn occurs_before(ids: &Vec<i64>, end: usize, id: i64) -> (r: bool)
    requires
        end <= ids@.len(),
    ensures
        r == ids@.take(end as int).contains(id),
{
    let ghost s = ids@.take(end as int);
    let mut i: usize = 0;
    while i < end
        invariant
            i <= end <= ids@.len(),
            s == ids@.take(end as int),
            forall|j: int| 0 <= j < i ==> s[j] != id,
        decreases end - i,
    {
        if ids[i] == id {
            assert(s[i as int] == id);
            return true;
        }
        i = i + 1;
    }
    false
}

/// How many of the first `k` true neighbors were returned. Set semantics: a
/// duplicated id in the reply does not count twice.
pub fn hits(returned: &Vec<i64>, truth: &Vec<i32>, k: usize) -> (r: usize)
    ensures
        r == hit_set(returned@, truth@, k as nat).len(),
{
    let mut n: usize = 0;
    let mut i: usize = 0;
    proof {
        assert(hit_set(returned@.take(0), truth@, k as nat) =~= Set::empty());
    }
    while i < returned.len()
        invariant
            i <= returned@.len(),
            n <= i,
            n == hit_set(returned@.take(i as int), truth@, k as nat).len(),
            hit_set(returned@.take(i as int), truth@, k as nat).finite(),
        decreases returned@.len() - i,
    {
        let id: i64 = returned[i];
        let seen = occurs_before(returned, i, id);
        let good = is_true(truth, k, id);
        proof {
            let before = returned@.take(i as int);
            let after = returned@.take(i + 1);
            let b = hit_set(before, truth@, k as nat);
            let a = hit_set(after, truth@, k as nat);
            assert(after =~= before.push(id));
            assert forall|x: i64| a.contains(x) <==> (b.contains(x) || (x == id && good)) by {
                if after.contains(x) {
                    let j = choose|j: int| 0 <= j < after.len() && after[j] == x;
                    if j < before.len() {
                        assert(before[j] == x);
                    }
                }
                if before.contains(x) {
                    let j = choose|j: int| 0 <= j < before.len() && before[j] == x;
                    assert(after[j] == x);
                }
                assert(after[i as int] == id);
            }
            if good && !seen {
                assert(!b.contains(id));
                assert(a =~= b.insert(id));
            } else {
                if good {
                    assert(b.contains(id));
                }
                assert(a =~= b);
            }
        }
        if good && !seen {
            n = n + 1;
        }
        i = i + 1;
    }
    assert(returned@.take(returned@.len() as int) =~= returned@);
    n
}

/// At most `k` of the returned ids are right, so recall is at most one.
pub proof fn recall_is_at_most_one(returned: Seq<i64>, truth: Seq<i32>, k: nat)
    ensures
        hit_set(returned, truth, k).finite(),
        hit_set(returned, truth, k).len() <= k,
{
    let s = Seq::new(
        if k <= truth.len() {
            k
        } else {
            truth.len()
        },
        |i: int| truth[i] as i64,
    );
    let t = true_ids(truth, k);
    vstd::seq_lib::seq_to_set_is_finite(s);
    vstd::seq_lib::seq_to_set_is_finite(returned);
    s.lemma_cardinality_of_set();
    let h = hit_set(returned, truth, k);
    assert(h.subset_of(t));
    vstd::set_lib::lemma_len_subset(h, t);
}

/// Recall does not depend on the order of a reply, nor on how often it names
/// an id.
pub proof fn recall_is_a_matter_of_sets(a: Seq<i64>, b: Seq<i64>, truth: Seq<i32>, k: nat)
    requires
        forall|x: i64| a.contains(x) <==> b.contains(x),
    ensures
        hit_set(a, truth, k) == hit_set(b, truth, k),
{
    assert(a.to_set() =~= b.to_set());
}

/// Recall at `k`: the share of the true neighbors that was returned.
pub fn recall(returned: &Vec<i64>, truth: &Vec<i32>, k: usize) -> (r: Double)
    ensures
        r == Double::quotient(
            Double::of_nat(hit_set(returned@, truth@, k as nat).len()),
            Double::of_nat(k as nat),
        ),
{
    let n: usize = hits(returned, truth, k);
    Double::from_u64(n as u64).over(Double::from_u64(k as u64))
}

/// What a query client has measured so far.
#[derive(Clone, Debug)]
pub struct Tally {
    pub latencies_ns: Vec<u64>,
    pub recall_sum: Double,
}

impl Tally {
    /// Nothing yet.
    pub fn new() -> (r: Self)
        ensures
            r.latencies_ns@ == Seq::<u64>::empty(),
            r.recall_sum == Double::zero(),
    {
        Tally { latencies_ns: Vec::new(), recall_sum: Double::from_bits(0) }
    }

    /// Adds a query.
    pub fn add_query(&mut self, latency_ns: u64, recall: Double)
        ensures
            final(self).latencies_ns@ == old(self).latencies_ns@.push(latency_ns),
            final(self).recall_sum == Double::sum(old(self).recall_sum, recall),
    {
        self.latencies_ns.push(latency_ns);
        self.recall_sum = self.recall_sum.plus(recall);
    }

    /// Adds what another client has measured.
    pub fn merge(&mut self, other: &Tally)
        ensures
            final(self).latencies_ns@ == old(self).latencies_ns@ + other.latencies_ns@,
            final(self).recall_sum == Double::sum(old(self).recall_sum, other.recall_sum),
    {
        let mut i: usize = 0;
        assert(self.latencies_ns@ =~= self.latencies_ns@ + other.latencies_ns@.take(0));
        while i < other.latencies_ns.len()
            invariant
                i <= other.latencies_ns@.len(),
                self.recall_sum == old(self).recall_sum,
                self.latencies_ns@ == old(self).latencies_ns@ + other.latencies_ns@.take(i as int),
            decreases other.latencies_ns@.len() - i,
        {
            self.latencies_ns.push(other.latencies_ns[i]);
            i = i + 1;
            assert(self.latencies_ns@ =~= old(self).latencies_ns@ + other.latencies_ns@.take(
                i as int,
            ));
        }
        assert(other.latencies_ns@.take(other.latencies_ns@.len() as int)
            =~= other.latencies_ns@);
        self.recall_sum = self.recall_sum.plus(other.recall_sum);
    }

    /// The measurements of all queries.
    pub fn finish(self, queries: usize, elapsed: Duration) -> (r: QueryStats)
        ensures
            r.queries == queries,
            r.elapsed == elapsed,
            r.latencies_ns == self.latencies_ns,
            r.mean_recall == Double::quotient(self.recall_sum, Double::of_nat(queries as nat)),
    {
        QueryStats {
            queries,
            elapsed,
            latencies_ns: self.latencies_ns,
            mean_recall: self.recall_sum.over(Double::from_u64(queries as u64)),
        }
    }
}

/// The whole number at or above a number that is not negative.
pub open spec fn ceiling(x: Double) -> nat {
    if Double::of_nat(x.truncated()).lt_spec(x) && x.truncated() < u64::MAX {
        x.truncated() + 1
    } else {
        x.truncated()
    }
}

fn ceil(x: Double) -> (r: u64)
    ensures
        r == ceiling(x),
{
    let t: u64 = x.to_u64();
    if Double::from_u64(t).lt(x) && t < u64::MAX {
        t + 1
    } else {
        t
    }
}

/// The place of a percentile among so many sorted values, from one on: the
/// nearest rank.
pub open spec fn rank(len: nat, q: Double) -> nat {
    let r = ceiling(
        Double::product(Double::quotient(q, Double::of_nat(100)), Double::of_nat(len)),
    );
    if r < 1 {
        1
    } else if r > len {
        len
    } else {
        r
    }
}

/// The ceiling of a number is the least whole number that is not below it.
pub proof fn a_ceiling_is_the_least_above(x: Double)
    requires
        x.finite() && !x.is_negative_spec(),
        x.numer() <= 0x100_0000_0000 * x.denom(),
    ensures
        x.numer() <= ceiling(x) * x.denom(),
        ceiling(x) > 0 ==> (ceiling(x) - 1) * x.denom() < x.numer(),
{
    let n = x.numer();
    let d = x.denom();
    crate::rounding::lemma_round_trip(x);
    let t = n / d;
    vstd::arithmetic::div_mod::lemma_fundamental_div_mod(n as int, d as int);
    assert(t <= 0x100_0000_0000) by (nonlinear_arith)
        requires
            n <= 0x100_0000_0000 * d,
            n == d * t + n % d,
            n % d >= 0,
            d > 0,
    ;
    assert(x.truncated() == t);
    let whole = Double::of_nat(t);
    crate::rounding::an_integer_keeps_to_bounds(t, Double::zero());
    crate::rounding::lemma_round_trip(whole);
    crate::rounding::numbers_order_as_their_values(whole, x);
    let w = whole.denom();
    if n % d == 0 {
        assert(whole.numer() * d == n * w) by (nonlinear_arith)
            requires
                whole.numer() == t * w,
                n == d * t,
        ;
        assert(t * d == n) by (nonlinear_arith)
            requires
                n == d * t,
        ;
        assert((t - 1) * d < n) by (nonlinear_arith)
            requires
                n == d * t,
                d > 0,
        ;
    } else {
        assert(whole.numer() * d < n * w) by (nonlinear_arith)
            requires
                whole.numer() == t * w,
                n > d * t,
                w > 0,
        ;
        let rest = n % d;
        assert(n <= (t + 1) * d) by (nonlinear_arith)
            requires
                n == d * t + rest,
                rest < d,
        ;
        assert(t * d < n) by (nonlinear_arith)
            requires
                n > d * t,
        ;
    }
}

/// Whether place `k`, from one on, among so many values is a nearest rank of
/// `n / d` percent: at least that part of the values stand at or before it, and
/// no more than that part before it.
pub open spec fn nearest_rank(len: nat, n: nat, d: nat, k: nat) -> bool {
    &&& 1 <= k <= len
    &&& n * len <= 100 * d * k
    &&& 100 * d * (k - 1) <= n * len
}

/// Cubes of neighbours of `2^53` are close together.
proof fn lemma_cubes(m: int)
    requires
        m == 0x20_0000_0000_0000,
    ensures
        0 < (m - 1) * (m - 1) * (m - 1) < m * m * m < (m + 1) * (m + 1) * (m + 1),
        (m * m * m - (m - 1) * (m - 1) * (m - 1)) * 0x1000_0000_0000 < (m - 1) * (m - 1) * (m - 1),
        ((m + 1) * (m + 1) * (m + 1) - m * m * m) * 0x1000_0000_0000 < m * m * m,
{
    let s = m * m;
    let lo = (m - 1) * (m - 1) * (m - 1);
    let mid = m * m * m;
    let hi = (m + 1) * (m + 1) * (m + 1);
    assert(s > 0) by (nonlinear_arith)
        requires
            s == m * m,
            m > 0,
    ;
    assert(mid == s * m);
    assert(lo == mid - 3 * s + 3 * m - 1) by (nonlinear_arith)
        requires
            lo == (m - 1) * (m - 1) * (m - 1),
            mid == m * m * m,
            s == m * m,
    ;
    assert(hi == mid + 3 * s + 3 * m + 1) by (nonlinear_arith)
        requires
            hi == (m + 1) * (m + 1) * (m + 1),
            mid == m * m * m,
            s == m * m,
    ;
    assert(s == m * 0x20_0000_0000_0000);
    assert(mid == s * 0x20_0000_0000_0000);
}

/// The errors of three roundings in a row do not move a ratio of two integers
/// to another integer.
proof fn lemma_place(part: nat, whole: nat, f: nat, g: nat, k: nat)
    requires
        g > 0,
        part <= 0x1_0000_0000 * whole,
        1 <= whole <= 1_000,
        ({
            let m = crate::double::TWO53 as int;
            &&& ((m - 1) * (m - 1) * (m - 1)) * (part * g) <= (m * m * m) * (f * whole)
            &&& (m * m * m) * (f * whole) <= ((m + 1) * (m + 1) * (m + 1)) * (part * g)
        }),
        f <= k * g,
        k > 0 ==> (k - 1) * g < f,
    ensures
        part <= whole * k,
        k > 0 ==> whole * (k - 1) <= part,
{
    let m = crate::double::TWO53 as int;
    let lo = (m - 1) * (m - 1) * (m - 1);
    let mid = m * m * m;
    let hi = (m + 1) * (m + 1) * (m + 1);
    lemma_cubes(m);
    assert(part <= 0x1_0000_0000 * 1_000) by (nonlinear_arith)
        requires
            part <= 0x1_0000_0000 * whole,
            whole <= 1_000,
    ;
    let z = whole * k;
    assert(f * whole <= z * g) by (nonlinear_arith)
        requires
            f <= k * g,
            z == whole * k,
    ;
    assert(lo * part <= mid * z) by (nonlinear_arith)
        requires
            lo * (part * g) <= mid * (f * whole),
            f * whole <= z * g,
            g > 0,
            mid > 0,
    ;
    if part > z {
        assert(lo * (z + 1) <= lo * part) by (nonlinear_arith)
            requires
                z + 1 <= part,
                lo > 0,
        ;
        assert(lo * (z + 1) == lo * z + lo) by (nonlinear_arith);
        assert((mid - lo) * z == mid * z - lo * z) by (nonlinear_arith);
        assert((mid - lo) * z <= (mid - lo) * 0x1000_0000_0000) by (nonlinear_arith)
            requires
                z < 0x1000_0000_0000,
                mid - lo > 0,
        ;
    }
    if k > 0 {
        let y = whole * (k - 1);
        assert(y * g <= f * whole) by (nonlinear_arith)
            requires
                (k - 1) * g < f,
                y == whole * (k - 1),
        ;
        assert(mid * y <= hi * part) by (nonlinear_arith)
            requires
                mid * (f * whole) <= hi * (part * g),
                y * g <= f * whole,
                g > 0,
                mid > 0,
        ;
        if y > part {
            assert(mid * (part + 1) <= mid * y) by (nonlinear_arith)
                requires
                    part + 1 <= y,
                    mid > 0,
            ;
            assert(mid * (part + 1) == mid * part + mid) by (nonlinear_arith);
            assert((hi - mid) * part == hi * part - mid * part) by (nonlinear_arith);
            assert((hi - mid) * part <= (hi - mid) * 0x1000_0000_0000) by (nonlinear_arith)
                requires
                    part < 0x1000_0000_0000,
                    hi - mid > 0,
            ;
        }
    }
}

/// One ratio is at least a part of a second, and that at least a part of a
/// third.
proof fn lemma_ratios_chain(
    l1: int,
    m1: int,
    l2: int,
    m2: int,
    n1: int,
    d1: int,
    n2: int,
    d2: int,
    n3: int,
    d3: int,
)
    requires
        l2 >= 0,
        m1 >= 0,
        d1 >= 0,
        d2 > 0,
        d3 >= 0,
        l1 * (n1 * d2) <= m1 * (n2 * d1),
        l2 * (n2 * d3) <= m2 * (n3 * d2),
    ensures
        (l1 * l2) * (n1 * d3) <= (m1 * m2) * (n3 * d1),
{
    let s = l2 * d3;
    let t = m1 * d1;
    assert(s >= 0 && t >= 0) by (nonlinear_arith)
        requires
            s == l2 * d3,
            t == m1 * d1,
            l2 >= 0,
            d3 >= 0,
            m1 >= 0,
            d1 >= 0,
    ;
    assert((l1 * (n1 * d2)) * s <= (m1 * (n2 * d1)) * s) by (nonlinear_arith)
        requires
            l1 * (n1 * d2) <= m1 * (n2 * d1),
            s >= 0,
    ;
    assert((l2 * (n2 * d3)) * t <= (m2 * (n3 * d2)) * t) by (nonlinear_arith)
        requires
            l2 * (n2 * d3) <= m2 * (n3 * d2),
            t >= 0,
    ;
    assert((m1 * (n2 * d1)) * (l2 * d3) == (l2 * (n2 * d3)) * (m1 * d1)) by (nonlinear_arith);
    let left = (l1 * l2) * (n1 * d3);
    let right = (m1 * m2) * (n3 * d1);
    assert((l1 * (n1 * d2)) * (l2 * d3) == ((l1 * l2) * (n1 * d3)) * d2) by (nonlinear_arith);
    assert((m2 * (n3 * d2)) * (m1 * d1) == ((m1 * m2) * (n3 * d1)) * d2) by (nonlinear_arith);
    assert(left <= right) by (nonlinear_arith)
        requires
            left * d2 <= right * d2,
            d2 > 0,
    ;
}

/// Three errors of one part in `2^53` each, put together.
proof fn lemma_errors_compose(
    l: int,
    m: int,
    n: int,
    d: int,
    len: int,
    a: int,
    b: int,
    c: int,
    e: int,
    f: int,
    g: int,
)
    requires
        l > 0,
        m > 0,
        n >= 0,
        d >= 0,
        len >= 0,
        a > 0,
        b > 0,
        c >= 0,
        e > 0,
        f >= 0,
        g > 0,
    ensures
        l * (n * b) <= m * (a * d) && l * (a * e) <= m * (c * (b * 100)) && l * ((c * len) * g) <= m
            * (f * e) ==> (l * l * l) * ((n * len) * g) <= (m * m * m) * (f * (d * 100)),
        m * (a * d) <= l * (n * b) && m * (c * (b * 100)) <= l * (a * e) && m * (f * e) <= l * ((c
            * len) * g) ==> (m * m * m) * (f * (d * 100)) <= (l * l * l) * ((n * len) * g),
{
    let ln = l * (n * b);
    let ma = m * (a * d);
    assert(l * (n * (b * 100)) == ln * 100) by (nonlinear_arith)
        requires
            ln == l * (n * b),
    ;
    assert(m * (a * (d * 100)) == ma * 100) by (nonlinear_arith)
        requires
            ma == m * (a * d),
    ;
    let x = (l * l) * (n * e);
    let y = (m * m) * (c * (d * 100));
    assert((l * l) * ((n * len) * e) == x * len) by (nonlinear_arith)
        requires
            x == (l * l) * (n * e),
    ;
    assert((m * m) * ((c * len) * (d * 100)) == y * len) by (nonlinear_arith)
        requires
            y == (m * m) * (c * (d * 100)),
    ;
    if ln <= ma && l * (a * e) <= m * (c * (b * 100)) && l * ((c * len) * g) <= m * (f * e) {
        lemma_ratios_chain(l, m, l, m, n, d * 100, a, b * 100, c, e);
        assert(x * len <= y * len) by (nonlinear_arith)
            requires
                x <= y,
                len >= 0,
        ;
        assert(l * l >= 0 && m * m >= 0) by (nonlinear_arith);
        lemma_ratios_chain(l * l, m * m, l, m, n * len, d * 100, c * len, e, f, g);
    }
    if ma <= ln && m * (c * (b * 100)) <= l * (a * e) && m * (f * e) <= l * ((c * len) * g) {
        // The same chain from the other end.
        assert(c * (b * 100) == (b * 100) * c && a * e == e * a) by (nonlinear_arith);
        assert(a * (d * 100) == (d * 100) * a && n * (b * 100) == (b * 100) * n)
            by (nonlinear_arith);
        lemma_ratios_chain(m, l, m, l, d * 100, n, b * 100, a, e, c);
        assert((m * m) * ((d * 100) * c) == y) by (nonlinear_arith)
            requires
                y == (m * m) * (c * (d * 100)),
        ;
        assert((l * l) * (e * n) == x) by (nonlinear_arith)
            requires
                x == (l * l) * (n * e),
        ;
        assert(y * len <= x * len) by (nonlinear_arith)
            requires
                y <= x,
                len >= 0,
        ;
        assert((c * len) * (d * 100) == (d * 100) * (c * len) && (n * len) * e == e * (n * len))
            by (nonlinear_arith);
        assert(f * e == e * f && (c * len) * g == g * (c * len)) by (nonlinear_arith);
        assert(l * l >= 0 && m * m >= 0) by (nonlinear_arith);
        assert(c * len >= 0 && n * len >= 0) by (nonlinear_arith)
            requires
                c >= 0,
                n >= 0,
                len >= 0,
        ;
        lemma_reverse_chain(l, m, n * len, d * 100, c * len, e, f, g);
    }
}

proof fn lemma_reverse_chain(l: int, m: int, n1: int, d1: int, n2: int, d2: int, n3: int, d3: int)
    requires
        l >= 0,
        m >= 0,
        n1 >= 0,
        d1 >= 0,
        d2 > 0,
        d3 >= 0,
        (m * m) * (n2 * d1) <= (l * l) * (n1 * d2),
        m * (n3 * d2) <= l * (n2 * d3),
    ensures
        (m * m * m) * (n3 * d1) <= (l * l * l) * (n1 * d3),
{
    let p = m * m;
    let q = l * l;
    assert(p >= 0 && q >= 0) by (nonlinear_arith)
        requires
            p == m * m,
            q == l * l,
    ;
    let s = p * d1;
    let t = l * d3;
    assert(s >= 0 && t >= 0) by (nonlinear_arith)
        requires
            s == p * d1,
            t == l * d3,
            p >= 0,
            d1 >= 0,
            l >= 0,
            d3 >= 0,
    ;
    assert((m * (n3 * d2)) * s <= (l * (n2 * d3)) * s) by (nonlinear_arith)
        requires
            m * (n3 * d2) <= l * (n2 * d3),
            s >= 0,
    ;
    assert((p * (n2 * d1)) * t <= (q * (n1 * d2)) * t) by (nonlinear_arith)
        requires
            p * (n2 * d1) <= q * (n1 * d2),
            t >= 0,
    ;
    assert((l * (n2 * d3)) * (p * d1) == (p * (n2 * d1)) * (l * d3)) by (nonlinear_arith);
    let left = (p * m) * (n3 * d1);
    let right = (q * l) * (n1 * d3);
    assert((m * (n3 * d2)) * (p * d1) == ((p * m) * (n3 * d1)) * d2) by (nonlinear_arith);
    assert((q * (n1 * d2)) * (l * d3) == ((q * l) * (n1 * d3)) * d2) by (nonlinear_arith);
    assert(left <= right) by (nonlinear_arith)
        requires
            left * d2 <= right * d2,
            d2 > 0,
    ;
}

/// The number that a rank is the ceiling of lies so close to the exact part of
/// the values that its ceiling is not moved.
proof fn lemma_ceiling_place(len: nat, n: nat, d: nat)
    requires
        1 <= len <= 0x1_0000_0000,
        1 <= d <= 10,
        1 <= n <= 100 * d,
    ensures
        ({
            let k = ceiling(
                Double::product(
                    Double::quotient(Double::fraction(n, d), Double::of_nat(100)),
                    Double::of_nat(len),
                ),
            );
            n * len <= (100 * d) * k && (k > 0 ==> (100 * d) * (k - 1) <= n * len)
        }),
{
    let m = crate::double::TWO53 as int;
    let dn = Double::of_nat(n);
    let dd = Double::of_nat(d);
    let hundred = Double::of_nat(100);
    let dl = Double::of_nat(len);
    lemma_whole(n);
    lemma_whole(d);
    lemma_whole(100);
    lemma_whole(len);
    let q = Double::fraction(n, d);
    let u = (dn.denom() * dd.denom()) as int;
    assert(u > 0) by (nonlinear_arith)
        requires
            u == dn.denom() * dd.denom(),
            dn.denom() > 0,
            dd.denom() > 0,
    ;
    assert(dn.numer() * dd.denom() == n * u && dn.denom() * dd.numer() == d * u)
        by (nonlinear_arith)
        requires
            dn.numer() == n * dn.denom(),
            dd.numer() == d * dd.denom(),
            u == dn.denom() * dd.denom(),
    ;
    lemma_ordinary_ratio(n as int, d as int, u);
    crate::rounding::lemma_ordinary_quotient(dn, dd);
    crate::rounding::lemma_round_trip(q);
    let a = q.numer() as int;
    let b = q.denom() as int;
    lemma_drop_factor(m - 1, m, n as int, b, a, d as int, u);
    lemma_drop_factor(m + 1, m, n as int, b, a, d as int, u);
    lemma_rough(m, n as int, d as int, a, b);
    assert(a <= 200 * b) by (nonlinear_arith)
        requires
            a * d <= 2 * (n * b),
            n <= 100 * d,
            d >= 1,
            b > 0,
    ;
    assert(b <= 20 * a) by (nonlinear_arith)
        requires
            n * b <= 2 * (a * d),
            n >= 1,
            d <= 10,
            a >= 0,
            b > 0,
    ;
    let p = Double::quotient(q, hundred);
    let v = hundred.denom() as int;
    assert(q.denom() * hundred.numer() == (b * 100) * v) by (nonlinear_arith)
        requires
            hundred.numer() == 100 * hundred.denom(),
            v == hundred.denom(),
            b == q.denom(),
    ;
    lemma_ordinary_ratio(a, b * 100, v);
    crate::rounding::lemma_ordinary_quotient(q, hundred);
    crate::rounding::lemma_round_trip(p);
    let c = p.numer() as int;
    let e = p.denom() as int;
    lemma_drop_factor(m - 1, m, a, e, c, b * 100, v);
    lemma_drop_factor(m + 1, m, a, e, c, b * 100, v);
    lemma_rough(m, a, b * 100, c, e);
    assert(c <= 4 * e) by (nonlinear_arith)
        requires
            c * (b * 100) <= 2 * (a * e),
            a <= 200 * b,
            b > 0,
            e > 0,
    ;
    assert(e <= 4_000 * c) by (nonlinear_arith)
        requires
            a * e <= 2 * (c * (b * 100)),
            b <= 20 * a,
            a > 0,
            e > 0,
            c >= 0,
    ;
    let x = Double::product(p, dl);
    let w = dl.denom() as int;
    assert(p.numer() * dl.numer() == (c * len) * w) by (nonlinear_arith)
        requires
            dl.numer() == len * dl.denom(),
            w == dl.denom(),
            c == p.numer(),
    ;
    assert(c * len >= c && c * len <= c * 0x1_0000_0000) by (nonlinear_arith)
        requires
            1 <= len <= 0x1_0000_0000,
            c >= 0,
    ;
    lemma_ordinary_ratio(c * len, e, w);
    crate::rounding::lemma_ordinary_product(p, dl);
    crate::rounding::lemma_round_trip(x);
    let f = x.numer() as int;
    let g = x.denom() as int;
    lemma_drop_factor(m - 1, m, c * len, g, f, e, w);
    lemma_drop_factor(m + 1, m, c * len, g, f, e, w);
    lemma_rough(m, c * len, e, f, g);
    let cl = c * len;
    assert(f <= 0x8_0000_0000 * g) by (nonlinear_arith)
        requires
            f * e <= 2 * (cl * g),
            cl <= 0x4_0000_0000 * e,
            e > 0,
            g > 0,
    ;
    lemma_errors_compose(m - 1, m, n as int, d as int, len as int, a, b, c, e, f, g);
    lemma_errors_compose(m + 1, m, n as int, d as int, len as int, a, b, c, e, f, g);
    a_ceiling_is_the_least_above(x);
    let k = ceiling(x);
    assert(n * len <= 0x1_0000_0000 * (100 * d)) by (nonlinear_arith)
        requires
            n <= 100 * d,
            len <= 0x1_0000_0000,
    ;
    lemma_place(n * len, 100 * d, x.numer(), x.denom(), k);
}

/// Cutting a place to those there are keeps it a nearest rank.
proof fn lemma_cut_place(len: nat, n: nat, d: nat, k: nat)
    requires
        1 <= len,
        1 <= d,
        n <= 100 * d,
        n * len <= (100 * d) * k,
        k > 0 ==> (100 * d) * (k - 1) <= n * len,
    ensures
        nearest_rank(
            len,
            n,
            d,
            if k < 1 {
                1
            } else if k > len {
                len
            } else {
                k
            },
        ),
{
    assert(n * len <= (100 * d) * len) by (nonlinear_arith)
        requires
            n <= 100 * d,
    ;
    assert(n * len >= 0) by (nonlinear_arith);
    if k > len {
        assert((100 * d) * (len - 1) <= (100 * d) * (k - 1)) by (nonlinear_arith)
            requires
                len <= k,
                d >= 1,
        ;
    } else if k < 1 {
        assert((100 * d) * k <= (100 * d) * 1) by (nonlinear_arith)
            requires
                k <= 1,
                d >= 1,
        ;
        assert((100 * d) * 0 == 0) by (nonlinear_arith);
    }
}

/// The place of `n / d` percent among any number of values, up to `2^32`, is a
/// nearest rank: at least that part of the values stand at or before it, and no
/// more than that part before it. The percentage is a whole number or a decimal
/// fraction.
pub proof fn ranks_are_nearest(len: nat, n: nat, d: nat)
    requires
        1 <= len <= 0x1_0000_0000,
        1 <= d <= 10,
        1 <= n <= 100 * d,
    ensures
        nearest_rank(len, n, d, rank(len, Double::fraction(n, d))),
{
    let q = Double::fraction(n, d);
    let k = ceiling(
        Double::product(Double::quotient(q, Double::of_nat(100)), Double::of_nat(len)),
    );
    lemma_ceiling_place(len, n, d);
    lemma_cut_place(len, n, d, k);
    assert(rank(len, q) == if k < 1 {
        1
    } else if k > len {
        len
    } else {
        k
    });
}

proof fn lemma_whole(n: nat)
    requires
        0 < n <= 0x1_0000_0000,
    ensures
        ({
            let x = Double::of_nat(n);
            &&& x.finite() && !x.is_negative_spec() && x.magnitude() > 0
            &&& x.denom() > 0
            &&& x.numer() == n * x.denom()
        }),
{
    let x = Double::of_nat(n);
    crate::rounding::an_integer_keeps_to_bounds(n, Double::zero());
    crate::rounding::lemma_round_trip(x);
    assert(n * x.denom() > 0) by (nonlinear_arith)
        requires
            n > 0,
            x.denom() > 0,
    ;
}

/// A ratio between one part in `2^22` and `2^34` is ordinary, with a factor on
/// both sides or without.
proof fn lemma_ordinary_ratio(n: int, d: int, u: int)
    requires
        n >= 0,
        d >= 0,
        u > 0,
        n * 0x40_0000 >= d,
        n <= 0x4_0000_0000 * d,
    ensures
        crate::rounding::ordinary((n * u) as nat, (d * u) as nat),
        n * u >= 0,
        d * u >= 0,
{
    assert((n * u) * 0x40_0000 >= d * u && n * u <= 0x4_0000_0000 * (d * u)) by (nonlinear_arith)
        requires
            n * 0x40_0000 >= d,
            n <= 0x4_0000_0000 * d,
            u > 0,
    ;
    assert(n * u >= 0 && d * u >= 0) by (nonlinear_arith)
        requires
            n >= 0,
            d >= 0,
            u > 0,
    ;
}

proof fn lemma_drop_factor(l: int, m: int, n: int, b: int, a: int, d: int, u: int)
    requires
        u > 0,
    ensures
        l * ((n * u) * b) <= m * (a * (d * u)) <==> l * (n * b) <= m * (a * d),
        m * (a * (d * u)) <= l * ((n * u) * b) <==> m * (a * d) <= l * (n * b),
{
    let x = l * (n * b);
    let y = m * (a * d);
    assert(l * ((n * u) * b) == x * u) by (nonlinear_arith)
        requires
            x == l * (n * b),
    ;
    assert(m * (a * (d * u)) == y * u) by (nonlinear_arith)
        requires
            y == m * (a * d),
    ;
    assert(x <= y ==> x * u <= y * u) by (nonlinear_arith)
        requires
            u > 0,
    ;
    assert(x > y ==> x * u > y * u) by (nonlinear_arith)
        requires
            u > 0,
    ;
    assert(y > x ==> y * u > x * u) by (nonlinear_arith)
        requires
            u > 0,
    ;
}

/// A small error keeps a value within a factor of two.
proof fn lemma_rough(m: int, n: int, d: int, a: int, b: int)
    requires
        m == 0x20_0000_0000_0000,
        n >= 0,
        d >= 0,
        a >= 0,
        b > 0,
        (m - 1) * (n * b) <= m * (a * d),
        m * (a * d) <= (m + 1) * (n * b),
    ensures
        n * b <= 2 * (a * d),
        a * d <= 2 * (n * b),
{
    let x = n * b;
    let y = a * d;
    assert(x >= 0 && y >= 0) by (nonlinear_arith)
        requires
            x == n * b,
            y == a * d,
            n >= 0,
            b > 0,
            a >= 0,
            d >= 0,
    ;
}

/// The place of a whole percentage among any number of values, up to `2^32`:
/// at least that part of the values stand at or before it, and no more than
/// that part before it.
pub proof fn whole_ranks_are_nearest(len: nat, q: nat)
    requires
        1 <= len <= 0x1_0000_0000,
        1 <= q <= 100,
    ensures
        1 <= rank(len, Double::of_nat(q)) <= len,
        q * len <= 100 * rank(len, Double::of_nat(q)),
        100 * (rank(len, Double::of_nat(q)) - 1) <= q * len,
{
    lemma_over_one(q);
    ranks_are_nearest(len, q, 1);
}

/// A whole number over one is the number.
proof fn lemma_over_one(n: nat)
    requires
        0 < n <= 0x1_0000_0000,
    ensures
        Double::fraction(n, 1) == Double::of_nat(n),
{
    let x = Double::of_nat(n);
    let one = Double::of_nat(1);
    lemma_whole(n);
    lemma_whole(1);
    assert((x.numer() * one.denom()) * x.denom() == x.numer() * (x.denom() * one.numer()))
        by (nonlinear_arith)
        requires
            one.numer() == 1 * one.denom(),
    ;
    crate::rounding::a_quotient_keeps_to_bounds(x, one, x);
}

/// How many values are at most `x`.
pub open spec fn at_most(v: Seq<u64>, x: u64) -> nat
    decreases v.len(),
{
    if v.len() == 0 {
        0
    } else {
        at_most(v.drop_last(), x) + if v.last() <= x {
            1nat
        } else {
            0
        }
    }
}

/// How many values are below `x`.
pub open spec fn below(v: Seq<u64>, x: u64) -> nat
    decreases v.len(),
{
    if v.len() == 0 {
        0
    } else {
        below(v.drop_last(), x) + if v.last() < x {
            1nat
        } else {
            0
        }
    }
}

/// Whether `x` is an `n / d` percentile: at least that part of the values are at
/// most `x`, and no more than that part are below it.
pub open spec fn is_percentile(v: Seq<u64>, n: nat, d: nat, x: u64) -> bool {
    &&& v.contains(x)
    &&& n * v.len() <= 100 * d * at_most(v, x)
    &&& 100 * d * below(v, x) <= n * v.len()
}

proof fn lemma_counts(v: Seq<u64>, k: int, x: u64)
    requires
        0 <= k <= v.len(),
        forall|i: int| 0 <= i < k ==> #[trigger] v[i] <= x,
        forall|i: int| k <= i < v.len() ==> #[trigger] v[i] >= x,
        k > 0 ==> v[k - 1] == x,
    ensures
        at_most(v, x) >= k,
        below(v, x) <= if k > 0 {
            k - 1
        } else {
            0
        },
    decreases v.len(),
{
    if v.len() > 0 {
        let before = v.drop_last();
        if k < v.len() {
            lemma_counts(before, k, x);
        } else {
            lemma_counts_all(before, x);
        }
    }
}

proof fn lemma_counts_all(v: Seq<u64>, x: u64)
    requires
        forall|i: int| 0 <= i < v.len() ==> #[trigger] v[i] <= x,
    ensures
        at_most(v, x) == v.len(),
        below(v, x) <= v.len(),
    decreases v.len(),
{
    if v.len() > 0 {
        lemma_counts_all(v.drop_last(), x);
    }
}

/// A percentile is one of the values: of any number of them, up to `2^32`, at
/// least the part asked for are at most the result, and no more than that part
/// are below it.
pub proof fn a_percentile_covers_its_part(sorted: Seq<u64>, n: nat, d: nat)
    requires
        ascending(sorted),
        1 <= sorted.len() <= 0x1_0000_0000,
        1 <= d <= 10,
        1 <= n <= 100 * d,
    ensures
        is_percentile(
            sorted,
            n,
            d,
            sorted[rank(sorted.len(), Double::fraction(n, d)) - 1],
        ),
{
    let len = sorted.len();
    ranks_are_nearest(len, n, d);
    let k = rank(len, Double::fraction(n, d));
    let x = sorted[k - 1];
    lemma_counts(sorted, k as int, x);
    let some = at_most(sorted, x);
    let less = below(sorted, x);
    assert(100 * d * k <= 100 * d * some) by (nonlinear_arith)
        requires
            k <= some,
    ;
    assert(100 * d * less <= 100 * d * (k - 1)) by (nonlinear_arith)
        requires
            less <= k - 1,
    ;
}

/// Nearest-rank percentile of sorted values.
pub fn percentile_ns(sorted: &Vec<u64>, q: Double) -> (r: u64)
    ensures
        r == if sorted@.len() == 0 {
            0
        } else {
            sorted@[rank(sorted@.len(), q) - 1]
        },
        forall|n: nat, d: nat|
            q == #[trigger] Double::fraction(n, d) && 1 <= d <= 10 && 1 <= n <= 100 * d && ascending(
                sorted@,
            ) && 1 <= sorted@.len() <= 0x1_0000_0000 ==> is_percentile(sorted@, n, d, r),
        forall|n: nat|
            q == #[trigger] Double::of_nat(n) && 1 <= n <= 100 && ascending(sorted@) && 1
                <= sorted@.len() <= 0x1_0000_0000 ==> is_percentile(sorted@, n, 1, r),
{
    if sorted.len() == 0 {
        return 0;
    }
    proof {
        assert forall|n: nat, d: nat|
            q == #[trigger] Double::fraction(n, d) && 1 <= d <= 10 && 1 <= n <= 100 * d && ascending(
                sorted@,
            ) && 1 <= sorted@.len() <= 0x1_0000_0000 implies is_percentile(
            sorted@,
            n,
            d,
            sorted@[rank(sorted@.len(), q) - 1],
        ) by {
            a_percentile_covers_its_part(sorted@, n, d);
        }
        assert forall|n: nat|
            q == #[trigger] Double::of_nat(n) && 1 <= n <= 100 && ascending(sorted@) && 1
                <= sorted@.len() <= 0x1_0000_0000 implies is_percentile(
            sorted@,
            n,
            1,
            sorted@[rank(sorted@.len(), q) - 1],
        ) by {
            lemma_over_one(n);
            a_percentile_covers_its_part(sorted@, n, 1);
        }
    }
    let n: u64 = sorted.len() as u64;
    let r: u64 = ceil(q.over(Double::from_u64(100)).times(Double::from_u64(n)));
    let place: u64 = if r < 1 {
        1
    } else if r > n {
        n
    } else {
        r
    };
    sorted[(place - 1) as usize]
}

/// Whether values stand in ascending order.
pub open spec fn ascending(v: Seq<u64>) -> bool {
    forall|i: int, j: int| 0 <= i <= j < v.len() ==> v[i] <= v[j]
}

/// `slice::sort_unstable` puts the values in ascending order and keeps each as
/// often as it occurs.
#[verifier::external_body]
fn sort_values(v: &mut Vec<u64>)
    ensures
        ascending(final(v)@),
        final(v)@.to_multiset() == old(v)@.to_multiset(),
        final(v)@.len() == old(v)@.len(),
{
    v.sort_unstable();
}

/// The sum of values.
pub open spec fn total(v: Seq<u64>) -> nat
    decreases v.len(),
{
    if v.len() == 0 {
        0
    } else {
        total(v.drop_last()) + v.last() as nat
    }
}

proof fn lemma_total_grows(v: Seq<u64>, k: int)
    requires
        0 <= k <= v.len(),
    ensures
        total(v.take(k)) <= total(v),
    decreases v.len() - k,
{
    if k < v.len() {
        lemma_total_grows(v, k + 1);
        assert(v.take(k + 1).drop_last() =~= v.take(k));
    } else {
        assert(v.take(k) =~= v);
    }
}

/// The mean of values, rounded down; zero of none.
pub fn mean_ns(v: &Vec<u64>) -> (r: u64)
    requires
        total(v@) <= u64::MAX,
    ensures
        r == if v@.len() == 0 {
            0
        } else {
            total(v@) as int / v@.len() as int
        },
{
    if v.len() == 0 {
        return 0;
    }
    let mut sum: u64 = 0;
    let mut i: usize = 0;
    while i < v.len()
        invariant
            i <= v@.len(),
            total(v@) <= u64::MAX,
            sum == total(v@.take(i as int)),
        decreases v@.len() - i,
    {
        proof {
            lemma_total_grows(v@, i + 1);
            assert(v@.take(i + 1).drop_last() =~= v@.take(i as int));
        }
        sum = sum + v[i];
        i = i + 1;
    }
    assert(v@.take(v@.len() as int) =~= v@);
    sum / (v.len() as u64)
}

/// Whether the values can be summed.
pub fn sum_fits(v: &Vec<u64>) -> (r: bool)
    ensures
        r == (total(v@) <= u64::MAX),
{
    let mut sum: u64 = 0;
    let mut i: usize = 0;
    while i < v.len()
        invariant
            i <= v@.len(),
            sum == total(v@.take(i as int)),
        decreases v@.len() - i,
    {
        proof {
            lemma_total_grows(v@, i + 1);
            assert(v@.take(i + 1).drop_last() =~= v@.take(i as int));
        }
        match sum.checked_add(v[i]) {
            Some(s) => {
                sum = s;
            },
            None => return false,
        }
        i = i + 1;
    }
    assert(v@.take(v@.len() as int) =~= v@);
    true
}

/// The latencies of a run in milliseconds, and its rates.
#[derive(Clone, Copy, Debug, PartialEq, Eq, Structural)]
pub struct Summary {
    pub p50_ms: Double,
    pub p90_ms: Double,
    pub p99_ms: Double,
    pub p999_ms: Double,
    pub mean_ms: Double,
    pub max_ms: Double,
    pub qps: Double,
    pub load_rate: Double,
}

/// Nanoseconds in milliseconds.
pub open spec fn millis(ns: u64) -> Double {
    Double::quotient(Double::of_nat(ns as nat), Double::of_nat(1_000_000))
}

fn ms(ns: u64) -> (r: Double)
    ensures
        r == millis(ns),
{
    Double::from_u64(ns).over(Double::from_u64(1_000_000))
}

/// A percentile of sorted values in milliseconds.
pub open spec fn percentile_ms(sorted: Seq<u64>, q: Double) -> Double {
    millis(
        if sorted.len() == 0 {
            0
        } else {
            sorted[rank(sorted.len(), q) - 1]
        },
    )
}

proof fn lemma_total_of_sorted(a: Seq<u64>, b: Seq<u64>)
    requires
        a.to_multiset() == b.to_multiset(),
    ensures
        total(a) == total(b),
    decreases a.len(),
{
    broadcast use vstd::seq_lib::group_to_multiset_ensures;

    assert(a.to_multiset().len() == a.len() && b.to_multiset().len() == b.len());
    if a.len() > 0 {
        let x = a.last();
        let i = a.len() - 1;
        assert(a.contains(x));
        assert(a.to_multiset().count(x) > 0);
        assert(b.to_multiset().count(x) > 0);
        assert(b.contains(x));
        let j = choose|j: int| 0 <= j < b.len() && b[j] == x;
        assert(a.remove(i) =~= a.drop_last());
        assert(a.remove(i).to_multiset() =~= a.to_multiset().remove(x));
        assert(b.remove(j).to_multiset() =~= b.to_multiset().remove(x));
        lemma_total_of_sorted(a.drop_last(), b.remove(j));
        lemma_total_remove(b, j);
    }
}

proof fn lemma_total_remove(v: Seq<u64>, j: int)
    requires
        0 <= j < v.len(),
    ensures
        total(v) == total(v.remove(j)) + v[j],
    decreases v.len(),
{
    if j == v.len() - 1 {
        assert(v.remove(j) =~= v.drop_last());
    } else {
        lemma_total_remove(v.drop_last(), j);
        assert(v.remove(j).drop_last() =~= v.drop_last().remove(j));
        assert(v.remove(j).last() == v.last());
        assert(v.drop_last()[j] == v[j]);
    }
}

/// Whether `ms` is an `n / d` percentile of sorted values, in milliseconds.
pub open spec fn shows_percentile(sorted: Seq<u64>, n: nat, d: nat, ms: Double) -> bool {
    exists|x: u64| #[trigger] is_percentile(sorted, n, d, x) && ms == millis(x)
}

/// What a run's report says of its latencies and rates.
pub fn summarize(report: &RunReport) -> (r: Summary)
    requires
        total(report.query.latencies_ns@) <= u64::MAX,
    ensures
        exists|sorted: Seq<u64>|
            {
                &&& #[trigger] ascending(sorted)
                &&& sorted.to_multiset() == report.query.latencies_ns@.to_multiset()
                &&& r.p50_ms == percentile_ms(sorted, Double::of_nat(50))
                &&& r.p90_ms == percentile_ms(sorted, Double::of_nat(90))
                &&& r.p99_ms == percentile_ms(sorted, Double::of_nat(99))
                &&& r.p999_ms == percentile_ms(sorted, Double::fraction(999, 10))
                &&& r.max_ms == millis(
                    if sorted.len() == 0 {
                        0
                    } else {
                        sorted.last()
                    },
                )
                &&& 1 <= sorted.len() <= 0x1_0000_0000 ==> {
                    &&& shows_percentile(sorted, 50, 1, r.p50_ms)
                    &&& shows_percentile(sorted, 90, 1, r.p90_ms)
                    &&& shows_percentile(sorted, 99, 1, r.p99_ms)
                    &&& shows_percentile(sorted, 999, 10, r.p999_ms)
                }
            },
        r.mean_ms == millis(
            (if report.query.latencies_ns@.len() == 0 {
                0
            } else {
                total(report.query.latencies_ns@) as int / report.query.latencies_ns@.len() as int
            }) as u64,
        ),
        r.qps == Double::quotient(
            Double::of_nat(report.query.queries as nat),
            report.query.elapsed.secs(),
        ),
        r.load_rate == Double::quotient(
            Double::of_nat(report.load.items as nat),
            report.load.elapsed.secs(),
        ),
{
    let mut sorted: Vec<u64> = Vec::new();
    let mut i: usize = 0;
    let ghost all = report.query.latencies_ns@;
    while i < report.query.latencies_ns.len()
        invariant
            i <= report.query.latencies_ns@.len(),
            sorted@ == report.query.latencies_ns@.take(i as int),
        decreases report.query.latencies_ns@.len() - i,
    {
        sorted.push(report.query.latencies_ns[i]);
        i = i + 1;
        assert(sorted@ =~= report.query.latencies_ns@.take(i as int));
    }
    assert(all.take(all.len() as int) =~= all);
    sort_values(&mut sorted);
    proof {
        lemma_total_of_sorted(sorted@, all);
        assert(ascending(sorted@));
    }
    let max: u64 = if sorted.len() == 0 {
        0
    } else {
        sorted[sorted.len() - 1]
    };
    let p50: u64 = percentile_ns(&sorted, Double::from_u64(50));
    let p90: u64 = percentile_ns(&sorted, Double::from_u64(90));
    let p99: u64 = percentile_ns(&sorted, Double::from_u64(99));
    let p999: u64 = percentile_ns(&sorted, Double::ratio(999, 10));
    proof {
        if 1 <= sorted@.len() <= 0x1_0000_0000 {
            assert(is_percentile(sorted@, 50, 1, p50));
            assert(is_percentile(sorted@, 90, 1, p90));
            assert(is_percentile(sorted@, 99, 1, p99));
            assert(is_percentile(sorted@, 999, 10, p999));
        }
    }
    Summary {
        p50_ms: ms(p50),
        p90_ms: ms(p90),
        p99_ms: ms(p99),
        p999_ms: ms(p999),
        mean_ms: ms(mean_ns(&sorted)),
        max_ms: ms(max),
        qps: Double::from_u64(report.query.queries as u64).over(report.query.elapsed.as_secs()),
        load_rate: Double::from_u64(report.load.items as u64).over(report.load.elapsed.as_secs()),
    }
}

/// The true neighbors that count are the first `k` and no others.
pub proof fn the_first_neighbors_count(truth: Seq<i32>, k: nat, id: i64)
    ensures
        true_ids(truth, k).contains(id) <==> exists|i: int|
            0 <= i < k && i < truth.len() && #[trigger] truth[i] == id,
{
    let s = Seq::new(
        if k <= truth.len() {
            k
        } else {
            truth.len()
        },
        |i: int| truth[i] as i64,
    );
    if s.contains(id) {
        let i = choose|i: int| 0 <= i < s.len() && s[i] == id;
        assert(truth[i] == id);
    }
    if exists|i: int| 0 <= i < k && i < truth.len() && #[trigger] truth[i] == id {
        let i = choose|i: int| 0 <= i < k && i < truth.len() && #[trigger] truth[i] == id;
        assert(s[i] == id);
    }
}

/// An id is a hit exactly when it was returned and is one of the true neighbors
/// that count; returning more ids loses no hit, and returning all of the true
/// ones hits each.
pub proof fn hits_are_returned_and_true(
    returned: Seq<i64>,
    more: Seq<i64>,
    truth: Seq<i32>,
    k: nat,
    id: i64,
)
    ensures
        hit_set(returned, truth, k).contains(id) <==> returned.contains(id) && true_ids(
            truth,
            k,
        ).contains(id),
        hit_set(returned, truth, k).contains(id) ==> hit_set(returned + more, truth, k).contains(id),
{
    if returned.contains(id) {
        let i = choose|i: int| 0 <= i < returned.len() && returned[i] == id;
        assert((returned + more)[i] == id);
    }
}

/// The sum of no values is zero, and each value adds itself.
pub proof fn sums_add_up(v: Seq<u64>, x: u64)
    ensures
        total(Seq::<u64>::empty()) == 0,
        total(v.push(x)) == total(v) + x,
{
    assert(v.push(x).drop_last() =~= v);
}

/// Milliseconds of nanoseconds grow with them, and whole ones are exact.
pub proof fn milliseconds_grow(a: u64, b: u64)
    requires
        a <= b < 0x20_0000_0000_0000,
    ensures
        millis(a).le_spec(millis(b)),
        a % 1_000_000 == 0 ==> millis(a) == Double::of_nat((a / 1_000_000) as nat),
{
    let zero = Double::zero();
    let x = Double::of_nat(a as nat);
    let y = Double::of_nat(b as nat);
    let k = Double::of_nat(1_000_000);
    let q = (a / 1_000_000) as nat;
    let w = Double::of_nat(q);
    crate::rounding::an_integer_keeps_to_bounds(a as nat, zero);
    crate::rounding::an_integer_keeps_to_bounds(b as nat, zero);
    crate::rounding::an_integer_keeps_to_bounds(1_000_000, zero);
    crate::rounding::an_integer_keeps_to_bounds(q, zero);
    crate::rounding::lemma_round_trip(k);
    crate::rounding::lemma_round_trip(w);
    crate::rounding::lemma_round_trip(x);
    assert(x.numer() * y.denom() <= y.numer() * x.denom()) by (nonlinear_arith)
        requires
            x.numer() == a * x.denom(),
            y.numer() == b * y.denom(),
            a <= b,
    ;
    crate::rounding::numbers_order_as_their_values(x, y);
    crate::rounding::a_quotient_is_monotone(x, y, k);
    if a % 1_000_000 == 0 {
        assert((x.numer() * k.denom()) * w.denom() == w.numer() * (x.denom() * k.numer()))
            by (nonlinear_arith)
            requires
                x.numer() == a * x.denom(),
                k.numer() == 1_000_000 * k.denom(),
                w.numer() == q * w.denom(),
                a == q * 1_000_000,
        ;
        crate::rounding::a_quotient_keeps_to_bounds(x, k, w);
        crate::rounding::lemma_on_grid(
            x.significand(),
            k.significand(),
            x.exponent() - k.exponent(),
        );
        assert(millis(a).key() == w.key());
    }
}

} // verus!
