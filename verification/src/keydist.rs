//! Steady-state key-id sampling.
//!
//! The keyspace's distribution selects how key ids are drawn during the
//! measured phase. Prefill and backfill are unaffected: prefill walks the
//! whole keyspace exactly once, and backfill re-sends a key that just missed.

use crate::config::{Distribution, Workload};
use crate::double::Double;
use rand::Rng;
use rand::RngCore;
use rand_xoshiro::Xoshiro256PlusPlus;
use vstd::prelude::*;

verus! {

/// The `rand_xoshiro` generator that every connection draws from.
#[verifier::external_type_specification]
#[verifier::external_body]
pub struct ExXoshiro256PlusPlus(Xoshiro256PlusPlus);

/// `Rng::random_range` draws an integer from a range that is not empty. Which
/// one is left to chance.
#[verifier::external_body]
pub(crate) fn draw(rng: &mut Xoshiro256PlusPlus, lo: usize, hi: usize) -> (r: usize)
    requires
        lo < hi,
    ensures
        lo <= r < hi,
{
    rng.random_range(lo..hi)
}

/// `RngCore::next_u64` draws 64 random bits, left to chance.
#[verifier::external_body]
pub(crate) fn draw_word(rng: &mut Xoshiro256PlusPlus) -> (r: u64) {
    rng.next_u64()
}

/// The number in `[0, 1)` that a random word stands for: its upper 53 bits
/// after the binary point.
pub open spec fn unit_spec(word: u64) -> Double {
    Double::product(
        Double::fraction(1, 9_007_199_254_740_992),
        Double::of_nat((word / 2_048) as nat),
    )
}

fn unit(word: u64) -> (r: Double)
    ensures
        r == unit_spec(word),
{
    Double::ratio(1, 9_007_199_254_740_992).times(Double::from_u64(word / 2_048))
}

/// The number that a random word stands for lies in `[0, 1)`.
pub proof fn units_are_below_one(word: u64)
    ensures
        Double::zero().le_spec(unit_spec(word)),
        unit_spec(word).lt_spec(unity()),
{
    crate::double::lemma_unit_fraction((word / 2_048) as nat);
}

/// How steady-state key ids are drawn.
#[derive(Clone, Debug)]
pub enum KeyDist {
    /// Every key equally likely.
    Uniform { n: usize },
    /// Power-law skew: low ids are hot.
    Zipf(Zipfian),
    /// Newest keys are hot, in units of append batches.
    Recency(Recency),
}

/// Power-law key sampler over `0..n`: the probability of rank `k` is
/// proportional to `k^-theta`. Rank 1 (key id 0) is the hottest.
#[derive(Clone, Copy, Debug, PartialEq, Eq, Structural)]
pub struct Zipfian {
    pub n: usize,
    pub theta: Double,
}

impl Zipfian {
    /// A sampler over a keyspace that is not empty.
    pub fn new(n: usize, theta: Double) -> (r: Self)
        requires
            n >= 1,
        ensures
            r == (Zipfian { n, theta }),
    {
        Zipfian { n, theta }
    }

    /// The key id of a rank.
    pub open spec fn id_of(self, rank: u64) -> int {
        let below = if rank >= 1 {
            rank - 1
        } else {
            0
        };
        if below <= self.n - 1 {
            below
        } else {
            self.n - 1
        }
    }

    /// The key id of a rank: ranks start at one, ids at zero, and a rank
    /// beyond the keyspace means its last id.
    pub fn key_of_rank(&self, rank: u64) -> (r: usize)
        requires
            self.n >= 1,
        ensures
            r == self.id_of(rank),
            r < self.n,
    {
        let below: u64 = rank.saturating_sub(1);
        if below <= (self.n - 1) as u64 {
            below as usize
        } else {
            self.n - 1
        }
    }

    /// The skew.
    pub fn theta(&self) -> (r: Double)
        ensures
            r == self.theta,
    {
        self.theta
    }
}

/// Newest-is-hottest sampler over a keyspace that grows by append batches.
///
/// The id space is `0..head`. Ids arrive in fixed-size batches, so the
/// "generation" of an id is how many batches ago it was written, counted back
/// from the head. Hotness attaches to the generation, not to the key: a read
/// picks a generation by age, then a key uniformly within it.
///
/// - `hot_fraction` of reads go to the `generations` newest batches, with
///   generation `a` weighted `decay^a` (normalized).
/// - The rest go uniformly to the body below the hot window.
#[derive(Clone, Debug)]
pub struct Recency {
    pub head: usize,
    pub batch: usize,
    pub generations: usize,
    pub hot_fraction: Double,
    /// Cumulative generation weights, normalized so the last entry is one.
    pub cdf: Vec<Double>,
}

/// The number one.
pub open spec fn unity() -> Double {
    Double::of_nat(1)
}

/// The weight of generation `a`: `decay^a`, multiplied out.
pub open spec fn weight(decay: Double, a: nat) -> Double
    decreases a,
{
    if a == 0 {
        unity()
    } else {
        Double::product(weight(decay, (a - 1) as nat), decay)
    }
}

/// The weights of the first `k` generations, added up.
pub open spec fn weights(decay: Double, k: nat) -> Double
    decreases k,
{
    if k == 0 {
        Double::zero()
    } else {
        Double::sum(weights(decay, (k - 1) as nat), weight(decay, (k - 1) as nat))
    }
}

/// The cumulative share of generation `a` and all newer ones.
pub open spec fn share(decay: Double, generations: nat, a: nat) -> Double {
    Double::quotient(weights(decay, a + 1), weights(decay, generations))
}

/// How many leading entries of a list do not exceed `u`.
pub open spec fn passed(cdf: Seq<Double>, u: Double) -> nat
    decreases cdf.len(),
{
    if cdf.len() > 0 && cdf[0].le_spec(u) {
        1 + passed(cdf.skip(1), u)
    } else {
        0
    }
}

/// Whether a decay is one that weights can be multiplied by.
pub open spec fn decays(decay: Double) -> bool {
    decay.finite() && Double::zero().lt_spec(decay) && decay.le_spec(unity())
}

/// Every weight lies between zero and one.
proof fn lemma_weight(decay: Double, a: nat)
    requires
        decays(decay),
    ensures
        weight(decay, a).finite(),
        !weight(decay, a).is_negative_spec(),
        weight(decay, a).le_spec(unity()),
    decreases a,
{
    crate::rounding::an_integer_keeps_to_bounds(1, Double::zero());
    if a > 0 {
        lemma_weight(decay, (a - 1) as nat);
        crate::rounding::a_fraction_of_a_number_is_no_more(weight(decay, (a - 1) as nat), decay);
    }
}

/// The newest generation weighs one, each next one what the one before it
/// weighs times the decay, and none weighs more than a newer one.
pub proof fn weights_decay(decay: Double, a: nat)
    requires
        decays(decay),
    ensures
        weight(decay, 0) == Double::of_nat(1),
        weight(decay, a + 1) == Double::product(weight(decay, a), decay),
        weight(decay, a + 1).le_spec(weight(decay, a)),
        weight(decay, a).le_spec(Double::of_nat(1)),
{
    lemma_weight(decay, a);
    crate::rounding::a_fraction_of_a_number_is_no_more(weight(decay, a), decay);
}

/// No generation weighs more than a newer one.
pub proof fn older_generations_weigh_no_more(decay: Double, newer: nat, older: nat)
    requires
        decays(decay),
        newer <= older,
    ensures
        weight(decay, older).le_spec(weight(decay, newer)),
    decreases older - newer,
{
    if newer < older {
        older_generations_weigh_no_more(decay, newer, (older - 1) as nat);
        weights_decay(decay, (older - 1) as nat);
    } else {
        lemma_weight(decay, newer);
    }
}

/// With a decay of one all generations weigh the same.
pub proof fn without_decay_all_weigh_the_same(a: nat)
    ensures
        weight(unity(), a) == Double::of_nat(1),
    decreases a,
{
    if a > 0 {
        without_decay_all_weigh_the_same((a - 1) as nat);
        let one = unity();
        crate::rounding::an_integer_keeps_to_bounds(1, Double::zero());
        assert((one.numer() * one.numer()) * one.denom() == one.numer() * (one.denom()
            * one.denom())) by (nonlinear_arith)
            requires
                one.numer() == 1 * one.denom(),
        ;
        crate::rounding::a_product_keeps_to_bounds(one, one, one);
        crate::double::lemma_one();
    }
}

/// The weights add up one after the other, from nothing.
pub proof fn weights_add_up(decay: Double, k: nat)
    ensures
        weights(decay, 0) == Double::zero(),
        weights(decay, k + 1) == Double::sum(weights(decay, k), weight(decay, k)),
{
}

/// The sum of weights is a number from one on.
proof fn lemma_weights(decay: Double, k: nat)
    requires
        decays(decay),
    ensures
        weights(decay, k).finite(),
        !weights(decay, k).is_negative_spec(),
        weights(decay, k).le_spec(Double::of_nat(crate::double::TWO53 as nat)),
        k > 0 ==> unity().le_spec(weights(decay, k)) && weights(decay, k).magnitude() > 0,
    decreases k,
{
    crate::rounding::an_integer_keeps_to_bounds(1, Double::zero());
    crate::double::lemma_one();
    if k == 0 {
        let zero = Double::zero();
        crate::rounding::an_integer_keeps_to_bounds(crate::double::TWO53 as nat, zero);
        assert(zero.numer() == 0) by {
            crate::rounding::lemma_round_trip(zero);
        }
        assert(0 <= crate::double::TWO53 * zero.denom()) by (nonlinear_arith);
    } else {
        let before = (k - 1) as nat;
        lemma_weights(decay, before);
        lemma_weight(decay, before);
        crate::rounding::small_addends_stay_below(weights(decay, before), weight(decay, before));
        crate::rounding::a_sum_is_no_less(weights(decay, before), weight(decay, before));
    }
}

/// The shares grow from generation to generation, and the last is one: every
/// random number below one falls into the share of a generation.
pub proof fn shares_grow_to_one(decay: Double, generations: nat, a: nat)
    requires
        decays(decay),
        a < generations,
    ensures
        share(decay, generations, (generations - 1) as nat) == Double::of_nat(1),
        share(decay, generations, a).le_spec(Double::of_nat(1)),
        a + 1 < generations ==> share(decay, generations, a).le_spec(
            share(decay, generations, a + 1),
        ),
    decreases generations - a,
{
    lemma_weights(decay, generations);
    lemma_weights(decay, a + 1);
    crate::rounding::a_number_over_itself_is_one(weights(decay, generations));
    if a + 1 < generations {
        lemma_weight(decay, a + 1);
        lemma_weights(decay, a + 2);
        crate::rounding::a_sum_is_no_less(weights(decay, a + 1), weight(decay, a + 1));
        crate::rounding::a_quotient_is_monotone(
            weights(decay, a + 1),
            weights(decay, a + 2),
            weights(decay, generations),
        );
        shares_grow_to_one(decay, generations, a + 1);
    } else {
        crate::double::lemma_one();
    }
}

proof fn lemma_shares_ascend(decay: Double, generations: nat, a: nat, b: nat)
    requires
        decays(decay),
        a <= b < generations,
    ensures
        share(decay, generations, a).le_spec(share(decay, generations, b)),
    decreases b - a,
{
    shares_grow_to_one(decay, generations, a);
    if a < b {
        lemma_shares_ascend(decay, generations, a + 1, b);
    }
}

/// The entries passed are those before the first that exceeds `u`.
proof fn lemma_passed(cdf: Seq<Double>, u: Double)
    ensures
        passed(cdf, u) <= cdf.len(),
        forall|i: int| 0 <= i < passed(cdf, u) ==> (#[trigger] cdf[i]).le_spec(u),
        passed(cdf, u) < cdf.len() ==> !cdf[passed(cdf, u) as int].le_spec(u),
    decreases cdf.len(),
{
    if cdf.len() > 0 && cdf[0].le_spec(u) {
        let rest = cdf.skip(1);
        lemma_passed(rest, u);
        assert forall|i: int| 0 <= i < passed(cdf, u) implies (#[trigger] cdf[i]).le_spec(u) by {
            if i > 0 {
                assert(rest[i - 1].le_spec(u));
            }
        }
    }
}

/// A random number picks the generation into whose share it falls: it is not
/// below the cumulative share of any newer generation, and, unless that is the
/// oldest, it is below the cumulative share of the generation itself.
pub proof fn a_draw_picks_the_generation_it_falls_into(r: Recency, u: Double)
    requires
        r.wf(),
    ensures
        0 <= r.generation(u) < r.generations,
        forall|i: int| 0 <= i < r.generation(u) ==> (#[trigger] r.cdf@[i]).le_spec(u),
        r.generation(u) < r.generations - 1 ==> !r.cdf@[r.generation(u)].le_spec(u),
{
    lemma_passed(r.cdf@, u);
}

/// The ids of generation `a` are one batch, `a` whole batches below the head;
/// what lies below zero is cut off.
pub proof fn a_generation_is_a_batch(r: Recency, a: int)
    requires
        r.wf(),
        a >= 0,
    ensures
        r.head >= (a + 1) * r.batch ==> r.generation_ids(a) == (
            r.head - a * r.batch - r.batch,
            r.head - a * r.batch,
        ),
        a * r.batch <= r.head < (a + 1) * r.batch ==> r.generation_ids(a) == (
            0int,
            r.head - a * r.batch,
        ),
        r.head < a * r.batch ==> r.generation_ids(a) == (0int, 0int),
{
    let b = r.batch as int;
    assert((a + 1) * b == a * b + b) by (nonlinear_arith);
}

impl Recency {
    /// What every sampler keeps: batches and generations are counted from
    /// one, each generation has its share, and the hot window is an interval
    /// of machine integers.
    pub open spec fn wf(self) -> bool {
        &&& self.batch >= 1
        &&& self.generations >= 1
        &&& self.generations * self.batch <= usize::MAX
        &&& self.cdf@.len() == self.generations
    }

    /// A sampler over `0..initial_head`.
    pub fn new(
        initial_head: usize,
        batch: usize,
        generations: usize,
        decay: Double,
        hot_fraction: Double,
    ) -> (r: Self)
        requires
            batch >= 1,
            generations >= 1,
            generations * batch <= usize::MAX,
            decay.finite() && Double::zero().lt_spec(decay) && decay.le_spec(unity()),
            hot_fraction.finite() && Double::zero().le_spec(hot_fraction)
                && hot_fraction.le_spec(unity()),
        ensures
            r.wf(),
            r.head == initial_head,
            r.batch == batch,
            r.generations == generations,
            r.hot_fraction == hot_fraction,
            r.cdf@ == Seq::new(
                generations as nat,
                |a: int| share(decay, generations as nat, a as nat),
            ),
            forall|a: int|
                0 <= a < generations ==> (#[trigger] r.cdf@[a]) == Double::quotient(
                    weights(decay, (a + 1) as nat),
                    weights(decay, generations as nat),
                ),
            forall|a: int, b: int|
                0 <= a <= b < generations ==> (#[trigger] r.cdf@[a]).le_spec(#[trigger] r.cdf@[b]),
            r.cdf@[generations - 1] == Double::of_nat(1),
    {
        let mut sums: Vec<Double> = Vec::new();
        let mut acc = Double::from_bits(0);
        let mut w = Double::from_u64(1);
        let mut i: usize = 0;
        while i < generations
            invariant
                i <= generations,
                acc == weights(decay, i as nat),
                w == weight(decay, i as nat),
                sums@.len() == i,
                forall|a: int| 0 <= a < i ==> #[trigger] sums@[a] == weights(decay, (a + 1) as nat),
            decreases generations - i,
        {
            acc = acc.plus(w);
            sums.push(acc);
            w = w.times(decay);
            i = i + 1;
        }
        let mut cdf: Vec<Double> = Vec::new();
        let mut j: usize = 0;
        while j < generations
            invariant
                j <= generations,
                sums@.len() == generations,
                acc == weights(decay, generations as nat),
                forall|a: int|
                    0 <= a < generations ==> #[trigger] sums@[a] == weights(decay, (a + 1) as nat),
                cdf@.len() == j,
                forall|a: int|
                    0 <= a < j ==> #[trigger] cdf@[a] == share(decay, generations as nat, a as nat),
            decreases generations - j,
        {
            cdf.push(sums[j].over(acc));
            j = j + 1;
        }
        proof {
            assert forall|a: int, b: int| 0 <= a <= b < generations implies (
            #[trigger] cdf@[a]).le_spec(#[trigger] cdf@[b]) by {
                lemma_shares_ascend(decay, generations as nat, a as nat, b as nat);
            }
            shares_grow_to_one(decay, generations as nat, 0);
        }
        Recency { head: initial_head, batch, generations, hot_fraction, cdf }
    }

    /// The number of keys.
    pub fn head(&self) -> (r: usize)
        ensures
            r == self.head,
    {
        self.head
    }

    /// The generation that a random number picks by age weight.
    pub open spec fn generation(self, u: Double) -> int {
        let k = passed(self.cdf@, u);
        if k <= self.generations - 1 {
            k as int
        } else {
            self.generations - 1
        }
    }

    fn pick_generation(&self, u: Double) -> (r: usize)
        requires
            self.wf(),
        ensures
            r == self.generation(u),
            r < self.generations,
    {
        let mut k: usize = 0;
        assert(self.cdf@.skip(0) =~= self.cdf@);
        while k < self.cdf.len() && self.cdf[k].le(u)
            invariant
                k <= self.cdf@.len(),
                passed(self.cdf@, u) == k + passed(self.cdf@.skip(k as int), u),
            decreases self.cdf@.len() - k,
        {
            assert(self.cdf@.skip(k as int).skip(1) =~= self.cdf@.skip(k + 1));
            k = k + 1;
        }
        if k <= self.generations - 1 {
            k
        } else {
            self.generations - 1
        }
    }

    /// The ids of generation `a`: those written `a` batches before the head.
    pub open spec fn generation_ids(self, a: int) -> (int, int) {
        let hi = if self.head >= a * self.batch {
            self.head - a * self.batch
        } else {
            0
        };
        let lo = if self.head >= (a + 1) * self.batch {
            self.head - (a + 1) * self.batch
        } else {
            0
        };
        (lo, hi)
    }

    /// The ids that a key is drawn from, given whether the draw is hot and
    /// which random number picks the generation.
    pub open spec fn window(self, hot: bool, u: Double) -> (int, int) {
        let span = self.generations * self.batch;
        let body = if self.head >= span {
            self.head - span
        } else {
            0
        };
        if hot {
            let (lo, hi) = self.generation_ids(self.generation(u));
            if hi > lo {
                (lo, hi)
            } else {
                (0, self.head as int)
            }
        } else if body == 0 {
            (0, self.head as int)
        } else {
            (0, body)
        }
    }

    /// The ids that a key is drawn from: a hot draw takes a generation by age,
    /// any other the body below the hot window. Where there is nothing there,
    /// everything that exists.
    pub fn plan(&self, hot: bool, u: Double) -> (r: (usize, usize))
        requires
            self.wf(),
            self.head > 0,
        ensures
            (r.0 as int, r.1 as int) == self.window(hot, u),
            r.0 < r.1 <= self.head,
    {
        if hot {
            let a: usize = self.pick_generation(u);
            proof {
                let g = self.generations as int;
                let b = self.batch as int;
                assert((a + 1) * b <= g * b) by (nonlinear_arith)
                    requires
                        a + 1 <= g,
                        b >= 0,
                ;
                assert(a * b + b == (a + 1) * b) by (nonlinear_arith);
                assert(a * b >= 0) by (nonlinear_arith)
                    requires
                        a >= 0,
                        b >= 0,
                ;
            }
            let hi: usize = self.head.saturating_sub(a * self.batch);
            let lo: usize = self.head.saturating_sub((a + 1) * self.batch);
            if hi > lo {
                return (lo, hi);
            }
            return (0, self.head);
        }
        assert(self.generations * self.batch >= 0) by (nonlinear_arith);
        let body: usize = self.head.saturating_sub(self.generations * self.batch);
        if body == 0 {
            (0, self.head)
        } else {
            (0, body)
        }
    }

    /// Whether a draw with this random word goes to the hot window.
    pub open spec fn hot_spec(self, word: u64) -> bool {
        unit_spec(word).lt_spec(self.hot_fraction)
    }

    /// Whether a draw with this random word goes to the hot window.
    pub fn is_hot(&self, word: u64) -> (r: bool)
        ensures
            r == self.hot_spec(word),
    {
        unit(word).lt(self.hot_fraction)
    }

    /// Draws a key id: below the head, from a window that two random words
    /// name.
    pub fn sample(&self, rng: &mut Xoshiro256PlusPlus) -> (r: usize)
        requires
            self.wf(),
        ensures
            self.head == 0 ==> r == 0,
            self.head > 0 ==> {
                &&& r < self.head
                &&& exists|first: u64, second: u64|
                    {
                        let w = #[trigger] self.window(
                            self.hot_spec(first),
                            unit_spec(second),
                        );
                        w.0 <= r < w.1
                    }
            },
            self.head > 0 && self.hot_fraction == unity() ==> r >= self.head - self.generations
                * self.batch,
    {
        if self.head == 0 {
            return 0;
        }
        let first: u64 = draw_word(rng);
        let hot = self.is_hot(first);
        let second: u64 = if hot {
            draw_word(rng)
        } else {
            0
        };
        let (lo, hi) = self.plan(hot, unit(second));
        assert(self.window(self.hot_spec(first), unit_spec(second)) == (lo as int, hi as int));
        proof {
            if self.hot_fraction == unity() {
                a_hot_fraction_of_one_is_always_hot(*self, first, unit_spec(second));
            }
        }
        draw(rng, lo, hi)
    }

    /// Publishes a committed batch: the keyspace now ends at `head`.
    pub fn publish(&mut self, head: usize)
        ensures
            final(self).head == head,
            final(self).batch == old(self).batch,
            final(self).generations == old(self).generations,
            final(self).hot_fraction == old(self).hot_fraction,
            final(self).cdf == old(self).cdf,
    {
        self.head = head;
    }
}

/// A hot draw from a head that covers the hot window stays within it; any
/// other draw stays below it.
pub proof fn hot_and_body_draws_are_apart(r: Recency, u: Double)
    requires
        r.wf(),
        r.head > r.generations * r.batch,
    ensures
        ({
            let (lo, hi) = r.window(true, u);
            r.head - r.generations * r.batch <= lo < hi <= r.head && hi - lo == r.batch
        }),
        r.window(false, u) == (0int, r.head - r.generations * r.batch),
{
    let a = r.generation(u);
    let g = r.generations as int;
    let b = r.batch as int;
    assert((a + 1) * b <= g * b) by (nonlinear_arith)
        requires
            a + 1 <= g,
            b >= 0,
    ;
    assert(a * b + b == (a + 1) * b) by (nonlinear_arith);
    assert(a * b >= 0) by (nonlinear_arith)
        requires
            a >= 0,
            b >= 0,
    ;
}

/// With a hot fraction of one every draw is hot, and falls into the hot window:
/// no further below the head than the hot generations reach.
pub proof fn a_hot_fraction_of_one_is_always_hot(r: Recency, word: u64, u: Double)
    requires
        r.wf(),
        r.head > 0,
        r.hot_fraction == unity(),
    ensures
        r.hot_spec(word),
        ({
            let (lo, hi) = r.window(r.hot_spec(word), u);
            r.head - r.generations * r.batch <= lo < hi <= r.head
        }),
{
    units_are_below_one(word);
    let a = r.generation(u);
    let g = r.generations as int;
    let b = r.batch as int;
    assert((a + 1) * b <= g * b) by (nonlinear_arith)
        requires
            a + 1 <= g,
            b >= 0,
    ;
    assert(a * b + b == (a + 1) * b) by (nonlinear_arith);
    assert(a * b >= 0) by (nonlinear_arith)
        requires
            a >= 0,
            b >= 0,
    ;
}

/// When a batch is published, the generations move with the head: what was
/// generation `a` becomes generation `a + 1`.
pub proof fn generations_age_by_one(before: Recency, after: Recency, a: int)
    requires
        before.wf(),
        after.batch == before.batch,
        after.head == before.head + before.batch,
        a >= 0,
    ensures
        after.generation_ids(a + 1) == before.generation_ids(a),
{
    let b = before.batch as int;
    assert((a + 1) * b == a * b + b) by (nonlinear_arith);
    assert((a + 2) * b == (a + 1) * b + b) by (nonlinear_arith);
}

impl KeyDist {
    /// Every key of `0..n` equally likely.
    pub fn uniform(n: usize) -> (r: Self)
        ensures
            r == (KeyDist::Uniform { n }),
    {
        KeyDist::Uniform { n }
    }

    /// `theta` is the skew exponent: larger is more skewed.
    pub fn zipf(n: usize, theta: Double) -> (r: Self)
        requires
            n >= 1,
        ensures
            r == KeyDist::Zipf(Zipfian { n, theta }),
    {
        KeyDist::Zipf(Zipfian::new(n, theta))
    }

    /// Whether a sampler can be drawn from.
    pub open spec fn wf(self) -> bool {
        match self {
            KeyDist::Uniform { n } => n >= 1,
            KeyDist::Zipf(z) => z.n >= 1,
            KeyDist::Recency(r) => r.wf(),
        }
    }

    /// Number of distinct key ids.
    pub open spec fn size(self) -> usize {
        match self {
            KeyDist::Uniform { n } => n,
            KeyDist::Zipf(z) => z.n,
            KeyDist::Recency(r) => r.head,
        }
    }

    /// Whether a workload's keyspace has a sampler: it is not empty, and a
    /// keyspace whose newest keys are hot has batches, generations and
    /// fractions that make sense.
    pub open spec fn samplable(w: Workload) -> bool {
        let ks = w.keyspace;
        match ks.distribution {
            Distribution::Uniform => true,
            Distribution::Zipf => ks.count >= 1,
            Distribution::Recency => w.append matches Some(a) && {
                &&& a.batch >= 1
                &&& ks.hot_generations >= 1
                &&& ks.hot_generations * a.batch <= usize::MAX
                &&& ks.hot_decay.finite() && Double::zero().lt_spec(ks.hot_decay)
                    && ks.hot_decay.le_spec(unity())
                &&& ks.hot_fraction.finite() && Double::zero().le_spec(ks.hot_fraction)
                    && ks.hot_fraction.le_spec(unity())
            },
        }
    }

    /// Whether a workload's keyspace has a sampler.
    pub fn can_sample(w: &Workload) -> (r: bool)
        ensures
            r == KeyDist::samplable(*w),
    {
        let ks = &w.keyspace;
        let zero = Double::from_bits(0);
        let one = Double::from_u64(1);
        match ks.distribution {
            Distribution::Uniform => true,
            Distribution::Zipf => ks.count >= 1,
            Distribution::Recency => match &w.append {
                Some(a) => a.batch >= 1 && ks.hot_generations >= 1 && ks.hot_generations.checked_mul(
                    a.batch,
                ).is_some() && ks.hot_decay.is_finite() && zero.lt(ks.hot_decay)
                    && ks.hot_decay.le(one) && ks.hot_fraction.is_finite() && zero.le(
                    ks.hot_fraction,
                ) && ks.hot_fraction.le(one),
                None => false,
            },
        }
    }

    /// Build the sampler a workload asks for.
    pub fn from_workload(w: &Workload) -> (r: Self)
        requires
            KeyDist::samplable(*w),
        ensures
            match w.keyspace.distribution {
                Distribution::Uniform => r == (KeyDist::Uniform { n: w.keyspace.count }),
                Distribution::Zipf => r == KeyDist::Zipf(
                    Zipfian { n: w.keyspace.count, theta: w.keyspace.zipf_theta },
                ),
                Distribution::Recency => r matches KeyDist::Recency(s) && {
                    &&& s.wf()
                    &&& s.head == w.keyspace.count
                    &&& s.batch == w.append->0.batch
                    &&& s.generations == w.keyspace.hot_generations
                    &&& s.hot_fraction == w.keyspace.hot_fraction
                    &&& s.cdf@ == Seq::new(
                        w.keyspace.hot_generations as nat,
                        |a: int|
                            share(
                                w.keyspace.hot_decay,
                                w.keyspace.hot_generations as nat,
                                a as nat,
                            ),
                    )
                },
            },
            r.size() == w.keyspace.count,
    {
        let ks = &w.keyspace;
        match ks.distribution {
            Distribution::Uniform => KeyDist::uniform(ks.count),
            Distribution::Zipf => KeyDist::zipf(ks.count, ks.zipf_theta),
            Distribution::Recency => {
                let batch: usize = match &w.append {
                    Some(a) => a.batch,
                    None => 1,
                };
                KeyDist::Recency(
                    Recency::new(
                        ks.count,
                        batch,
                        ks.hot_generations,
                        ks.hot_decay,
                        ks.hot_fraction,
                    ),
                )
            },
        }
    }

    /// Draws a key id. `rank` is a rank drawn from the power law; a
    /// distribution without one does not read it.
    pub fn sample(&self, rng: &mut Xoshiro256PlusPlus, rank: u64) -> (r: usize)
        requires
            self.wf(),
        ensures
            self.size() > 0 ==> r < self.size(),
            self matches KeyDist::Zipf(z) ==> r == z.id_of(rank),
            self matches KeyDist::Recency(s) ==> s.head > 0 ==> exists|first: u64, second: u64|
                {
                    let w = #[trigger] s.window(s.hot_spec(first), unit_spec(second));
                    w.0 <= r < w.1
                },
    {
        match self {
            KeyDist::Uniform { n } => draw(rng, 0, *n),
            KeyDist::Zipf(z) => z.key_of_rank(rank),
            KeyDist::Recency(s) => s.sample(rng),
        }
    }

    /// Number of distinct key ids this can produce right now. For a keyspace
    /// that grows this is the published head.
    pub fn len(&self) -> (r: usize)
        ensures
            r == self.size(),
    {
        match self {
            KeyDist::Uniform { n } => *n,
            KeyDist::Zipf(z) => z.n,
            KeyDist::Recency(r) => r.head,
        }
    }

    /// Whether there is no key.
    pub fn is_empty(&self) -> (r: bool)
        ensures
            r == (self.size() == 0),
    {
        self.len() == 0
    }

    /// Whether every key is equally likely.
    pub fn is_uniform(&self) -> (r: bool)
        ensures
            r == (self is Uniform),
    {
        match self {
            KeyDist::Uniform { .. } => true,
            _ => false,
        }
    }

    /// Publishes the head of a keyspace that grows; the stationary
    /// distributions have none.
    pub fn publish_head(&mut self, head: usize) -> (r: bool)
        ensures
            r == (*old(self) is Recency),
            !r ==> *final(self) == *old(self),
            r ==> *final(self) is Recency && (*final(self))->Recency_0 == (Recency {
                head,
                ..(*old(self))->Recency_0
            }),
    {
        match self {
            KeyDist::Recency(s) => {
                s.publish(head);
                true
            },
            _ => false,
        }
    }
}

/// Ranks lead to ids in order, the first rank to the first id; a rank beyond the
/// keyspace leads to its last id.
pub proof fn ranks_lead_to_ids_in_order(z: Zipfian, rank: u64)
    requires
        z.n >= 1,
    ensures
        1 <= rank <= z.n ==> z.id_of(rank) == rank - 1,
        rank > z.n ==> z.id_of(rank) == z.n - 1,
        rank == 0 ==> z.id_of(rank) == 0,
{
}

/// Where the ids come from: a hot draw takes those of the generation that its
/// random number falls into, if it has any; any other draw those below the hot
/// generations, if there are any; else all ids there are.
pub proof fn draws_come_from_their_window(r: Recency, hot: bool, u: Double)
    requires
        r.wf(),
        r.head > 0,
    ensures
        ({
            let (lo, hi) = r.generation_ids(r.generation(u));
            let w = r.window(hot, u);
            let hot_ids = r.generations * r.batch;
            &&& hot && lo < hi ==> w == (lo, hi)
            &&& hot && lo >= hi ==> w == (0int, r.head as int)
            &&& !hot && r.head > hot_ids ==> w == (0int, r.head - hot_ids)
            &&& !hot && r.head <= hot_ids ==> w == (0int, r.head as int)
        }),
{
}

/// The number that a random word stands for is its upper 53 bits after the
/// binary point, exactly.
pub proof fn units_are_exact(word: u64)
    ensures
        ({
            let u = unit_spec(word);
            u.numer() * 0x20_0000_0000_0000 == (word / 2_048) * u.denom()
        }),
{
    let c = (word / 2_048) as nat;
    let big = 0x20_0000_0000_0000nat;
    let zero = Double::zero();
    let one = Double::of_nat(1);
    crate::double::lemma_pow2_significand();
    crate::double::lemma_unit_fraction(c);
    crate::rounding::an_integer_keeps_to_bounds(1, zero);
    crate::rounding::an_integer_keeps_to_bounds(c, zero);
    crate::rounding::lemma_round_trip(one);
    let x = Double::of_nat(c);
    crate::rounding::lemma_round_trip(x);
    // The smallest unit is a power of two.
    let top = Double::of_nat(big);
    lemma_top_value();
    let f = Double::fraction(1, big);
    let least = Double { bits: crate::double::round_bits(1, 1, -53) as u64 };
    crate::rounding::lemma_exact(1, -53);
    crate::rounding::lemma_round_trip(least);
    assert(least.numer() * big == least.denom()) by {
        assert(crate::double::den_at(1, -53, 0) == big);
        assert(crate::double::num_at(1, -53, 0) == 1);
        assert(1 * least.denom() == least.denom());
    }
    assert((one.numer() * top.denom()) * least.denom() == least.numer() * (one.denom()
        * top.numer())) by (nonlinear_arith)
        requires
            one.numer() == 1 * one.denom(),
            top.numer() == big * top.denom(),
            least.numer() * big == least.denom(),
    ;
    crate::rounding::a_quotient_keeps_to_bounds(one, top, least);
    assert(f.key() == least.key());
    assert(f == least);
    let u = unit_spec(word);
    if c == 0 {
        assert((f.numer() * x.numer()) * zero.denom() <= zero.numer() * (f.denom() * x.denom()))
            by (nonlinear_arith)
            requires
                x.numer() == 0 * x.denom(),
        ;
        crate::rounding::a_product_keeps_to_bounds(f, x, zero);
        crate::rounding::lemma_round_trip(u);
        crate::rounding::lemma_round_trip(zero);
        assert(u.numer() == 0);
        assert(0 * u.denom() == 0);
    } else {
        let e = Double { bits: crate::double::round_bits(c, 1, -53) as u64 };
        crate::rounding::lemma_exact(c, -53);
        crate::rounding::lemma_round_trip(e);
        assert(e.numer() * big == c * e.denom()) by {
            assert(crate::double::den_at(1, -53, 0) == big);
            assert(crate::double::num_at(c, -53, 0) == c);
        }
        assert((f.numer() * x.numer()) * e.denom() == e.numer() * (f.denom() * x.denom()))
            by (nonlinear_arith)
            requires
                x.numer() == c * x.denom(),
                f.numer() * big == f.denom(),
                e.numer() * big == c * e.denom(),
        ;
        crate::rounding::a_product_keeps_to_bounds(f, x, e);
        assert(e.magnitude() > 0) by {
            assert(e.numer() > 0) by (nonlinear_arith)
                requires
                    e.numer() * big == c * e.denom(),
                    c > 0,
                    e.denom() > 0,
            ;
        }
        assert(u.key() == e.key());
        assert(u == e);
    }
}

proof fn lemma_top_value()
    ensures
        ({
            let top = Double::of_nat(0x20_0000_0000_0000);
            &&& top.finite() && !top.is_negative_spec() && top.magnitude() > 0
            &&& top.numer() == 0x20_0000_0000_0000 * top.denom()
        }),
{
    let w = 0x20_0000_0000_0000nat;
    let top = Double::of_nat(w);
    crate::double::lemma_pow2_significand();
    assert(crate::double::is_grid(w, 1, 0, 1));
    crate::double::lemma_grid_unique(w, 1, 0, 1);
    assert(w / 2 == crate::double::TWO52 && w % 2 == 0);
    crate::double::lemma_pattern_value(top, 1, crate::double::TWO52 as nat);
}

/// A draw is hot exactly when its random number is below the hot fraction: with a
/// fraction of zero none is, and a larger fraction keeps every hot draw hot.
pub proof fn hot_draws_are_below_the_fraction(a: Recency, b: Recency, word: u64)
    requires
        a.hot_fraction.le_spec(b.hot_fraction),
    ensures
        a.hot_spec(word) ==> b.hot_spec(word),
        a.hot_spec(word) <==> unit_spec(word).lt_spec(a.hot_fraction),
        a.hot_fraction == Double::zero() ==> !a.hot_spec(word),
{
    units_are_below_one(word);
}

/// A keyspace has a sampler if it is uniform; if it is skewed and not empty; and
/// if its newest keys are hot, with batches to age by, a decay and a fraction.
pub proof fn samplers_need_their_numbers(w: Workload)
    ensures
        w.keyspace.distribution == Distribution::Uniform ==> KeyDist::samplable(w),
        w.keyspace.distribution == Distribution::Zipf ==> (KeyDist::samplable(w)
            <==> w.keyspace.count > 0),
        w.keyspace.distribution == Distribution::Recency ==> (KeyDist::samplable(w) <==> {
            let ks = w.keyspace;
            &&& w.append is Some && w.append->0.batch > 0 && ks.hot_generations > 0
            &&& ks.hot_generations * w.append->0.batch <= usize::MAX
            &&& ks.hot_decay.finite() && Double::zero().lt_spec(ks.hot_decay)
                && ks.hot_decay.le_spec(Double::of_nat(1))
            &&& ks.hot_fraction.finite() && Double::zero().le_spec(ks.hot_fraction)
                && ks.hot_fraction.le_spec(Double::of_nat(1))
        }),
{
}

} // verus!
