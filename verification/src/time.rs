//! Spans of time, in nanoseconds.

use crate::double::Double;
use vstd::prelude::*;

verus! {

/// A span of time. Moments are spans since an agreed start.
#[derive(Clone, Copy, Debug, PartialEq, Eq, Structural)]
pub struct Duration {
    /// The whole span in nanoseconds.
    pub nanos: u128,
}

/// The longest span: as many seconds as a 64-bit integer counts, and a
/// fraction.
pub const MAX_NANOS: u128 = 18_446_744_073_709_551_615_999_999_999;

impl Duration {
    /// No time at all.
    pub fn zero() -> (r: Duration)
        ensures
            r.nanos == 0,
    {
        Duration { nanos: 0 }
    }

    /// `secs` seconds.
    pub fn from_secs(secs: u64) -> (r: Duration)
        ensures
            r.nanos == secs * 1_000_000_000,
    {
        Duration { nanos: (secs as u128) * 1_000_000_000 }
    }

    /// `millis` milliseconds.
    pub fn from_millis(millis: u64) -> (r: Duration)
        ensures
            r.nanos == millis * 1_000_000,
    {
        Duration { nanos: (millis as u128) * 1_000_000 }
    }

    /// `micros` microseconds.
    pub fn from_micros(micros: u64) -> (r: Duration)
        ensures
            r.nanos == micros * 1_000,
    {
        Duration { nanos: (micros as u128) * 1_000 }
    }

    /// `nanos` nanoseconds.
    pub fn from_nanos(nanos: u64) -> (r: Duration)
        ensures
            r.nanos == nanos,
    {
        Duration { nanos: nanos as u128 }
    }

    /// The whole microseconds of the span.
    pub fn as_micros(self) -> (r: u128)
        ensures
            r == self.nanos / 1_000,
    {
        self.nanos / 1_000
    }

    /// Whether the span is empty.
    pub fn is_zero(self) -> (r: bool)
        ensures
            r == (self.nanos == 0),
    {
        self.nanos == 0
    }

    /// What is left of the span after `other`, nothing when `other` is longer.
    pub open spec fn less(self, other: Duration) -> Duration {
        Duration {
            nanos: if self.nanos >= other.nanos {
                (self.nanos - other.nanos) as u128
            } else {
                0
            },
        }
    }

    /// What is left of the span after `other`, nothing when `other` is longer.
    pub fn saturating_sub(self, other: Duration) -> (r: Duration)
        ensures
            r == self.less(other),
    {
        if self.nanos >= other.nanos {
            Duration { nanos: self.nanos - other.nanos }
        } else {
            Duration { nanos: 0 }
        }
    }

    /// Both spans in a row.
    pub fn plus(self, other: Duration) -> (r: Duration)
        requires
            self.nanos + other.nanos <= MAX_NANOS,
        ensures
            r.nanos == self.nanos + other.nanos,
    {
        Duration { nanos: self.nanos + other.nanos }
    }

    /// The span in seconds: the whole seconds and the fraction are each
    /// rounded before they are added.
    pub open spec fn secs(self) -> Double {
        Double::sum(
            Double::of_nat((self.nanos / 1_000_000_000) as nat),
            Double::quotient(
                Double::of_nat((self.nanos % 1_000_000_000) as nat),
                Double::of_nat(1_000_000_000),
            ),
        )
    }

    /// The span in seconds.
    pub fn as_secs(self) -> (r: Double)
        ensures
            r == self.secs(),
    {
        let whole: u128 = self.nanos / 1_000_000_000;
        let part: u64 = (self.nanos % 1_000_000_000) as u64;
        Double::from_u128(whole).plus(
            Double::from_u64(part).over(Double::from_u64(1_000_000_000)),
        )
    }
}

/// What is left of a span and what was taken make up the span, where that much
/// could be taken; else nothing is left.
pub proof fn the_rest_makes_up_the_span(a: Duration, b: Duration)
    ensures
        b.nanos <= a.nanos ==> a.less(b).nanos + b.nanos == a.nanos,
        b.nanos > a.nanos ==> a.less(b).nanos == 0,
{
}

/// A span in seconds lies between its whole seconds and one more.
pub proof fn seconds_lie_between_whole_seconds(d: Duration)
    requires
        d.nanos / 1_000_000_000 < 0x10_0000_0000_0000,
    ensures
        ({
            let whole = (d.nanos / 1_000_000_000) as nat;
            &&& d.secs().finite()
            &&& !d.secs().is_negative_spec()
            &&& Double::of_nat(whole).le_spec(d.secs())
            &&& d.secs().le_spec(Double::of_nat(whole + 1))
            &&& d.nanos % 1_000_000_000 == 0 ==> d.secs() == Double::of_nat(whole)
        }),
{
    let whole = (d.nanos / 1_000_000_000) as nat;
    let part = (d.nanos % 1_000_000_000) as nat;
    let w = Double::of_nat(whole);
    let next = Double::of_nat(whole + 1);
    let zero = Double::zero();
    let one = Double::of_nat(1);
    let x = Double::of_nat(part);
    let g = Double::of_nat(1_000_000_000);
    crate::rounding::an_integer_keeps_to_bounds(whole, zero);
    crate::rounding::an_integer_keeps_to_bounds(whole + 1, zero);
    crate::rounding::an_integer_keeps_to_bounds(1, zero);
    crate::rounding::an_integer_keeps_to_bounds(part, zero);
    crate::rounding::an_integer_keeps_to_bounds(1_000_000_000, zero);
    crate::rounding::lemma_round_trip(w);
    crate::rounding::lemma_round_trip(next);
    crate::rounding::lemma_round_trip(one);
    crate::rounding::lemma_round_trip(x);
    crate::rounding::lemma_round_trip(g);
    crate::rounding::lemma_round_trip(zero);
    assert(g.numer() > 0);
    let f = Double::quotient(x, g);
    assert((x.numer() * g.denom()) * one.denom() <= one.numer() * (x.denom() * g.numer()))
        by (nonlinear_arith)
        requires
            x.numer() == part * x.denom(),
            g.numer() == 1_000_000_000 * g.denom(),
            one.numer() == 1 * one.denom(),
            part <= 1_000_000_000,
    ;
    crate::rounding::a_quotient_keeps_to_bounds(x, g, one);
    assert(f.finite() && !f.is_negative_spec()) by {
        crate::rounding::lemma_on_grid(x.significand(), g.significand(), x.exponent()
            - g.exponent());
        crate::double::lemma_one();
    }
    crate::rounding::lemma_round_trip(f);
    crate::rounding::numbers_order_as_their_values(f, one);
    assert(f.numer() <= f.denom()) by (nonlinear_arith)
        requires
            f.numer() * one.denom() <= one.numer() * f.denom(),
            one.numer() == 1 * one.denom(),
            one.denom() > 0,
    ;
    crate::rounding::a_sum_is_no_less(w, f);
    assert((w.numer() * f.denom() + f.numer() * w.denom()) * next.denom() <= next.numer() * (
    w.denom() * f.denom())) by {
        let p = w.denom() * f.denom();
        assert(w.numer() * f.denom() == whole * p) by (nonlinear_arith)
            requires
                w.numer() == whole * w.denom(),
                p == w.denom() * f.denom(),
        ;
        assert(f.numer() * w.denom() <= p) by (nonlinear_arith)
            requires
                f.numer() <= f.denom(),
                p == w.denom() * f.denom(),
        ;
        let s = w.numer() * f.denom() + f.numer() * w.denom();
        assert(s <= (whole + 1) * p) by (nonlinear_arith)
            requires
                s <= whole * p + p,
        ;
        assert(s * next.denom() <= next.numer() * p) by (nonlinear_arith)
            requires
                s <= (whole + 1) * p,
                next.numer() == (whole + 1) * next.denom(),
        ;
    }
    crate::rounding::a_sum_keeps_to_bounds(w, f, next);
    if part == 0 {
        assert(f.numer() == 0) by {
            assert((x.numer() * g.denom()) * zero.denom() <= zero.numer() * (x.denom()
                * g.numer())) by (nonlinear_arith)
                requires
                    x.numer() == 0 * x.denom(),
            ;
            crate::rounding::a_quotient_keeps_to_bounds(x, g, zero);
        }
        assert((w.numer() * f.denom() + f.numer() * w.denom()) * w.denom() <= w.numer() * (w.denom()
            * f.denom())) by (nonlinear_arith)
            requires
                f.numer() == 0,
        ;
        crate::rounding::a_sum_keeps_to_bounds(w, f, w);
        assert(d.secs().key() == w.key());
    }
}

} // verus!
