//! What holds of every rounded result: the order of binary64 numbers is that
//! of the values they stand for, and rounding keeps it.

use crate::double;
use crate::double::{Double, INFINITY_BITS, TWO52, TWO53};
use vstd::prelude::*;

verus! {

/// Whether two ratios compare the same way in units of `2^a` and of `2^b`.
proof fn lemma_compare_units(n1: nat, d1: nat, e1: int, n2: nat, d2: nat, e2: int, a: int, b: int)
    requires
        d1 > 0,
        d2 > 0,
        a <= b,
    ensures
        double::num_at(n1, e1, a) * double::den_at(d2, e2, a) <= double::num_at(n2, e2, a)
            * double::den_at(d1, e1, a) <==> double::num_at(n1, e1, b) * double::den_at(d2, e2, b)
            <= double::num_at(n2, e2, b) * double::den_at(d1, e1, b),
{
    let k = vstd::arithmetic::power2::pow2((b - a) as nat);
    vstd::arithmetic::power2::lemma_pow2_pos((b - a) as nat);
    double::lemma_units(n1, d1, e1, a, b);
    double::lemma_units(n2, d2, e2, a, b);
    double::lemma_den_positive(d1, e1, a);
    double::lemma_den_positive(d1, e1, b);
    double::lemma_den_positive(d2, e2, a);
    double::lemma_den_positive(d2, e2, b);
    let x1 = double::num_at(n1, e1, a) as int;
    let y1 = double::den_at(d1, e1, a) as int;
    let x2 = double::num_at(n2, e2, a) as int;
    let y2 = double::den_at(d2, e2, a) as int;
    let u1 = double::num_at(n1, e1, b) as int;
    let v1 = double::den_at(d1, e1, b) as int;
    let u2 = double::num_at(n2, e2, b) as int;
    let v2 = double::den_at(d2, e2, b) as int;
    let fine = v1 * v2;
    let coarse = y1 * y2 * k;
    assert(fine > 0) by (nonlinear_arith)
        requires
            v1 > 0,
            v2 > 0,
            fine == v1 * v2,
    ;
    assert(coarse > 0) by (nonlinear_arith)
        requires
            y1 > 0,
            y2 > 0,
            k > 0,
            coarse == y1 * y2 * k,
    ;
    assert((x1 * y2) * fine == (u1 * v2) * coarse) by (nonlinear_arith)
        requires
            x1 * v1 == u1 * y1 * k,
            fine == v1 * v2,
            coarse == y1 * y2 * k,
    ;
    assert((x2 * y1) * fine == (u2 * v1) * coarse) by (nonlinear_arith)
        requires
            x2 * v2 == u2 * y2 * k,
            fine == v1 * v2,
            coarse == y1 * y2 * k,
    ;
    lemma_scaled_order(x1 * y2, x2 * y1, fine);
    lemma_scaled_order(u1 * v2, u2 * v1, coarse);
}

/// A positive factor keeps the order.
proof fn lemma_scaled_order(a: int, b: int, k: int)
    requires
        k > 0,
    ensures
        a <= b <==> a * k <= b * k,
{
    if a <= b {
        assert(a * k <= b * k) by (nonlinear_arith)
            requires
                a <= b,
                k > 0,
        ;
    } else {
        assert(a * k > b * k) by (nonlinear_arith)
            requires
                a > b,
                k > 0,
        ;
    }
}

/// Rounding to an integer keeps the order of ratios.
proof fn lemma_half_even_monotone(a: nat, b: nat, c: nat, d: nat)
    requires
        b > 0,
        d > 0,
        a * d <= c * b,
    ensures
        double::half_even(a, b) <= double::half_even(c, d),
{
    let q1 = a / b;
    let r1 = a % b;
    let q2 = c / d;
    let r2 = c % d;
    vstd::arithmetic::div_mod::lemma_fundamental_div_mod(a as int, b as int);
    vstd::arithmetic::div_mod::lemma_fundamental_div_mod(c as int, d as int);
    assert(q1 <= q2) by (nonlinear_arith)
        requires
            a == b * q1 + r1,
            c == d * q2 + r2,
            r1 >= 0,
            0 <= r2 < d,
            b > 0,
            a * d <= c * b,
    ;
    if q1 == q2 {
        assert(r1 * d <= r2 * b) by (nonlinear_arith)
            requires
                a == b * q1 + r1,
                c == d * q1 + r2,
                a * d <= c * b,
        ;
        if 2 * r1 > b {
            assert(2 * r2 > d) by (nonlinear_arith)
                requires
                    2 * r1 > b,
                    r1 * d <= r2 * b,
                    b > 0,
                    d > 0,
            ;
        } else if 2 * r1 == b {
            assert(2 * r2 >= d) by (nonlinear_arith)
                requires
                    2 * r1 == b,
                    r1 * d <= r2 * b,
                    b > 0,
                    d > 0,
            ;
        }
    }
}

/// The rounded significand of a ratio on its grid.
pub(crate) proof fn lemma_on_grid(n: nat, d: nat, e: int) -> (r: (int, nat))
    requires
        d > 0,
    ensures
        r.0 == double::grid(n, d, e),
        r.1 == double::half_even(double::num_at(n, e, r.0), double::den_at(d, e, r.0)),
        double::is_grid(n, d, e, r.0),
        double::den_at(d, e, r.0) > 0,
        r.0 >= -1074,
        r.1 <= TWO53,
        r.0 > -1074 ==> r.1 >= TWO52,
        double::round_bits(n, d, e) == if (r.0 + 1074) * TWO52 + r.1 >= INFINITY_BITS {
            INFINITY_BITS as int
        } else {
            (r.0 + 1074) * TWO52 + r.1
        },
{
    let t = double::grid(n, d, e);
    double::lemma_grid_exists(n, d, e);
    double::lemma_den_positive(d, e, t);
    let num = double::num_at(n, e, t);
    let den = double::den_at(d, e, t);
    let h = double::half_even(num, den);
    assert(num / den < TWO53) by (nonlinear_arith)
        requires
            num < TWO53 * den,
            den > 0,
    ;
    if t > -1074 {
        assert(num / den >= TWO52) by (nonlinear_arith)
            requires
                num >= TWO52 * den,
                den > 0,
        ;
    }
    assert((t + 1074) * TWO52 >= 0) by (nonlinear_arith)
        requires
            t >= -1074,
    ;
    (t, h)
}

/// Rounding keeps the order of values.
pub(crate) proof fn lemma_round_monotone(n1: nat, d1: nat, e1: int, n2: nat, d2: nat, e2: int)
    requires
        d1 > 0,
        d2 > 0,
        double::num_at(n1, e1, 0) * double::den_at(d2, e2, 0) <= double::num_at(n2, e2, 0)
            * double::den_at(d1, e1, 0),
    ensures
        double::round_bits(n1, d1, e1) <= double::round_bits(n2, d2, e2),
{
    let (t1, h1) = lemma_on_grid(n1, d1, e1);
    let (t2, h2) = lemma_on_grid(n2, d2, e2);
    if t1 < t2 {
        assert((t1 + 1074) * TWO52 + TWO53 <= (t2 + 1074) * TWO52 + TWO52) by (nonlinear_arith)
            requires
                t1 + 1 <= t2,
                TWO53 == 2 * TWO52,
        ;
    } else {
        if t1 <= 0 {
            lemma_compare_units(n1, d1, e1, n2, d2, e2, t1, 0);
        } else {
            lemma_compare_units(n1, d1, e1, n2, d2, e2, 0, t1);
        }
        if t1 > t2 {
            // A value on a coarser grid is larger than one on a finer grid.
            double::lemma_units(n2, d2, e2, t2, t1);
            double::lemma_den_positive(d2, e2, t1);
            let k = vstd::arithmetic::power2::pow2((t1 - t2) as nat);
            assert(k >= 2) by {
                vstd::arithmetic::power2::lemma_pow2_unfold((t1 - t2) as nat);
                vstd::arithmetic::power2::lemma_pow2_pos((t1 - t2 - 1) as nat);
            }
            let x1 = double::num_at(n1, e1, t1);
            let y1 = double::den_at(d1, e1, t1);
            let x2 = double::num_at(n2, e2, t1);
            let y2 = double::den_at(d2, e2, t1);
            let f2 = double::num_at(n2, e2, t2);
            let g2 = double::den_at(d2, e2, t2);
            assert(x2 < TWO52 * y2) by (nonlinear_arith)
                requires
                    f2 * y2 == x2 * g2 * k,
                    f2 < TWO53 * g2,
                    TWO53 == 2 * TWO52,
                    k >= 2,
                    y2 > 0,
                    g2 > 0,
            ;
            assert(x1 * y2 >= (TWO52 * y1) * y2) by (nonlinear_arith)
                requires
                    x1 >= TWO52 * y1,
                    y2 > 0,
            ;
            assert(x2 * y1 < (TWO52 * y2) * y1) by (nonlinear_arith)
                requires
                    x2 < TWO52 * y2,
                    y1 > 0,
            ;
            assert((TWO52 * y1) * y2 == (TWO52 * y2) * y1) by (nonlinear_arith);
        } else {
            lemma_half_even_monotone(
                double::num_at(n1, e1, t1),
                double::den_at(d1, e1, t1),
                double::num_at(n2, e2, t1),
                double::den_at(d2, e2, t1),
            );
        }
    }
}

/// A number that needs no more than 53 binary digits is not changed by
/// rounding.
pub(crate) proof fn lemma_exact(c: nat, e: int)
    requires
        0 < c < TWO53,
        -1074 <= e <= 900,
    ensures
        ({
            let x = Double { bits: double::round_bits(c, 1, e) as u64 };
            &&& x.finite()
            &&& !x.is_negative_spec()
            &&& x.exponent() <= e
            &&& x.significand() == c * vstd::arithmetic::power2::pow2((e - x.exponent()) as nat)
            &&& x.numer() * double::den_at(1, e, 0) == double::num_at(c, e, 0) * x.denom()
        }),
{
    let (t, h) = lemma_on_grid(c, 1, e);
    double::lemma_pow2_significand();
    if t > e {
        double::lemma_pow2_monotone(1, (t - e) as nat);
        let p = vstd::arithmetic::power2::pow2((t - e) as nat);
        assert(TWO52 * (1 * p) >= TWO53) by (nonlinear_arith)
            requires
                p >= 2,
                TWO53 == 2 * TWO52,
        ;
    }
    let p = vstd::arithmetic::power2::pow2((e - t) as nat);
    assert(h == c * p) by {
        let v = c * p;
        assert(v / 1 == v && v % 1 == 0);
    }
    assert((t + 1074) * TWO52 + h < INFINITY_BITS) by (nonlinear_arith)
        requires
            t <= 900,
            h <= TWO53,
            INFINITY_BITS == 2047 * TWO52,
            TWO53 == 2 * TWO52,
    ;
    let x = Double { bits: double::round_bits(c, 1, e) as u64 };
    assert(x.magnitude() == (t + 1074) * TWO52 + h);
    double::lemma_pattern_value(x, t, h);
    // The two ways to write the value agree.
    lemma_same_value(c, e, t);
}

/// `c * 2^e` is `(c * 2^(e - t)) * 2^t`.
proof fn lemma_same_value(c: nat, e: int, t: int)
    requires
        t <= e,
    ensures
        double::num_at(c * vstd::arithmetic::power2::pow2((e - t) as nat), t, 0) * double::den_at(
            1,
            e,
            0,
        ) == double::num_at(c, e, 0) * double::den_at(1, t, 0),
{
    let p = vstd::arithmetic::power2::pow2((e - t) as nat);
    double::lemma_pow2_significand();
    if t >= 0 {
        vstd::arithmetic::power2::lemma_pow2_adds((e - t) as nat, t as nat);
        let a = vstd::arithmetic::power2::pow2(t as nat);
        assert((c * p) * a * 1 == c * (p * a) * 1) by (nonlinear_arith);
    } else if e >= 0 {
        vstd::arithmetic::power2::lemma_pow2_adds(e as nat, (-t) as nat);
        let a = vstd::arithmetic::power2::pow2(e as nat);
        let b = vstd::arithmetic::power2::pow2((-t) as nat);
        assert(c * p * 1 == c * a * (1 * b)) by (nonlinear_arith)
            requires
                p == a * b,
        ;
    } else {
        vstd::arithmetic::power2::lemma_pow2_adds((e - t) as nat, (-e) as nat);
        let a = vstd::arithmetic::power2::pow2((-e) as nat);
        let b = vstd::arithmetic::power2::pow2((-t) as nat);
        assert(c * p * (1 * a) == c * (1 * b)) by (nonlinear_arith)
            requires
                b == p * a,
        ;
    }
}

/// Rounding a number gives the number.
pub(crate) proof fn lemma_round_trip(x: Double)
    requires
        x.finite(),
    ensures
        double::round_bits(x.significand(), 1, x.exponent()) == x.magnitude(),
        x.denom() > 0,
        x.numer() == 0 <==> x.magnitude() == 0,
{
    let m = x.significand();
    let e = x.exponent();
    double::lemma_pow2_significand();
    double::lemma_den_positive(1, e, 0);
    double::lemma_den_positive(1, e, e);
    assert(double::num_at(m, e, e) == m) by {
        assert(m * 1 == m);
    }
    assert(double::is_grid(m, 1, e, e));
    double::lemma_grid_unique(m, 1, e, e);
    assert(m / 1 == m && m % 1 == 0);
    if e >= 0 {
        let p = vstd::arithmetic::power2::pow2(e as nat);
        vstd::arithmetic::power2::lemma_pow2_pos(e as nat);
        assert(m * p == 0 <==> m == 0) by (nonlinear_arith)
            requires
                p > 0,
        ;
    }
}

/// Numbers that are not negative order as the values they stand for.
pub proof fn numbers_order_as_their_values(x: Double, y: Double)
    requires
        x.finite(),
        y.finite(),
        !x.is_negative_spec(),
        !y.is_negative_spec(),
    ensures
        x.le_spec(y) <==> x.numer() * y.denom() <= y.numer() * x.denom(),
        x.lt_spec(y) <==> x.numer() * y.denom() < y.numer() * x.denom(),
{
    lemma_round_trip(x);
    lemma_round_trip(y);
    if x.numer() * y.denom() <= y.numer() * x.denom() {
        lemma_round_monotone(x.significand(), 1, x.exponent(), y.significand(), 1, y.exponent());
    }
    if y.numer() * x.denom() <= x.numer() * y.denom() {
        lemma_round_monotone(y.significand(), 1, y.exponent(), x.significand(), 1, x.exponent());
    }
    if x.magnitude() == y.magnitude() {
        assert(x.numer() * y.denom() == y.numer() * x.denom());
    }
}

/// The exact product of two numbers is the product of their values.
proof fn lemma_product_value(a: Double, b: Double)
    requires
        a.finite(),
        b.finite(),
    ensures
        ({
            let n = a.significand() * b.significand();
            let e = a.exponent() + b.exponent();
            double::num_at(n, e, 0) * (a.denom() * b.denom()) == (a.numer() * b.numer())
                * double::den_at(1, e, 0)
        }),
{
    let x = a.significand();
    let y = b.significand();
    let ea = a.exponent();
    let eb = b.exponent();
    let p = |k: int| vstd::arithmetic::power2::pow2(k as nat);
    let u = p(ea);
    let v = p(eb);
    let w = p(ea + eb);
    let i = p(-ea);
    let j = p(-eb);
    let k = p(-ea - eb);
    double::lemma_pow2_significand();
    if ea >= 0 && eb >= 0 {
        vstd::arithmetic::power2::lemma_pow2_adds(ea as nat, eb as nat);
        assert(((x * y) * w) * (1 * 1) == ((x * u) * (y * v)) * 1) by (nonlinear_arith)
            requires
                w == u * v,
        ;
    } else if ea < 0 && eb < 0 {
        vstd::arithmetic::power2::lemma_pow2_adds((-ea) as nat, (-eb) as nat);
        assert((x * y) * ((1 * i) * (1 * j)) == (x * y) * (1 * k)) by (nonlinear_arith)
            requires
                k == i * j,
        ;
    } else if ea >= 0 {
        if ea + eb >= 0 {
            vstd::arithmetic::power2::lemma_pow2_adds((ea + eb) as nat, (-eb) as nat);
            assert(((x * y) * w) * (1 * (1 * j)) == ((x * u) * y) * 1) by (nonlinear_arith)
                requires
                    u == w * j,
            ;
        } else {
            vstd::arithmetic::power2::lemma_pow2_adds(ea as nat, (-ea - eb) as nat);
            assert((x * y) * (1 * (1 * j)) == ((x * u) * y) * (1 * k)) by (nonlinear_arith)
                requires
                    j == u * k,
            ;
        }
    } else {
        if ea + eb >= 0 {
            vstd::arithmetic::power2::lemma_pow2_adds((ea + eb) as nat, (-ea) as nat);
            assert(((x * y) * w) * ((1 * i) * 1) == (x * (y * v)) * 1) by (nonlinear_arith)
                requires
                    v == w * i,
            ;
        } else {
            vstd::arithmetic::power2::lemma_pow2_adds(eb as nat, (-ea - eb) as nat);
            assert((x * y) * ((1 * i) * 1) == (x * (y * v)) * (1 * k)) by (nonlinear_arith)
                requires
                    i == v * k,
            ;
        }
    }
}

/// The exact quotient of two numbers is the quotient of their values.
proof fn lemma_quotient_value(a: Double, b: Double)
    requires
        a.finite(),
        b.finite(),
    ensures
        ({
            let e = a.exponent() - b.exponent();
            double::num_at(a.significand(), e, 0) * (a.denom() * b.numer()) == (a.numer()
                * b.denom()) * double::den_at(b.significand(), e, 0)
        }),
{
    let x = a.significand();
    let y = b.significand();
    let ea = a.exponent();
    let eb = b.exponent();
    let p = |k: int| vstd::arithmetic::power2::pow2(k as nat);
    let u = p(ea);
    let v = p(eb);
    let w = p(ea - eb);
    let i = p(-ea);
    let j = p(-eb);
    let k = p(eb - ea);
    double::lemma_pow2_significand();
    if ea >= 0 && eb >= 0 {
        if ea >= eb {
            vstd::arithmetic::power2::lemma_pow2_adds((ea - eb) as nat, eb as nat);
            assert((x * w) * (1 * (y * v)) == ((x * u) * 1) * y) by (nonlinear_arith)
                requires
                    u == w * v,
            ;
        } else {
            vstd::arithmetic::power2::lemma_pow2_adds(ea as nat, (eb - ea) as nat);
            assert(x * (1 * (y * v)) == ((x * u) * 1) * (y * k)) by (nonlinear_arith)
                requires
                    v == u * k,
            ;
        }
    } else if ea < 0 && eb < 0 {
        if ea >= eb {
            vstd::arithmetic::power2::lemma_pow2_adds((ea - eb) as nat, (-ea) as nat);
            assert((x * w) * ((1 * i) * y) == (x * (1 * j)) * y) by (nonlinear_arith)
                requires
                    j == w * i,
            ;
        } else {
            vstd::arithmetic::power2::lemma_pow2_adds((-eb) as nat, (eb - ea) as nat);
            assert(x * ((1 * i) * y) == (x * (1 * j)) * (y * k)) by (nonlinear_arith)
                requires
                    i == j * k,
            ;
        }
    } else if ea >= 0 {
        vstd::arithmetic::power2::lemma_pow2_adds(ea as nat, (-eb) as nat);
        assert((x * w) * (1 * y) == ((x * u) * (1 * j)) * y) by (nonlinear_arith)
            requires
                w == u * j,
        ;
    } else {
        vstd::arithmetic::power2::lemma_pow2_adds((-ea) as nat, eb as nat);
        assert(x * ((1 * i) * (y * v)) == (x * 1) * (y * k)) by (nonlinear_arith)
            requires
                k == i * v,
        ;
    }
}

/// Equal ratios compare the same way with a third.
proof fn lemma_equal_ratios(n1: int, d1: int, n2: int, d2: int, x: int, y: int)
    requires
        d1 > 0,
        d2 > 0,
        n1 * d2 == n2 * d1,
    ensures
        n1 * y <= x * d1 <==> n2 * y <= x * d2,
        x * d1 <= n1 * y <==> x * d2 <= n2 * y,
{
    assert((n1 * y) * d2 == (n2 * y) * d1) by (nonlinear_arith)
        requires
            n1 * d2 == n2 * d1,
    ;
    assert((x * d1) * d2 == (x * d2) * d1) by (nonlinear_arith);
    lemma_scaled_order(n1 * y, x * d1, d2);
    lemma_scaled_order(n2 * y, x * d2, d1);
    lemma_scaled_order(x * d1, n1 * y, d2);
    lemma_scaled_order(x * d2, n2 * y, d1);
}

/// A rounded ratio does not pass a number that the exact ratio does not pass.
proof fn lemma_keeps_to_bounds(n: nat, d: nat, e: int, x: Double)
    requires
        d > 0,
        x.finite(),
        !x.is_negative_spec(),
    ensures
        ({
            let r = Double { bits: double::round_bits(n, d, e) as u64 };
            let num = double::num_at(n, e, 0);
            let den = double::den_at(d, e, 0);
            &&& !r.is_negative_spec() && !r.nan()
            &&& num * x.denom() <= x.numer() * den ==> r.le_spec(x)
            &&& x.numer() * den <= num * x.denom() ==> x.le_spec(r)
        }),
{
    lemma_round_trip(x);
    lemma_on_grid(n, d, e);
    let num = double::num_at(n, e, 0);
    let den = double::den_at(d, e, 0);
    if num * x.denom() <= x.numer() * den {
        lemma_round_monotone(n, d, e, x.significand(), 1, x.exponent());
    }
    if x.numer() * den <= num * x.denom() {
        lemma_round_monotone(x.significand(), 1, x.exponent(), n, d, e);
    }
}

/// A rounded product does not pass a number that the exact product does not
/// pass: it is at most every number that the exact product is at most, and at
/// least every number that the exact product is at least.
pub proof fn a_product_keeps_to_bounds(a: Double, b: Double, x: Double)
    requires
        a.finite() && !a.is_negative_spec(),
        b.finite() && !b.is_negative_spec(),
        x.finite() && !x.is_negative_spec(),
    ensures
        (a.numer() * b.numer()) * x.denom() <= x.numer() * (a.denom() * b.denom())
            ==> Double::product(a, b).le_spec(x),
        x.numer() * (a.denom() * b.denom()) <= (a.numer() * b.numer()) * x.denom() ==> x.le_spec(
            Double::product(a, b),
        ),
{
    let n = a.significand() * b.significand();
    let e = a.exponent() + b.exponent();
    lemma_round_trip(a);
    lemma_round_trip(b);
    lemma_product_value(a, b);
    double::lemma_den_positive(1, e, 0);
    lemma_keeps_to_bounds(n, 1, e, x);
    let bottom = a.denom() * b.denom();
    assert(bottom > 0) by (nonlinear_arith)
        requires
            a.denom() > 0,
            b.denom() > 0,
            bottom == a.denom() * b.denom(),
    ;
    lemma_equal_ratios(
        double::num_at(n, e, 0) as int,
        double::den_at(1, e, 0) as int,
        (a.numer() * b.numer()) as int,
        bottom as int,
        x.numer() as int,
        x.denom() as int,
    );
}

/// A rounded quotient does not pass a number that the exact quotient does not
/// pass.
pub proof fn a_quotient_keeps_to_bounds(a: Double, b: Double, x: Double)
    requires
        a.finite() && !a.is_negative_spec(),
        b.finite() && !b.is_negative_spec(),
        b.magnitude() > 0,
        x.finite() && !x.is_negative_spec(),
    ensures
        (a.numer() * b.denom()) * x.denom() <= x.numer() * (a.denom() * b.numer())
            ==> Double::quotient(a, b).le_spec(x),
        x.numer() * (a.denom() * b.numer()) <= (a.numer() * b.denom()) * x.denom() ==> x.le_spec(
            Double::quotient(a, b),
        ),
{
    let e = a.exponent() - b.exponent();
    lemma_round_trip(a);
    lemma_round_trip(b);
    lemma_quotient_value(a, b);
    double::lemma_den_positive(b.significand(), e, 0);
    lemma_keeps_to_bounds(a.significand(), b.significand(), e, x);
    let bottom = a.denom() * b.numer();
    assert(bottom > 0) by (nonlinear_arith)
        requires
            a.denom() > 0,
            b.numer() > 0,
            bottom == a.denom() * b.numer(),
    ;
    lemma_equal_ratios(
        double::num_at(a.significand(), e, 0) as int,
        double::den_at(b.significand(), e, 0) as int,
        (a.numer() * b.denom()) as int,
        bottom as int,
        x.numer() as int,
        x.denom() as int,
    );
}

/// An integer does not pass, by rounding, a number that it does not pass
/// itself, and one below `2^53` is a number as it stands.
pub proof fn an_integer_keeps_to_bounds(n: nat, x: Double)
    requires
        x.finite() && !x.is_negative_spec(),
    ensures
        n * x.denom() <= x.numer() ==> Double::of_nat(n).le_spec(x),
        x.numer() <= n * x.denom() ==> x.le_spec(Double::of_nat(n)),
        n < TWO53 ==> Double::of_nat(n).finite() && !Double::of_nat(n).is_negative_spec()
            && Double::of_nat(n).numer() == n * Double::of_nat(n).denom(),
{
    double::lemma_pow2_significand();
    lemma_keeps_to_bounds(n, 1, 0, x);
    assert(double::num_at(n, 0, 0) == n && double::den_at(1, 0, 0) == 1) by {
        assert(n * 1 == n);
    }
    assert(x.numer() * 1 == x.numer());
    if 0 < n < TWO53 {
        lemma_exact(n, 0);
        assert(Double::of_nat(n).numer() * 1 == Double::of_nat(n).numer());
    }
    if n == 0 {
        let z = Double::of_nat(0);
        let zero = Double::zero();
        assert(zero.numer() == 0) by {
            lemma_round_trip(zero);
        }
        lemma_keeps_to_bounds(0, 1, 0, zero);
        assert(0 * zero.denom() == 0);
        assert(z.le_spec(zero));
        assert(z.magnitude() == 0);
        lemma_round_trip(z);
    }
}

/// Within the range of the normal numbers, rounding changes a value by at most
/// one part in `2^53`.
pub(crate) proof fn lemma_relative_error(n: nat, d: nat, e: int)
    requires
        d > 0,
        2 * TWO52 < double::round_bits(n, d, e) < INFINITY_BITS,
    ensures
        ({
            let r = Double { bits: double::round_bits(n, d, e) as u64 };
            let num = double::num_at(n, e, 0);
            let den = double::den_at(d, e, 0);
            &&& (TWO53 - 1) * (num * r.denom()) <= TWO53 * (r.numer() * den)
            &&& TWO53 * (r.numer() * den) <= (TWO53 + 1) * (num * r.denom())
        }),
{
    let r = Double { bits: double::round_bits(n, d, e) as u64 };
    let (t, h) = lemma_on_grid(n, d, e);
    let num = double::num_at(n, e, t);
    let den = double::den_at(d, e, t);
    vstd::arithmetic::div_mod::lemma_fundamental_div_mod(num as int, den as int);
    let q = num / den;
    let rest = num % den;
    assert(t > -1074);
    let top = TWO53 as nat;
    assert(2 * (h * den) >= 2 * num - den && 2 * (h * den) <= 2 * num + den) by (nonlinear_arith)
        requires
            num == den * q + rest,
            0 <= rest < den,
            h == q && 2 * rest <= den || h == q + 1 && 2 * rest >= den,
    ;
    assert((top - 1) * num <= top * (h * den) && top * (h * den) <= (top + 1) * num)
        by (nonlinear_arith)
        requires
            2 * (h * den) >= 2 * num - den,
            2 * (h * den) <= 2 * num + den,
            num >= TWO52 * den,
            top == 2 * TWO52,
    ;
    double::lemma_pattern_value(r, t, h);
    lemma_error_at_units(n, d, e, t, h);
    if r.exponent() == t + 1 {
        double::lemma_pow2_significand();
        lemma_same_value(TWO52 as nat, t + 1, t);
        double::lemma_den_positive(1, t, 0);
        double::lemma_den_positive(1, t + 1, 0);
        let x = double::num_at(h, t, 0) as int;
        let y = double::den_at(1, t, 0) as int;
        let num0 = double::num_at(n, e, 0) as int;
        let den0 = double::den_at(d, e, 0) as int;
        assert(x * r.denom() == r.numer() * y);
        lemma_swap_ratio(x, y, r.numer() as int, r.denom() as int, num0, den0);
    }
}

proof fn lemma_swap_ratio(x: int, y: int, u: int, v: int, num: int, den: int)
    requires
        x * v == u * y,
        y > 0,
        v > 0,
        (TWO53 - 1) * (num * y) <= TWO53 * (x * den),
        TWO53 * (x * den) <= (TWO53 + 1) * (num * y),
    ensures
        (TWO53 - 1) * (num * v) <= TWO53 * (u * den),
        TWO53 * (u * den) <= (TWO53 + 1) * (num * v),
{
    assert((u * den) * y == (x * den) * v) by (nonlinear_arith)
        requires
            x * v == u * y,
    ;
    assert((num * v) * y == (num * y) * v) by (nonlinear_arith);
    let a = (TWO53 - 1) * (num * v);
    let b = TWO53 * (u * den);
    let c = (TWO53 + 1) * (num * v);
    let a1 = (TWO53 - 1) * (num * y);
    let b1 = TWO53 * (x * den);
    let c1 = (TWO53 + 1) * (num * y);
    assert(a * y == a1 * v && b * y == b1 * v && c * y == c1 * v) by (nonlinear_arith)
        requires
            (u * den) * y == (x * den) * v,
            (num * v) * y == (num * y) * v,
            a == (TWO53 - 1) * (num * v),
            b == TWO53 * (u * den),
            c == (TWO53 + 1) * (num * v),
            a1 == (TWO53 - 1) * (num * y),
            b1 == TWO53 * (x * den),
            c1 == (TWO53 + 1) * (num * y),
    ;
    lemma_scaled_order(a1, b1, v);
    lemma_scaled_order(b1, c1, v);
    lemma_scaled_order(a, b, y);
    lemma_scaled_order(b, c, y);
}

/// An error of one part in `2^53` is one whatever the unit.
proof fn lemma_error_at_units(n: nat, d: nat, e: int, t: int, h: nat)
    requires
        d > 0,
        (TWO53 - 1) * double::num_at(n, e, t) <= TWO53 * (h * double::den_at(d, e, t)),
        TWO53 * (h * double::den_at(d, e, t)) <= (TWO53 + 1) * double::num_at(n, e, t),
    ensures
        (TWO53 - 1) * (double::num_at(n, e, 0) * double::den_at(1, t, 0)) <= TWO53 * (
        double::num_at(h, t, 0) * double::den_at(d, e, 0)),
        TWO53 * (double::num_at(h, t, 0) * double::den_at(d, e, 0)) <= (TWO53 + 1) * (
        double::num_at(n, e, 0) * double::den_at(1, t, 0)),
{
    lemma_scaled_compare(n, d, e, h, t, (TWO53 - 1) as nat, TWO53 as nat);
    lemma_scaled_compare(n, d, e, h, t, (TWO53 + 1) as nat, TWO53 as nat);
}

proof fn lemma_scaled_compare(n: nat, d: nat, e: int, h: nat, t: int, a: nat, b: nat)
    requires
        d > 0,
        b > 0,
    ensures
        a * double::num_at(n, e, t) <= b * (h * double::den_at(d, e, t)) <==> a * (double::num_at(
            n,
            e,
            0,
        ) * double::den_at(1, t, 0)) <= b * (double::num_at(h, t, 0) * double::den_at(d, e, 0)),
        b * (h * double::den_at(d, e, t)) <= a * double::num_at(n, e, t) <==> b * (double::num_at(
            h,
            t,
            0,
        ) * double::den_at(d, e, 0)) <= a * (double::num_at(n, e, 0) * double::den_at(1, t, 0)),
{
    let n1 = a * n;
    let d1 = b * d;
    assert(d1 > 0) by (nonlinear_arith)
        requires
            b > 0,
            d > 0,
            d1 == b * d,
    ;
    lemma_scale_parts(n, d, e, t, a, b);
    lemma_scale_parts(n, d, e, 0, a, b);
    double::lemma_pow2_significand();
    assert(double::num_at(h, t, t) == h && double::den_at(1, t, t) == 1) by {
        assert(h * 1 == h);
    }
    if t <= 0 {
        lemma_compare_units(n1, d1, e, h, 1, t, t, 0);
        lemma_compare_units(h, 1, t, n1, d1, e, t, 0);
    } else {
        lemma_compare_units(n1, d1, e, h, 1, t, 0, t);
        lemma_compare_units(h, 1, t, n1, d1, e, 0, t);
    }
    let num = double::num_at(n, e, t);
    let den = double::den_at(d, e, t);
    let num0 = double::num_at(n, e, 0);
    let den0 = double::den_at(d, e, 0);
    let x = double::num_at(h, t, 0);
    let y = double::den_at(1, t, 0);
    assert((a * num) * 1 == a * num);
    assert(h * (b * den) == b * (h * den)) by (nonlinear_arith);
    assert((a * num0) * y == a * (num0 * y)) by (nonlinear_arith);
    assert(x * (b * den0) == b * (x * den0)) by (nonlinear_arith);
}

proof fn lemma_scale_parts(n: nat, d: nat, e: int, t: int, a: nat, b: nat)
    ensures
        double::num_at(a * n, e, t) == a * double::num_at(n, e, t),
        double::den_at(b * d, e, t) == b * double::den_at(d, e, t),
{
    if e >= t {
        let p = vstd::arithmetic::power2::pow2((e - t) as nat);
        assert((a * n) * p == a * (n * p)) by (nonlinear_arith);
    } else {
        let p = vstd::arithmetic::power2::pow2((t - e) as nat);
        assert((b * d) * p == b * (d * p)) by (nonlinear_arith);
    }
}

/// A product in the range of the normal numbers is off by at most one part in
/// `2^53`.
pub proof fn a_product_is_close(a: Double, b: Double)
    requires
        a.finite() && !a.is_negative_spec(),
        b.finite() && !b.is_negative_spec(),
        2 * TWO52 < Double::product(a, b).magnitude() < INFINITY_BITS,
    ensures
        ({
            let r = Double::product(a, b);
            let exact = (a.numer() * b.numer()) * r.denom();
            let got = r.numer() * (a.denom() * b.denom());
            (TWO53 - 1) * exact <= TWO53 * got && TWO53 * got <= (TWO53 + 1) * exact
        }),
{
    let n = a.significand() * b.significand();
    let e = a.exponent() + b.exponent();
    lemma_round_trip(a);
    lemma_round_trip(b);
    lemma_product_value(a, b);
    lemma_on_grid(n, 1, e);
    lemma_relative_error(n, 1, e);
    double::lemma_den_positive(1, e, 0);
    let bottom = a.denom() * b.denom();
    assert(bottom > 0) by (nonlinear_arith)
        requires
            a.denom() > 0,
            b.denom() > 0,
            bottom == a.denom() * b.denom(),
    ;
    lemma_exact_swap(
        double::num_at(n, e, 0) as int,
        double::den_at(1, e, 0) as int,
        (a.numer() * b.numer()) as int,
        bottom as int,
        Double::product(a, b).numer() as int,
        Double::product(a, b).denom() as int,
    );
}

/// A quotient in the range of the normal numbers is off by at most one part in
/// `2^53`.
pub proof fn a_quotient_is_close(a: Double, b: Double)
    requires
        a.finite() && !a.is_negative_spec(),
        b.finite() && !b.is_negative_spec(),
        b.magnitude() > 0,
        2 * TWO52 < Double::quotient(a, b).magnitude() < INFINITY_BITS,
    ensures
        ({
            let r = Double::quotient(a, b);
            let exact = (a.numer() * b.denom()) * r.denom();
            let got = r.numer() * (a.denom() * b.numer());
            (TWO53 - 1) * exact <= TWO53 * got && TWO53 * got <= (TWO53 + 1) * exact
        }),
{
    let e = a.exponent() - b.exponent();
    lemma_round_trip(a);
    lemma_round_trip(b);
    lemma_quotient_value(a, b);
    lemma_on_grid(a.significand(), b.significand(), e);
    lemma_relative_error(a.significand(), b.significand(), e);
    double::lemma_den_positive(b.significand(), e, 0);
    let bottom = a.denom() * b.numer();
    assert(bottom > 0) by (nonlinear_arith)
        requires
            a.denom() > 0,
            b.numer() > 0,
            bottom == a.denom() * b.numer(),
    ;
    lemma_exact_swap(
        double::num_at(a.significand(), e, 0) as int,
        double::den_at(b.significand(), e, 0) as int,
        (a.numer() * b.denom()) as int,
        bottom as int,
        Double::quotient(a, b).numer() as int,
        Double::quotient(a, b).denom() as int,
    );
}

proof fn lemma_exact_swap(num: int, den: int, n: int, d: int, x: int, y: int)
    requires
        den > 0,
        d > 0,
        num * d == n * den,
        (TWO53 - 1) * (num * y) <= TWO53 * (x * den),
        TWO53 * (x * den) <= (TWO53 + 1) * (num * y),
    ensures
        (TWO53 - 1) * (n * y) <= TWO53 * (x * d),
        TWO53 * (x * d) <= (TWO53 + 1) * (n * y),
{
    let a = (TWO53 - 1) * (num * y);
    let b = TWO53 * (x * den);
    let c = (TWO53 + 1) * (num * y);
    let a1 = (TWO53 - 1) * (n * y);
    let b1 = TWO53 * (x * d);
    let c1 = (TWO53 + 1) * (n * y);
    assert((num * y) * d == (n * y) * den) by (nonlinear_arith)
        requires
            num * d == n * den,
    ;
    assert(a * d == a1 * den && b * d == b1 * den && c * d == c1 * den) by (nonlinear_arith)
        requires
            (num * y) * d == (n * y) * den,
            a == (TWO53 - 1) * (num * y),
            b == TWO53 * (x * den),
            c == (TWO53 + 1) * (num * y),
            a1 == (TWO53 - 1) * (n * y),
            b1 == TWO53 * (x * d),
            c1 == (TWO53 + 1) * (n * y),
    ;
    lemma_scaled_order(a, b, d);
    lemma_scaled_order(b, c, d);
    lemma_scaled_order(a1, b1, den);
    lemma_scaled_order(b1, c1, den);
}

/// A larger dividend gives no smaller quotient.
pub proof fn a_quotient_is_monotone(a: Double, c: Double, b: Double)
    requires
        a.finite() && !a.is_negative_spec(),
        c.finite() && !c.is_negative_spec(),
        b.finite() && !b.is_negative_spec(),
        b.magnitude() > 0,
        a.le_spec(c),
    ensures
        Double::quotient(a, b).le_spec(Double::quotient(c, b)),
{
    numbers_order_as_their_values(a, c);
    lemma_round_trip(a);
    lemma_round_trip(b);
    lemma_round_trip(c);
    lemma_quotient_value(a, b);
    lemma_quotient_value(c, b);
    let e1 = a.exponent() - b.exponent();
    let e2 = c.exponent() - b.exponent();
    let sb = b.significand();
    double::lemma_den_positive(sb, e1, 0);
    double::lemma_den_positive(sb, e2, 0);
    let n1 = double::num_at(a.significand(), e1, 0) as int;
    let d1 = double::den_at(sb, e1, 0) as int;
    let n2 = double::num_at(c.significand(), e2, 0) as int;
    let d2 = double::den_at(sb, e2, 0) as int;
    let x1 = (a.numer() * b.denom()) as int;
    let y1 = (a.denom() * b.numer()) as int;
    let x2 = (c.numer() * b.denom()) as int;
    let y2 = (c.denom() * b.numer()) as int;
    let g = (b.denom() * b.numer()) as int;
    assert(y1 > 0 && y2 > 0 && g > 0) by (nonlinear_arith)
        requires
            y1 == a.denom() * b.numer(),
            y2 == c.denom() * b.numer(),
            g == b.denom() * b.numer(),
            a.denom() > 0,
            b.denom() > 0,
            c.denom() > 0,
            b.numer() > 0,
    ;
    assert(x1 * y2 == (a.numer() * c.denom()) * g && x2 * y1 == (c.numer() * a.denom()) * g)
        by (nonlinear_arith)
        requires
            x1 == a.numer() * b.denom(),
            y1 == a.denom() * b.numer(),
            x2 == c.numer() * b.denom(),
            y2 == c.denom() * b.numer(),
            g == b.denom() * b.numer(),
    ;
    lemma_scaled_order((a.numer() * c.denom()) as int, (c.numer() * a.denom()) as int, g);
    lemma_equal_ratios(n1, d1, x1, y1, x2, y2);
    lemma_equal_ratios(n2, d2, x2, y2, n1, d1);
    assert(x1 * y2 <= x2 * y1);
    assert(n1 * y2 <= x2 * d1);
    assert(n1 * d2 <= n2 * d1);
    lemma_round_monotone(a.significand(), sb, e1, c.significand(), sb, e2);
    lemma_on_grid(a.significand(), sb, e1);
    lemma_on_grid(c.significand(), sb, e2);
}

/// A number divided by itself is one.
pub proof fn a_number_over_itself_is_one(x: Double)
    requires
        x.finite() && !x.is_negative_spec(),
        x.magnitude() > 0,
    ensures
        Double::quotient(x, x) == Double::of_nat(1),
{
    let one = Double::of_nat(1);
    an_integer_keeps_to_bounds(1, Double::zero());
    lemma_round_trip(one);
    assert((x.numer() * x.denom()) * one.denom() == one.numer() * (x.denom() * x.numer()))
        by (nonlinear_arith)
        requires
            one.numer() == 1 * one.denom(),
    ;
    a_quotient_keeps_to_bounds(x, x, one);
}

/// A number times a factor of at most one is at most the number.
pub proof fn a_fraction_of_a_number_is_no_more(x: Double, f: Double)
    requires
        x.finite() && !x.is_negative_spec(),
        f.finite() && !f.is_negative_spec(),
        f.le_spec(Double::of_nat(1)),
    ensures
        Double::product(x, f).le_spec(x),
        Double::product(x, f).finite(),
        !Double::product(x, f).is_negative_spec(),
{
    let one = Double::of_nat(1);
    an_integer_keeps_to_bounds(1, Double::zero());
    lemma_round_trip(one);
    lemma_round_trip(f);
    lemma_round_trip(x);
    numbers_order_as_their_values(f, one);
    assert(f.numer() <= f.denom()) by (nonlinear_arith)
        requires
            f.numer() * one.denom() <= one.numer() * f.denom(),
            one.numer() == 1 * one.denom(),
            one.denom() > 0,
    ;
    assert((x.numer() * f.numer()) * x.denom() <= x.numer() * (x.denom() * f.denom()))
        by (nonlinear_arith)
        requires
            f.numer() <= f.denom(),
    ;
    a_product_keeps_to_bounds(x, f, x);
    lemma_on_grid(x.significand() * f.significand(), 1, x.exponent() + f.exponent());
}

/// The exact sum of two numbers that are not negative is the sum of their
/// values.
proof fn lemma_sum_value(a: Double, b: Double) -> (r: (nat, int))
    requires
        a.finite() && !a.is_negative_spec(),
        b.finite() && !b.is_negative_spec(),
    ensures
        Double::sum(a, b) == (Double { bits: double::round_bits(r.0, 1, r.1) as u64 }),
        double::num_at(r.0, r.1, 0) * (a.denom() * b.denom()) == (a.numer() * b.denom() + b.numer()
            * a.denom()) * double::den_at(1, r.1, 0),
{
    let e = if a.exponent() <= b.exponent() {
        a.exponent()
    } else {
        b.exponent()
    };
    let x = a.significand() * vstd::arithmetic::power2::pow2((a.exponent() - e) as nat);
    let y = b.significand() * vstd::arithmetic::power2::pow2((b.exponent() - e) as nat);
    let s = (x + y) as nat;
    assert(x >= 0 && y >= 0) by (nonlinear_arith)
        requires
            x == a.significand() * vstd::arithmetic::power2::pow2((a.exponent() - e) as nat),
            y == b.significand() * vstd::arithmetic::power2::pow2((b.exponent() - e) as nat),
    ;
    lemma_same_value(a.significand(), a.exponent(), e);
    lemma_same_value(b.significand(), b.exponent(), e);
    let u = double::num_at(x, e, 0);
    let v = double::num_at(y, e, 0);
    assert(double::num_at(s, e, 0) == u + v) by {
        if e >= 0 {
            let p = vstd::arithmetic::power2::pow2(e as nat);
            assert((x + y) * p == x * p + y * p) by (nonlinear_arith);
        }
    }
    let den = double::den_at(1, e, 0);
    assert((u + v) * (a.denom() * b.denom()) == (a.numer() * b.denom() + b.numer() * a.denom())
        * den) by (nonlinear_arith)
        requires
            u * a.denom() == a.numer() * den,
            v * b.denom() == b.numer() * den,
    ;
    (s, e)
}

/// A rounded sum does not pass a number that the exact sum does not pass.
pub proof fn a_sum_keeps_to_bounds(a: Double, b: Double, x: Double)
    requires
        a.finite() && !a.is_negative_spec(),
        b.finite() && !b.is_negative_spec(),
        x.finite() && !x.is_negative_spec(),
    ensures
        (a.numer() * b.denom() + b.numer() * a.denom()) * x.denom() <= x.numer() * (a.denom()
            * b.denom()) ==> Double::sum(a, b).le_spec(x),
        x.numer() * (a.denom() * b.denom()) <= (a.numer() * b.denom() + b.numer() * a.denom())
            * x.denom() ==> x.le_spec(Double::sum(a, b)),
        !Double::sum(a, b).is_negative_spec(),
        !Double::sum(a, b).nan(),
{
    lemma_round_trip(a);
    lemma_round_trip(b);
    let (s, e) = lemma_sum_value(a, b);
    double::lemma_den_positive(1, e, 0);
    lemma_keeps_to_bounds(s, 1, e, x);
    let bottom = a.denom() * b.denom();
    assert(bottom > 0) by (nonlinear_arith)
        requires
            a.denom() > 0,
            b.denom() > 0,
            bottom == a.denom() * b.denom(),
    ;
    lemma_equal_ratios(
        double::num_at(s, e, 0) as int,
        double::den_at(1, e, 0) as int,
        (a.numer() * b.denom() + b.numer() * a.denom()) as int,
        bottom as int,
        x.numer() as int,
        x.denom() as int,
    );
}

/// A sum of numbers that are not negative is at least either of them.
pub proof fn a_sum_is_no_less(a: Double, b: Double)
    requires
        a.finite() && !a.is_negative_spec(),
        b.finite() && !b.is_negative_spec(),
    ensures
        a.le_spec(Double::sum(a, b)),
        b.le_spec(Double::sum(a, b)),
{
    assert(a.numer() * (a.denom() * b.denom()) <= (a.numer() * b.denom() + b.numer() * a.denom())
        * a.denom()) by (nonlinear_arith);
    assert(b.numer() * (a.denom() * b.denom()) <= (a.numer() * b.denom() + b.numer() * a.denom())
        * b.denom()) by (nonlinear_arith);
    a_sum_keeps_to_bounds(a, b, a);
    a_sum_keeps_to_bounds(a, b, b);
}

/// Numbers of at most one, added up one after the other, do not pass `2^53`:
/// there an addend of one is lost in rounding.
pub proof fn small_addends_stay_below(a: Double, b: Double)
    requires
        a.finite() && !a.is_negative_spec(),
        b.finite() && !b.is_negative_spec(),
        a.le_spec(Double::of_nat(TWO53 as nat)),
        b.le_spec(Double::of_nat(1)),
    ensures
        Double::of_nat(TWO53 as nat).finite(),
        Double::sum(a, b).le_spec(Double::of_nat(TWO53 as nat)),
        Double::sum(a, b).finite(),
        !Double::sum(a, b).is_negative_spec(),
{
    let top = Double::of_nat(TWO53 as nat);
    let one = Double::of_nat(1);
    let w = TWO53 as nat;
    double::lemma_pow2_significand();
    assert(double::is_grid(w, 1, 0, 1));
    double::lemma_grid_unique(w, 1, 0, 1);
    assert(w / 2 == TWO52 && w % 2 == 0);
    assert(double::is_grid(w + 1, 1, 0, 1));
    double::lemma_grid_unique(w + 1, 1, 0, 1);
    assert((w + 1) / 2 == TWO52 && (w + 1) % 2 == 1);
    assert(double::round_bits(w + 1, 1, 0) == double::round_bits(w, 1, 0));
    assert(top.finite() && !top.is_negative_spec());
    double::lemma_pattern_value(top, 1, TWO52 as nat);
    assert(top.numer() == w && top.denom() == 1);
    an_integer_keeps_to_bounds(1, Double::zero());
    lemma_round_trip(one);
    lemma_round_trip(a);
    lemma_round_trip(b);
    numbers_order_as_their_values(a, top);
    numbers_order_as_their_values(b, one);
    let (s, e) = lemma_sum_value(a, b);
    double::lemma_den_positive(1, e, 0);
    let num = double::num_at(s, e, 0);
    let den = double::den_at(1, e, 0);
    assert(b.numer() <= b.denom()) by (nonlinear_arith)
        requires
            b.numer() * one.denom() <= one.numer() * b.denom(),
            one.numer() == 1 * one.denom(),
            one.denom() > 0,
    ;
    let bottom = a.denom() * b.denom();
    assert(bottom > 0) by (nonlinear_arith)
        requires
            a.denom() > 0,
            b.denom() > 0,
            bottom == a.denom() * b.denom(),
    ;
    assert(a.numer() * b.denom() + b.numer() * a.denom() <= (w + 1) * bottom) by (nonlinear_arith)
        requires
            a.numer() * 1 <= w * a.denom(),
            b.numer() <= b.denom(),
            bottom == a.denom() * b.denom(),
    ;
    assert(num * 1 <= (w + 1) * den) by (nonlinear_arith)
        requires
            num * bottom == (a.numer() * b.denom() + b.numer() * a.denom()) * den,
            a.numer() * b.denom() + b.numer() * a.denom() <= (w + 1) * bottom,
            bottom > 0,
            den > 0,
    ;
    assert(double::num_at(w + 1, 0, 0) == w + 1);
    lemma_round_monotone(s, 1, e, w + 1, 1, 0);
}

/// The least value that `ordinary` speaks of is one part in this many.
pub const ORDINARY_LOW: u64 = 0x4000_0000;

/// The largest value that `ordinary` speaks of.
pub const ORDINARY_HIGH: u64 = 0x100_0000_0000;

/// Whether `num / den` is neither tiny nor huge.
pub open spec fn ordinary(num: nat, den: nat) -> bool {
    num * ORDINARY_LOW >= den && num <= ORDINARY_HIGH * den
}

/// The numbers that bound the ordinary values.
proof fn lemma_ordinary_bounds() -> (r: (Double, Double))
    ensures
        r.0.finite() && !r.0.is_negative_spec(),
        r.1.finite() && !r.1.is_negative_spec(),
        r.0.numer() * ORDINARY_LOW == r.0.denom(),
        r.1.numer() == ORDINARY_HIGH * r.1.denom(),
        forall|x: Double|
            #[trigger] r.0.le_spec(x) && r.1.magnitude() >= x.magnitude() && !x.is_negative_spec()
                ==> 2 * TWO52 < x.magnitude() < INFINITY_BITS,
{
    let low = Double { bits: double::round_bits(1, 1, -30) as u64 };
    let high = Double::of_nat(ORDINARY_HIGH as nat);
    double::lemma_pow2_significand();
    vstd::arithmetic::power2::lemma2_to64();
    lemma_exact(1, -30);
    an_integer_keeps_to_bounds(ORDINARY_HIGH as nat, Double::zero());
    assert(1 * low.denom() == low.denom());
    let k = (-30 - low.exponent()) as nat;
    if k > 53 {
        double::lemma_pow2_monotone(53, k);
    }
    assert(low.magnitude() > 2 * TWO52) by {
        assert(low.exponent() >= -83);
    }
    (low, high)
}

/// A quotient of an ordinary value is off by at most one part in `2^53`.
pub(crate) proof fn lemma_ordinary_quotient(a: Double, b: Double)
    requires
        a.finite() && !a.is_negative_spec(),
        b.finite() && !b.is_negative_spec(),
        b.magnitude() > 0,
        ordinary(a.numer() * b.denom(), a.denom() * b.numer()),
    ensures
        ({
            let r = Double::quotient(a, b);
            let exact = (a.numer() * b.denom()) * r.denom();
            let got = r.numer() * (a.denom() * b.numer());
            &&& r.finite() && !r.is_negative_spec() && r.magnitude() > 0
            &&& (TWO53 - 1) * exact <= TWO53 * got && TWO53 * got <= (TWO53 + 1) * exact
        }),
{
    let (low, high) = lemma_ordinary_bounds();
    let n = a.numer() * b.denom();
    let d = a.denom() * b.numer();
    assert(low.numer() * d <= n * low.denom()) by (nonlinear_arith)
        requires
            n * ORDINARY_LOW >= d,
            low.numer() * ORDINARY_LOW == low.denom(),
    ;
    assert(n * high.denom() <= high.numer() * d) by (nonlinear_arith)
        requires
            n <= ORDINARY_HIGH * d,
            high.numer() == ORDINARY_HIGH * high.denom(),
    ;
    a_quotient_keeps_to_bounds(a, b, low);
    a_quotient_keeps_to_bounds(a, b, high);
    let e = a.exponent() - b.exponent();
    lemma_round_trip(b);
    lemma_on_grid(a.significand(), b.significand(), e);
    a_quotient_is_close(a, b);
}

/// A product of an ordinary value is off by at most one part in `2^53`.
pub(crate) proof fn lemma_ordinary_product(a: Double, b: Double)
    requires
        a.finite() && !a.is_negative_spec(),
        b.finite() && !b.is_negative_spec(),
        ordinary(a.numer() * b.numer(), a.denom() * b.denom()),
    ensures
        ({
            let r = Double::product(a, b);
            let exact = (a.numer() * b.numer()) * r.denom();
            let got = r.numer() * (a.denom() * b.denom());
            &&& r.finite() && !r.is_negative_spec() && r.magnitude() > 0
            &&& (TWO53 - 1) * exact <= TWO53 * got && TWO53 * got <= (TWO53 + 1) * exact
        }),
{
    let (low, high) = lemma_ordinary_bounds();
    let n = a.numer() * b.numer();
    let d = a.denom() * b.denom();
    assert(low.numer() * d <= n * low.denom()) by (nonlinear_arith)
        requires
            n * ORDINARY_LOW >= d,
            low.numer() * ORDINARY_LOW == low.denom(),
    ;
    assert(n * high.denom() <= high.numer() * d) by (nonlinear_arith)
        requires
            n <= ORDINARY_HIGH * d,
            high.numer() == ORDINARY_HIGH * high.denom(),
    ;
    a_product_keeps_to_bounds(a, b, low);
    a_product_keeps_to_bounds(a, b, high);
    let e = a.exponent() + b.exponent();
    lemma_on_grid(a.significand() * b.significand(), 1, e);
    a_product_is_close(a, b);
}

/// A larger factor gives no smaller product.
pub proof fn a_product_is_monotone(a: Double, c: Double, b: Double)
    requires
        a.finite() && !a.is_negative_spec(),
        c.finite() && !c.is_negative_spec(),
        b.finite() && !b.is_negative_spec(),
        a.le_spec(c),
    ensures
        Double::product(a, b).le_spec(Double::product(c, b)),
{
    numbers_order_as_their_values(a, c);
    lemma_round_trip(a);
    lemma_round_trip(b);
    lemma_round_trip(c);
    lemma_product_value(a, b);
    lemma_product_value(c, b);
    let e1 = a.exponent() + b.exponent();
    let e2 = c.exponent() + b.exponent();
    let s1 = a.significand() * b.significand();
    let s2 = c.significand() * b.significand();
    double::lemma_den_positive(1, e1, 0);
    double::lemma_den_positive(1, e2, 0);
    let n1 = double::num_at(s1, e1, 0) as int;
    let d1 = double::den_at(1, e1, 0) as int;
    let n2 = double::num_at(s2, e2, 0) as int;
    let d2 = double::den_at(1, e2, 0) as int;
    let x1 = (a.numer() * b.numer()) as int;
    let y1 = (a.denom() * b.denom()) as int;
    let x2 = (c.numer() * b.numer()) as int;
    let y2 = (c.denom() * b.denom()) as int;
    let g = (b.numer() * b.denom()) as int;
    assert(y1 > 0 && y2 > 0 && g >= 0) by (nonlinear_arith)
        requires
            y1 == a.denom() * b.denom(),
            y2 == c.denom() * b.denom(),
            g == b.numer() * b.denom(),
            a.denom() > 0,
            b.denom() > 0,
            c.denom() > 0,
            b.numer() >= 0,
    ;
    let u = (a.numer() * c.denom()) as int;
    let v = (c.numer() * a.denom()) as int;
    assert(x1 * y2 == u * g && x2 * y1 == v * g) by (nonlinear_arith)
        requires
            u == a.numer() * c.denom(),
            v == c.numer() * a.denom(),
            x1 == a.numer() * b.numer(),
            y1 == a.denom() * b.denom(),
            x2 == c.numer() * b.numer(),
            y2 == c.denom() * b.denom(),
            g == b.numer() * b.denom(),
    ;
    assert(u * g <= v * g) by (nonlinear_arith)
        requires
            u <= v,
            g >= 0,
    ;
    lemma_equal_ratios(n1, d1, x1, y1, x2, y2);
    lemma_equal_ratios(n2, d2, x2, y2, n1, d1);
    lemma_round_monotone(s1, 1, e1, s2, 1, e2);
    lemma_on_grid(s1, 1, e1);
    lemma_on_grid(s2, 1, e2);
}

/// Integers below `2^53` order as the numbers that they are rounded to.
pub proof fn integers_order_as_numbers(a: nat, b: nat)
    requires
        a < TWO53,
        b < TWO53,
    ensures
        Double::of_nat(a).lt_spec(Double::of_nat(b)) <==> a < b,
        Double::of_nat(a).le_spec(Double::of_nat(b)) <==> a <= b,
        Double::of_nat(a) == Double::of_nat(b) <==> a == b,
{
    let x = Double::of_nat(a);
    let y = Double::of_nat(b);
    an_integer_keeps_to_bounds(a, Double::zero());
    an_integer_keeps_to_bounds(b, Double::zero());
    lemma_round_trip(x);
    lemma_round_trip(y);
    numbers_order_as_their_values(x, y);
    let k = (x.denom() * y.denom()) as int;
    assert(k > 0) by (nonlinear_arith)
        requires
            k == x.denom() * y.denom(),
            x.denom() > 0,
            y.denom() > 0,
    ;
    assert(x.numer() * y.denom() == a * k && y.numer() * x.denom() == b * k) by (nonlinear_arith)
        requires
            x.numer() == a * x.denom(),
            y.numer() == b * y.denom(),
            k == x.denom() * y.denom(),
    ;
    lemma_scaled_order(a as int, b as int, k);
    lemma_scaled_order(b as int, a as int, k);
}

/// Rounding a ratio to an integer takes the nearest one, and of two that are
/// equally near the even one.
pub proof fn rounding_is_to_the_nearest_even(num: nat, den: nat)
    requires
        den > 0,
    ensures
        ({
            let h = double::half_even(num, den);
            &&& 2 * num <= 2 * (h * den) + den
            &&& 2 * (h * den) <= 2 * num + den
            &&& 2 * num == 2 * (h * den) + den || 2 * (h * den) == 2 * num + den ==> h % 2 == 0
        }),
{
    let q = num / den;
    let rest = num % den;
    let h = double::half_even(num, den);
    vstd::arithmetic::div_mod::lemma_fundamental_div_mod(num as int, den as int);
    if h == q {
        assert(h * den == den * q) by (nonlinear_arith)
            requires
                h == q,
        ;
    } else {
        assert(h * den == den * q + den) by (nonlinear_arith)
            requires
                h == q + 1,
        ;
    }
}

/// Negation turns the order of numbers round, and done twice it gives the number
/// back.
pub proof fn opposites_order_backwards(a: Double, b: Double)
    ensures
        a.opposite().lt_spec(b.opposite()) <==> b.lt_spec(a),
        a.opposite().le_spec(b.opposite()) <==> b.le_spec(a),
        a.opposite().opposite() == a,
{
}

/// Products and quotients do not depend on the signs but for their own, which is
/// negative exactly when the signs differ.
pub proof fn signs_multiply(a: Double, b: Double)
    requires
        a.finite(),
        b.finite(),
        b.magnitude() > 0,
    ensures
        Double::product(a, b).is_negative_spec() <==> a.is_negative_spec() != b.is_negative_spec(),
        Double::quotient(a, b).is_negative_spec() <==> a.is_negative_spec()
            != b.is_negative_spec(),
        Double::product(a.opposite(), b).magnitude() == Double::product(a, b).magnitude(),
        Double::quotient(a.opposite(), b).magnitude() == Double::quotient(a, b).magnitude(),
        Double::product(a, b) == Double::product(b, a),
{
    lemma_round_trip(b);
    let n = a.significand() * b.significand();
    assert(n == b.significand() * a.significand()) by (nonlinear_arith)
        requires
            n == a.significand() * b.significand(),
    ;
    lemma_on_grid(n, 1, a.exponent() + b.exponent());
    lemma_on_grid(a.significand(), b.significand(), a.exponent() - b.exponent());
}

/// The order of the addends makes no difference.
pub proof fn sums_commute(a: Double, b: Double)
    requires
        a.finite(),
        b.finite(),
    ensures
        Double::sum(a, b) == Double::sum(b, a),
{
}

/// A number less itself is zero.
pub proof fn a_number_less_itself_is_zero(a: Double)
    requires
        a.finite(),
        !a.is_negative_spec(),
    ensures
        Double::difference(a, a) == Double::zero(),
{
    let b = a.opposite();
    let e = a.exponent();
    assert(b.significand() == a.significand() && b.exponent() == e && b.finite());
    double::lemma_pow2_significand();
    let m = a.significand() as int;
    assert(m * 1 + (-m) * 1 == 0);
    assert(a.signed_significand() == m);
    assert(b.signed_significand() == -m);
    assert(Double::sum_at(a, b, e) == 0);
    let zero = Double::zero();
    lemma_round_trip(zero);
    lemma_keeps_to_bounds(0, 1, e, zero);
    assert(double::num_at(0, e, 0) == 0) by (nonlinear_arith);
    assert(0 * zero.denom() == 0);
    lemma_on_grid(0, 1, e);
}

} // verus!
