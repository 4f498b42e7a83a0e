//! IEEE 754 binary64 numbers, held as their bit patterns.
//!
//! Rates, ratios and latencies are binary64 numbers in configuration files
//! and in reports. This module computes with them on integers: every result
//! is the exact value of the operation rounded to the nearest number, ties to
//! the even one, which is what the hardware does.

use vstd::prelude::*;

verus! {

/// The first fraction that no longer fits below the implicit leading bit.
pub const TWO52: u64 = 0x10_0000_0000_0000;

/// The bound on a significand.
pub const TWO53: u64 = 0x20_0000_0000_0000;

/// The sign bit.
pub const SIGN_BIT: u64 = 0x8000_0000_0000_0000;

/// The pattern of positive infinity; larger magnitudes are not numbers.
pub const INFINITY_BITS: u64 = 0x7ff0_0000_0000_0000;

/// The pattern of the quiet not-a-number that operations produce.
pub const NAN_BITS: u64 = 0x7ff8_0000_0000_0000;

/// A binary64 number.
#[derive(Clone, Copy, Debug, PartialEq, Eq, Structural)]
pub struct Double {
    /// The IEEE 754 pattern: sign, biased exponent, fraction.
    pub bits: u64,
}

/// The number of binary digits of `n`.
pub open spec fn bit_len(n: nat) -> nat
    decreases n,
{
    if n == 0 {
        0
    } else {
        1 + bit_len(n / 2)
    }
}

/// The numerator of `n * 2^e` measured in units of `2^t`.
pub open spec fn num_at(n: nat, e: int, t: int) -> nat {
    if e >= t {
        n * vstd::arithmetic::power2::pow2((e - t) as nat)
    } else {
        n
    }
}

/// The denominator of `2^e / d` measured in units of `2^t`.
pub open spec fn den_at(d: nat, e: int, t: int) -> nat {
    if e >= t {
        d
    } else {
        d * vstd::arithmetic::power2::pow2((t - e) as nat)
    }
}

/// Whether `2^t` is the spacing of binary64 numbers around `n / d * 2^e`: the
/// value needs no more than 53 digits above it, and no finer spacing would do.
pub open spec fn is_grid(n: nat, d: nat, e: int, t: int) -> bool {
    &&& t >= -1074
    &&& num_at(n, e, t) < TWO53 * den_at(d, e, t)
    &&& t > -1074 ==> num_at(n, e, t) >= TWO52 * den_at(d, e, t)
}

/// The exponent of the spacing of binary64 numbers around `n / d * 2^e`.
pub open spec fn grid(n: nat, d: nat, e: int) -> int {
    choose|t: int| is_grid(n, d, e, t)
}

/// `num / den` rounded to the nearest integer, ties to the even one.
pub open spec fn half_even(num: nat, den: nat) -> nat {
    let q = num / den;
    let r = num % den;
    if 2 * r > den || (2 * r == den && q % 2 == 1) {
        q + 1
    } else {
        q
    }
}

/// The magnitude pattern of `n / d * 2^e` rounded to the nearest binary64
/// number, ties to the even one; infinity when that exceeds every number.
pub open spec fn round_bits(n: nat, d: nat, e: int) -> nat {
    let t = grid(n, d, e);
    let bits = (t + 1074) * TWO52 + half_even(num_at(n, e, t), den_at(d, e, t));
    if bits >= INFINITY_BITS {
        INFINITY_BITS as nat
    } else {
        bits as nat
    }
}

impl Double {
    /// Whether the sign bit is set.
    pub open spec fn is_negative_spec(self) -> bool {
        self.bits >= SIGN_BIT
    }

    /// The pattern without its sign bit. Magnitudes order as the absolute
    /// values they stand for.
    pub open spec fn magnitude(self) -> nat {
        if self.bits >= SIGN_BIT {
            (self.bits - SIGN_BIT) as nat
        } else {
            self.bits as nat
        }
    }

    /// Whether this is not a number.
    pub open spec fn nan(self) -> bool {
        self.magnitude() > INFINITY_BITS
    }

    /// Whether this is an infinity.
    pub open spec fn infinite(self) -> bool {
        self.magnitude() == INFINITY_BITS
    }

    /// Whether this is a finite number: its absolute value is
    /// `self.significand() * 2^self.exponent()`.
    pub open spec fn finite(self) -> bool {
        self.magnitude() < INFINITY_BITS
    }

    /// The significand of a finite number.
    pub open spec fn significand(self) -> nat {
        let m = self.magnitude();
        if m < TWO52 {
            m
        } else {
            TWO52 as nat + m % (TWO52 as nat)
        }
    }

    /// The exponent that goes with the significand.
    pub open spec fn exponent(self) -> int {
        let m = self.magnitude();
        if m < TWO52 {
            -1074
        } else {
            m / (TWO52 as nat) - 1075
        }
    }

    /// The numerator of a finite number's absolute value, which is
    /// `self.numer() / self.denom()`.
    pub open spec fn numer(self) -> nat {
        num_at(self.significand(), self.exponent(), 0)
    }

    /// The denominator that goes with the numerator.
    pub open spec fn denom(self) -> nat {
        den_at(1, self.exponent(), 0)
    }

    /// The magnitude with the sign applied; numbers order as their keys.
    pub open spec fn key(self) -> int {
        if self.bits >= SIGN_BIT {
            -(self.magnitude() as int)
        } else {
            self.magnitude() as int
        }
    }
}

/// Measuring in units of `2^t1` or `2^t2` gives the same value.
pub(crate) proof fn lemma_units(n: nat, d: nat, e: int, t1: int, t2: int)
    requires
        t1 <= t2,
    ensures
        num_at(n, e, t1) * den_at(d, e, t2) == num_at(n, e, t2) * den_at(d, e, t1)
            * vstd::arithmetic::power2::pow2((t2 - t1) as nat),
{
    let p = |x: int| vstd::arithmetic::power2::pow2(x as nat);
    let k = p(t2 - t1);
    if e >= t2 {
        vstd::arithmetic::power2::lemma_pow2_adds((e - t2) as nat, (t2 - t1) as nat);
        let a = p(e - t2);
        assert(p(e - t1) == a * k);
        assert((n * (a * k)) * d == (n * a) * d * k) by (nonlinear_arith);
    } else if e >= t1 {
        vstd::arithmetic::power2::lemma_pow2_adds((e - t1) as nat, (t2 - e) as nat);
        let a = p(e - t1);
        let b = p(t2 - e);
        assert(k == a * b);
        assert((n * a) * (d * b) == n * d * (a * b)) by (nonlinear_arith);
    } else {
        vstd::arithmetic::power2::lemma_pow2_adds((t1 - e) as nat, (t2 - t1) as nat);
        let a = p(t1 - e);
        assert(p(t2 - e) == a * k);
        assert(n * (d * (a * k)) == n * (d * a) * k) by (nonlinear_arith);
    }
}

/// The denominator stays positive whatever the unit.
pub(crate) proof fn lemma_den_positive(d: nat, e: int, t: int)
    requires
        d > 0,
    ensures
        den_at(d, e, t) > 0,
{
    if e < t {
        vstd::arithmetic::power2::lemma_pow2_pos((t - e) as nat);
        let a = vstd::arithmetic::power2::pow2((t - e) as nat);
        assert(d * a > 0) by (nonlinear_arith)
            requires
                d > 0,
                a > 0,
        ;
    }
}

/// A value has one spacing.
pub(crate) proof fn lemma_grid_unique(n: nat, d: nat, e: int, t: int)
    requires
        d > 0,
        is_grid(n, d, e, t),
    ensures
        grid(n, d, e) == t,
{
    let u = grid(n, d, e);
    assert(is_grid(n, d, e, u));
    if u != t {
        let (lo, hi) = if u < t {
            (u, t)
        } else {
            (t, u)
        };
        lemma_units(n, d, e, lo, hi);
        lemma_den_positive(d, e, lo);
        lemma_den_positive(d, e, hi);
        let k = vstd::arithmetic::power2::pow2((hi - lo) as nat);
        assert(k >= 2) by {
            vstd::arithmetic::power2::lemma_pow2_unfold((hi - lo) as nat);
            vstd::arithmetic::power2::lemma_pow2_pos((hi - lo - 1) as nat);
        }
        let n1 = num_at(n, e, lo);
        let n2 = num_at(n, e, hi);
        let d1 = den_at(d, e, lo);
        let d2 = den_at(d, e, hi);
        assert(n2 * d1 * k >= (TWO52 * d2) * d1 * 2) by (nonlinear_arith)
            requires
                n2 >= TWO52 * d2,
                k >= 2,
                d1 > 0,
        ;
        assert((TWO52 * d2) * d1 * 2 == (TWO53 * d1) * d2) by (nonlinear_arith);
        assert(n1 * d2 < (TWO53 * d1) * d2) by (nonlinear_arith)
            requires
                n1 < TWO53 * d1,
                d2 > 0,
        ;
    }
}

/// Powers of two below `2^128` are machine integers.
pub(crate) proof fn lemma_pow2_fits(k: nat)
    requires
        k < 128,
    ensures
        0 < vstd::arithmetic::power2::pow2(k) <= 0x8000_0000_0000_0000_0000_0000_0000_0000,
{
    vstd::arithmetic::power2::lemma_pow2_pos(k);
    vstd::arithmetic::power2::lemma2_to64();
    vstd::arithmetic::power2::lemma2_to64_rest();
    vstd::arithmetic::power2::lemma_pow2_adds(64, 63);
    if k < 127 {
        vstd::arithmetic::power2::lemma_pow2_strictly_increases(k, 127);
    }
}

/// The values of the powers of two that bound significands.
pub(crate) proof fn lemma_pow2_significand()
    ensures
        vstd::arithmetic::power2::pow2(0) == 1,
        vstd::arithmetic::power2::pow2(1) == 2,
        vstd::arithmetic::power2::pow2(52) == TWO52,
        vstd::arithmetic::power2::pow2(53) == TWO53,
        vstd::arithmetic::power2::pow2(54) == 2 * TWO53,
        vstd::arithmetic::power2::pow2(120) == 0x100_0000_0000_0000_0000_0000_0000_0000,
{
    vstd::arithmetic::power2::lemma2_to64();
    vstd::arithmetic::power2::lemma2_to64_rest();
    vstd::arithmetic::power2::lemma_pow2_adds(60, 60);
}

/// `2^k` as an integer.
pub(crate) fn power_of_two(k: u32) -> (r: u128)
    requires
        k < 128,
    ensures
        r == vstd::arithmetic::power2::pow2(k as nat),
        r > 0,
{
    proof {
        vstd::arithmetic::power2::lemma2_to64();
    }
    let mut r: u128 = 1;
    let mut i: u32 = 0;
    while i < k
        invariant
            i <= k < 128,
            r == vstd::arithmetic::power2::pow2(i as nat),
            r > 0,
        decreases k - i,
    {
        proof {
            vstd::arithmetic::power2::lemma_pow2_unfold((i + 1) as nat);
            lemma_pow2_fits((i + 1) as nat);
        }
        r = r * 2;
        i = i + 1;
    }
    r
}

/// A positive number lies between the powers of two its length names.
proof fn lemma_bit_len(n: nat)
    requires
        n > 0,
    ensures
        bit_len(n) >= 1,
        vstd::arithmetic::power2::pow2((bit_len(n) - 1) as nat) <= n,
        n < vstd::arithmetic::power2::pow2(bit_len(n)),
    decreases n,
{
    vstd::arithmetic::power2::lemma2_to64();
    if n > 1 {
        lemma_bit_len(n / 2);
        vstd::arithmetic::power2::lemma_pow2_unfold(bit_len(n));
        vstd::arithmetic::power2::lemma_pow2_unfold((bit_len(n) - 1) as nat);
    } else {
        assert(bit_len(1) == 1 + bit_len(0));
    }
}

/// A number below `2^k` has at most `k` digits.
proof fn lemma_bit_len_bound(n: nat, k: nat)
    requires
        n < vstd::arithmetic::power2::pow2(k),
    ensures
        bit_len(n) <= k,
{
    if n > 0 {
        lemma_bit_len(n);
        if bit_len(n) > k {
            if bit_len(n) - 1 > k {
                vstd::arithmetic::power2::lemma_pow2_strictly_increases(k, (bit_len(n) - 1) as nat);
            }
        }
    }
}

/// The number of binary digits of `n`.
fn bit_length(n: u128) -> (r: u32)
    ensures
        r == bit_len(n as nat),
        r <= 128,
{
    proof {
        vstd::arithmetic::power2::lemma2_to64();
        vstd::arithmetic::power2::lemma_pow2_adds(64, 64);
        lemma_bit_len_bound(n as nat, 128);
    }
    let mut m: u128 = n;
    let mut r: u32 = 0;
    while m > 0
        invariant
            r + bit_len(m as nat) == bit_len(n as nat),
            bit_len(n as nat) <= 128,
        decreases m,
    {
        m = m / 2;
        r = r + 1;
    }
    r
}

/// The two sides of `n / d * 2^e` measured in units of `2^t`.
fn measured(n: u128, d: u128, e: i32, t: i32) -> (r: (u128, u128))
    requires
        -8000 <= e <= 8000,
        -8000 <= t <= 8000,
        num_at(n as nat, e as int, t as int) <= u128::MAX,
        den_at(d as nat, e as int, t as int) <= u128::MAX,
        n > 0,
        d > 0,
    ensures
        r.0 == num_at(n as nat, e as int, t as int),
        r.1 == den_at(d as nat, e as int, t as int),
{
    if e >= t {
        let k: u32 = (e - t) as u32;
        assert(k < 128) by {
            lemma_scale_bound(n as nat, k as nat);
        }
        (n * power_of_two(k), d)
    } else {
        let k: u32 = (t - e) as u32;
        assert(k < 128) by {
            lemma_scale_bound(d as nat, k as nat);
        }
        (n, d * power_of_two(k))
    }
}

/// A scaled positive number that fits a machine integer was scaled by little.
proof fn lemma_scale_bound(n: nat, k: nat)
    requires
        n > 0,
        n * vstd::arithmetic::power2::pow2(k) <= u128::MAX,
    ensures
        k < 128,
{
    if k >= 128 {
        vstd::arithmetic::power2::lemma2_to64();
        vstd::arithmetic::power2::lemma_pow2_adds(64, 64);
        if k > 128 {
            vstd::arithmetic::power2::lemma_pow2_strictly_increases(128, k);
        }
        let p = vstd::arithmetic::power2::pow2(k);
        assert(n * p >= p) by (nonlinear_arith)
            requires
                n > 0,
        ;
    }
}

/// Lengths of numerator and denominator locate the value within a factor of
/// four: measured in units of `2^(e + len(n) - len(d) - 53)` it lies between
/// `2^52` and `2^54`.
proof fn lemma_estimate(n: nat, d: nat, e: int)
    requires
        n > 0,
        d > 0,
    ensures
        ({
            let t = e + bit_len(n) - bit_len(d) - 53;
            &&& num_at(n, e, t) < 2 * TWO53 * den_at(d, e, t)
            &&& num_at(n, e, t) >= TWO52 * den_at(d, e, t)
            &&& e >= t ==> num_at(n, e, t) < vstd::arithmetic::power2::pow2(53 + bit_len(d))
        }),
{
    let p = |x: int| vstd::arithmetic::power2::pow2(x as nat);
    let ln = bit_len(n);
    let ld = bit_len(d);
    let t = e + ln - ld - 53;
    lemma_bit_len(n);
    lemma_bit_len(d);
    lemma_pow2_significand();
    if e >= t {
        let s = e - t;
        let ps = p(s);
        vstd::arithmetic::power2::lemma_pow2_pos(s as nat);
        vstd::arithmetic::power2::lemma_pow2_adds(ln, s as nat);
        vstd::arithmetic::power2::lemma_pow2_adds((ln - 1) as nat, s as nat);
        vstd::arithmetic::power2::lemma_pow2_adds(54, (ld - 1) as nat);
        vstd::arithmetic::power2::lemma_pow2_adds(52, ld);
        assert(n * ps < p(ln as int) * ps) by (nonlinear_arith)
            requires
                n < p(ln as int),
                ps > 0,
        ;
        assert(n * ps >= p(ln - 1) * ps) by (nonlinear_arith)
            requires
                n >= p(ln - 1),
                ps > 0,
        ;
        assert(ln + s == 54 + (ld - 1));
        assert(ln - 1 + s == 52 + ld);
        assert(ln + s == 53 + ld);
    } else {
        let s = t - e;
        let ps = p(s);
        let den = d * ps;
        vstd::arithmetic::power2::lemma_pow2_pos(s as nat);
        vstd::arithmetic::power2::lemma_pow2_adds((ld - 1) as nat, s as nat);
        vstd::arithmetic::power2::lemma_pow2_adds(54, (ld - 1 + s) as nat);
        vstd::arithmetic::power2::lemma_pow2_adds(ld, s as nat);
        vstd::arithmetic::power2::lemma_pow2_adds(52, (ld + s) as nat);
        assert(den >= p(ld - 1) * ps) by (nonlinear_arith)
            requires
                den == d * ps,
                d >= p(ld - 1),
                ps > 0,
        ;
        assert(den < p(ld as int) * ps) by (nonlinear_arith)
            requires
                den == d * ps,
                d < p(ld as int),
                ps > 0,
        ;
        assert(ln == 54 + (ld - 1 + s));
        assert(ln - 1 == 52 + (ld + s));
    }
}

/// A value within a factor of four of the right size either already sits on
/// the spacing `t` or on the next coarser one.
proof fn lemma_adjust(n: nat, d: nat, e: int, t: int)
    requires
        n > 0,
        d > 0,
        t >= -1074,
        num_at(n, e, t) >= TWO53 * den_at(d, e, t),
        num_at(n, e, t) < 2 * TWO53 * den_at(d, e, t),
    ensures
        is_grid(n, d, e, t + 1),
{
    lemma_units(n, d, e, t, t + 1);
    lemma_den_positive(d, e, t);
    lemma_den_positive(d, e, t + 1);
    lemma_pow2_significand();
    let n0 = num_at(n, e, t);
    let n1 = num_at(n, e, t + 1);
    let d0 = den_at(d, e, t);
    let d1 = den_at(d, e, t + 1);
    assert(n0 * d1 == n1 * d0 * 2);
    assert(n1 < TWO53 * d1) by (nonlinear_arith)
        requires
            n0 * d1 == n1 * d0 * 2,
            n0 < 2 * TWO53 * d0,
            d0 > 0,
            d1 > 0,
    ;
    assert(n1 >= TWO52 * d1) by (nonlinear_arith)
        requires
            n0 * d1 == n1 * d0 * 2,
            n0 >= TWO53 * d0,
            d0 > 0,
            d1 > 0,
            TWO53 == 2 * TWO52,
    ;
}

/// A value too small for the spacing that its length asks for sits on the
/// finest spacing there is.
proof fn lemma_subnormal(n: nat, d: nat, e: int, t: int)
    requires
        n > 0,
        d > 0,
        t < -1074,
        num_at(n, e, t) < 2 * TWO53 * den_at(d, e, t),
    ensures
        is_grid(n, d, e, -1074),
{
    lemma_units(n, d, e, t, -1074);
    lemma_den_positive(d, e, t);
    lemma_den_positive(d, e, -1074);
    let k = vstd::arithmetic::power2::pow2((-1074 - t) as nat);
    assert(k >= 2) by {
        vstd::arithmetic::power2::lemma_pow2_unfold((-1074 - t) as nat);
        vstd::arithmetic::power2::lemma_pow2_pos((-1075 - t) as nat);
    }
    let n0 = num_at(n, e, t);
    let n1 = num_at(n, e, -1074);
    let d0 = den_at(d, e, t);
    let d1 = den_at(d, e, -1074);
    assert(n1 < TWO53 * d1) by (nonlinear_arith)
        requires
            n0 * d1 == n1 * d0 * k,
            n0 < 2 * TWO53 * d0,
            d0 > 0,
            d1 > 0,
            k >= 2,
    ;
}

/// `num / den` rounded to the nearest integer, ties to the even one.
pub(crate) fn nearest(num: u128, den: u128) -> (r: u128)
    requires
        den > 0,
        den <= 0x8000_0000_0000_0000_0000_0000_0000_0000,
        num < 0x8000_0000_0000_0000_0000_0000_0000_0000,
    ensures
        r == half_even(num as nat, den as nat),
{
    let q: u128 = num / den;
    let r: u128 = num % den;
    assert(q <= num) by (nonlinear_arith)
        requires
            den > 0,
            q == num / den,
            num >= 0,
    ;
    if r > den - r || (r == den - r && q % 2 == 1) {
        q + 1
    } else {
        q
    }
}

/// The magnitude pattern of `n / d * 2^e`, rounded.
fn round_ratio(n: u128, d: u128, e: i32) -> (r: u64)
    requires
        d > 0,
        (d == 1 && n < 0x100_0000_0000_0000_0000_0000_0000_0000) || (d < TWO53 && n < TWO53),
        -4000 <= e <= 4000,
    ensures
        r == round_bits(n as nat, d as nat, e as int),
        r <= INFINITY_BITS,
{
    proof {
        lemma_pow2_significand();
    }
    if n == 0 {
        proof {
            lemma_den_positive(d as nat, e as int, -1074);
            let den = den_at(d as nat, e as int, -1074);
            assert(num_at(0, e as int, -1074) == 0) by (nonlinear_arith);
            assert(TWO53 * den > 0) by (nonlinear_arith)
                requires
                    den > 0,
            ;
            lemma_grid_unique(0, d as nat, e as int, -1074);
            assert(0nat / den == 0 && 0nat % den == 0) by (nonlinear_arith)
                requires
                    den > 0,
            ;
        }
        return 0;
    }
    let ln: u32 = bit_length(n);
    let ld: u32 = bit_length(d);
    proof {
        lemma_bit_len(n as nat);
        lemma_bit_len(d as nat);
        lemma_bit_len_bound(n as nat, 120);
        lemma_bit_len_bound(d as nat, 53);
        if d > 1 {
            lemma_bit_len_bound(n as nat, 53);
        }
        assert(bit_len(1) == 1 + bit_len(0));
        lemma_estimate(n as nat, d as nat, e as int);
    }
    let est: i32 = e + (ln as i32) - (ld as i32) - 53;
    let t0: i32 = if est < -1074 {
        -1074
    } else {
        est
    };
    let too_fine: i32 = if d == 1 {
        121
    } else {
        54
    };
    if t0 - e >= too_fine {
        proof {
            lemma_subnormal(n as nat, d as nat, e as int, est as int);
            lemma_grid_unique(n as nat, d as nat, e as int, -1074);
            let k = (t0 - e) as nat;
            let p = vstd::arithmetic::power2::pow2(k);
            if d == 1 {
                lemma_pow2_monotone(121, k);
                vstd::arithmetic::power2::lemma_pow2_unfold(121);
            } else {
                lemma_pow2_monotone(54, k);
            }
            let den = den_at(d as nat, e as int, -1074);
            assert(den == d * p);
            assert(2 * n < den) by (nonlinear_arith)
                requires
                    den == d * p,
                    2 * n < p,
                    d >= 1,
            ;
            vstd::arithmetic::div_mod::lemma_basic_div(n as int, den as int);
            vstd::arithmetic::div_mod::lemma_small_mod(n as nat, den);
        }
        return 0;
    }
    proof {
        lemma_measured_fits(n as nat, d as nat, e as int, t0 as int);
        lemma_measured_fits(n as nat, d as nat, e as int, t0 + 1);
        lemma_den_positive(d as nat, e as int, t0 as int);
        lemma_den_positive(d as nat, e as int, t0 + 1);
    }
    let (num0, den0) = measured(n, d, e, t0);
    let (t, num, den) = if num0 / den0 >= TWO53 as u128 {
        proof {
            assert(num0 >= TWO53 * den0) by (nonlinear_arith)
                requires
                    num0 / den0 >= TWO53,
                    den0 > 0,
            ;
            if est < -1074 {
                lemma_subnormal(n as nat, d as nat, e as int, est as int);
                assert(false);
            }
            lemma_adjust(n as nat, d as nat, e as int, t0 as int);
        }
        let (num1, den1) = measured(n, d, e, t0 + 1);
        (t0 + 1, num1, den1)
    } else {
        proof {
            assert(num0 < TWO53 * den0) by (nonlinear_arith)
                requires
                    num0 / den0 < TWO53,
                    den0 > 0,
            ;
        }
        (t0, num0, den0)
    };
    proof {
        assert(is_grid(n as nat, d as nat, e as int, t as int));
        lemma_grid_unique(n as nat, d as nat, e as int, t as int);
        assert(num / den <= TWO53) by (nonlinear_arith)
            requires
                num < TWO53 * den,
                den > 0,
        ;
    }
    let q: u128 = nearest(num, den);
    let bits: u128 = ((t + 1074) as u128) * (TWO52 as u128) + q;
    if bits >= INFINITY_BITS as u128 {
        INFINITY_BITS
    } else {
        bits as u64
    }
}

/// Larger exponents give larger powers.
pub(crate) proof fn lemma_pow2_monotone(a: nat, b: nat)
    requires
        a <= b,
    ensures
        vstd::arithmetic::power2::pow2(a) <= vstd::arithmetic::power2::pow2(b),
{
    if a < b {
        vstd::arithmetic::power2::lemma_pow2_strictly_increases(a, b);
    }
}

/// Measured near the spacing it needs, a value is a ratio of machine integers.
proof fn lemma_measured_fits(n: nat, d: nat, e: int, t: int)
    requires
        n > 0,
        d > 0,
        (d == 1 && n < 0x100_0000_0000_0000_0000_0000_0000_0000 && t - e <= 121) || (d < TWO53 && n
            < TWO53 && t - e <= 54),
        t >= e + bit_len(n) - bit_len(d) - 53,
    ensures
        num_at(n, e, t) < 0x8000_0000_0000_0000_0000_0000_0000_0000,
        den_at(d, e, t) <= 0x8000_0000_0000_0000_0000_0000_0000_0000,
{
    let est = e + bit_len(n) - bit_len(d) - 53;
    lemma_pow2_significand();
    lemma_bit_len_bound(d, 53);
    if e >= t {
        lemma_estimate(n, d, e);
        let a = vstd::arithmetic::power2::pow2((e - t) as nat);
        let b = vstd::arithmetic::power2::pow2((e - est) as nat);
        lemma_pow2_monotone((e - t) as nat, (e - est) as nat);
        assert(n * a <= n * b) by (nonlinear_arith)
            requires
                a <= b,
        ;
        lemma_pow2_monotone(53 + bit_len(d), 106);
        lemma_pow2_fits(106);
    } else {
        let k = (t - e) as nat;
        let p = vstd::arithmetic::power2::pow2(k);
        if d == 1 {
            lemma_pow2_fits(k);
            assert(d * p == p) by (nonlinear_arith)
                requires
                    d == 1,
            ;
        } else {
            lemma_pow2_monotone(k, 54);
            assert(d * p <= TWO53 * (2 * TWO53)) by (nonlinear_arith)
                requires
                    d < TWO53,
                    p <= 2 * TWO53,
            ;
        }
    }
}

impl Double {
    /// The number with this bit pattern.
    pub fn from_bits(bits: u64) -> (r: Double)
        ensures
            r.bits == bits,
    {
        Double { bits }
    }

    /// The bit pattern of this number.
    pub fn to_bits(self) -> (r: u64)
        ensures
            r == self.bits,
    {
        self.bits
    }

    /// Zero.
    pub open spec fn zero() -> Double {
        Double { bits: 0 }
    }

    /// The natural number `n`, rounded to a binary64 number.
    pub open spec fn of_nat(n: nat) -> Double {
        Double { bits: round_bits(n, 1, 0) as u64 }
    }

    /// The integer `n`, rounded to a binary64 number.
    pub fn from_u64(n: u64) -> (r: Double)
        ensures
            r == Double::of_nat(n as nat),
            r.finite(),
            !r.is_negative_spec(),
    {
        let bits: u64 = round_ratio(n as u128, 1, 0);
        proof {
            lemma_u64_finite(n);
        }
        Double { bits }
    }

    /// The integer `n`, rounded to a binary64 number.
    pub fn from_u128(n: u128) -> (r: Double)
        ensures
            r == Double::of_nat(n as nat),
    {
        if n < 0x100_0000_0000_0000_0000_0000_0000_0000 {
            return Double { bits: round_ratio(n, 1, 0) };
        }
        let len: u32 = bit_length(n);
        proof {
            lemma_pow2_significand();
            lemma_bit_len(n as nat);
            if len <= 120 {
                lemma_pow2_monotone(len as nat, 120);
            }
        }
        let t: u32 = len - 53;
        let den: u128 = power_of_two(t);
        proof {
            vstd::arithmetic::power2::lemma_pow2_adds(52, t as nat);
            vstd::arithmetic::power2::lemma_pow2_adds(53, t as nat);
            assert(den_at(1, 0, t as int) == den);
            assert(is_grid(n as nat, 1, 0, t as int));
            lemma_grid_unique(n as nat, 1, 0, t as int);
            lemma_pow2_fits(t as nat);
            assert(n / den < TWO53) by (nonlinear_arith)
                requires
                    n < TWO53 * den,
                    den > 0,
            ;
        }
        let q: u128 = n / den;
        let rest: u128 = n % den;
        let up = rest > den - rest || (rest == den - rest && q % 2 == 1);
        let near: u64 = if up {
            q as u64 + 1
        } else {
            q as u64
        };
        Double { bits: (t as u64 + 1074) * TWO52 + near }
    }

    /// The quotient of two integers, each rounded first. With both below
    /// `2^53` this is the number that the decimal fraction `n / d` denotes.
    pub open spec fn fraction(n: nat, d: nat) -> Double {
        Double::quotient(Double::of_nat(n), Double::of_nat(d))
    }

    /// The quotient of two integers, each rounded first.
    pub fn ratio(n: u64, d: u64) -> (r: Double)
        ensures
            r == Double::fraction(n as nat, d as nat),
    {
        Double::from_u64(n).over(Double::from_u64(d))
    }

    /// Whether the sign bit is set.
    pub fn is_negative(self) -> (r: bool)
        ensures
            r == self.is_negative_spec(),
    {
        self.bits >= SIGN_BIT
    }

    fn abs_bits(self) -> (r: u64)
        ensures
            r == self.magnitude(),
            r < SIGN_BIT,
    {
        if self.bits >= SIGN_BIT {
            self.bits - SIGN_BIT
        } else {
            self.bits
        }
    }

    /// Whether this is not a number.
    pub fn is_nan(self) -> (r: bool)
        ensures
            r == self.nan(),
    {
        self.abs_bits() > INFINITY_BITS
    }

    /// Whether this is neither an infinity nor not a number.
    pub fn is_finite(self) -> (r: bool)
        ensures
            r == self.finite(),
    {
        self.abs_bits() < INFINITY_BITS
    }

    /// Whether `self < other`; false when either is not a number.
    pub open spec fn lt_spec(self, other: Double) -> bool {
        !self.nan() && !other.nan() && self.key() < other.key()
    }

    /// Whether `self <= other`; false when either is not a number.
    pub open spec fn le_spec(self, other: Double) -> bool {
        !self.nan() && !other.nan() && self.key() <= other.key()
    }

    fn key_bits(self) -> (r: i128)
        ensures
            r == self.key(),
    {
        let m: i128 = self.abs_bits() as i128;
        if self.bits >= SIGN_BIT {
            -m
        } else {
            m
        }
    }

    /// Whether `self < other`; false when either is not a number.
    pub fn lt(self, other: Double) -> (r: bool)
        ensures
            r == self.lt_spec(other),
    {
        !self.is_nan() && !other.is_nan() && self.key_bits() < other.key_bits()
    }

    /// Whether `self <= other`; false when either is not a number.
    pub fn le(self, other: Double) -> (r: bool)
        ensures
            r == self.le_spec(other),
    {
        !self.is_nan() && !other.is_nan() && self.key_bits() <= other.key_bits()
    }

    /// The significand and exponent of a finite number.
    pub(crate) fn split(self) -> (r: (u64, i32))
        requires
            self.finite(),
        ensures
            r.0 == self.significand(),
            r.1 == self.exponent(),
            r.0 < TWO53,
            -1074 <= r.1 <= 971,
            r.1 > -1074 ==> r.0 >= TWO52,
    {
        let m: u64 = self.abs_bits();
        if m < TWO52 {
            (m, -1074)
        } else {
            (TWO52 + m % TWO52, (m / TWO52) as i32 - 1075)
        }
    }

    /// The pattern with the given sign and magnitude.
    fn signed(negative: bool, magnitude: u64) -> (r: Double)
        requires
            magnitude <= INFINITY_BITS,
        ensures
            r == Double::with_sign(negative, magnitude as nat),
    {
        if negative {
            Double { bits: SIGN_BIT + magnitude }
        } else {
            Double { bits: magnitude }
        }
    }

    /// The number with the given sign and magnitude pattern.
    pub open spec fn with_sign(negative: bool, magnitude: nat) -> Double {
        Double {
            bits: if negative {
                (SIGN_BIT + magnitude) as u64
            } else {
                magnitude as u64
            },
        }
    }

    /// The product of two numbers.
    pub open spec fn product(a: Double, b: Double) -> Double {
        if a.nan() || b.nan() || (a.infinite() && b.magnitude() == 0) || (b.infinite()
            && a.magnitude() == 0) {
            Double { bits: NAN_BITS }
        } else {
            Double::with_sign(
                a.is_negative_spec() != b.is_negative_spec(),
                if a.infinite() || b.infinite() {
                    INFINITY_BITS as nat
                } else {
                    round_bits(a.significand() * b.significand(), 1, a.exponent() + b.exponent())
                },
            )
        }
    }

    /// `self * other`, rounded.
    pub fn times(self, other: Double) -> (r: Double)
        ensures
            r == Double::product(self, other),
    {
        let x: u64 = self.abs_bits();
        let y: u64 = other.abs_bits();
        if x > INFINITY_BITS || y > INFINITY_BITS || (x == INFINITY_BITS && y == 0) || (y
            == INFINITY_BITS && x == 0) {
            return Double { bits: NAN_BITS };
        }
        let negative = self.is_negative() != other.is_negative();
        if x == INFINITY_BITS || y == INFINITY_BITS {
            return Double::signed(negative, INFINITY_BITS);
        }
        let (ma, ea) = self.split();
        let (mb, eb) = other.split();
        assert(ma * mb < TWO53 * TWO53) by (nonlinear_arith)
            requires
                0 <= ma < TWO53,
                0 <= mb < TWO53,
        ;
        let n: u128 = (ma as u128) * (mb as u128);
        Double::signed(negative, round_ratio(n, 1, ea + eb))
    }

    /// The quotient of two numbers.
    pub open spec fn quotient(a: Double, b: Double) -> Double {
        if a.nan() || b.nan() || (a.infinite() && b.infinite()) || (a.magnitude() == 0
            && b.magnitude() == 0) {
            Double { bits: NAN_BITS }
        } else {
            Double::with_sign(
                a.is_negative_spec() != b.is_negative_spec(),
                if a.infinite() || b.magnitude() == 0 {
                    INFINITY_BITS as nat
                } else if b.infinite() {
                    0
                } else {
                    round_bits(a.significand(), b.significand(), a.exponent() - b.exponent())
                },
            )
        }
    }

    /// `self / other`, rounded.
    pub fn over(self, other: Double) -> (r: Double)
        ensures
            r == Double::quotient(self, other),
    {
        let x: u64 = self.abs_bits();
        let y: u64 = other.abs_bits();
        if x > INFINITY_BITS || y > INFINITY_BITS || (x == INFINITY_BITS && y == INFINITY_BITS)
            || (x == 0 && y == 0) {
            return Double { bits: NAN_BITS };
        }
        let negative = self.is_negative() != other.is_negative();
        if x == INFINITY_BITS || y == 0 {
            return Double::signed(negative, INFINITY_BITS);
        }
        if y == INFINITY_BITS {
            return Double::signed(negative, 0);
        }
        let (ma, ea) = self.split();
        let (mb, eb) = other.split();
        Double::signed(negative, round_ratio(ma as u128, mb as u128, ea - eb))
    }
}

impl Double {
    /// The significand with the sign applied.
    pub open spec fn signed_significand(self) -> int {
        if self.is_negative_spec() {
            -(self.significand() as int)
        } else {
            self.significand() as int
        }
    }

    /// The sum of two finite numbers in units of `2^e`, for an `e` that is no
    /// more than either exponent.
    pub open spec fn sum_at(a: Double, b: Double, e: int) -> int {
        a.signed_significand() * vstd::arithmetic::power2::pow2((a.exponent() - e) as nat)
            + b.signed_significand() * vstd::arithmetic::power2::pow2((b.exponent() - e) as nat)
    }

    /// The sum of two numbers.
    pub open spec fn sum(a: Double, b: Double) -> Double {
        if a.nan() || b.nan() || (a.infinite() && b.infinite() && a.is_negative_spec()
            != b.is_negative_spec()) {
            Double { bits: NAN_BITS }
        } else if a.infinite() {
            a
        } else if b.infinite() {
            b
        } else {
            let e = if a.exponent() <= b.exponent() {
                a.exponent()
            } else {
                b.exponent()
            };
            let s = Double::sum_at(a, b, e);
            Double::with_sign(
                s < 0 || (s == 0 && a.is_negative_spec() && b.is_negative_spec()),
                round_bits(
                    if s < 0 {
                        (-s) as nat
                    } else {
                        s as nat
                    },
                    1,
                    e,
                ),
            )
        }
    }

    fn signed_split(self) -> (r: (i128, i32))
        requires
            self.finite(),
        ensures
            r.0 == self.signed_significand(),
            r.1 == self.exponent(),
            -TWO53 < r.0 < TWO53,
            -1074 <= r.1 <= 971,
    {
        let (m, e) = self.split();
        if self.is_negative() {
            (-(m as i128), e)
        } else {
            (m as i128, e)
        }
    }

    /// `self + other`, rounded.
    pub fn plus(self, other: Double) -> (r: Double)
        ensures
            r == Double::sum(self, other),
    {
        let x: u64 = self.abs_bits();
        let y: u64 = other.abs_bits();
        if x > INFINITY_BITS || y > INFINITY_BITS || (x == INFINITY_BITS && y == INFINITY_BITS
            && self.is_negative() != other.is_negative()) {
            return Double { bits: NAN_BITS };
        }
        if x == INFINITY_BITS {
            return self;
        }
        if y == INFINITY_BITS {
            return other;
        }
        let (ma, ea) = self.signed_split();
        let (mb, eb) = other.signed_split();
        proof {
            lemma_pow2_significand();
        }
        if ea <= eb {
            if eb - ea > 54 {
                proof {
                    lemma_absorb(other, self);
                }
                return other;
            }
            let k: u32 = (eb - ea) as u32;
            assert(vstd::arithmetic::power2::pow2((ea - ea) as nat) == 1);
            assert(ma * 1 == ma);
            Double::aligned_sum(ma, mb, k, ea, self.is_negative() && other.is_negative())
        } else {
            if ea - eb > 54 {
                proof {
                    lemma_absorb(self, other);
                }
                return self;
            }
            let k: u32 = (ea - eb) as u32;
            assert(vstd::arithmetic::power2::pow2((eb - eb) as nat) == 1);
            assert(mb * 1 == mb);
            Double::aligned_sum(mb, ma, k, eb, self.is_negative() && other.is_negative())
        }
    }

    /// `(low + high * 2^k) * 2^e`, rounded; a zero is negative as asked.
    fn aligned_sum(low: i128, high: i128, k: u32, e: i32, negative_zero: bool) -> (r: Double)
        requires
            -TWO53 < low < TWO53,
            -TWO53 < high < TWO53,
            k <= 54,
            -1074 <= e <= 971,
        ensures
            ({
                let s = low + high * vstd::arithmetic::power2::pow2(k as nat);
                r == Double::with_sign(
                    s < 0 || (s == 0 && negative_zero),
                    round_bits(
                        if s < 0 {
                            (-s) as nat
                        } else {
                            s as nat
                        },
                        1,
                        e as int,
                    ),
                )
            }),
    {
        let p: i128 = power_of_two_signed(k);
        assert(-(TWO53 * (2 * TWO53)) <= high * p <= TWO53 * (2 * TWO53)) by (nonlinear_arith)
            requires
                -TWO53 < high < TWO53,
                0 < p <= 2 * TWO53,
        ;
        let s: i128 = low + high * p;
        let negative = s < 0 || (s == 0 && negative_zero);
        let n: u128 = if s < 0 {
            (-s) as u128
        } else {
            s as u128
        };
        Double::signed(negative, round_ratio(n, 1, e))
    }

    /// The number with the opposite sign.
    pub open spec fn opposite(self) -> Double {
        Double {
            bits: if self.bits >= SIGN_BIT {
                (self.bits - SIGN_BIT) as u64
            } else {
                (self.bits + SIGN_BIT) as u64
            },
        }
    }

    /// The number with the opposite sign.
    pub fn negated(self) -> (r: Double)
        ensures
            r == self.opposite(),
    {
        if self.bits >= SIGN_BIT {
            Double { bits: self.bits - SIGN_BIT }
        } else {
            Double { bits: self.bits + SIGN_BIT }
        }
    }

    /// The difference of two numbers: the sum with the second negated.
    pub open spec fn difference(a: Double, b: Double) -> Double {
        Double::sum(a, b.opposite())
    }

    /// `self - other`, rounded.
    pub fn minus(self, other: Double) -> (r: Double)
        ensures
            r == Double::difference(self, other),
    {
        self.plus(other.negated())
    }

    /// `p` times a finite number's absolute value, rounded to the nearest
    /// integer, ties to the even one.
    pub open spec fn scaled(self, p: nat) -> nat {
        half_even(num_at(self.significand() * p, self.exponent(), 0), den_at(1, self.exponent(), 0))
    }

    /// The integer part as an unsigned machine integer: zero for what is
    /// negative or not a number, the largest integer for what exceeds it.
    pub open spec fn truncated(self) -> nat {
        if self.nan() || self.is_negative_spec() {
            0
        } else if self.infinite() {
            u64::MAX as nat
        } else {
            let v = num_at(self.significand(), self.exponent(), 0) / den_at(1, self.exponent(), 0);
            if v > u64::MAX {
                u64::MAX as nat
            } else {
                v
            }
        }
    }

    /// The integer part, saturating.
    pub fn to_u64(self) -> (r: u64)
        ensures
            r == self.truncated(),
    {
        if self.is_nan() || self.is_negative() {
            return 0;
        }
        if !self.is_finite() {
            return u64::MAX;
        }
        let (m, e) = self.split();
        proof {
            lemma_pow2_significand();
            vstd::arithmetic::power2::lemma2_to64();
        }
        if e >= 0 {
            if e > 11 {
                proof {
                    let p = vstd::arithmetic::power2::pow2(e as nat);
                    lemma_pow2_monotone(12, e as nat);
                    assert(m * p >= TWO52 * 4096) by (nonlinear_arith)
                        requires
                            m >= TWO52,
                            p >= 4096,
                    ;
                    assert((m * p) / 1 == m * p);
                }
                return u64::MAX;
            }
            let p: u128 = power_of_two(e as u32);
            proof {
                lemma_pow2_monotone(e as nat, 11);
                assert(m * p <= (TWO53 - 1) * 2048) by (nonlinear_arith)
                    requires
                        0 <= m <= TWO53 - 1,
                        0 < p <= 2048,
                ;
                assert((m * p) / 1 == m * p);
            }
            ((m as u128) * p) as u64
        } else if e <= -64 {
            proof {
                let p = vstd::arithmetic::power2::pow2((-e) as nat);
                lemma_pow2_monotone(64, (-e) as nat);
                assert(1 * p == p);
                vstd::arithmetic::div_mod::lemma_basic_div(m as int, p as int);
            }
            0
        } else {
            let p: u128 = power_of_two((-e) as u32);
            assert(1 * p == p);
            let q: u128 = (m as u128) / p;
            assert(q <= m) by (nonlinear_arith)
                requires
                    p > 0,
                    q == (m as u128) / p,
            ;
            q as u64
        }
    }
}

/// `2^k` as a signed integer.
fn power_of_two_signed(k: u32) -> (r: i128)
    requires
        k <= 54,
    ensures
        r == vstd::arithmetic::power2::pow2(k as nat),
        0 < r <= 2 * TWO53,
{
    let p: u128 = power_of_two(k);
    proof {
        lemma_pow2_significand();
        lemma_pow2_monotone(k as nat, 54);
    }
    p as i128
}

/// A finite number away from the finest spacing has the pattern that its
/// exponent and significand spell.
proof fn lemma_pattern(x: Double)
    requires
        x.finite(),
        x.exponent() > -1074,
    ensures
        x.magnitude() == (x.exponent() + 1074) * TWO52 + x.significand(),
        TWO52 <= x.significand() < TWO53,
{
}

/// Adding to a number another one that is more than 54 binary places smaller
/// changes nothing.
proof fn lemma_absorb(big: Double, small: Double)
    requires
        big.finite(),
        small.finite(),
        big.exponent() - small.exponent() > 54,
    ensures
        Double::sum(big, small) == big,
        Double::sum(small, big) == big,
{
    let m = big.significand();
    let w = small.significand();
    let e = small.exponent();
    let g = (big.exponent() - e) as nat;
    let p = vstd::arithmetic::power2::pow2(g);
    let h = vstd::arithmetic::power2::pow2((g - 1) as nat);
    lemma_pattern(big);
    lemma_pow2_significand();
    lemma_pow2_monotone(54, (g - 1) as nat);
    vstd::arithmetic::power2::lemma_pow2_unfold(g);
    assert(p == 2 * h);
    assert(w < TWO53);
    assert((-(m as int)) * p == -(m * p)) by (nonlinear_arith);
    let s = Double::sum_at(big, small, e);
    let x = big.signed_significand();
    let y = small.signed_significand();
    assert(vstd::arithmetic::power2::pow2((small.exponent() - e) as nat) == 1);
    assert(y * 1 == y);
    assert(s == x * p + y);
    assert(s == Double::sum_at(small, big, e));
    assert(x * p == if big.is_negative_spec() {
        -(m * p)
    } else {
        (m * p) as int
    });
    assert(m * p >= TWO52 * p) by (nonlinear_arith)
        requires
            m >= TWO52,
    ;
    let same = big.is_negative_spec() == small.is_negative_spec();
    let a: nat = if same || w == 0 {
        m * p + w
    } else {
        (m * p - w) as nat
    };
    assert(TWO52 * p > w) by (nonlinear_arith)
        requires
            p > w,
            w >= 0,
    ;
    assert(if s < 0 {
        a == -s
    } else {
        a == s
    });
    assert((s < 0) == big.is_negative_spec());
    if same || w == 0 {
        let t = e + g;
        assert(den_at(1, e, t) == p);
        assert(a < TWO53 * p) by (nonlinear_arith)
            requires
                a == m * p + w,
                m < TWO53,
                w < p,
        ;
        lemma_grid_unique(a, 1, e, t);
        vstd::arithmetic::div_mod::lemma_fundamental_div_mod_converse(
            a as int,
            p as int,
            m as int,
            w as int,
        );
    } else if m > TWO52 {
        let t = e + g;
        assert(den_at(1, e, t) == p);
        assert(a < TWO53 * p) by (nonlinear_arith)
            requires
                a == m * p - w,
                m < TWO53,
                w > 0,
                p > 0,
        ;
        assert(a >= TWO52 * p) by (nonlinear_arith)
            requires
                a == m * p - w,
                m >= TWO52 + 1,
                w < p,
        ;
        lemma_grid_unique(a, 1, e, t);
        assert(a == (m - 1) * p + (p - w)) by (nonlinear_arith)
            requires
                a == m * p - w,
        ;
        vstd::arithmetic::div_mod::lemma_fundamental_div_mod_converse(
            a as int,
            p as int,
            m - 1,
            p - w,
        );
    } else {
        let t = e + g - 1;
        assert(den_at(1, e, t) == h);
        assert(m * p == TWO53 * h) by (nonlinear_arith)
            requires
                m == TWO52,
                p == 2 * h,
                TWO53 == 2 * TWO52,
        ;
        lemma_grid_unique(a, 1, e, t);
        assert(a == (TWO53 - 1) * h + (h - w)) by (nonlinear_arith)
            requires
                a == TWO53 * h - w,
        ;
        vstd::arithmetic::div_mod::lemma_fundamental_div_mod_converse(
            a as int,
            h as int,
            TWO53 - 1,
            h - w,
        );
        assert((t + 1074) * TWO52 + TWO53 == (e + g + 1074) * TWO52 + m) by (nonlinear_arith)
            requires
                t == e + g - 1,
                m == TWO52,
                TWO53 == 2 * TWO52,
        ;
    }
}

/// Every 64-bit integer rounds to a finite number.
proof fn lemma_u64_finite(n: u64)
    ensures
        round_bits(n as nat, 1, 0) < INFINITY_BITS,
{
    let t = grid(n as nat, 1, 0);
    lemma_pow2_significand();
    vstd::arithmetic::power2::lemma2_to64();
    vstd::arithmetic::power2::lemma2_to64_rest();
    assert(is_grid(n as nat, 1, 0, t)) by {
        lemma_grid_exists(n as nat, 1, 0);
    }
    if t > 11 {
        lemma_pow2_monotone(12, t as nat);
        let p = vstd::arithmetic::power2::pow2(t as nat);
        assert(TWO52 * (1 * p) >= TWO52 * 4096) by (nonlinear_arith)
            requires
                p >= 4096,
        ;
        assert(false);
    }
    let num = num_at(n as nat, 0, t);
    let den = den_at(1, 0, t);
    lemma_den_positive(1, 0, t);
    assert(num / den <= TWO53) by (nonlinear_arith)
        requires
            num < TWO53 * den,
            den > 0,
    ;
    assert((t + 1074) * TWO52 <= 1085 * TWO52) by (nonlinear_arith)
        requires
            t <= 11,
    ;
}

/// Every value has a spacing.
pub(crate) proof fn lemma_grid_exists(n: nat, d: nat, e: int)
    requires
        d > 0,
    ensures
        is_grid(n, d, e, grid(n, d, e)),
{
    if n == 0 {
        lemma_den_positive(d, e, -1074);
        let den = den_at(d, e, -1074);
        assert(num_at(0, e, -1074) == 0) by (nonlinear_arith);
        assert(TWO53 * den > 0) by (nonlinear_arith)
            requires
                den > 0,
        ;
        assert(is_grid(n, d, e, -1074));
    } else {
        let t = e + bit_len(n) - bit_len(d) - 53;
        lemma_estimate(n, d, e);
        if t < -1074 {
            lemma_subnormal(n, d, e, t);
            assert(is_grid(n, d, e, -1074));
        } else if num_at(n, e, t) >= TWO53 * den_at(d, e, t) {
            lemma_adjust(n, d, e, t);
            assert(is_grid(n, d, e, t + 1));
        } else {
            assert(is_grid(n, d, e, t));
        }
    }
}

/// A natural number below `2^53` is a binary64 number.
pub(crate) proof fn lemma_of_nat_exact(c: nat)
    requires
        0 < c < TWO53,
    ensures
        ({
            let x = Double::of_nat(c);
            &&& x.finite()
            &&& !x.is_negative_spec()
            &&& -52 <= x.exponent() <= 0
            &&& x.significand() == c * vstd::arithmetic::power2::pow2((-x.exponent()) as nat)
        }),
{
    let t = grid(c, 1, 0);
    lemma_grid_exists(c, 1, 0);
    lemma_pow2_significand();
    if t > 0 {
        lemma_pow2_monotone(1, t as nat);
        let p = vstd::arithmetic::power2::pow2(t as nat);
        assert(TWO52 * (1 * p) >= TWO53) by (nonlinear_arith)
            requires
                p >= 2,
                TWO53 == 2 * TWO52,
        ;
    }
    let p = vstd::arithmetic::power2::pow2((-t) as nat);
    if t < -52 {
        lemma_pow2_monotone(53, (-t) as nat);
        assert(c * p >= TWO53) by (nonlinear_arith)
            requires
                c >= 1,
                p >= TWO53,
        ;
    }
    if t == 0 {
        assert(c * p == c) by (nonlinear_arith)
            requires
                p == 1,
        ;
    }
    let h = c * p;
    assert(num_at(c, 0, t) == h);
    assert(h / 1 == h && h % 1 == 0);
    lemma_pattern_value(Double::of_nat(c), t, h);
}

/// The value that a rounded pattern stands for: `h` units of `2^t`.
pub(crate) proof fn lemma_pattern_value(x: Double, t: int, h: nat)
    requires
        x.magnitude() == (t + 1074) * TWO52 + h,
        x.finite(),
        t >= -1074,
        h <= TWO53,
        t > -1074 ==> h >= TWO52,
    ensures
        (x.significand() == h && x.exponent() == t) || (h == TWO53 && x.significand() == TWO52
            && x.exponent() == t + 1),
{
}

/// A product with a factor above one is not below the other factor, where that
/// is a natural number below `2^53`.
pub(crate) proof fn lemma_product_grows(c: nat, m: Double)
    requires
        0 < c < TWO53,
        Double::of_nat(1).lt_spec(m),
    ensures
        Double::product(Double::of_nat(c), m).truncated() >= c,
{
    let p = |k: int| vstd::arithmetic::power2::pow2(k as nat);
    let a = Double::of_nat(c);
    lemma_of_nat_exact(c);
    lemma_pow2_significand();
    lemma_one();
    assert(!m.is_negative_spec());
    let r = Double::product(a, m);
    if m.infinite() {
        assert(a.magnitude() > 0) by {
            lemma_pow2_monotone(0, (-a.exponent()) as nat);
            let q = p(-a.exponent());
            assert(c * q > 0) by (nonlinear_arith)
                requires
                    c > 0,
                    q > 0,
            ;
        }
        assert(r.infinite());
        return ;
    }
    let sm = m.significand();
    let em = m.exponent();
    let ea = a.exponent();
    assert(em >= -52 && sm >= TWO52);
    let n = a.significand() * sm;
    let e = ea + em;
    let t = grid(n, 1, e);
    lemma_grid_exists(n, 1, e);
    lemma_den_positive(1, e, t);
    let num = num_at(n, e, t);
    let den = den_at(1, e, t);
    let h = half_even(num, den);
    assert(num / den <= TWO53) by (nonlinear_arith)
        requires
            num < TWO53 * den,
            den > 0,
    ;
    assert(num / den < TWO53) by (nonlinear_arith)
        requires
            num < TWO53 * den,
            den > 0,
    ;
    if t > -1074 {
        assert(num / den >= TWO52) by (nonlinear_arith)
            requires
                num >= TWO52 * den,
                den > 0,
        ;
    }
    if round_bits(n, 1, e) == INFINITY_BITS {
        assert(r.infinite());
        return ;
    }
    lemma_pattern_value(r, t, h);
    if t > 0 {
        let k = r.exponent();
        lemma_pow2_monotone(1, k as nat);
        let q = p(k);
        let w = r.significand();
        assert(w * q >= TWO53) by (nonlinear_arith)
            requires
                w >= TWO52,
                q >= 2,
                TWO53 == 2 * TWO52,
        ;
        assert((w * q) / 1 == w * q);
        return ;
    }
    // The value is not below `c`, measured in units of `2^t`.
    let u = p(-t);
    assert(num >= c * u * den) by {
        lemma_measured_product(c, sm, ea, em, t);
    }
    assert(num / den >= c * u) by (nonlinear_arith)
        requires
            num >= c * u * den,
            den > 0,
    ;
    assert(h >= c * u);
    let k = r.exponent();
    let w = r.significand();
    if k > 0 {
        assert(w * p(k) >= TWO53) by (nonlinear_arith)
            requires
                w == TWO52,
                p(k) == 2,
                TWO53 == 2 * TWO52,
        ;
        assert((w * p(k)) / 1 == w * p(k));
    } else {
        let v = p(-k);
        vstd::arithmetic::power2::lemma_pow2_pos((-k) as nat);
        if k == t + 1 {
            vstd::arithmetic::power2::lemma_pow2_unfold((-t) as nat);
            assert(u == 2 * v);
            assert(w >= c * v) by (nonlinear_arith)
                requires
                    2 * w >= c * u,
                    u == 2 * v,
            ;
        }
        assert(w >= c * v);
        assert(w / v >= c) by (nonlinear_arith)
            requires
                w >= c * v,
                v > 0,
        ;
        if k == 0 {
            assert(v == 1);
            assert(w * 1 == w && w / 1 == w);
        } else {
            assert(1 * v == v);
        }
    }
}

/// `c * sm * 2^em`, written with the exponent `ea` taken out of `c`, is not
/// below `c` where `sm * 2^em` is not below one.
proof fn lemma_measured_product(c: nat, sm: nat, ea: int, em: int, t: int)
    requires
        ea <= 0,
        t <= 0,
        em >= -52,
        sm >= TWO52,
    ensures
        ({
            let p = |k: int| vstd::arithmetic::power2::pow2(k as nat);
            let n = c * p(-ea) * sm;
            num_at(n, ea + em, t) >= c * p(-t) * den_at(1, ea + em, t)
        }),
{
    let p = |k: int| vstd::arithmetic::power2::pow2(k as nat);
    let a = p(-ea);
    let n = c * a * sm;
    let e = ea + em;
    lemma_pow2_significand();
    vstd::arithmetic::power2::lemma_pow2_pos((-ea) as nat);
    vstd::arithmetic::power2::lemma_pow2_pos((-t) as nat);
    if e >= t {
        // In units of `2^t` the value is `c * sm * 2^(em - t)`.
        let b = p(e - t);
        vstd::arithmetic::power2::lemma_pow2_adds((-ea) as nat, (e - t) as nat);
        let g = p(em - t);
        assert(a * b == g);
        let u = p(-t);
        assert(sm * g >= u) by {
            if em >= 0 {
                lemma_pow2_monotone((-t) as nat, (em - t) as nat);
                assert(sm * g >= u) by (nonlinear_arith)
                    requires
                        sm >= 1,
                        g >= u,
                ;
            } else {
                lemma_pow2_monotone((-em) as nat, 52);
                vstd::arithmetic::power2::lemma_pow2_adds((-em) as nat, (em - t) as nat);
                let f = p(-em);
                assert(f * g == u);
                assert(sm * g >= f * g) by (nonlinear_arith)
                    requires
                        sm >= f,
                ;
            }
        }
        assert(n * b == c * (sm * g)) by (nonlinear_arith)
            requires
                n == c * a * sm,
                a * b == g,
        ;
        assert(c * (sm * g) >= c * u) by (nonlinear_arith)
            requires
                sm * g >= u,
        ;
        assert(c * u * 1 == c * u);
    } else {
        let d = p(t - e);
        let u = p(-t);
        vstd::arithmetic::power2::lemma_pow2_adds((-t) as nat, (t - e) as nat);
        let w = p(-e);
        assert(u * d == w);
        assert(a * sm >= w) by {
            if em >= 0 {
                lemma_pow2_monotone((-e) as nat, (-ea) as nat);
                assert(a * sm >= w) by (nonlinear_arith)
                    requires
                        a >= w,
                        sm >= 1,
                ;
            } else {
                lemma_pow2_monotone((-em) as nat, 52);
                vstd::arithmetic::power2::lemma_pow2_adds((-ea) as nat, (-em) as nat);
                let f = p(-em);
                assert(a * f == w);
                assert(a * sm >= a * f) by (nonlinear_arith)
                    requires
                        sm >= f,
                ;
            }
        }
        assert(n >= c * w) by (nonlinear_arith)
            requires
                n == c * a * sm,
                a * sm >= w,
        ;
        assert(c * u * (1 * d) == c * w) by (nonlinear_arith)
            requires
                u * d == w,
        ;
    }
}

/// One, as a pattern.
pub(crate) proof fn lemma_one()
    ensures
        Double::of_nat(1).magnitude() == 1023 * TWO52,
        Double::of_nat(1).significand() == TWO52,
        Double::of_nat(1).exponent() == -52,
        !Double::of_nat(1).is_negative_spec(),
{
    lemma_pow2_significand();
    assert(is_grid(1, 1, 0, -52));
    lemma_grid_unique(1, 1, 0, -52);
    assert(num_at(1, 0, -52) == TWO52);
    assert((TWO52 as nat) / 1 == TWO52 && (TWO52 as nat) % 1 == 0);
}

/// The fraction with a denominator of `2^53` and a numerator below it is below
/// one and not negative.
pub(crate) proof fn lemma_unit_fraction(c: nat)
    requires
        c < TWO53,
    ensures
        ({
            let x = Double::product(Double::fraction(1, TWO53 as nat), Double::of_nat(c));
            &&& x.finite()
            &&& !x.is_negative_spec()
            &&& x.lt_spec(Double::of_nat(1))
        }),
{
    lemma_one();
    lemma_pow2_significand();
    let d = Double::of_nat(TWO53 as nat);
    assert(d.significand() == TWO52 && d.exponent() == 1 && d.finite() && !d.is_negative_spec())
        by {
        assert(is_grid(TWO53 as nat, 1, 0, 1));
        lemma_grid_unique(TWO53 as nat, 1, 0, 1);
        assert((TWO53 as nat) / 2 == TWO52 && (TWO53 as nat) % 2 == 0);
        lemma_pattern_value(d, 1, TWO52 as nat);
    }
    let f = Double::fraction(1, TWO53 as nat);
    let w = TWO52 as nat;
    assert(f.significand() == w && f.exponent() == -105 && f.finite() && !f.is_negative_spec()) by {
        assert(num_at(w, -53, -105) == w * w);
        assert(is_grid(w, w, -53, -105));
        lemma_grid_unique(w, w, -53, -105);
        assert((w * w) / w == w && (w * w) % w == 0) by (nonlinear_arith)
            requires
                w > 0,
        ;
        lemma_pattern_value(f, -105, w);
    }
    let x = Double::of_nat(c);
    if c == 0 {
        lemma_zero_rounds(0);
        assert(x.magnitude() == 0);
        lemma_zero_rounds(f.exponent() + x.exponent());
        assert(w * 0 == 0);
    } else {
        lemma_of_nat_exact(c);
        let m = x.significand();
        let t = x.exponent() - 53;
        let e = f.exponent() + x.exponent();
        assert(m >= TWO52) by {
            lemma_exact_is_normal(c);
        }
        let n = w * m;
        assert(den_at(1, e, t) == w);
        assert(n < TWO53 * w && n >= TWO52 * w) by (nonlinear_arith)
            requires
                n == w * m,
                TWO52 <= m < TWO53,
                w > 0,
        ;
        assert(is_grid(n, 1, e, t));
        lemma_grid_unique(n, 1, e, t);
        assert(n / w == m && n % w == 0) by (nonlinear_arith)
            requires
                n == w * m,
                w > 0,
        ;
        assert((t + 1074) * TWO52 <= 1021 * TWO52) by (nonlinear_arith)
            requires
                t <= -53,
        ;
    }
}

proof fn lemma_zero_rounds(e: int)
    ensures
        round_bits(0, 1, e) == 0,
{
    lemma_den_positive(1, e, -1074);
    let den = den_at(1, e, -1074);
    assert(num_at(0, e, -1074) == 0) by (nonlinear_arith);
    assert(TWO53 * den > 0) by (nonlinear_arith)
        requires
            den > 0,
    ;
    assert(is_grid(0, 1, e, -1074));
    lemma_grid_unique(0, 1, e, -1074);
    assert(0nat / den == 0 && 0nat % den == 0) by (nonlinear_arith)
        requires
            den > 0,
    ;
}

/// A natural number is never written with the finest spacing.
proof fn lemma_exact_is_normal(c: nat)
    requires
        0 < c < TWO53,
    ensures
        Double::of_nat(c).significand() >= TWO52,
{
    lemma_of_nat_exact(c);
    let x = Double::of_nat(c);
    assert(x.exponent() > -1074);
}

} // verus!
