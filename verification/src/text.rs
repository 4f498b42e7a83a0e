//! Decimal text: how numbers are spelled in reports and keys.

use crate::double::Double;
use vstd::prelude::*;
use vstd::string::*;

verus! {

/// `String::push` appends one character.
pub assume_specification[ String::push ](s: &mut String, ch: char)
    ensures
        final(s)@ == old(s)@.push(ch),
;

/// The character of a decimal digit.
pub open spec fn digit(d: nat) -> char {
    ((48 + d % 10) as u8) as char
}

/// `n` in decimal, without leading zeros.
pub open spec fn decimal(n: nat) -> Seq<char>
    decreases n,
{
    if n < 10 {
        seq![digit(n)]
    } else {
        decimal(n / 10).push(digit(n % 10))
    }
}

/// The last `width` decimal digits of `n`, zeros included.
pub open spec fn padded(n: nat, width: nat) -> Seq<char>
    decreases width,
{
    if width == 0 {
        Seq::empty()
    } else {
        padded(n / 10, (width - 1) as nat).push(digit(n % 10))
    }
}

/// `10^k`.
pub open spec fn ten(k: nat) -> nat
    decreases k,
{
    if k == 0 {
        1
    } else {
        10 * ten((k - 1) as nat)
    }
}

/// The digit character of a machine integer below ten.
fn digit_char(d: u8) -> (c: char)
    requires
        d < 10,
    ensures
        c == digit(d as nat),
{
    (48 + d) as char
}

/// Appends `n` in decimal.
pub fn push_decimal(s: &mut String, n: u128)
    ensures
        final(s)@ == old(s)@ + decimal(n as nat),
    decreases n,
{
    if n >= 10 {
        push_decimal(s, n / 10);
    }
    s.push(digit_char((n % 10) as u8));
    assert(s@ =~= old(s)@ + decimal(n as nat));
}

/// Appends the last `width` decimal digits of `n`.
pub fn push_padded(s: &mut String, n: u64, width: u32)
    ensures
        final(s)@ == old(s)@ + padded(n as nat, width as nat),
    decreases width,
{
    if width > 0 {
        push_padded(s, n / 10, width - 1);
        s.push(digit_char((n % 10) as u8));
    }
    assert(s@ =~= old(s)@ + padded(n as nat, width as nat));
}

/// The number whose decimal digits, lowest first, are the first `k` of `d`.
pub closed spec fn digits_value(d: Seq<u8>, k: nat) -> nat
    decreases k,
{
    if k == 0 {
        0
    } else {
        digits_value(d, (k - 1) as nat) + d[k - 1] as nat * ten((k - 1) as nat)
    }
}

/// The value depends on the digits it covers alone.
proof fn lemma_digits_same(a: Seq<u8>, b: Seq<u8>, k: nat)
    requires
        k <= a.len(),
        k <= b.len(),
        forall|i: int| 0 <= i < k ==> a[i] == b[i],
    ensures
        digits_value(a, k) == digits_value(b, k),
    decreases k,
{
    if k > 0 {
        lemma_digits_same(a, b, (k - 1) as nat);
    }
}

/// Digits below ten spell a number below the next power of ten.
proof fn lemma_digits_bound(d: Seq<u8>, k: nat)
    requires
        k <= d.len(),
        forall|i: int| 0 <= i < k ==> d[i] < 10,
    ensures
        digits_value(d, k) < ten(k),
    decreases k,
{
    if k > 0 {
        lemma_digits_bound(d, (k - 1) as nat);
        let t = ten((k - 1) as nat);
        assert(d[k - 1] * t <= 9 * t) by (nonlinear_arith)
            requires
                d[k - 1] < 10,
        ;
    }
}

/// Powers of ten are positive.
proof fn lemma_ten_positive(k: nat)
    ensures
        ten(k) > 0,
    decreases k,
{
    if k > 0 {
        lemma_ten_positive((k - 1) as nat);
    }
}

/// Taking the lowest digit away divides by ten.
proof fn lemma_digits_shift(d: Seq<u8>, k: nat)
    requires
        0 < k <= d.len(),
        forall|i: int| 0 <= i < k ==> d[i] < 10,
    ensures
        digits_value(d, k) == d[0] + 10 * digits_value(d.skip(1), (k - 1) as nat),
    decreases k,
{
    if k == 1 {
        assert(digits_value(d, 0) == 0);
        assert(ten(0) == 1);
        assert(digits_value(d.skip(1), 0) == 0);
        assert(d[0] * 1 == d[0]);
    } else {
        lemma_digits_shift(d, (k - 1) as nat);
        let t = ten((k - 2) as nat);
        assert(d.skip(1)[k - 2] == d[k - 1]);
        assert(ten((k - 1) as nat) == 10 * t);
        assert(d[k - 1] * (10 * t) == 10 * (d[k - 1] * t)) by (nonlinear_arith);
    }
}

/// Digits without a leading zero are the decimal text, lowest first.
proof fn lemma_digits_decimal(d: Seq<u8>)
    requires
        d.len() > 0,
        forall|i: int| 0 <= i < d.len() ==> d[i] < 10,
        d.len() > 1 ==> d[d.len() - 1] > 0,
    ensures
        decimal(digits_value(d, d.len())) == Seq::new(
            d.len(),
            |i: int| digit(d[d.len() - 1 - i] as nat),
        ),
    decreases d.len(),
{
    lemma_digits_shift(d, d.len());
    let v = digits_value(d, d.len());
    let text = Seq::new(d.len(), |i: int| digit(d[d.len() - 1 - i] as nat));
    if d.len() == 1 {
        assert(digits_value(d.skip(1), 0) == 0);
        assert(decimal(v) =~= text);
    } else {
        let rest = d.skip(1);
        lemma_digits_decimal(rest);
        let w = digits_value(rest, rest.len());
        assert(w >= 1) by {
            lemma_ten_positive((rest.len() - 1) as nat);
            let t = ten((rest.len() - 1) as nat);
            let top = rest[rest.len() - 1];
            assert(top * t >= 1) by (nonlinear_arith)
                requires
                    top > 0,
                    t > 0,
            ;
        }
        assert(v / 10 == w && v % 10 == d[0] as nat);
        assert(decimal(v) =~= text);
    }
}

/// Doubles the number whose decimal digits, lowest first, are `d`.
fn double_digits(d: &mut Vec<u8>)
    requires
        old(d)@.len() > 0,
        forall|i: int| 0 <= i < old(d)@.len() ==> old(d)@[i] < 10,
        old(d)@.len() > 1 ==> old(d)@[old(d)@.len() - 1] > 0,
        old(d)@.len() < 100000,
    ensures
        final(d)@.len() > 0,
        final(d)@.len() <= old(d)@.len() + 1,
        forall|i: int| 0 <= i < final(d)@.len() ==> final(d)@[i] < 10,
        final(d)@.len() > 1 ==> final(d)@[final(d)@.len() - 1] > 0,
        digits_value(final(d)@, final(d)@.len()) == 2 * digits_value(old(d)@, old(d)@.len()),
{
    let n: usize = d.len();
    let mut carry: u8 = 0;
    let mut i: usize = 0;
    while i < n
        invariant
            i <= n,
            n == d@.len(),
            n == old(d)@.len(),
            n > 0,
            carry <= 1,
            forall|j: int| 0 <= j < i ==> d@[j] < 10,
            forall|j: int| i <= j < n ==> d@[j] == old(d)@[j],
            forall|j: int| 0 <= j < n ==> old(d)@[j] < 10,
            n > 1 ==> old(d)@[n - 1] > 0,
            i == n && n > 1 && carry == 0 ==> d@[n - 1] > 0,
            digits_value(d@, i as nat) + carry * ten(i as nat) == 2 * digits_value(
                old(d)@,
                i as nat,
            ),
        decreases n - i,
    {
        let ghost before = d@;
        let ghost c0 = carry;
        let x: u8 = d[i];
        let y: u8 = 2 * x + carry;
        d.set(i, y % 10);
        carry = y / 10;
        proof {
            lemma_digits_same(before, d@, i as nat);
            let t = ten(i as nat);
            assert(ten((i + 1) as nat) == 10 * t);
            assert(digits_value(d@, (i + 1) as nat) == digits_value(d@, i as nat) + (y % 10) * t);
            assert(digits_value(old(d)@, (i + 1) as nat) == digits_value(old(d)@, i as nat) + x * t);
            assert((y % 10) * t + carry * (10 * t) == 2 * (x * t) + c0 * t) by (nonlinear_arith)
                requires
                    y == 2 * x + c0,
                    y == 10 * carry + y % 10,
            ;
        }
        i = i + 1;
    }
    if carry > 0 {
        let ghost before = d@;
        d.push(carry);
        proof {
            lemma_digits_same(before, d@, n as nat);
        }
    } else {
        assert(carry * ten(n as nat) == 0) by (nonlinear_arith)
            requires
                carry == 0,
        ;
    }
}

/// Appends `m * 2^e` in decimal.
fn push_scaled(s: &mut String, m: u64, e: u32)
    requires
        e <= 2000,
    ensures
        final(s)@ == old(s)@ + decimal(m as nat * vstd::arithmetic::power2::pow2(e as nat)),
{
    let mut d: Vec<u8> = Vec::new();
    let mut rest: u64 = m;
    d.push((rest % 10) as u8);
    rest = rest / 10;
    proof {
        assert(digits_value(d@, 0) == 0);
        assert(ten(0) == 1);
        assert(ten(1) == 10 * ten(0));
        assert(ten(1) == 10);
        assert(digits_value(d@, 1) == digits_value(d@, 0) + d@[0] as nat * ten(0));
        assert(d@[0] as nat * 1 == d@[0]);
        assert(digits_value(d@, 1) == m % 10);
        assert(rest * 10 + m % 10 == m);
        vstd::arithmetic::power2::lemma2_to64();
    }
    while rest > 0
        invariant
            0 < d@.len() <= 30,
            forall|i: int| 0 <= i < d@.len() ==> d@[i] < 10,
            d@.len() > 1 && rest == 0 ==> d@[d@.len() - 1] > 0,
            digits_value(d@, d@.len()) + rest * ten(d@.len()) == m,
            rest > 0 ==> d@.len() <= 21,
        decreases rest,
    {
        let ghost before = d@;
        let ghost r0 = rest;
        d.push((rest % 10) as u8);
        rest = rest / 10;
        proof {
            let k = before.len();
            lemma_digits_same(before, d@, k);
            let t = ten(k);
            lemma_ten_positive(k);
            assert(ten(k + 1) == 10 * t);
            assert(digits_value(d@, k + 1) == digits_value(d@, k) + (r0 % 10) * t);
            assert((r0 % 10) * t + rest * (10 * t) == r0 * t) by (nonlinear_arith)
                requires
                    r0 == 10 * rest + r0 % 10,
            ;
            if rest > 0 {
                assert(rest * (10 * t) >= 10 * t) by (nonlinear_arith)
                    requires
                        rest >= 1,
                ;
                lemma_ten_large(k + 1);
            }
        }
    }
    assert(0 * ten(d@.len()) == 0);
    let ghost v = digits_value(d@, d@.len());
    assert(v == m);
    assert(m * 1 == m);
    let mut i: u32 = 0;
    while i < e
        invariant
            i <= e <= 2000,
            0 < d@.len() <= 30 + i,
            forall|j: int| 0 <= j < d@.len() ==> d@[j] < 10,
            d@.len() > 1 ==> d@[d@.len() - 1] > 0,
            digits_value(d@, d@.len()) == m as nat * vstd::arithmetic::power2::pow2(i as nat),
        decreases e - i,
    {
        double_digits(&mut d);
        proof {
            vstd::arithmetic::power2::lemma_pow2_unfold((i + 1) as nat);
            let p = vstd::arithmetic::power2::pow2(i as nat);
            assert(2 * (m * p) == m * (2 * p)) by (nonlinear_arith);
        }
        i = i + 1;
    }
    proof {
        lemma_digits_decimal(d@);
    }
    let mut k: usize = d.len();
    while k > 0
        invariant
            k <= d@.len(),
            forall|j: int| 0 <= j < d@.len() ==> d@[j] < 10,
            s@ == old(s)@ + Seq::new(
                (d@.len() - k) as nat,
                |i: int| digit(d@[d@.len() - 1 - i] as nat),
            ),
        decreases k,
    {
        k = k - 1;
        s.push(digit_char(d[k]));
        assert(s@ =~= old(s)@ + Seq::new(
            (d@.len() - k) as nat,
            |i: int| digit(d@[d@.len() - 1 - i] as nat),
        ));
    }
}

/// Twenty-one decimal places exceed a 64-bit integer.
proof fn lemma_ten_large(k: nat)
    ensures
        k >= 21 ==> ten(k) > u64::MAX,
    decreases k,
{
    reveal_with_fuel(ten, 22);
    if k > 21 {
        lemma_ten_large((k - 1) as nat);
    }
}

/// A finite number in decimal with a fixed number of places, rounded to the
/// nearest such decimal, ties to the even one; `inf` and `NaN` by name.
pub open spec fn fixed(x: Double, places: nat) -> Seq<char> {
    let sign = if x.is_negative_spec() && !x.nan() {
        seq!['-']
    } else {
        Seq::empty()
    };
    if x.nan() {
        "NaN"@
    } else if x.infinite() {
        sign + "inf"@
    } else {
        let n = x.scaled(ten(places));
        sign + decimal(n / ten(places)) + if places == 0 {
            Seq::empty()
        } else {
            seq!['.'] + padded(n, places)
        }
    }
}

/// A multiple of `10^width` ends in `width` zeros.
proof fn lemma_padded_multiple(v: nat, width: nat)
    ensures
        padded(v * ten(width), width) == padded(0, width),
    decreases width,
{
    if width > 0 {
        let w = (width - 1) as nat;
        lemma_padded_multiple(v, w);
        let t = ten(w);
        assert(v * (10 * t) == 10 * (v * t)) by (nonlinear_arith);
        assert((10 * (v * t)) / 10 == v * t);
        assert((10 * (v * t)) % 10 == 0);
    }
}

/// A number without binary places, scaled, is a whole multiple.
proof fn lemma_scaled_whole(x: Double, p: nat)
    requires
        x.exponent() >= 0,
    ensures
        x.scaled(p) == (x.significand() * vstd::arithmetic::power2::pow2(x.exponent() as nat)) * p,
{
    let m = x.significand();
    let w = vstd::arithmetic::power2::pow2(x.exponent() as nat);
    let v = (m * p) * w;
    assert(v == (m * w) * p) by (nonlinear_arith)
        requires
            v == (m * p) * w,
    ;
    assert(v / 1 == v && v % 1 == 0);
}

/// Appends a number with a fixed number of places.
#[verifier::spinoff_prover]
#[verifier::rlimit(40)]
pub fn push_fixed(s: &mut String, x: Double, places: u32)
    requires
        places <= 2,
    ensures
        final(s)@ == old(s)@ + fixed(x, places as nat),
{
    if x.is_nan() {
        s.append("NaN");
        return;
    }
    if x.is_negative() {
        s.push('-');
    }
    if !x.is_finite() {
        s.append("inf");
        assert(s@ =~= old(s)@ + fixed(x, places as nat));
        return;
    }
    let ghost start = s@;
    let (m, e) = x.split();
    proof {
        reveal_with_fuel(ten, 3);
        crate::double::lemma_pow2_significand();
    }
    let p: u64 = if places == 0 {
        1
    } else if places == 1 {
        10
    } else {
        100
    };
    assert(p == ten(places as nat));
    let ghost n = x.scaled(p as nat);
    if e >= 0 {
        proof {
            let w = vstd::arithmetic::power2::pow2(e as nat);
            let v = m as nat * w;
            lemma_scaled_whole(x, p as nat);
            assert(n == v * p as nat);
            assert((v * p as nat) / (p as nat) == v) by (nonlinear_arith)
                requires
                    p > 0,
            ;
            lemma_padded_multiple(v, places as nat);
        }
        push_scaled(s, m, e as u32);
        if places > 0 {
            s.push('.');
            push_padded(s, 0, places);
        }
    } else {
        assert(m * p < TWO_60) by (nonlinear_arith)
            requires
                m < crate::double::TWO53,
                p <= 100,
                TWO_60 == 0x1000_0000_0000_0000u64,
                crate::double::TWO53 == 0x20_0000_0000_0000u64,
        ;
        let q: u128 = if e <= -62 {
            proof {
                let w = vstd::arithmetic::power2::pow2((-e) as nat);
                crate::double::lemma_pow2_monotone(62, (-e) as nat);
                vstd::arithmetic::power2::lemma2_to64();
                vstd::arithmetic::power2::lemma2_to64_rest();
                assert(1 * w == w);
                vstd::arithmetic::div_mod::lemma_basic_div(m * p, w as int);
                vstd::arithmetic::div_mod::lemma_small_mod((m * p) as nat, w);
            }
            0
        } else {
            proof {
                crate::double::lemma_pow2_fits((-e) as nat);
            }
            let w: u128 = crate::double::power_of_two((-e) as u32);
            assert(1 * w == w);
            crate::double::nearest((m as u128) * (p as u128), w)
        };
        proof {
            assert(q == n);
            lemma_scaled_small(m * p, e as int, q as nat);
        }
        push_decimal(s, q / (p as u128));
        if places > 0 {
            s.push('.');
            push_padded(s, q as u64, places);
        }
    }
    assert(s@ =~= start + (decimal(n / ten(places as nat)) + if places == 0 {
        Seq::empty()
    } else {
        seq!['.'] + padded(n, places as nat)
    }));
    assert(s@ =~= old(s)@ + fixed(x, places as nat));
}

/// The bound on a significand times a hundred.
const TWO_60: u64 = 0x1000_0000_0000_0000;

/// Scaling down and rounding keeps a small number small.
proof fn lemma_scaled_small(n: int, e: int, q: nat)
    requires
        0 <= n < TWO_60,
        e < 0,
        q == crate::double::half_even(
            crate::double::num_at(n as nat, e, 0),
            crate::double::den_at(1, e, 0),
        ),
    ensures
        q <= TWO_60,
{
    let w = vstd::arithmetic::power2::pow2((-e) as nat);
    vstd::arithmetic::power2::lemma_pow2_pos((-e) as nat);
    assert(1 * w == w);
    assert(n / (w as int) <= n) by (nonlinear_arith)
        requires
            w >= 1,
            n >= 0,
    ;
}

/// `width` spaces.
pub open spec fn spaces(width: nat) -> Seq<char> {
    Seq::new(width, |i: int| ' ')
}

/// Text filled up with spaces on the left to at least `width` characters.
pub open spec fn right_aligned(t: Seq<char>, width: nat) -> Seq<char> {
    if t.len() >= width {
        t
    } else {
        spaces((width - t.len()) as nat) + t
    }
}

/// Fills text up with spaces on the left to at least `width` characters.
pub fn pad_left(t: &str, width: usize) -> (r: String)
    ensures
        r@ == right_aligned(t@, width as nat),
{
    let len: usize = t.unicode_len();
    let mut r = String::new();
    let mut i: usize = len;
    while i < width
        invariant
            len == t@.len(),
            i >= len,
            i <= width || i == len,
            r@ == spaces((i - len) as nat),
        decreases width - i,
    {
        r.push(' ');
        i = i + 1;
        assert(r@ =~= spaces((i - len) as nat));
    }
    r.append(t);
    assert(r@ =~= right_aligned(t@, width as nat));
    r
}

/// Whether a character is white space (the Unicode property).
pub open spec fn is_space(c: char) -> bool {
    let u = c as u32;
    ||| 9 <= u <= 13
    ||| u == 32
    ||| u == 0x85
    ||| u == 0xa0
    ||| u == 0x1680
    ||| 0x2000 <= u <= 0x200a
    ||| u == 0x2028
    ||| u == 0x2029
    ||| u == 0x202f
    ||| u == 0x205f
    ||| u == 0x3000
}

/// Whether a character is white space.
pub fn is_space_char(c: char) -> (r: bool)
    ensures
        r == is_space(c),
{
    let u: u32 = c as u32;
    (9 <= u && u <= 13) || u == 32 || u == 0x85 || u == 0xa0 || u == 0x1680 || (0x2000 <= u && u
        <= 0x200a) || u == 0x2028 || u == 0x2029 || u == 0x202f || u == 0x205f || u == 0x3000
}

/// Text without the white space it starts with.
pub open spec fn trim_start(t: Seq<char>) -> Seq<char>
    decreases t.len(),
{
    if t.len() > 0 && is_space(t[0]) {
        trim_start(t.skip(1))
    } else {
        t
    }
}

/// Text without the white space it ends with.
pub open spec fn trim_end(t: Seq<char>) -> Seq<char>
    decreases t.len(),
{
    if t.len() > 0 && is_space(t.last()) {
        trim_end(t.drop_last())
    } else {
        t
    }
}

/// Text without the white space around it.
pub open spec fn trim(t: Seq<char>) -> Seq<char> {
    trim_end(trim_start(t))
}

/// The characters of a text.
pub fn chars_of(t: &str) -> (r: Vec<char>)
    ensures
        r@ == t@,
{
    let n: usize = t.unicode_len();
    let mut r: Vec<char> = Vec::new();
    let mut i: usize = 0;
    while i < n
        invariant
            n == t@.len(),
            i <= n,
            r@ == t@.take(i as int),
        decreases n - i,
    {
        r.push(t.get_char(i));
        i = i + 1;
        assert(r@ =~= t@.take(i as int));
    }
    assert(t@.take(n as int) =~= t@);
    r
}

/// A part of a sequence of characters.
pub fn part(t: &Vec<char>, from: usize, to: usize) -> (r: Vec<char>)
    requires
        from <= to <= t@.len(),
    ensures
        r@ == t@.subrange(from as int, to as int),
{
    let mut r: Vec<char> = Vec::new();
    let mut i: usize = from;
    while i < to
        invariant
            from <= i <= to <= t@.len(),
            r@ == t@.subrange(from as int, i as int),
        decreases to - i,
    {
        r.push(t[i]);
        i = i + 1;
        assert(r@ =~= t@.subrange(from as int, i as int));
    }
    r
}

/// Text without the white space around it.
pub fn trimmed(t: &Vec<char>) -> (r: Vec<char>)
    ensures
        r@ == trim(t@),
{
    let mut from: usize = 0;
    assert(t@.skip(0) =~= t@);
    while from < t.len() && is_space_char(t[from])
        invariant
            from <= t@.len(),
            trim_start(t@) == trim_start(t@.skip(from as int)),
        decreases t@.len() - from,
    {
        assert(t@.skip(from as int).skip(1) =~= t@.skip(from + 1));
        from = from + 1;
    }
    let ghost rest = t@.skip(from as int);
    assert(trim_start(t@) == rest);
    let mut to: usize = t.len();
    assert(rest =~= t@.subrange(from as int, to as int));
    while from < to && is_space_char(t[to - 1])
        invariant
            from <= to <= t@.len(),
            trim_end(rest) == trim_end(t@.subrange(from as int, to as int)),
        decreases to,
    {
        assert(t@.subrange(from as int, to as int).drop_last() =~= t@.subrange(
            from as int,
            to - 1,
        ));
        to = to - 1;
    }
    part(t, from, to)
}

/// The index of the first `c`, the length when there is none.
pub open spec fn first_index(t: Seq<char>, c: char) -> nat
    decreases t.len(),
{
    if t.len() == 0 || t[0] == c {
        0
    } else {
        1 + first_index(t.skip(1), c)
    }
}

/// The first index is within the text.
pub(crate) proof fn lemma_first_index(t: Seq<char>, c: char)
    ensures
        first_index(t, c) <= t.len(),
    decreases t.len(),
{
    if t.len() > 0 && t[0] != c {
        lemma_first_index(t.skip(1), c);
    }
}

/// The index of the first `c`, the length when there is none.
pub fn find(t: &Vec<char>, c: char) -> (r: usize)
    ensures
        r == first_index(t@, c),
        r <= t@.len(),
{
    let mut i: usize = 0;
    assert(t@.skip(0) =~= t@);
    while i < t.len() && t[i] != c
        invariant
            i <= t@.len(),
            first_index(t@, c) == i + first_index(t@.skip(i as int), c),
        decreases t@.len() - i,
    {
        assert(t@.skip(i as int).skip(1) =~= t@.skip(i + 1));
        i = i + 1;
    }
    i
}

/// Whether a character is an ASCII digit.
pub open spec fn is_digit(c: char) -> bool {
    '0' <= c <= '9'
}

/// The number that ASCII digits spell.
pub open spec fn digits_number(t: Seq<char>) -> nat
    decreases t.len(),
{
    if t.len() == 0 {
        0
    } else {
        10 * digits_number(t.drop_last()) + (t.last() as u32 - 48) as nat
    }
}

/// Whether a text is one or more ASCII digits.
pub open spec fn all_digits(t: Seq<char>) -> bool {
    t.len() > 0 && forall|i: int| 0 <= i < t.len() ==> is_digit(#[trigger] t[i])
}

/// Text without the plus sign that may start it.
pub open spec fn without_plus(t: Seq<char>) -> Seq<char> {
    if t.len() > 0 && t[0] == '+' {
        t.skip(1)
    } else {
        t
    }
}

/// The number that a text denotes, when it is digits after an optional plus
/// sign and does not exceed `max`.
pub open spec fn number(t: Seq<char>, max: nat) -> Option<nat> {
    let d = without_plus(t);
    if all_digits(d) && digits_number(d) <= max {
        Some(digits_number(d))
    } else {
        None
    }
}

/// A longer run of digits spells no smaller number.
proof fn lemma_digits_number_grows(t: Seq<char>, k: int)
    requires
        0 <= k <= t.len(),
    ensures
        digits_number(t.take(k)) <= digits_number(t) || !(forall|i: int|
            0 <= i < t.len() ==> is_digit(#[trigger] t[i])),
    decreases t.len() - k,
{
    if k < t.len() {
        lemma_digits_number_grows(t, k + 1);
        assert(t.take(k + 1).drop_last() =~= t.take(k));
        assert(t.take(k + 1).last() == t[k]);
    } else {
        assert(t.take(k) =~= t);
    }
}

/// Reads a number: digits after an optional plus sign, no larger than `max`.
pub fn parse_number(t: &Vec<char>, max: u64) -> (r: Option<u64>)
    ensures
        match r {
            Some(n) => number(t@, max as nat) == Some(n as nat),
            None => number(t@, max as nat) is None,
        },
{
    let from: usize = if t.len() > 0 && t[0] == '+' {
        1
    } else {
        0
    };
    let ghost d = without_plus(t@);
    assert(d =~= t@.skip(from as int));
    if t.len() == from {
        return None;
    }
    let mut n: u64 = 0;
    let mut i: usize = from;
    assert(d.take(0) =~= Seq::empty());
    while i < t.len()
        invariant
            from <= i <= t@.len(),
            d == t@.skip(from as int),
            n == digits_number(d.take(i - from)),
            n <= max,
            forall|j: int| 0 <= j < i - from ==> is_digit(#[trigger] d[j]),
            d.len() > 0,
            d == without_plus(t@),
        decreases t@.len() - i,
    {
        let c = t[i];
        assert(c == d[i - from]);
        if c < '0' || c > '9' {
            return None;
        }
        let v: u64 = (c as u32 - 48) as u64;
        assert(d.take(i - from + 1).drop_last() =~= d.take(i - from));
        assert(d.take(i - from + 1).last() == c);
        if n > max / 10 || (n == max / 10 && v > max % 10) {
            proof {
                assert(digits_number(d.take(i - from + 1)) == 10 * n + v);
                assert(10 * n + v > max);
                lemma_digits_number_grows(d, i - from + 1);
            }
            return None;
        }
        assert(10 * n + v <= max);
        n = 10 * n + v;
        i = i + 1;
    }
    assert(d.take(d.len() as int) =~= d);
    Some(n)
}

/// Appends characters.
pub fn push_chars(s: &mut String, t: &Vec<char>)
    ensures
        final(s)@ == old(s)@ + t@,
{
    let mut i: usize = 0;
    assert(s@ =~= s@ + t@.take(0));
    while i < t.len()
        invariant
            i <= t@.len(),
            s@ == old(s)@ + t@.take(i as int),
        decreases t@.len() - i,
    {
        s.push(t[i]);
        i = i + 1;
        assert(s@ =~= old(s)@ + t@.take(i as int));
    }
    assert(t@.take(t@.len() as int) =~= t@);
}

/// Whether two texts are the same.
pub fn same(t: &Vec<char>, u: &str) -> (r: bool)
    ensures
        r == (t@ == u@),
{
    let v: Vec<char> = chars_of(u);
    if t.len() != v.len() {
        return false;
    }
    let mut i: usize = 0;
    while i < t.len()
        invariant
            i <= t@.len(),
            t@.len() == v@.len(),
            v@ == u@,
            forall|j: int| 0 <= j < i ==> t@[j] == v@[j],
        decreases t@.len() - i,
    {
        if t[i] != v[i] {
            assert(t@[i as int] != u@[i as int]);
            return false;
        }
        i = i + 1;
    }
    assert(t@ =~= u@);
    true
}

/// An integer in decimal.
pub open spec fn integer(n: int) -> Seq<char> {
    if n < 0 {
        "-"@ + decimal((-n) as nat)
    } else {
        decimal(n as nat)
    }
}

/// Appends an integer in decimal.
pub fn push_integer(s: &mut String, n: i64)
    ensures
        final(s)@ == old(s)@ + integer(n as int),
{
    if n < 0 {
        s.append("-");
        push_decimal(s, (-(n as i128)) as u128);
        assert(s@ =~= old(s)@ + integer(n as int));
    } else {
        push_decimal(s, n as u128);
    }
}

/// The signed number that a text denotes, when it is digits after an optional
/// sign and fits 64 bits.
pub open spec fn signed(t: Seq<char>) -> Option<int> {
    if t.len() > 0 && t[0] == '-' {
        let d = t.skip(1);
        if all_digits(d) && digits_number(d) <= 0x8000_0000_0000_0000 {
            Some(-digits_number(d))
        } else {
            None
        }
    } else {
        match number(t, i64::MAX as nat) {
            Some(n) => Some(n as int),
            None => None,
        }
    }
}

/// Reads a signed number.
pub fn parse_signed(t: &Vec<char>) -> (r: Option<i64>)
    ensures
        match r {
            Some(n) => signed(t@) == Some(n as int),
            None => signed(t@) is None,
        },
{
    if t.len() > 0 && t[0] == '-' {
        let rest = part(t, 1, t.len());
        assert(rest@ =~= t@.skip(1));
        if rest.len() > 0 && rest[0] == '+' {
            assert(!is_digit(rest@[0]));
            return None;
        }
        assert(without_plus(rest@) == rest@);
        match parse_number(&rest, 0x8000_0000_0000_0000) {
            Some(n) => if n == 0x8000_0000_0000_0000 {
                Some(i64::MIN)
            } else {
                Some(-(n as i64))
            },
            None => None,
        }
    } else {
        match parse_number(t, i64::MAX as u64) {
            Some(n) => Some(n as i64),
            None => None,
        }
    }
}

/// Decimal text denotes the number it spells.
pub(crate) proof fn lemma_decimal_reads_back(n: nat)
    ensures
        all_digits(decimal(n)),
        digits_number(decimal(n)) == n,
    decreases n,
{
    let d = digit(n % 10);
    assert(is_digit(d) && d as u32 - 48 == n % 10);
    if n < 10 {
        let t = decimal(n);
        assert(digit(n) == d);
        assert(t.drop_last() =~= Seq::<char>::empty());
        assert(digits_number(t.drop_last()) == 0);
        assert(t.last() == d);
        assert(digits_number(t) == n);
    } else {
        lemma_decimal_reads_back(n / 10);
        let t = decimal(n);
        assert(t.drop_last() =~= decimal(n / 10));
        assert forall|i: int| 0 <= i < t.len() implies is_digit(#[trigger] t[i]) by {
            if i < t.len() - 1 {
                assert(decimal(n / 10)[i] == t[i]);
            }
        }
    }
}

/// The first place of a character in a text is where it stands and nowhere
/// before it.
pub proof fn the_first_is_found(t: Seq<char>, c: char, k: int)
    requires
        0 <= k <= t.len(),
        forall|i: int| 0 <= i < k ==> #[trigger] t[i] != c,
        k < t.len() ==> t[k] == c,
    ensures
        first_index(t, c) == k,
    decreases t.len(),
{
    if k > 0 {
        let rest = t.skip(1);
        assert(t[0] != c);
        assert forall|i: int| 0 <= i < k - 1 implies #[trigger] rest[i] != c by {
            assert(rest[i] == t[i + 1]);
        }
        the_first_is_found(rest, c, k - 1);
    }
}

/// Decimal text denotes the number it spells, and has no leading zero.
pub proof fn decimals_are_read_back(n: nat, max: nat)
    requires
        n <= max,
    ensures
        number(decimal(n), max) == Some(n),
        number(seq!['+'] + decimal(n), max) == Some(n),
        n > 0 ==> decimal(n)[0] != '0',
        n == 0 ==> decimal(n) == seq!['0'],
{
    lemma_decimal_reads_back(n);
    let d = decimal(n);
    assert(is_digit(d[0]));
    assert((seq!['+'] + d).skip(1) =~= d);
    lemma_no_leading_zero(n);
}

proof fn lemma_no_leading_zero(n: nat)
    ensures
        decimal(n).len() > 0,
        n > 0 ==> decimal(n)[0] != '0',
        n == 0 ==> decimal(n) == seq!['0'],
    decreases n,
{
    if n >= 10 {
        lemma_no_leading_zero(n / 10);
    }
}

/// A number that is too large for its place is not read.
pub proof fn large_decimals_are_refused(n: nat, max: nat)
    requires
        n > max,
    ensures
        number(decimal(n), max) is None,
{
    lemma_decimal_reads_back(n);
    let d = decimal(n);
    assert(is_digit(d[0]));
    assert(without_plus(d) == d);
}

/// Integers of either sign are read back.
pub proof fn integers_are_read_back(n: int)
    requires
        i64::MIN <= n <= i64::MAX,
    ensures
        signed(integer(n)) == Some(n),
{
    reveal_strlit("-");
    if n < 0 {
        let m = (-n) as nat;
        lemma_decimal_reads_back(m);
        assert(("-"@ + decimal(m)).skip(1) =~= decimal(m));
    } else {
        lemma_decimal_reads_back(n as nat);
        let d = decimal(n as nat);
        assert(is_digit(d[0]));
        assert(without_plus(d) == d);
    }
}

/// Padded digits are as many as asked for, and spell the last ones of the
/// number.
pub proof fn padding_keeps_the_last_digits(n: nat, width: nat)
    ensures
        padded(n, width).len() == width,
        forall|i: int| 0 <= i < width ==> is_digit(#[trigger] padded(n, width)[i]),
        digits_number(padded(n, width)) == n % ten(width),
    decreases width,
{
    lemma_ten_positive(width);
    if width > 0 {
        let w = (width - 1) as nat;
        let t = ten(w);
        padding_keeps_the_last_digits(n / 10, w);
        lemma_ten_positive(w);
        let before = padded(n / 10, w);
        let all = padded(n, width);
        assert(all.drop_last() =~= before);
        assert(all.last() as u32 - 48 == n % 10);
        assert forall|i: int| 0 <= i < width implies is_digit(#[trigger] all[i]) by {
            if i < w {
                assert(all[i] == before[i]);
            }
        }
        vstd::arithmetic::div_mod::lemma_mod_breakdown(n as int, 10, t as int);
    } else {
        assert(n % 1 == 0);
    }
}

/// Scaling a number rounds to the nearest integer: the result is off by at most
/// a half.
pub proof fn scaling_rounds_to_the_nearest(x: Double, p: nat)
    requires
        x.finite(),
    ensures
        2 * (x.numer() * p) - x.denom() <= 2 * (x.scaled(p) * x.denom()),
        2 * (x.scaled(p) * x.denom()) <= 2 * (x.numer() * p) + x.denom(),
{
    crate::rounding::lemma_round_trip(x);
    let num = crate::double::num_at(x.significand() * p, x.exponent(), 0);
    let den = x.denom();
    assert(num == x.numer() * p) by {
        if x.exponent() >= 0 {
            let m = x.significand();
            let e = vstd::arithmetic::power2::pow2(x.exponent() as nat);
            assert((m * p) * e == (m * e) * p) by (nonlinear_arith);
        }
    }
    let q = num / den;
    let rest = num % den;
    let h = x.scaled(p);
    vstd::arithmetic::div_mod::lemma_fundamental_div_mod(num as int, den as int);
    assert(h == q && 2 * rest <= den || h == q + 1 && 2 * rest >= den);
    assert(2 * (h * den) >= 2 * num - den && 2 * (h * den) <= 2 * num + den) by (nonlinear_arith)
        requires
            num == den * q + rest,
            0 <= rest < den,
            h == q && 2 * rest <= den || h == q + 1 && 2 * rest >= den,
    ;
}

/// A number with places, read without its point, is the number scaled by that
/// power of ten: the digits before the point and those after it.
pub proof fn fixed_text_spells_the_number(x: Double, places: nat)
    requires
        x.finite(),
        !x.is_negative_spec(),
        places > 0,
    ensures
        ({
            let t = fixed(x, places);
            let point = t.len() - places - 1;
            let n = x.scaled(ten(places));
            &&& point > 0
            &&& t[point] == '.'
            &&& all_digits(t.take(point))
            &&& all_digits(t.skip(point + 1))
            &&& digits_number(t.take(point)) * ten(places) + digits_number(t.skip(point + 1)) == n
        }),
{
    let n = x.scaled(ten(places));
    let t = fixed(x, places);
    let whole = decimal(n / ten(places));
    let part = padded(n, places);
    lemma_decimal_reads_back(n / ten(places));
    padding_keeps_the_last_digits(n, places);
    lemma_ten_positive(places);
    let point = whole.len() as int;
    assert(t =~= whole + seq!['.'] + part);
    assert(t.take(point) =~= whole);
    assert(t.skip(point + 1) =~= part);
    vstd::arithmetic::div_mod::lemma_fundamental_div_mod(n as int, ten(places) as int);
    assert((n / ten(places)) * ten(places) == ten(places) * (n / ten(places))) by (nonlinear_arith);
}

/// Without places a number is shown as the nearest integer.
pub proof fn whole_text_spells_the_number(x: Double)
    requires
        x.finite(),
        !x.is_negative_spec(),
    ensures
        fixed(x, 0) == decimal(x.scaled(1)),
        number(fixed(x, 0), x.scaled(1)) == Some(x.scaled(1)),
{
    let n = x.scaled(1);
    assert(n / 1 == n);
    assert(fixed(x, 0) =~= decimal(n));
    decimals_are_read_back(n, n);
}

/// Right-aligned text ends in the text, and is filled up in front with spaces to
/// the width, or not at all.
pub proof fn alignment_fills_in_front(t: Seq<char>, width: nat)
    ensures
        ({
            let r = right_aligned(t, width);
            &&& r.len() == if t.len() >= width {
                t.len()
            } else {
                width
            }
            &&& r.skip(r.len() - t.len()) == t
            &&& forall|i: int| 0 <= i < r.len() - t.len() ==> #[trigger] r[i] == ' '
        }),
{
    let r = right_aligned(t, width);
    assert(r.skip(r.len() - t.len()) =~= t);
}

/// Trimming takes white space away at both ends and nothing else: what is left
/// is a part of the text, neither starts nor ends with white space, and all
/// around it is white space.
pub proof fn trimming_takes_the_space_around(t: Seq<char>) -> (r: (int, int))
    ensures
        0 <= r.0 <= r.1 <= t.len(),
        trim(t) == t.subrange(r.0, r.1),
        forall|i: int| 0 <= i < r.0 ==> is_space(#[trigger] t[i]),
        forall|i: int| r.1 <= i < t.len() ==> is_space(#[trigger] t[i]),
        r.0 < r.1 ==> !is_space(t[r.0]) && !is_space(t[r.1 - 1]),
{
    let from = lemma_trim_start(t);
    let rest = trim_start(t);
    let to = lemma_trim_end(rest);
    assert(trim(t) =~= t.subrange(from, from + to));
    assert forall|i: int| from + to <= i < t.len() implies is_space(#[trigger] t[i]) by {
        assert(rest[i - from] == t[i]);
    }
    if to > 0 {
        assert(rest[to - 1] == t[from + to - 1]);
        assert(rest[0] == t[from]);
    }
    (from, from + to)
}

proof fn lemma_trim_start(t: Seq<char>) -> (from: int)
    ensures
        0 <= from <= t.len(),
        trim_start(t) == t.skip(from),
        forall|i: int| 0 <= i < from ==> is_space(#[trigger] t[i]),
        from < t.len() ==> !is_space(t[from]),
    decreases t.len(),
{
    if t.len() > 0 && is_space(t[0]) {
        let rest = t.skip(1);
        let from = lemma_trim_start(rest);
        assert(rest.skip(from) =~= t.skip(from + 1));
        assert forall|i: int| 0 <= i < from + 1 implies is_space(#[trigger] t[i]) by {
            if i > 0 {
                assert(rest[i - 1] == t[i]);
            }
        }
        from + 1
    } else {
        assert(t.skip(0) =~= t);
        0
    }
}

proof fn lemma_trim_end(t: Seq<char>) -> (to: int)
    ensures
        0 <= to <= t.len(),
        trim_end(t) == t.take(to),
        forall|i: int| to <= i < t.len() ==> is_space(#[trigger] t[i]),
        to > 0 ==> !is_space(t[to - 1]),
    decreases t.len(),
{
    if t.len() > 0 && is_space(t.last()) {
        let rest = t.drop_last();
        let to = lemma_trim_end(rest);
        assert(rest.take(to) =~= t.take(to));
        assert forall|i: int| to <= i < t.len() implies is_space(#[trigger] t[i]) by {
            if i < t.len() - 1 {
                assert(rest[i] == t[i]);
            }
        }
        to
    } else {
        assert(t.take(t.len() as int) =~= t);
        t.len() as int
    }
}

/// White space is what Unicode calls so: the ASCII controls from tab to carriage
/// return, the space, and the wider spaces and separators.
pub proof fn spaces_are_those_of_unicode(c: char)
    ensures
        is_space(c) <==> {
            let u = c as u32;
            ||| u == 9 || u == 10 || u == 11 || u == 12 || u == 13 || u == 32
            ||| u == 0x85 || u == 0xa0 || u == 0x1680
            ||| u == 0x2000 || u == 0x2001 || u == 0x2002 || u == 0x2003 || u == 0x2004 || u
                == 0x2005 || u == 0x2006 || u == 0x2007 || u == 0x2008 || u == 0x2009 || u == 0x200a
            ||| u == 0x2028 || u == 0x2029 || u == 0x202f || u == 0x205f || u == 0x3000
        },
{
}

} // verus!
