//! Number formatting for reports.

use crate::double::Double;
use crate::text;
use vstd::prelude::*;
use vstd::string::*;

verus! {

/// A number with three significant figures. Bounds account for rounding:
/// 9.995 rounds to 10.0 and 99.95 rounds to 100.
pub open spec fn three_figures(value: Double) -> Seq<char> {
    if value.lt_spec(Double::fraction(9_995, 1_000)) {
        text::fixed(value, 2)
    } else if value.lt_spec(Double::fraction(9_995, 100)) {
        text::fixed(value, 1)
    } else {
        text::fixed(value, 0)
    }
}

/// Whether a number stays below a thousand when it is shown with three
/// significant figures or without places.
pub open spec fn below_thousand(value: Double) -> bool {
    value.lt_spec(Double::fraction(9_995, 10))
}

fn is_below_thousand(value: Double) -> (r: bool)
    ensures
        r == below_thousand(value),
{
    value.lt(Double::ratio(9_995, 10))
}

/// Whether a number stays below a thousand when it is shown with one place.
pub open spec fn below_thousand_at_one(value: Double) -> bool {
    value.lt_spec(Double::fraction(99_995, 100))
}

fn is_below_thousand_at_one(value: Double) -> (r: bool)
    ensures
        r == below_thousand_at_one(value),
{
    value.lt(Double::ratio(99_995, 100))
}

/// A rate per second, in the unit in which it is shown as less than a thousand.
pub open spec fn rate_text(value: Double) -> Seq<char> {
    if below_thousand(value) {
        three_figures(value)
    } else if below_thousand(Double::quotient(value, Double::of_nat(1_000))) {
        three_figures(Double::quotient(value, Double::of_nat(1_000))) + "K"@
    } else {
        three_figures(Double::quotient(value, Double::of_nat(1_000_000))) + "M"@
    }
}

/// Format a rate (requests/second) with SI suffixes and 3 significant figures.
/// - < 1K: "X.XX", "XX.X", or "XXX"
/// - 1K - 999K: "X.XXK", "XX.XK", or "XXXK"
/// - >= 1M: "X.XXM", "XX.XM", or "XXXM"
pub fn format_rate(value: Double) -> (r: String)
    ensures
        r@ == rate_text(value),
{
    proof {
        reveal_strlit("");
    }
    if is_below_thousand(value) {
        format_3sig(value, "")
    } else if is_below_thousand(value.over(Double::from_u64(1_000))) {
        format_3sig(value.over(Double::from_u64(1_000)), "K")
    } else {
        format_3sig(value.over(Double::from_u64(1_000_000)), "M")
    }
}

/// Format a number with 3 significant figures and an optional suffix.
pub fn format_3sig(value: Double, suffix: &str) -> (r: String)
    ensures
        r@ == three_figures(value) + suffix@,
        suffix@.len() == 0 ==> r@ == three_figures(value),
{
    let mut r = String::new();
    if value.lt(Double::ratio(9_995, 1_000)) {
        text::push_fixed(&mut r, value, 2);
    } else if value.lt(Double::ratio(9_995, 100)) {
        text::push_fixed(&mut r, value, 1);
    } else {
        text::push_fixed(&mut r, value, 0);
    }
    assert(r@ =~= three_figures(value));
    r.append(suffix);
    assert(suffix@.len() == 0 ==> r@ =~= three_figures(value));
    r
}

/// Format a rate with padding for table alignment.
pub fn format_rate_padded(value: Double, width: usize) -> (r: String)
    ensures
        r@ == text::right_aligned(rate_text(value), width as nat),
{
    let s = format_rate(value);
    text::pad_left(s.as_str(), width)
}

/// A latency in microseconds, milliseconds or seconds: the first in which it
/// is shown as less than a thousand.
pub open spec fn latency_text(us: Double) -> Seq<char> {
    if below_thousand(us) {
        three_figures(us) + "us"@
    } else if below_thousand(Double::quotient(us, Double::of_nat(1_000))) {
        three_figures(Double::quotient(us, Double::of_nat(1_000))) + "ms"@
    } else {
        three_figures(Double::quotient(us, Double::of_nat(1_000_000))) + "s"@
    }
}

/// Format a latency value in microseconds with autoscaling and 3 significant figures.
/// - < 1000us: "XXXus" or "X.Xus" or "XX.Xus"
/// - 1ms - 999ms: "X.XXms" or "XX.Xms" or "XXXms"
/// - >= 1s: "X.XXs" or "XX.Xs" or "XXXs"
pub fn format_latency_us(us: Double) -> (r: String)
    ensures
        r@ == latency_text(us),
{
    if is_below_thousand(us) {
        format_3sig(us, "us")
    } else if is_below_thousand(us.over(Double::from_u64(1_000))) {
        format_3sig(us.over(Double::from_u64(1_000)), "ms")
    } else {
        format_3sig(us.over(Double::from_u64(1_000_000)), "s")
    }
}

/// Format a latency with padding for table alignment.
pub fn format_latency_padded(us: Double, width: usize) -> (r: String)
    ensures
        r@ == text::right_aligned(latency_text(us), width as nat),
{
    let s = format_latency_us(us);
    text::pad_left(s.as_str(), width)
}

/// A percentage with three significant figures; what would round to 100 has
/// no decimals.
pub open spec fn pct_text(value: Double) -> Seq<char> {
    if Double::fraction(9_995, 100).le_spec(value) {
        text::fixed(value, 0)
    } else if Double::of_nat(10).le_spec(value) {
        text::fixed(value, 1)
    } else {
        text::fixed(value, 2)
    }
}

/// Format a percentage with 3 significant figures.
/// - >= 100%: no decimals (e.g., "100")
/// - >= 10%: 1 decimal (e.g., "95.2")
/// - < 10%: 2 decimals (e.g., "9.99", "0.01")
///
/// Note: Values that round to 100 are shown without decimals.
pub fn format_pct(value: Double) -> (r: String)
    ensures
        r@ == pct_text(value),
{
    let mut r = String::new();
    if Double::ratio(9_995, 100).le(value) {
        text::push_fixed(&mut r, value, 0);
    } else if Double::from_u64(10).le(value) {
        text::push_fixed(&mut r, value, 1);
    } else {
        text::push_fixed(&mut r, value, 2);
    }
    assert(r@ =~= pct_text(value));
    r
}

/// Format a percentage with padding for table alignment.
pub fn format_pct_padded(value: Double, width: usize) -> (r: String)
    ensures
        r@ == text::right_aligned(pct_text(value), width as nat),
{
    let s = format_pct(value);
    text::pad_left(s.as_str(), width)
}

/// A bandwidth, in the first unit in which it is shown as less than a
/// thousand.
pub open spec fn bandwidth_text(bps: Double) -> Seq<char> {
    if below_thousand(bps) {
        text::fixed(bps, 0) + " bps"@
    } else if below_thousand_at_one(Double::quotient(bps, Double::of_nat(1_000))) {
        text::fixed(Double::quotient(bps, Double::of_nat(1_000)), 1) + " Kbps"@
    } else if below_thousand_at_one(Double::quotient(bps, Double::of_nat(1_000_000))) {
        text::fixed(Double::quotient(bps, Double::of_nat(1_000_000)), 1) + " Mbps"@
    } else {
        text::fixed(Double::quotient(bps, Double::of_nat(1_000_000_000)), 2) + " Gbps"@
    }
}

/// Format bandwidth in bits per second with SI suffixes.
/// - < 1K: "XXX bps"
/// - 1K - 999.9K: "XXX.X Kbps"
/// - 1M - 999.9M: "XXX.X Mbps"
/// - >= 1G: "X.XX Gbps"
pub fn format_bandwidth_bps(bps: Double) -> (r: String)
    ensures
        r@ == bandwidth_text(bps),
{
    let mut r = String::new();
    if is_below_thousand(bps) {
        text::push_fixed(&mut r, bps, 0);
        r.append(" bps");
    } else if is_below_thousand_at_one(bps.over(Double::from_u64(1_000))) {
        text::push_fixed(&mut r, bps.over(Double::from_u64(1_000)), 1);
        r.append(" Kbps");
    } else if is_below_thousand_at_one(bps.over(Double::from_u64(1_000_000))) {
        text::push_fixed(&mut r, bps.over(Double::from_u64(1_000_000)), 1);
        r.append(" Mbps");
    } else {
        text::push_fixed(&mut r, bps.over(Double::from_u64(1_000_000_000)), 2);
        r.append(" Gbps");
    }
    assert(r@ =~= bandwidth_text(bps));
    r
}

/// A count: as it is, in thousands while it is shown as less than a thousand
/// of them, or in millions.
pub open spec fn count_text(value: nat) -> Seq<char> {
    let v = Double::of_nat(value);
    if value < 1_000 {
        text::decimal(value)
    } else if below_thousand_at_one(Double::quotient(v, Double::of_nat(1_000))) {
        text::fixed(Double::quotient(v, Double::of_nat(1_000)), 1) + "K"@
    } else {
        text::fixed(Double::quotient(v, Double::of_nat(1_000_000)), 1) + "M"@
    }
}

/// Format a count with SI suffixes for display.
/// - < 1K: raw number
/// - 1K - 999.9K: "XXX.XK"
/// - >= 1M: "X.XM"
pub fn format_count(value: u64) -> (r: String)
    ensures
        r@ == count_text(value as nat),
{
    let v = Double::from_u64(value);
    let mut r = String::new();
    if value < 1_000 {
        text::push_decimal(&mut r, value as u128);
    } else if is_below_thousand_at_one(v.over(Double::from_u64(1_000))) {
        text::push_fixed(&mut r, v.over(Double::from_u64(1_000)), 1);
        r.append("K");
    } else {
        text::push_fixed(&mut r, v.over(Double::from_u64(1_000_000)), 1);
        r.append("M");
    }
    assert(r@ =~= count_text(value as nat));
    r
}

/// An amount of bytes, scaled by 1024.
pub open spec fn bytes_text(bytes: nat) -> Seq<char> {
    let v = Double::of_nat(bytes);
    if v.lt_spec(Double::of_nat(1_024)) {
        text::decimal(bytes) + "B"@
    } else if v.lt_spec(Double::of_nat(1_048_576)) {
        text::fixed(Double::quotient(v, Double::of_nat(1_024)), 1) + "KB"@
    } else if v.lt_spec(Double::of_nat(1_073_741_824)) {
        text::fixed(Double::quotient(v, Double::of_nat(1_048_576)), 1) + "MB"@
    } else {
        text::fixed(Double::quotient(v, Double::of_nat(1_073_741_824)), 2) + "GB"@
    }
}

/// Format bytes with SI suffixes.
pub fn format_bytes(bytes: u64) -> (r: String)
    ensures
        r@ == bytes_text(bytes as nat),
{
    let v = Double::from_u64(bytes);
    let mut r = String::new();
    if v.lt(Double::from_u64(1_024)) {
        text::push_decimal(&mut r, bytes as u128);
        r.append("B");
    } else if v.lt(Double::from_u64(1_048_576)) {
        text::push_fixed(&mut r, v.over(Double::from_u64(1_024)), 1);
        r.append("KB");
    } else if v.lt(Double::from_u64(1_073_741_824)) {
        text::push_fixed(&mut r, v.over(Double::from_u64(1_048_576)), 1);
        r.append("MB");
    } else {
        text::push_fixed(&mut r, v.over(Double::from_u64(1_073_741_824)), 2);
        r.append("GB");
    }
    assert(r@ =~= bytes_text(bytes as nat));
    r
}

/// Three significant figures: two places below ten, one below a hundred and none
/// from there on, where a number counts as what it rounds to.
pub proof fn figures_are_three(value: Double)
    ensures
        value.lt_spec(Double::fraction(9_995, 1_000)) ==> three_figures(value) == text::fixed(
            value,
            2,
        ),
        !value.lt_spec(Double::fraction(9_995, 1_000)) && value.lt_spec(
            Double::fraction(9_995, 100),
        ) ==> three_figures(value) == text::fixed(value, 1),
        !value.lt_spec(Double::fraction(9_995, 1_000)) && !value.lt_spec(
            Double::fraction(9_995, 100),
        ) ==> three_figures(value) == text::fixed(value, 0),
{
}

/// A rate or a latency is shown in the smallest of its units in which it rounds
/// to less than a thousand, or in the largest.
pub proof fn units_are_the_smallest_that_fit(value: Double)
    ensures
        ({
            let top = Double::fraction(9_995, 10);
            let small = value.lt_spec(top);
            let thousands = Double::quotient(value, Double::of_nat(1_000));
            let millions = Double::quotient(value, Double::of_nat(1_000_000));
            let middle = thousands.lt_spec(top);
            &&& small ==> rate_text(value) == three_figures(value) && latency_text(value)
                == three_figures(value) + "us"@
            &&& !small && middle ==> rate_text(value) == three_figures(thousands) + "K"@
                && latency_text(value) == three_figures(thousands) + "ms"@
            &&& !small && !middle ==> rate_text(value) == three_figures(millions) + "M"@
                && latency_text(value) == three_figures(millions) + "s"@
        }),
{
}

/// A percentage has no places from what rounds to a hundred on, one from ten on,
/// and two below.
pub proof fn percentages_have_three_figures(value: Double)
    ensures
        Double::fraction(9_995, 100).le_spec(value) ==> pct_text(value) == text::fixed(value, 0),
        !Double::fraction(9_995, 100).le_spec(value) && Double::of_nat(10).le_spec(value)
            ==> pct_text(value) == text::fixed(value, 1),
        !Double::fraction(9_995, 100).le_spec(value) && !Double::of_nat(10).le_spec(value)
            ==> pct_text(value) == text::fixed(value, 2),
{
}

/// A bandwidth is shown in bits, thousands, millions or thousands of millions of
/// them: the first in which it rounds to less than a thousand.
pub proof fn bandwidth_has_four_units(bps: Double)
    ensures
        ({
            let kilo = Double::quotient(bps, Double::of_nat(1_000));
            let mega = Double::quotient(bps, Double::of_nat(1_000_000));
            let giga = Double::quotient(bps, Double::of_nat(1_000_000_000));
            let bits = bps.lt_spec(Double::fraction(9_995, 10));
            let kilobits = kilo.lt_spec(Double::fraction(99_995, 100));
            let megabits = mega.lt_spec(Double::fraction(99_995, 100));
            bandwidth_text(bps) == if bits {
                text::fixed(bps, 0) + " bps"@
            } else if kilobits {
                text::fixed(kilo, 1) + " Kbps"@
            } else if megabits {
                text::fixed(mega, 1) + " Mbps"@
            } else {
                text::fixed(giga, 2) + " Gbps"@
            }
        }),
{
}

/// A count below a thousand is shown as it is; a larger one in thousands, or in
/// millions once it would round to a thousand of them.
pub proof fn counts_are_shown_in_their_unit(value: nat)
    ensures
        value < 1_000 ==> count_text(value) == text::decimal(value),
        ({
            let kilo = Double::quotient(Double::of_nat(value), Double::of_nat(1_000));
            let mega = Double::quotient(Double::of_nat(value), Double::of_nat(1_000_000));
            let fits = kilo.lt_spec(Double::fraction(99_995, 100));
            &&& value >= 1_000 && fits ==> count_text(value) == text::fixed(kilo, 1) + "K"@
            &&& value >= 1_000 && !fits ==> count_text(value) == text::fixed(mega, 1) + "M"@
        }),
{
}

/// An amount of bytes below 1024 is shown as it is; a larger one in units of 1024
/// each.
pub proof fn bytes_are_scaled_by_1024(bytes: nat)
    requires
        bytes < 0x20_0000_0000_0000,
    ensures
        bytes < 1_024 ==> bytes_text(bytes) == text::decimal(bytes) + "B"@,
        1_024 <= bytes < 1_024 * 1_024 ==> bytes_text(bytes) == text::fixed(
            Double::fraction(bytes, 1_024),
            1,
        ) + "KB"@,
        1_024 * 1_024 <= bytes < 1_024 * 1_024 * 1_024 ==> bytes_text(bytes) == text::fixed(
            Double::fraction(bytes, 1_024 * 1_024),
            1,
        ) + "MB"@,
        1_024 * 1_024 * 1_024 <= bytes ==> bytes_text(bytes) == text::fixed(
            Double::fraction(bytes, 1_024 * 1_024 * 1_024),
            2,
        ) + "GB"@,
{
    crate::rounding::integers_order_as_numbers(bytes, 1_024);
    crate::rounding::integers_order_as_numbers(bytes, 1_048_576);
    crate::rounding::integers_order_as_numbers(bytes, 1_073_741_824);
}

} // verus!
