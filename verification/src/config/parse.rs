//! Reading the small grammars of the configuration: CPU lists and durations.

use crate::text;
use crate::time::Duration;
use vstd::prelude::*;
use vstd::string::*;

verus! {

/// The comma-separated parts of a text.
pub open spec fn fields(t: Seq<char>) -> Seq<Seq<char>>
    decreases t.len(),
{
    let i = text::first_index(t, ',') as int;
    if i >= t.len() {
        seq![t]
    } else {
        seq![t.take(i)] + fields(t.skip(i + 1))
    }
}

/// What one part of a CPU list says: nothing when it is blank, an inclusive
/// range of CPUs, or why it is not understood.
pub open spec fn cpu_entry(field: Seq<char>) -> Result<Option<(nat, nat)>, Seq<char>> {
    let p = text::trim(field);
    let i = text::first_index(p, '-') as int;
    if p.len() == 0 {
        Ok(None)
    } else if i < p.len() {
        let a = p.take(i);
        let b = p.skip(i + 1);
        match (
            text::number(text::trim(a), usize::MAX as nat),
            text::number(text::trim(b), usize::MAX as nat),
        ) {
            (None, _) => Err("invalid CPU number: "@ + a),
            (Some(_), None) => Err("invalid CPU number: "@ + b),
            (Some(x), Some(y)) => if x > y {
                Err("invalid range: "@ + text::decimal(x) + " > "@ + text::decimal(y))
            } else {
                Ok(Some((x, y)))
            },
        }
    } else {
        match text::number(p, usize::MAX as nat) {
            None => Err("invalid CPU number: "@ + p),
            Some(x) => Ok(Some((x, x))),
        }
    }
}

/// Why the first part that is not understood is not.
pub open spec fn cpu_error(parts: Seq<Seq<char>>) -> Option<Seq<char>>
    decreases parts.len(),
{
    if parts.len() == 0 {
        None
    } else {
        match cpu_entry(parts[0]) {
            Err(e) => Some(e),
            Ok(_) => cpu_error(parts.skip(1)),
        }
    }
}

/// Whether one part of a CPU list names a CPU.
pub open spec fn names(field: Seq<char>, cpu: usize) -> bool {
    match cpu_entry(field) {
        Ok(Some((x, y))) => x <= cpu <= y,
        _ => false,
    }
}

/// Whether some part of a CPU list names a CPU.
pub open spec fn listed(parts: Seq<Seq<char>>, cpu: usize) -> bool {
    exists|i: int| 0 <= i < parts.len() && names(#[trigger] parts[i], cpu)
}

/// Whether a list is in strictly increasing order.
pub open spec fn increasing(v: Seq<usize>) -> bool {
    forall|i: int, j: int| 0 <= i < j < v.len() ==> v[i] < v[j]
}

/// Adds a CPU to an increasing list that may hold it already.
fn insert(v: &mut Vec<usize>, cpu: usize)
    requires
        increasing(old(v)@),
    ensures
        increasing(final(v)@),
        forall|c: usize| #[trigger] final(v)@.contains(c) <==> (old(v)@.contains(c) || c == cpu),
{
    let mut i: usize = v.len();
    while i > 0 && v[i - 1] > cpu
        invariant
            i <= v@.len(),
            v@ == old(v)@,
            increasing(v@),
            forall|j: int| i <= j < v@.len() ==> v@[j] > cpu,
        decreases i,
    {
        i = i - 1;
    }
    if i > 0 && v[i - 1] == cpu {
        assert(v@[i - 1] == cpu);
        return;
    }
    v.insert(i, cpu);
    let ghost after = old(v)@.insert(i as int, cpu);
    assert(v@ == after);
    assert(increasing(v@));
    assert forall|c: usize| #[trigger] v@.contains(c) <==> (old(v)@.contains(c) || c == cpu) by {
        if v@.contains(c) && c != cpu {
            let k = choose|k: int| 0 <= k < v@.len() && v@[k] == c;
            if k < i {
                assert(old(v)@[k] == c);
            } else {
                assert(old(v)@[k - 1] == c);
            }
        }
        if old(v)@.contains(c) {
            let k = choose|k: int| 0 <= k < old(v)@.len() && old(v)@[k] == c;
            if k < i {
                assert(v@[k] == c);
            } else {
                assert(v@[k + 1] == c);
            }
        }
        if c == cpu {
            assert(v@[i as int] == cpu);
        }
    }
}

/// Adds an inclusive range of CPUs to an increasing list.
fn insert_range(v: &mut Vec<usize>, from: usize, to: usize)
    requires
        increasing(old(v)@),
        from <= to,
    ensures
        increasing(final(v)@),
        forall|c: usize| #[trigger]
            final(v)@.contains(c) <==> (old(v)@.contains(c) || from <= c <= to),
{
    let mut c: usize = from;
    insert(v, c);
    while c < to
        invariant
            from <= c <= to,
            increasing(v@),
            forall|x: usize| #[trigger]
                v@.contains(x) <==> (old(v)@.contains(x) || from <= x <= c),
        decreases to - c,
    {
        c = c + 1;
        insert(v, c);
    }
}

fn number_error(t: &Vec<char>) -> (r: String)
    ensures
        r@ == "invalid CPU number: "@ + t@,
{
    let mut e = String::from_str("invalid CPU number: ");
    text::push_chars(&mut e, t);
    e
}

/// Reads one part of a CPU list.
fn parse_entry(field: &Vec<char>) -> (r: Result<Option<(usize, usize)>, String>)
    ensures
        match (r, cpu_entry(field@)) {
            (Ok(None), Ok(None)) => true,
            (Ok(Some((x, y))), Ok(Some((a, b)))) => x == a && y == b && x <= y,
            (Err(e), Err(f)) => e@ == f,
            _ => false,
        },
{
    let p = text::trimmed(field);
    if p.len() == 0 {
        return Ok(None);
    }
    let i: usize = text::find(&p, '-');
    if i < p.len() {
        let a = text::part(&p, 0, i);
        let b = text::part(&p, i + 1, p.len());
        assert(a@ =~= p@.take(i as int));
        assert(b@ =~= p@.skip(i + 1));
        let x = match text::parse_number(&text::trimmed(&a), usize::MAX as u64) {
            Some(x) => x as usize,
            None => {
                return Err(number_error(&a));
            },
        };
        let y = match text::parse_number(&text::trimmed(&b), usize::MAX as u64) {
            Some(y) => y as usize,
            None => {
                return Err(number_error(&b));
            },
        };
        if x > y {
            let mut e = String::from_str("invalid range: ");
            text::push_decimal(&mut e, x as u128);
            e.append(" > ");
            text::push_decimal(&mut e, y as u128);
            return Err(e);
        }
        Ok(Some((x, y)))
    } else {
        match text::parse_number(&p, usize::MAX as u64) {
            Some(x) => Ok(Some((x as usize, x as usize))),
            None => Err(number_error(&p)),
        }
    }
}

/// The first part and the rest make up all parts.
proof fn lemma_fields_step(t: Seq<char>)
    ensures
        ({
            let i = text::first_index(t, ',') as int;
            &&& i <= t.len()
            &&& fields(t)[0] == t.take(i)
            &&& i >= t.len() ==> fields(t) == seq![t]
            &&& i < t.len() ==> fields(t).skip(1) == fields(t.skip(i + 1))
            &&& fields(t).len() > 0
        }),
{
    text::lemma_first_index(t, ',');
    let i = text::first_index(t, ',') as int;
    if i >= t.len() {
        assert(t.take(i) =~= t);
    } else {
        text::lemma_first_index(t.skip(i + 1), ',');
        assert(fields(t).skip(1) =~= fields(t.skip(i + 1)));
    }
}

/// A CPU is listed by the first part or by the rest.
proof fn lemma_listed_step(parts: Seq<Seq<char>>, cpu: usize)
    requires
        parts.len() > 0,
    ensures
        listed(parts, cpu) <==> names(parts[0], cpu) || listed(parts.skip(1), cpu),
{
    let rest = parts.skip(1);
    if listed(parts, cpu) {
        let i = choose|i: int| 0 <= i < parts.len() && names(#[trigger] parts[i], cpu);
        if i > 0 {
            assert(rest[i - 1] == parts[i]);
        }
    }
    if listed(rest, cpu) {
        let i = choose|i: int| 0 <= i < rest.len() && names(#[trigger] rest[i], cpu);
        assert(parts[i + 1] == rest[i]);
    }
}

/// Parse a Linux-style CPU list string into a vector of CPU IDs.
///
/// Examples:
/// - "0-3" -> [0, 1, 2, 3]
/// - "0,2,4" -> [0, 2, 4]
/// - "0-3,8-11,13" -> [0, 1, 2, 3, 8, 9, 10, 11, 13]
///
/// The CPUs come in increasing order, each once.
pub fn parse_cpu_list(s: &str) -> (r: Result<Vec<usize>, String>)
    ensures
        match r {
            Ok(v) => {
                &&& cpu_error(fields(s@)) is None
                &&& increasing(v@)
                &&& forall|c: usize| #[trigger] v@.contains(c) <==> listed(fields(s@), c)
            },
            Err(e) => cpu_error(fields(s@)) == Some(e@),
        },
{
    let mut cpus: Vec<usize> = Vec::new();
    let mut rest: Vec<char> = text::chars_of(s);
    let ghost all = fields(s@);
    assert forall|c: usize| !(#[trigger] cpus@.contains(c)) by {
    }
    loop
        invariant_except_break
            increasing(cpus@),
            all == fields(s@),
            cpu_error(all) == cpu_error(fields(rest@)),
            forall|c: usize| #[trigger]
                listed(all, c) <==> (cpus@.contains(c) || listed(fields(rest@), c)),
        ensures
            increasing(cpus@),
            cpu_error(all) is None,
            forall|c: usize| #[trigger] cpus@.contains(c) <==> listed(all, c),
        decreases rest@.len(),
    {
        let i: usize = text::find(&rest, ',');
        let ghost here = fields(rest@);
        proof {
            lemma_fields_step(rest@);
            assert forall|c: usize| true implies (#[trigger] listed(here, c) <==> names(here[0], c)
                || listed(here.skip(1), c)) by {
                lemma_listed_step(here, c);
            }
        }
        let field = text::part(&rest, 0, i);
        assert(field@ =~= rest@.take(i as int));
        let ghost before = cpus@;
        match parse_entry(&field) {
            Ok(None) => {},
            Ok(Some((x, y))) => {
                insert_range(&mut cpus, x, y);
            },
            Err(e) => {
                return Err(e);
            },
        }
        assert(forall|c: usize| #[trigger]
            cpus@.contains(c) <==> (before.contains(c) || names(here[0], c)));
        if i >= rest.len() {
            assert(here.skip(1) =~= Seq::empty());
            assert(forall|c: usize| !(#[trigger] listed(here.skip(1), c)));
            assert(cpu_error(here.skip(1)) is None);
            assert(forall|c: usize| #[trigger] cpus@.contains(c) <==> listed(all, c)) by {
                assert(forall|c: usize| listed(all, c) <==> (before.contains(c) || #[trigger] listed(here, c)));
            }
            break;
        }
        let n: usize = rest.len();
        let next = text::part(&rest, i + 1, n);
        assert(next@ =~= rest@.skip(i + 1));
        assert(forall|c: usize| listed(all, c) <==> (before.contains(c) || #[trigger] listed(here, c)));
        rest = next;
    }
    Ok(cpus)
}

/// The nanoseconds of a named unit of time; none means seconds.
pub open spec fn unit_nanos(unit: Seq<char>) -> Option<nat> {
    if unit == "s"@ || unit == "sec"@ || unit == "secs"@ || unit == ""@ {
        Some(1_000_000_000)
    } else if unit == "m"@ || unit == "min"@ || unit == "mins"@ {
        Some(60_000_000_000)
    } else if unit == "h"@ || unit == "hr"@ || unit == "hrs"@ || unit == "hour"@ || unit
        == "hours"@ {
        Some(3_600_000_000_000)
    } else if unit == "ms"@ {
        Some(1_000_000)
    } else if unit == "us"@ {
        Some(1_000)
    } else if unit == "ns"@ {
        Some(1)
    } else {
        None
    }
}

/// The number of ASCII digits that a text starts with.
pub open spec fn leading_digits(t: Seq<char>) -> nat
    decreases t.len(),
{
    if t.len() > 0 && text::is_digit(t[0]) {
        1 + leading_digits(t.skip(1))
    } else {
        0
    }
}

/// The count of a duration and the nanoseconds of its unit, or why the text
/// is not one.
pub open spec fn duration_parts(s: Seq<char>) -> Result<(nat, nat), Seq<char>> {
    let t = text::trim(s);
    let k = leading_digits(t) as int;
    let unit = text::trim(t.skip(k));
    if t.len() == 0 {
        Err("empty duration"@)
    } else if k == 0 {
        Err("invalid number: cannot parse integer from empty string"@)
    } else if text::digits_number(t.take(k)) > u64::MAX {
        Err("invalid number: number too large to fit in target type"@)
    } else {
        match unit_nanos(unit) {
            None => Err("unknown time unit: "@ + unit),
            Some(n) => Ok((text::digits_number(t.take(k)), n)),
        }
    }
}

/// The digits that a text starts with are digits.
proof fn lemma_leading_digits(t: Seq<char>)
    ensures
        leading_digits(t) <= t.len(),
        forall|i: int| 0 <= i < leading_digits(t) ==> text::is_digit(#[trigger] t[i]),
    decreases t.len(),
{
    if t.len() > 0 && text::is_digit(t[0]) {
        let u = t.skip(1);
        lemma_leading_digits(u);
        assert forall|i: int| 0 <= i < leading_digits(t) implies text::is_digit(
            #[trigger] t[i],
        ) by {
            if i > 0 {
                assert(t[i] == u[i - 1]);
            }
        }
    }
}

fn count_leading_digits(t: &Vec<char>) -> (r: usize)
    ensures
        r == leading_digits(t@),
        r <= t@.len(),
{
    let mut k: usize = 0;
    assert(t@.skip(0) =~= t@);
    while k < t.len() && t[k] >= '0' && t[k] <= '9'
        invariant
            k <= t@.len(),
            leading_digits(t@) == k + leading_digits(t@.skip(k as int)),
        decreases t@.len() - k,
    {
        assert(t@.skip(k as int).skip(1) =~= t@.skip(k + 1));
        k = k + 1;
    }
    k
}

fn parse_unit(unit: &Vec<char>) -> (r: Option<u64>)
    ensures
        match r {
            Some(n) => unit_nanos(unit@) == Some(n as nat),
            None => unit_nanos(unit@) is None,
        },
{
    if text::same(unit, "s") || text::same(unit, "sec") || text::same(unit, "secs")
        || text::same(unit, "") {
        Some(1_000_000_000)
    } else if text::same(unit, "m") || text::same(unit, "min") || text::same(unit, "mins") {
        Some(60_000_000_000)
    } else if text::same(unit, "h") || text::same(unit, "hr") || text::same(unit, "hrs")
        || text::same(unit, "hour") || text::same(unit, "hours") {
        Some(3_600_000_000_000)
    } else if text::same(unit, "ms") {
        Some(1_000_000)
    } else if text::same(unit, "us") {
        Some(1_000)
    } else if text::same(unit, "ns") {
        Some(1)
    } else {
        None
    }
}

/// Reads the count of a duration and the nanoseconds of its unit.
pub fn humantime_parts(s: &str) -> (r: Result<(u64, u64), String>)
    ensures
        match r {
            Ok((count, unit)) => duration_parts(s@) == Ok::<_, Seq<char>>(
                (count as nat, unit as nat),
            ),
            Err(e) => duration_parts(s@) == Err::<(nat, nat), _>(e@),
        },
{
    let t = text::trimmed(&text::chars_of(s));
    if t.len() == 0 {
        return Err(String::from_str("empty duration"));
    }
    let k: usize = count_leading_digits(&t);
    if k == 0 {
        return Err(String::from_str("invalid number: cannot parse integer from empty string"));
    }
    let num = text::part(&t, 0, k);
    assert(num@ =~= t@.take(k as int));
    proof {
        lemma_leading_digits(t@);
        assert(text::all_digits(num@)) by {
            assert forall|i: int| 0 <= i < num@.len() implies text::is_digit(#[trigger] num@[i]) by {
                assert(num@[i] == t@[i]);
            }
        }
        assert(text::is_digit(num@[0]));
        assert(text::without_plus(num@) == num@);
    }
    let count: u64 = match text::parse_number(&num, u64::MAX) {
        Some(n) => n,
        None => {
            return Err(String::from_str("invalid number: number too large to fit in target type"));
        },
    };
    let unit = text::trimmed(&text::part(&t, k, t.len()));
    assert(t@.subrange(k as int, t@.len() as int) =~= t@.skip(k as int));
    match parse_unit(&unit) {
        Some(n) => Ok((count, n)),
        None => {
            let mut e = String::from_str("unknown time unit: ");
            text::push_chars(&mut e, &unit);
            Err(e)
        },
    }
}

/// Whether a count of units is a duration: whole seconds are counted in a
/// machine integer.
pub open spec fn duration_fits(count: nat, unit: nat) -> bool {
    unit >= 1_000_000_000 ==> count * (unit / 1_000_000_000) <= u64::MAX
}

/// Reads durations like "100ns", "500us", "1ms", "60s", "10m", "1h", or bare
/// seconds.
pub fn humantime_parse(s: &str) -> (r: Result<Duration, String>)
    requires
        duration_parts(s@) matches Ok((count, unit)) ==> duration_fits(count, unit),
    ensures
        match r {
            Ok(d) => duration_parts(s@) matches Ok((count, unit)) && d.nanos == count * unit,
            Err(e) => duration_parts(s@) == Err::<(nat, nat), _>(e@),
        },
{
    match humantime_parts(s) {
        Ok((count, unit)) => {
            assert(unit <= 3_600_000_000_000);
            assert(count * unit <= u64::MAX * 3_600_000_000_000) by (nonlinear_arith)
                requires
                    count <= u64::MAX,
                    unit <= 3_600_000_000_000,
            ;
            Ok(Duration { nanos: (count as u128) * (unit as u128) })
        },
        Err(e) => Err(e),
    }
}

/// Texts with a comma between each two.
pub open spec fn joined(parts: Seq<Seq<char>>) -> Seq<char>
    decreases parts.len(),
{
    if parts.len() == 0 {
        Seq::empty()
    } else if parts.len() == 1 {
        parts[0]
    } else {
        parts[0] + seq![','] + joined(parts.skip(1))
    }
}

/// The parts of a list, joined by commas again, are the list, and no part holds
/// a comma.
pub proof fn fields_make_up_the_text(t: Seq<char>)
    ensures
        fields(t).len() > 0,
        joined(fields(t)) == t,
        forall|i: int, j: int|
            0 <= i < fields(t).len() && 0 <= j < fields(t)[i].len() ==> #[trigger] fields(
                t,
            )[i][j] != ',',
    decreases t.len(),
{
    let i = text::first_index(t, ',') as int;
    lemma_before_the_first(t, ',');
    if i >= t.len() {
        assert(fields(t) =~= seq![t]);
    } else {
        let rest = t.skip(i + 1);
        let more = fields(rest);
        fields_make_up_the_text(rest);
        let all = fields(t);
        assert(all =~= seq![t.take(i)] + more);
        assert(all.skip(1) =~= more);
        assert(joined(all) =~= t.take(i) + seq![','] + rest);
        assert(t =~= t.take(i) + seq![','] + rest);
        assert forall|a: int, b: int| 0 <= a < all.len() && 0 <= b < all[a].len() implies
            #[trigger] all[a][b] != ',' by {
            if a == 0 {
                assert(all[0][b] == t[b]);
            } else {
                assert(all[a] == more[a - 1]);
                assert(more[a - 1][b] != ',');
            }
        }
    }
}

proof fn lemma_before_the_first(t: Seq<char>, c: char)
    ensures
        text::first_index(t, c) <= t.len(),
        forall|i: int| 0 <= i < text::first_index(t, c) ==> #[trigger] t[i] != c,
        text::first_index(t, c) < t.len() ==> t[text::first_index(t, c) as int] == c,
    decreases t.len(),
{
    if t.len() > 0 && t[0] != c {
        let rest = t.skip(1);
        lemma_before_the_first(rest, c);
        assert forall|i: int| 0 <= i < text::first_index(t, c) implies #[trigger] t[i] != c by {
            if i > 0 {
                assert(rest[i - 1] == t[i]);
            }
        }
    }
}

/// Text without white space at either end is not trimmed.
proof fn lemma_not_trimmed(t: Seq<char>)
    requires
        t.len() > 0,
        !text::is_space(t[0]),
        !text::is_space(t.last()),
    ensures
        text::trim(t) == t,
{
}

/// A single number in a CPU list names that CPU, and two with a dash between
/// them the CPUs from the one to the other, as long as they are in order.
pub proof fn ranges_name_their_cpus(x: nat, y: nat, cpu: usize)
    requires
        x <= usize::MAX,
        y <= usize::MAX,
    ensures
        names(text::decimal(x), cpu) <==> cpu == x,
        x <= y ==> (names(text::decimal(x) + seq!['-'] + text::decimal(y), cpu) <==> x <= cpu <= y),
        x > y ==> cpu_entry(text::decimal(x) + seq!['-'] + text::decimal(y)) is Err,
{
    let a = text::decimal(x);
    let b = text::decimal(y);
    text::lemma_decimal_reads_back(x);
    text::lemma_decimal_reads_back(y);
    text::decimals_are_read_back(x, usize::MAX as nat);
    text::decimals_are_read_back(y, usize::MAX as nat);
    lemma_digits_are_plain(a);
    lemma_digits_are_plain(b);
    text::the_first_is_found(a, '-', a.len() as int);
    let t = a + seq!['-'] + b;
    assert(t[0] == a[0]);
    assert(t.last() == b.last());
    lemma_not_trimmed(t);
    assert forall|i: int| 0 <= i < a.len() implies #[trigger] t[i] != '-' by {
        assert(t[i] == a[i]);
    }
    assert(t[a.len() as int] == '-');
    text::the_first_is_found(t, '-', a.len() as int);
    assert(t.take(a.len() as int) =~= a);
    assert(t.skip(a.len() as int + 1) =~= b);
}

proof fn lemma_digits_are_plain(d: Seq<char>)
    requires
        text::all_digits(d),
    ensures
        forall|i: int| 0 <= i < d.len() ==> #[trigger] d[i] != '-' && d[i] != ',' && d[i] != '+',
        text::trim(d) == d,
{
    assert forall|i: int| 0 <= i < d.len() implies #[trigger] d[i] != '-' && d[i] != ',' && d[i]
        != '+' by {
        assert(text::is_digit(d[i]));
    }
    assert(text::is_digit(d[0]));
    assert(text::is_digit(d[d.len() - 1]));
    lemma_not_trimmed(d);
}

proof fn lemma_leading_of(t: Seq<char>, k: int)
    requires
        0 <= k <= t.len(),
        forall|i: int| 0 <= i < k ==> text::is_digit(#[trigger] t[i]),
        k < t.len() ==> !text::is_digit(t[k]),
    ensures
        leading_digits(t) == k,
    decreases t.len(),
{
    if k > 0 {
        let rest = t.skip(1);
        assert(text::is_digit(t[0]));
        assert forall|i: int| 0 <= i < k - 1 implies text::is_digit(#[trigger] rest[i]) by {
            assert(rest[i] == t[i + 1]);
        }
        lemma_leading_of(rest, k - 1);
    }
}

/// A count with a unit of letters behind it is read as that count of that unit.
pub proof fn durations_are_read_back(n: nat, unit: Seq<char>, nanos: nat)
    requires
        n <= u64::MAX,
        unit_nanos(unit) == Some(nanos),
        unit.len() > 0,
        !text::is_digit(unit[0]),
        !text::is_space(unit[0]),
        !text::is_space(unit.last()),
    ensures
        duration_parts(text::decimal(n) + unit) == Ok::<_, Seq<char>>((n, nanos)),
        duration_parts(text::decimal(n)) == Ok::<_, Seq<char>>((n, 1_000_000_000nat)),
{
    let d = text::decimal(n);
    let t = d + unit;
    text::lemma_decimal_reads_back(n);
    lemma_digits_are_plain(d);
    assert(t[0] == d[0]);
    assert(text::is_digit(d[0]));
    assert(t.last() == unit.last());
    lemma_not_trimmed(t);
    assert forall|i: int| 0 <= i < d.len() implies text::is_digit(#[trigger] t[i]) by {
        assert(t[i] == d[i]);
    }
    assert(t[d.len() as int] == unit[0]);
    lemma_leading_of(t, d.len() as int);
    assert(t.take(d.len() as int) =~= d);
    assert(t.skip(d.len() as int) =~= unit);
    lemma_not_trimmed(unit);
    lemma_leading_of(d, d.len() as int);
    assert(d.take(d.len() as int) =~= d);
    let none = d.skip(d.len() as int);
    assert(none.len() == 0);
    assert(text::trim(none) == none);
    reveal_strlit("");
    assert(none =~= ""@);
}

/// The units of time are a thousand of each other up to the second, and sixty
/// from there on.
pub proof fn units_are_multiples_of_each_other()
    ensures
        unit_nanos("ns"@) == Some(1nat),
        unit_nanos("us"@) == Some(1_000nat),
        unit_nanos("ms"@) == Some(1_000_000nat),
        unit_nanos("s"@) == Some(1_000_000_000nat),
        unit_nanos("sec"@) == unit_nanos("s"@) && unit_nanos("secs"@) == unit_nanos("s"@),
        unit_nanos("m"@) == Some((60 * 1_000_000_000) as nat),
        unit_nanos("min"@) == unit_nanos("m"@) && unit_nanos("mins"@) == unit_nanos("m"@),
        unit_nanos("h"@) == Some((60 * 60 * 1_000_000_000) as nat),
        unit_nanos("hr"@) == unit_nanos("h"@) && unit_nanos("hrs"@) == unit_nanos("h"@),
        unit_nanos("hour"@) == unit_nanos("h"@) && unit_nanos("hours"@) == unit_nanos("h"@),
{
    reveal_strlit("");
    reveal_strlit("ns");
    reveal_strlit("us");
    reveal_strlit("ms");
    reveal_strlit("s");
    reveal_strlit("sec");
    reveal_strlit("secs");
    reveal_strlit("m");
    reveal_strlit("min");
    reveal_strlit("mins");
    reveal_strlit("h");
    reveal_strlit("hr");
    reveal_strlit("hrs");
    reveal_strlit("hour");
    reveal_strlit("hours");
    assert(""@.len() == 0);
    assert("ns"@.len() == 2 && "ns"@[0] == 'n');
    assert("us"@.len() == 2 && "us"@[0] == 'u');
    assert("ms"@.len() == 2 && "ms"@[0] == 'm');
    assert("s"@.len() == 1 && "s"@[0] == 's');
    assert("sec"@.len() == 3 && "sec"@[0] == 's');
    assert("secs"@.len() == 4 && "secs"@[0] == 's');
    assert("m"@.len() == 1 && "m"@[0] == 'm');
    assert("min"@.len() == 3 && "min"@[0] == 'm');
    assert("mins"@.len() == 4 && "mins"@[0] == 'm');
    assert("h"@.len() == 1 && "h"@[0] == 'h');
    assert("hr"@.len() == 2 && "hr"@[0] == 'h');
    assert("hrs"@.len() == 3 && "hrs"@[0] == 'h');
    assert("hour"@.len() == 4 && "hour"@[0] == 'h');
    assert("hours"@.len() == 5 && "hours"@[0] == 'h');
}

/// A CPU list is refused for the first of its parts that is not understood, and
/// accepted when all are.
pub proof fn the_first_fault_is_reported(parts: Seq<Seq<char>>, k: int)
    requires
        0 <= k <= parts.len(),
        forall|i: int| 0 <= i < k ==> cpu_entry(#[trigger] parts[i]) is Ok,
        k < parts.len() ==> cpu_entry(parts[k]) is Err,
    ensures
        k < parts.len() ==> cpu_error(parts) == Some(cpu_entry(parts[k])->Err_0),
        k == parts.len() ==> cpu_error(parts) is None,
    decreases parts.len(),
{
    if parts.len() > 0 && k > 0 {
        let rest = parts.skip(1);
        assert(cpu_entry(parts[0]) is Ok);
        assert forall|i: int| 0 <= i < k - 1 implies cpu_entry(#[trigger] rest[i]) is Ok by {
            assert(rest[i] == parts[i + 1]);
        }
        if k < parts.len() {
            assert(rest[k - 1] == parts[k]);
        }
        the_first_fault_is_reported(rest, k - 1);
    }
}

/// A part of white space alone names nothing and is no fault.
pub proof fn blank_parts_name_nothing(field: Seq<char>, cpu: usize)
    requires
        forall|i: int| 0 <= i < field.len() ==> text::is_space(#[trigger] field[i]),
    ensures
        cpu_entry(field) is Ok,
        !names(field, cpu),
{
    let r = text::trimming_takes_the_space_around(field);
    if r.0 < r.1 {
        assert(text::is_space(field[r.0]));
    }
}

} // verus!
