//! What the admin endpoint serves: metrics as Prometheus text, and the series
//! of a recorded snapshot.

use crate::text;
use crate::worker::Phase;
use vstd::prelude::*;
use vstd::string::*;

verus! {

/// A key and its value.
#[derive(Clone, Debug)]
pub struct Label {
    pub key: String,
    pub value: String,
}

impl View for Label {
    type V = (Seq<char>, Seq<char>);

    open spec fn view(&self) -> (Seq<char>, Seq<char>) {
        (self.key@, self.value@)
    }
}

/// One populated slot of a group of counters.
#[derive(Clone, Debug)]
pub struct Slot {
    /// Its place in the group.
    pub index: usize,
    /// What the runtime calls it.
    pub labels: Vec<Label>,
    pub value: u64,
}

/// The upper end of the bucket that a quantile falls into.
#[derive(Clone, Debug)]
pub struct Quantile {
    /// The quantile, as a number in text.
    pub name: String,
    pub end: u64,
}

/// A bucket of a histogram.
#[derive(Clone, Copy, Debug, PartialEq, Eq, Structural)]
pub struct Bucket {
    pub start: u64,
    pub end: u64,
    pub count: u64,
}

/// A histogram at one time.
#[derive(Clone, Debug)]
pub struct HistogramReading {
    pub quantiles: Vec<Quantile>,
    pub buckets: Vec<Bucket>,
    pub grouping_power: u8,
    pub max_value_power: u8,
}

/// What a metric reads.
#[derive(Clone, Debug)]
pub enum Reading {
    Counter(u64),
    Gauge(i64),
    /// The populated slots of a group of counters.
    Group(Vec<Slot>),
    Histogram(HistogramReading),
}

/// A metric at one time.
#[derive(Clone, Debug)]
pub struct Metric {
    pub name: String,
    pub description: Option<String>,
    pub metadata: Vec<Label>,
    pub reading: Reading,
}

/// Whether a character may stand in a Prometheus metric name.
pub open spec fn is_legal(c: char) -> bool {
    ('a' <= c && c <= 'z') || ('A' <= c && c <= 'Z') || ('0' <= c && c <= '9') || c == '_' || c
        == ':'
}

/// A metric name for Prometheus: what may not stand in one is an underscore.
pub open spec fn sanitized(name: Seq<char>) -> Seq<char> {
    Seq::new(
        name.len(),
        |i: int|
            if is_legal(name[i]) {
                name[i]
            } else {
                '_'
            },
    )
}

/// A metric name for Prometheus.
pub fn sanitize_name(name: &str) -> (r: String)
    ensures
        r@ == sanitized(name@),
{
    let t = text::chars_of(name);
    let mut r = String::new();
    let mut i: usize = 0;
    while i < t.len()
        invariant
            i <= t@.len(),
            t@ == name@,
            r@ == sanitized(name@).take(i as int),
        decreases t@.len() - i,
    {
        let c: char = t[i];
        if ('a' <= c && c <= 'z') || ('A' <= c && c <= 'Z') || ('0' <= c && c <= '9') || c == '_'
            || c == ':' {
            r.push(c);
        } else {
            r.push('_');
        }
        assert(r@ =~= sanitized(name@).take(i + 1));
        i = i + 1;
    }
    assert(sanitized(name@).take(t@.len() as int) =~= sanitized(name@));
    r
}

/// A sanitized name holds legal characters alone, and a name that does is left
/// as it is.
pub proof fn sanitized_names_are_legal(name: Seq<char>)
    ensures
        forall|i: int| 0 <= i < sanitized(name).len() ==> is_legal(#[trigger] sanitized(name)[i]),
        (forall|i: int| 0 <= i < name.len() ==> is_legal(#[trigger] name[i])) ==> sanitized(name)
            == name,
{
    if forall|i: int| 0 <= i < name.len() ==> is_legal(#[trigger] name[i]) {
        assert(sanitized(name) =~= name);
    }
}

/// Text with backslashes and newlines escaped.
pub open spec fn escaped(t: Seq<char>) -> Seq<char>
    decreases t.len(),
{
    if t.len() == 0 {
        Seq::empty()
    } else {
        escaped(t.drop_last()) + if t.last() == '\\' {
            seq!['\\', '\\']
        } else if t.last() == '\n' {
            seq!['\\', 'n']
        } else {
            seq![t.last()]
        }
    }
}

/// The `# HELP` line of a metric; none without a description.
pub open spec fn help_text(name: Seq<char>, description: Option<Seq<char>>) -> Seq<char> {
    match description {
        Some(d) => if d.len() == 0 {
            Seq::empty()
        } else {
            "# HELP "@ + name + " "@ + escaped(d) + "\n"@
        },
        None => Seq::empty(),
    }
}

/// The text of an optional string.
pub open spec fn text_of(s: Option<String>) -> Option<Seq<char>> {
    match s {
        Some(t) => Some(t@),
        None => None,
    }
}

/// Emit a `# HELP` line if `description` is non-empty. The text is escaped
/// per the Prometheus exposition format: backslashes and newlines only.
pub fn write_help(out: &mut String, name: &str, description: &Option<String>)
    ensures
        final(out)@ == old(out)@ + help_text(name@, text_of(*description)),
{
    let d = match description {
        Some(d) => text::chars_of(d.as_str()),
        None => {
            assert(out@ =~= out@ + help_text(name@, None));
            return;
        },
    };
    if d.len() == 0 {
        assert(out@ =~= out@ + help_text(name@, Some(d@)));
        return;
    }
    out.append("# HELP ");
    out.append(name);
    out.append(" ");
    let ghost lead = out@;
    assert(lead =~= old(out)@ + ("# HELP "@ + name@ + " "@));
    let mut i: usize = 0;
    assert(out@ =~= lead + escaped(d@.take(0)));
    while i < d.len()
        invariant
            i <= d@.len(),
            out@ == lead + escaped(d@.take(i as int)),
        decreases d@.len() - i,
    {
        let c: char = d[i];
        if c == '\\' {
            out.push('\\');
            out.push('\\');
        } else if c == '\n' {
            out.push('\\');
            out.push('n');
        } else {
            out.push(c);
        }
        assert(d@.take(i + 1).drop_last() =~= d@.take(i as int));
        assert(out@ =~= lead + escaped(d@.take(i + 1)));
        i = i + 1;
    }
    assert(d@.take(d@.len() as int) =~= d@);
    out.push('\n');
    proof {
        reveal_strlit("\n");
        assert(out@ =~= old(out)@ + help_text(name@, Some(d@)));
    }
}

/// The `# TYPE` line of a metric.
pub open spec fn type_text(name: Seq<char>, kind: Seq<char>) -> Seq<char> {
    "# TYPE "@ + name + " "@ + kind + "\n"@
}

/// A line with a value.
pub open spec fn value_text(series: Seq<char>, value: Seq<char>) -> Seq<char> {
    series + " "@ + value + "\n"@
}

fn write_type(out: &mut String, name: &str, kind: &str)
    ensures
        final(out)@ == old(out)@ + type_text(name@, kind@),
{
    out.append("# TYPE ");
    out.append(name);
    out.append(" ");
    out.append(kind);
    out.append("\n");
    assert(out@ =~= old(out)@ + type_text(name@, kind@));
}

/// Labels, each as `key="value"`, with commas between.
pub open spec fn labels_text(labels: Seq<(Seq<char>, Seq<char>)>) -> Seq<char>
    decreases labels.len(),
{
    if labels.len() == 0 {
        Seq::empty()
    } else {
        let before = labels_text(labels.drop_last());
        let (key, value) = labels.last();
        before + (if labels.len() > 1 {
            ","@
        } else {
            Seq::empty()
        }) + key + "=\""@ + value + "\""@
    }
}

/// The views of a list of labels.
pub open spec fn label_views(labels: Seq<Label>) -> Seq<(Seq<char>, Seq<char>)> {
    labels.map_values(|l: Label| l@)
}

fn push_labels(out: &mut String, labels: &Vec<Label>)
    ensures
        final(out)@ == old(out)@ + labels_text(label_views(labels@)),
{
    let mut i: usize = 0;
    assert(out@ =~= out@ + labels_text(label_views(labels@).take(0)));
    while i < labels.len()
        invariant
            i <= labels@.len(),
            out@ == old(out)@ + labels_text(label_views(labels@).take(i as int)),
        decreases labels@.len() - i,
    {
        let ghost t = label_views(labels@).take(i + 1);
        assert(t.drop_last() =~= label_views(labels@).take(i as int));
        assert(t.last() == labels@[i as int]@);
        if i > 0 {
            out.append(",");
        }
        out.append(labels[i].key.as_str());
        out.append("=\"");
        out.append(labels[i].value.as_str());
        out.append("\"");
        assert(out@ =~= old(out)@ + labels_text(t));
        i = i + 1;
    }
    assert(label_views(labels@).take(labels@.len() as int) =~= label_views(labels@));
}

/// The lines of a group's slots.
pub open spec fn slots_text(name: Seq<char>, slots: Seq<Slot>) -> Seq<char>
    decreases slots.len(),
{
    if slots.len() == 0 {
        Seq::empty()
    } else {
        slots_text(name, slots.drop_last()) + slot_text(name, slots.last())
    }
}

/// The line of one slot.
pub open spec fn slot_text(name: Seq<char>, slot: Slot) -> Seq<char> {
    name + (if slot.labels@.len() == 0 {
        Seq::empty()
    } else {
        "{"@ + labels_text(label_views(slot.labels@)) + "}"@
    }) + " "@ + text::decimal(slot.value as nat) + "\n"@
}

fn push_slot(out: &mut String, name: &str, slot: &Slot)
    ensures
        final(out)@ == old(out)@ + slot_text(name@, *slot),
{
    out.append(name);
    if slot.labels.len() > 0 {
        out.append("{");
        push_labels(out, &slot.labels);
        out.append("}");
    }
    out.append(" ");
    text::push_decimal(out, slot.value as u128);
    out.append("\n");
    assert(out@ =~= old(out)@ + slot_text(name@, *slot));
}

fn push_slots(out: &mut String, name: &str, slots: &Vec<Slot>)
    ensures
        final(out)@ == old(out)@ + slots_text(name@, slots@),
{
    let mut i: usize = 0;
    assert(out@ =~= out@ + slots_text(name@, slots@.take(0)));
    while i < slots.len()
        invariant
            i <= slots@.len(),
            out@ == old(out)@ + slots_text(name@, slots@.take(i as int)),
        decreases slots@.len() - i,
    {
        let ghost t = slots@.take(i + 1);
        assert(t.drop_last() =~= slots@.take(i as int));
        push_slot(out, name, &slots[i]);
        assert(out@ =~= old(out)@ + slots_text(name@, t));
        i = i + 1;
    }
    assert(slots@.take(slots@.len() as int) =~= slots@);
}

/// The lines of a summary's quantiles.
pub open spec fn quantiles_text(name: Seq<char>, quantiles: Seq<Quantile>) -> Seq<char>
    decreases quantiles.len(),
{
    if quantiles.len() == 0 {
        Seq::empty()
    } else {
        quantiles_text(name, quantiles.drop_last()) + quantile_text(name, quantiles.last())
    }
}

/// The line of one quantile.
pub open spec fn quantile_text(name: Seq<char>, q: Quantile) -> Seq<char> {
    name + "{quantile=\""@ + q.name@ + "\"} "@ + text::decimal(q.end as nat) + "\n"@
}

fn push_quantile(out: &mut String, name: &str, q: &Quantile)
    ensures
        final(out)@ == old(out)@ + quantile_text(name@, *q),
{
    out.append(name);
    out.append("{quantile=\"");
    out.append(q.name.as_str());
    out.append("\"} ");
    text::push_decimal(out, q.end as u128);
    out.append("\n");
    assert(out@ =~= old(out)@ + quantile_text(name@, *q));
}

/// The samples in the first `k` buckets.
pub open spec fn count_in(buckets: Seq<Bucket>, k: int) -> nat
    decreases k,
{
    if k <= 0 {
        0
    } else {
        count_in(buckets, k - 1) + buckets[k - 1].count as nat
    }
}

/// The sum of the samples in the first `k` buckets, each taken as the middle
/// of its bucket.
pub open spec fn sum_in(buckets: Seq<Bucket>, k: int) -> nat
    decreases k,
{
    if k <= 0 {
        0
    } else {
        let b = buckets[k - 1];
        (sum_in(buckets, k - 1) + b.count * ((b.start + b.end) / 2)) as nat
    }
}

proof fn lemma_count_grows(buckets: Seq<Bucket>, j: int, k: int)
    requires
        0 <= j <= k <= buckets.len(),
    ensures
        count_in(buckets, j) <= count_in(buckets, k),
    decreases k - j,
{
    if j < k {
        lemma_count_grows(buckets, j, k - 1);
    }
}

/// Whether a counter can hold the number of samples.
pub fn counts_fit(buckets: &Vec<Bucket>) -> (r: bool)
    ensures
        r == (count_in(buckets@, buckets@.len() as int) <= u64::MAX),
{
    let mut count: u64 = 0;
    let mut i: usize = 0;
    while i < buckets.len()
        invariant
            i <= buckets@.len(),
            count == count_in(buckets@, i as int),
        decreases buckets@.len() - i,
    {
        match count.checked_add(buckets[i].count) {
            Some(n) => {
                count = n;
            },
            None => {
                proof {
                    lemma_count_grows(buckets@, i + 1, buckets@.len() as int);
                }
                return false;
            },
        }
        i = i + 1;
    }
    true
}

/// The number of samples of a histogram and their sum.
pub fn totals(buckets: &Vec<Bucket>) -> (r: (u64, u128))
    requires
        count_in(buckets@, buckets@.len() as int) <= u64::MAX,
    ensures
        r.0 == count_in(buckets@, buckets@.len() as int),
        r.1 == sum_in(buckets@, buckets@.len() as int),
{
    let mut count: u64 = 0;
    let mut sum: u128 = 0;
    let mut i: usize = 0;
    while i < buckets.len()
        invariant
            i <= buckets@.len(),
            count == count_in(buckets@, i as int),
            sum == sum_in(buckets@, i as int),
            sum <= count * u64::MAX,
            count_in(buckets@, buckets@.len() as int) <= u64::MAX,
        decreases buckets@.len() - i,
    {
        let b: Bucket = buckets[i];
        let middle: u128 = (b.start as u128 + b.end as u128) / 2;
        proof {
            lemma_count_grows(buckets@, i + 1, buckets@.len() as int);
            assert(b.count * middle <= b.count * u64::MAX) by (nonlinear_arith)
                requires
                    middle <= u64::MAX,
                    b.count >= 0,
            ;
            assert(b.count * u64::MAX <= u64::MAX * u64::MAX) by (nonlinear_arith)
                requires
                    b.count <= u64::MAX,
            ;
            assert(count * u64::MAX + b.count * u64::MAX == (count + b.count) * u64::MAX)
                by (nonlinear_arith);
            assert((count + b.count) * u64::MAX <= u64::MAX * u64::MAX) by (nonlinear_arith)
                requires
                    count + b.count <= u64::MAX,
            ;
        }
        count = count + b.count;
        sum = sum + b.count as u128 * middle;
        i = i + 1;
    }
    (count, sum)
}

/// The text of a histogram's quantiles and totals.
pub open spec fn summary_text(name: Seq<char>, h: HistogramReading) -> Seq<char> {
    let n = h.buckets@.len() as int;
    quantiles_text(name, h.quantiles@) + name + "_count "@ + text::decimal(
        count_in(h.buckets@, n),
    ) + "\n"@ + name + "_sum "@ + text::decimal(sum_in(h.buckets@, n)) + "\n"@
}

/// The text of a metric: its description, its kind and its values. A group of
/// which no slot is populated emits nothing.
pub open spec fn metric_text(m: Metric) -> Seq<char> {
    let name = sanitized(m.name@);
    let help = help_text(name, text_of(m.description));
    match m.reading {
        Reading::Counter(v) => help + type_text(name, "counter"@) + value_text(
            name,
            text::decimal(v as nat),
        ),
        Reading::Gauge(v) => help + type_text(name, "gauge"@) + value_text(
            name,
            text::integer(v as int),
        ),
        Reading::Group(slots) => if slots@.len() == 0 {
            Seq::empty()
        } else {
            help + type_text(name, "counter"@) + slots_text(name, slots@)
        },
        Reading::Histogram(h) => help + type_text(name, "summary"@) + summary_text(name, h),
    }
}

/// Whether the counters that a metric's text needs can hold their values.
pub open spec fn metric_fits(m: Metric) -> bool {
    m.reading matches Reading::Histogram(h) ==> count_in(h.buckets@, h.buckets@.len() as int)
        <= u64::MAX
}

fn push_summary(out: &mut String, name: &str, h: &HistogramReading)
    requires
        count_in(h.buckets@, h.buckets@.len() as int) <= u64::MAX,
    ensures
        final(out)@ == old(out)@ + summary_text(name@, *h),
{
    let mut i: usize = 0;
    assert(out@ =~= out@ + quantiles_text(name@, h.quantiles@.take(0)));
    while i < h.quantiles.len()
        invariant
            i <= h.quantiles@.len(),
            out@ == old(out)@ + quantiles_text(name@, h.quantiles@.take(i as int)),
        decreases h.quantiles@.len() - i,
    {
        let ghost t = h.quantiles@.take(i + 1);
        assert(t.drop_last() =~= h.quantiles@.take(i as int));
        push_quantile(out, name, &h.quantiles[i]);
        assert(out@ =~= old(out)@ + quantiles_text(name@, t));
        i = i + 1;
    }
    assert(h.quantiles@.take(h.quantiles@.len() as int) =~= h.quantiles@);
    let (count, sum) = totals(&h.buckets);
    out.append(name);
    out.append("_count ");
    text::push_decimal(out, count as u128);
    out.append("\n");
    out.append(name);
    out.append("_sum ");
    text::push_decimal(out, sum);
    out.append("\n");
    assert(out@ =~= old(out)@ + summary_text(name@, *h));
}

/// Appends the text of a metric.
pub fn write_metric(out: &mut String, m: &Metric)
    requires
        metric_fits(*m),
    ensures
        final(out)@ == old(out)@ + metric_text(*m),
{
    let name = sanitize_name(m.name.as_str());
    match &m.reading {
        Reading::Counter(v) => {
            write_help(out, name.as_str(), &m.description);
            write_type(out, name.as_str(), "counter");
            out.append(name.as_str());
            out.append(" ");
            text::push_decimal(out, *v as u128);
            out.append("\n");
            assert(out@ =~= old(out)@ + metric_text(*m));
        },
        Reading::Gauge(v) => {
            write_help(out, name.as_str(), &m.description);
            write_type(out, name.as_str(), "gauge");
            out.append(name.as_str());
            out.append(" ");
            text::push_integer(out, *v);
            out.append("\n");
            assert(out@ =~= old(out)@ + metric_text(*m));
        },
        Reading::Group(slots) => {
            if slots.len() == 0 {
                assert(out@ =~= old(out)@ + metric_text(*m));
                return;
            }
            write_help(out, name.as_str(), &m.description);
            write_type(out, name.as_str(), "counter");
            push_slots(out, name.as_str(), slots);
            assert(out@ =~= old(out)@ + metric_text(*m));
        },
        Reading::Histogram(h) => {
            write_help(out, name.as_str(), &m.description);
            write_type(out, name.as_str(), "summary");
            push_summary(out, name.as_str(), h);
            assert(out@ =~= old(out)@ + metric_text(*m));
        },
    }
}

/// The text of all metrics.
pub open spec fn metrics_text(metrics: Seq<Metric>) -> Seq<char>
    decreases metrics.len(),
{
    if metrics.len() == 0 {
        Seq::empty()
    } else {
        metrics_text(metrics.drop_last()) + metric_text(metrics.last())
    }
}

/// The metrics in the Prometheus exposition format.
pub fn generate_prometheus_output(metrics: &Vec<Metric>) -> (r: String)
    requires
        forall|i: int| 0 <= i < metrics@.len() ==> metric_fits(#[trigger] metrics@[i]),
    ensures
        r@ == metrics_text(metrics@),
{
    let mut out = String::new();
    let mut i: usize = 0;
    assert(out@ =~= metrics_text(metrics@.take(0)));
    while i < metrics.len()
        invariant
            i <= metrics@.len(),
            forall|i: int| 0 <= i < metrics@.len() ==> metric_fits(#[trigger] metrics@[i]),
            out@ == metrics_text(metrics@.take(i as int)),
        decreases metrics@.len() - i,
    {
        let ghost t = metrics@.take(i + 1);
        assert(t.drop_last() =~= metrics@.take(i as int));
        write_metric(&mut out, &metrics[i]);
        assert(out@ =~= metrics_text(t));
        i = i + 1;
    }
    assert(metrics@.take(metrics@.len() as int) =~= metrics@);
    out
}

/// The value of a recorded series.
#[derive(Clone, Copy, Debug, PartialEq, Eq, Structural)]
pub enum SeriesValue {
    Counter(u64),
    Gauge(i64),
    /// The metric's histogram itself.
    Histogram,
}

/// A series of a recorded snapshot. Where two labels have the same key, the
/// later one counts.
#[derive(Clone, Debug)]
pub struct Series {
    pub name: String,
    pub metadata: Vec<Label>,
    pub value: SeriesValue,
}

/// A series, with its texts.
pub struct SeriesView {
    pub name: Seq<char>,
    pub metadata: Seq<(Seq<char>, Seq<char>)>,
    pub value: SeriesValue,
}

impl View for Series {
    type V = SeriesView;

    open spec fn view(&self) -> SeriesView {
        SeriesView {
            name: self.name@,
            metadata: label_views(self.metadata@),
            value: self.value,
        }
    }
}

/// What every series of a metric carries: the metric's name, and what the
/// metric itself carries.
pub open spec fn base_metadata(m: Metric) -> Seq<(Seq<char>, Seq<char>)> {
    seq![("metric"@, m.name@)] + label_views(m.metadata@)
}

/// The series of a metric: one, or one for each populated slot of a group,
/// named by the slot's index.
pub open spec fn series_of(m: Metric) -> Seq<SeriesView> {
    match m.reading {
        Reading::Counter(v) => seq![
            SeriesView {
                name: m.name@,
                metadata: base_metadata(m),
                value: SeriesValue::Counter(v),
            },
        ],
        Reading::Gauge(v) => seq![
            SeriesView { name: m.name@, metadata: base_metadata(m), value: SeriesValue::Gauge(v) },
        ],
        Reading::Group(slots) => Seq::new(
            slots@.len(),
            |i: int|
                SeriesView {
                    name: m.name@ + "x"@ + text::decimal(slots@[i].index as nat),
                    metadata: base_metadata(m) + label_views(slots@[i].labels@),
                    value: SeriesValue::Counter(slots@[i].value),
                },
        ),
        Reading::Histogram(h) => seq![
            SeriesView {
                name: m.name@,
                metadata: base_metadata(m) + seq![
                    ("grouping_power"@, text::decimal(h.grouping_power as nat)),
                    ("max_value_power"@, text::decimal(h.max_value_power as nat)),
                ],
                value: SeriesValue::Histogram,
            },
        ],
    }
}

fn push_copies(out: &mut Vec<Label>, labels: &Vec<Label>)
    ensures
        label_views(final(out)@) == label_views(old(out)@) + label_views(labels@),
{
    let mut i: usize = 0;
    assert(label_views(out@) =~= label_views(old(out)@) + label_views(labels@).take(0));
    while i < labels.len()
        invariant
            i <= labels@.len(),
            label_views(out@) == label_views(old(out)@) + label_views(labels@).take(i as int),
        decreases labels@.len() - i,
    {
        let ghost before = out@;
        let label = Label {
            key: String::from_str(labels[i].key.as_str()),
            value: String::from_str(labels[i].value.as_str()),
        };
        out.push(label);
        assert(label_views(out@) =~= label_views(before).push(labels@[i as int]@));
        assert(label_views(labels@).take(i + 1) =~= label_views(labels@).take(i as int).push(
            labels@[i as int]@,
        ));
        assert(label_views(out@) =~= label_views(old(out)@) + label_views(labels@).take(i + 1));
        i = i + 1;
    }
    assert(label_views(labels@).take(labels@.len() as int) =~= label_views(labels@));
}

fn base_of(m: &Metric) -> (r: Vec<Label>)
    ensures
        label_views(r@) == base_metadata(*m),
{
    let mut r: Vec<Label> = Vec::new();
    let label = Label {
        key: String::from_str("metric"),
        value: String::from_str(m.name.as_str()),
    };
    r.push(label);
    assert(label_views(r@) =~= seq![("metric"@, m.name@)]);
    push_copies(&mut r, &m.metadata);
    r
}

fn decimal_label(key: &str, n: u8) -> (r: Label)
    ensures
        r@ == (key@, text::decimal(n as nat)),
{
    let mut value = String::new();
    text::push_decimal(&mut value, n as u128);
    assert(value@ =~= text::decimal(n as nat));
    Label { key: String::from_str(key), value }
}

/// The series of a metric in a recorded snapshot.
pub fn series(m: &Metric) -> (r: Vec<Series>)
    ensures
        r@.len() == series_of(*m).len(),
        forall|i: int| 0 <= i < r@.len() ==> (#[trigger] r@[i])@ == series_of(*m)[i],
{
    let mut r: Vec<Series> = Vec::new();
    match &m.reading {
        Reading::Counter(v) => {
            r.push(
                Series {
                    name: String::from_str(m.name.as_str()),
                    metadata: base_of(m),
                    value: SeriesValue::Counter(*v),
                },
            );
        },
        Reading::Gauge(v) => {
            r.push(
                Series {
                    name: String::from_str(m.name.as_str()),
                    metadata: base_of(m),
                    value: SeriesValue::Gauge(*v),
                },
            );
        },
        Reading::Group(slots) => {
            let mut i: usize = 0;
            while i < slots.len()
                invariant
                    i <= slots@.len(),
                    m.reading == Reading::Group(*slots),
                    r@.len() == i,
                    forall|j: int| 0 <= j < i ==> (#[trigger] r@[j])@ == series_of(*m)[j],
                decreases slots@.len() - i,
            {
                let mut name = String::from_str(m.name.as_str());
                name.append("x");
                text::push_decimal(&mut name, slots[i].index as u128);
                let mut metadata = base_of(m);
                push_copies(&mut metadata, &slots[i].labels);
                let value = SeriesValue::Counter(slots[i].value);
                r.push(Series { name, metadata, value });
                i = i + 1;
            }
        },
        Reading::Histogram(h) => {
            let mut metadata = base_of(m);
            let ghost before = metadata@;
            metadata.push(decimal_label("grouping_power", h.grouping_power));
            metadata.push(decimal_label("max_value_power", h.max_value_power));
            assert(label_views(metadata@) =~= label_views(before) + seq![
                ("grouping_power"@, text::decimal(h.grouping_power as nat)),
                ("max_value_power"@, text::decimal(h.max_value_power as nat)),
            ]);
            r.push(
                Series {
                    name: String::from_str(m.name.as_str()),
                    metadata,
                    value: SeriesValue::Histogram,
                },
            );
        },
    }
    r
}

/// What the admin endpoint serves.
#[derive(Clone, Copy, Debug, PartialEq, Eq, Structural)]
pub enum Page {
    /// Metrics as text, at `/metrics` and `/`.
    Prometheus,
    /// A snapshot, at `/metrics/binary`.
    Snapshot,
    /// Nothing, anywhere else.
    NotFound,
}

/// The first place of a space at or after `from`, or the end.
pub open spec fn space_at(t: Seq<u8>, from: int) -> int
    decreases t.len() - from,
{
    if from >= t.len() || t[from] == 32 || t[from] == 13 || t[from] == 10 {
        from
    } else {
        space_at(t, from + 1)
    }
}

fn find_space(t: &[u8], from: usize) -> (r: usize)
    requires
        from <= t@.len(),
    ensures
        r == space_at(t@, from as int),
        from <= r <= t@.len(),
{
    let mut i: usize = from;
    while i < t.len() && t[i] != 32 && t[i] != 13 && t[i] != 10
        invariant
            from <= i <= t@.len(),
            space_at(t@, from as int) == space_at(t@, i as int),
        decreases t@.len() - i,
    {
        i = i + 1;
    }
    i
}

/// The path in a request: what stands between the method and the next space.
pub open spec fn request_path(request: Seq<u8>) -> Seq<u8> {
    let method = space_at(request, 0);
    if method < request.len() && request[method] == 32 {
        request.subrange(method + 1, space_at(request, method + 1))
    } else {
        Seq::empty()
    }
}

/// The path `/`.
pub open spec fn root_path() -> Seq<u8> {
    seq![47u8]
}

/// The path `/metrics`.
pub open spec fn metrics_path() -> Seq<u8> {
    seq![47u8, 109, 101, 116, 114, 105, 99, 115]
}

/// The path `/metrics/binary`.
pub open spec fn snapshot_path() -> Seq<u8> {
    metrics_path() + seq![47u8, 98, 105, 110, 97, 114, 121]
}

/// The page at a path.
pub open spec fn page_at(path: Seq<u8>) -> Page {
    if path == root_path() || path == metrics_path() {
        Page::Prometheus
    } else if path == snapshot_path() {
        Page::Snapshot
    } else {
        Page::NotFound
    }
}

fn part_is(t: &[u8], from: usize, to: usize, what: &[u8]) -> (r: bool)
    requires
        from <= to <= t@.len(),
    ensures
        r == (t@.subrange(from as int, to as int) == what@),
{
    if to - from != what.len() {
        assert(t@.subrange(from as int, to as int).len() != what@.len());
        return false;
    }
    let ghost s = t@.subrange(from as int, to as int);
    let mut i: usize = 0;
    while i < what.len()
        invariant
            i <= what@.len(),
            from <= to <= t@.len(),
            to - from == what@.len(),
            s == t@.subrange(from as int, to as int),
            forall|j: int| 0 <= j < i ==> s[j] == what@[j],
        decreases what@.len() - i,
    {
        if t[from + i] != what[i] {
            assert(s[i as int] != what@[i as int]);
            return false;
        }
        assert(s[i as int] == what@[i as int]);
        i = i + 1;
    }
    assert(s =~= what@);
    true
}

/// The page that a request asks for.
pub fn route(request: &[u8]) -> (r: Page)
    ensures
        r == page_at(request_path(request@)),
{
    let method: usize = find_space(request, 0);
    if method >= request.len() || request[method] != 32 {
        assert(request_path(request@) == Seq::<u8>::empty());
        assert(root_path().len() == 1 && metrics_path().len() == 8 && snapshot_path().len() == 15);
        return Page::NotFound;
    }
    let from: usize = method + 1;
    let to: usize = find_space(request, from);
    let root: [u8; 1] = [47];
    let metrics: [u8; 8] = [47, 109, 101, 116, 114, 105, 99, 115];
    let snapshot: [u8; 15] = [47, 109, 101, 116, 114, 105, 99, 115, 47, 98, 105, 110, 97, 114, 121];
    proof {
        assert(root@ =~= root_path());
        assert(metrics@ =~= metrics_path());
        assert(snapshot@ =~= snapshot_path());
    }
    if part_is(request, from, to, &root) || part_is(request, from, to, &metrics) {
        Page::Prometheus
    } else if part_is(request, from, to, &snapshot) {
        Page::Snapshot
    } else {
        Page::NotFound
    }
}

/// The head of the response with a body of `length` bytes.
pub open spec fn head_text(page: Page, length: nat) -> Seq<char> {
    (match page {
        Page::Prometheus => "HTTP/1.1 200 OK\r\nContent-Type: text/plain; version=0.0.4\r\n"@,
        Page::Snapshot => "HTTP/1.1 200 OK\r\nContent-Type: application/msgpack\r\n"@,
        Page::NotFound => "HTTP/1.1 404 Not Found\r\n"@,
    }) + "Content-Length: "@ + text::decimal(length) + "\r\nConnection: close\r\n\r\n"@
}

/// The head of the response with a body of `length` bytes.
pub fn response_head(page: Page, length: usize) -> (r: String)
    ensures
        r@ == head_text(page, length as nat),
{
    let mut r = String::from_str(
        match page {
            Page::Prometheus => "HTTP/1.1 200 OK\r\nContent-Type: text/plain; version=0.0.4\r\n",
            Page::Snapshot => "HTTP/1.1 200 OK\r\nContent-Type: application/msgpack\r\n",
            Page::NotFound => "HTTP/1.1 404 Not Found\r\n",
        },
    );
    r.append("Content-Length: ");
    text::push_decimal(&mut r, length as u128);
    r.append("\r\nConnection: close\r\n\r\n");
    r
}

/// Whether the recorder takes a snapshot: at every interval of the running
/// phase, and once more when it stops.
pub fn takes_snapshot(phase: Phase, stopping: bool) -> (r: bool)
    ensures
        r == (phase == Phase::Running || stopping),
{
    phase.is_recording() || stopping
}

/// Path used for the on-disk staging file alongside the final parquet output.
/// Sits next to the destination, so the user's chosen output filesystem is
/// reused.
pub fn msgpack_temp_path(parquet_path: &str) -> (r: String)
    ensures
        r@ == parquet_path@ + ".msgpack.tmp"@,
{
    let mut r = String::from_str(parquet_path);
    r.append(".msgpack.tmp");
    r
}

/// A sanitized name is as long as the name, with each character either kept or,
/// where it may not stand in a name, an underscore.
pub proof fn names_are_sanitized_in_place(name: Seq<char>, i: int)
    requires
        0 <= i < name.len(),
    ensures
        sanitized(name).len() == name.len(),
        sanitized(name)[i] == name[i] || sanitized(name)[i] == '_',
        sanitized(name)[i] == name[i] <==> name[i] == '_' || name[i] == ':' || ('a' <= name[i]
            && name[i] <= 'z') || ('A' <= name[i] && name[i] <= 'Z') || ('0' <= name[i] && name[i]
            <= '9'),
{
}

/// Escaped text is the text with every backslash doubled and every newline
/// written as a backslash and an `n`, one character after the other; no newline
/// is left.
pub proof fn escaping_leaves_no_newline(t: Seq<char>, c: char)
    ensures
        escaped(Seq::<char>::empty()) == Seq::<char>::empty(),
        escaped(t.push('\\')) == escaped(t) + seq!['\\', '\\'],
        escaped(t.push('\n')) == escaped(t) + seq!['\\', 'n'],
        c != '\\' && c != '\n' ==> escaped(t.push(c)) == escaped(t).push(c),
        forall|i: int| 0 <= i < escaped(t).len() ==> #[trigger] escaped(t)[i] != '\n',
    decreases t.len(),
{
    assert(t.push('\\').drop_last() =~= t);
    assert(t.push('\n').drop_last() =~= t);
    assert(t.push(c).drop_last() =~= t);
    if c != '\\' && c != '\n' {
        assert(escaped(t) + seq![c] =~= escaped(t).push(c));
    }
    if t.len() > 0 {
        escaping_leaves_no_newline(t.drop_last(), c);
        let before = escaped(t.drop_last());
        assert forall|i: int| 0 <= i < escaped(t).len() implies #[trigger] escaped(t)[i]
            != '\n' by {
            if i < before.len() {
                assert(escaped(t)[i] == before[i]);
            }
        }
    }
}

/// The texts of metrics stand one after the other, each as it is alone, in the
/// order of the metrics; none is left out.
pub proof fn metrics_stand_one_after_the_other(a: Seq<Metric>, m: Metric, b: Seq<Metric>)
    ensures
        metrics_text(a.push(m)) == metrics_text(a) + metric_text(m),
        metrics_text(a + b) == metrics_text(a) + metrics_text(b),
    decreases b.len(),
{
    assert(a.push(m).drop_last() =~= a);
    if b.len() > 0 {
        metrics_stand_one_after_the_other(a, m, b.drop_last());
        assert((a + b).drop_last() =~= a + b.drop_last());
        assert((a + b).last() == b.last());
        assert(metrics_text(a + b) =~= metrics_text(a) + metrics_text(b));
    } else {
        assert(a + b =~= a);
        assert(metrics_text(a) + metrics_text(b) =~= metrics_text(a));
    }
}

/// Every populated slot of a group has its line, and every quantile of a
/// histogram has one, in order.
pub proof fn slots_and_quantiles_have_their_lines(
    name: Seq<char>,
    slots: Seq<Slot>,
    s: Slot,
    quantiles: Seq<Quantile>,
    q: Quantile,
)
    ensures
        slots_text(name, Seq::empty()) == Seq::<char>::empty(),
        slots_text(name, slots.push(s)) == slots_text(name, slots) + slot_text(name, s),
        quantiles_text(name, Seq::empty()) == Seq::<char>::empty(),
        quantiles_text(name, quantiles.push(q)) == quantiles_text(name, quantiles) + quantile_text(
            name,
            q,
        ),
{
    assert(slots.push(s).drop_last() =~= slots);
    assert(quantiles.push(q).drop_last() =~= quantiles);
}

/// Labels have commas between them, and none before the first.
pub proof fn labels_have_commas_between(
    labels: Seq<(Seq<char>, Seq<char>)>,
    key: Seq<char>,
    value: Seq<char>,
)
    ensures
        labels_text(seq![(key, value)]) == key + "=\""@ + value + "\""@,
        labels.len() > 0 ==> labels_text(labels.push((key, value))) == labels_text(labels) + ","@
            + key + "=\""@ + value + "\""@,
{
    let one = seq![(key, value)];
    assert(one.drop_last() =~= Seq::empty());
    reveal_with_fuel(labels_text, 2);
    assert(labels_text(one.drop_last()) =~= Seq::<char>::empty());
    assert(one.last() == (key, value));
    assert(Seq::<char>::empty() + Seq::<char>::empty() + key =~= key);
    assert(labels.push((key, value)).drop_last() =~= labels);
}

/// A bucket adds its samples to the count, and each of them to the sum as the
/// middle of the bucket.
pub proof fn buckets_add_up(buckets: Seq<Bucket>, b: Bucket)
    ensures
        count_in(buckets, 0) == 0,
        sum_in(buckets, 0) == 0,
        count_in(buckets.push(b), buckets.len() as int + 1) == count_in(buckets, buckets.len() as int)
            + b.count,
        sum_in(buckets.push(b), buckets.len() as int + 1) == sum_in(buckets, buckets.len() as int)
            + b.count * ((b.start + b.end) / 2),
{
    lemma_sums_of_prefix(buckets, buckets.push(b), buckets.len() as int);
    assert(b.count * ((b.start + b.end) / 2) >= 0) by (nonlinear_arith)
        requires
            b.count >= 0,
            (b.start + b.end) / 2 >= 0,
    ;
}

proof fn lemma_sums_of_prefix(a: Seq<Bucket>, b: Seq<Bucket>, k: int)
    requires
        0 <= k <= a.len() <= b.len(),
        forall|i: int| 0 <= i < k ==> a[i] == b[i],
    ensures
        count_in(a, k) == count_in(b, k),
        sum_in(a, k) == sum_in(b, k),
    decreases k,
{
    if k > 0 {
        lemma_sums_of_prefix(a, b, k - 1);
    }
}

/// The path of a request is what stands between its first two spaces, whatever
/// the method and whatever follows.
pub proof fn the_path_follows_the_method(method: Seq<u8>, path: Seq<u8>, rest: Seq<u8>)
    requires
        forall|i: int|
            0 <= i < method.len() ==> #[trigger] method[i] != 32 && method[i] != 13 && method[i]
                != 10,
        forall|i: int|
            0 <= i < path.len() ==> #[trigger] path[i] != 32 && path[i] != 13 && path[i] != 10,
        rest.len() == 0 || rest[0] == 32,
    ensures
        request_path(method + seq![32u8] + path + rest) == path,
{
    let t = method + seq![32u8] + path + rest;
    let m = method.len() as int;
    let p = path.len() as int;
    assert forall|i: int| 0 <= i < m implies #[trigger] t[i] != 32 && t[i] != 13 && t[i] != 10 by {
        assert(t[i] == method[i]);
    }
    assert(t[m] == 32);
    lemma_space_at(t, 0, m);
    assert forall|i: int| m + 1 <= i < m + 1 + p implies #[trigger] t[i] != 32 && t[i] != 13
        && t[i] != 10 by {
        assert(t[i] == path[i - m - 1]);
    }
    if rest.len() > 0 {
        assert(t[m + 1 + p] == rest[0]);
    }
    lemma_space_at(t, m + 1, m + 1 + p);
    assert(t.subrange(m + 1, m + 1 + p) =~= path);
}

proof fn lemma_space_at(t: Seq<u8>, from: int, at: int)
    requires
        0 <= from <= at <= t.len(),
        forall|i: int| from <= i < at ==> #[trigger] t[i] != 32 && t[i] != 13 && t[i] != 10,
        at < t.len() ==> t[at] == 32 || t[at] == 13 || t[at] == 10,
    ensures
        space_at(t, from) == at,
    decreases at - from,
{
    if from < at {
        lemma_space_at(t, from + 1, at);
    }
}

/// The metrics are at the root and at `/metrics`, their snapshot at
/// `/metrics/binary`, and nothing is anywhere else.
pub proof fn pages_are_at_their_paths(path: Seq<u8>)
    ensures
        page_at(path) == Page::Prometheus <==> crate::search::reply::spells(path, "/"@)
            || crate::search::reply::spells(path, "/metrics"@),
        page_at(path) == Page::Snapshot <==> crate::search::reply::spells(path, "/metrics/binary"@),
{
    reveal_strlit("/");
    reveal_strlit("/metrics");
    reveal_strlit("/metrics/binary");
    let root = "/"@;
    let metrics = "/metrics"@;
    let binary = "/metrics/binary"@;
    if crate::search::reply::spells(path, root) {
        assert(path =~= root_path());
    }
    if crate::search::reply::spells(path, metrics) {
        assert forall|i: int| 0 <= i < 8 implies path[i] == #[trigger] metrics_path()[i] by {
            assert(path[i] as u32 == metrics[i] as u32);
        }
        assert(path =~= metrics_path());
    }
    if crate::search::reply::spells(path, binary) {
        assert forall|i: int| 0 <= i < 15 implies path[i] == #[trigger] snapshot_path()[i] by {
            assert(path[i] as u32 == binary[i] as u32);
        }
        assert(path =~= snapshot_path());
    }
    assert(root_path().len() == 1 && metrics_path().len() == 8 && snapshot_path().len() == 15);
}

/// A metric's text is its description, where it has one, its kind and then its
/// values under its sanitized name: a counter and a gauge have one line, a group
/// one for each slot, a histogram one for each quantile, the count and the sum.
/// A group without slots has no text at all.
pub proof fn metrics_have_a_kind_and_values(m: Metric)
    ensures
        ({
            let name = sanitized(m.name@);
            let help = match m.description {
                Some(d) => if d@.len() > 0 {
                    "# HELP "@ + name + " "@ + escaped(d@) + "\n"@
                } else {
                    Seq::empty()
                },
                None => Seq::empty(),
            };
            metric_text(m) == match m.reading {
                Reading::Counter(v) => help + ("# TYPE "@ + name + " "@ + "counter"@ + "\n"@) + (name
                    + " "@ + text::decimal(v as nat) + "\n"@),
                Reading::Gauge(v) => help + ("# TYPE "@ + name + " "@ + "gauge"@ + "\n"@) + (name
                    + " "@ + text::integer(v as int) + "\n"@),
                Reading::Group(slots) => if slots@.len() == 0 {
                    Seq::empty()
                } else {
                    help + ("# TYPE "@ + name + " "@ + "counter"@ + "\n"@) + slots_text(name, slots@)
                },
                Reading::Histogram(h) => help + ("# TYPE "@ + name + " "@ + "summary"@ + "\n"@) + (
                quantiles_text(name, h.quantiles@) + name + "_count "@ + text::decimal(
                    count_in(h.buckets@, h.buckets@.len() as int),
                ) + "\n"@ + name + "_sum "@ + text::decimal(
                    sum_in(h.buckets@, h.buckets@.len() as int),
                ) + "\n"@),
            }
        }),
{
}

/// A slot's line has its labels in braces, where it has any, and its value.
pub proof fn slots_show_their_labels(name: Seq<char>, slot: Slot, q: Quantile)
    ensures
        slot.labels@.len() == 0 ==> slot_text(name, slot) == name + Seq::empty() + " "@
            + text::decimal(slot.value as nat) + "\n"@,
        slot.labels@.len() > 0 ==> slot_text(name, slot) == name + ("{"@ + labels_text(
            label_views(slot.labels@),
        ) + "}"@) + " "@ + text::decimal(slot.value as nat) + "\n"@,
        quantile_text(name, q) == name + "{quantile=\""@ + q.name@ + "\"} "@ + text::decimal(
            q.end as nat,
        ) + "\n"@,
{
}

/// A recorded metric has one series under its own name, or one for each slot of a
/// group, named by the slot's index; every series carries the metric's name
/// first, then what the metric carries, then what is its own.
pub proof fn series_carry_their_metric(m: Metric, i: int)
    requires
        0 <= i < series_of(m).len(),
    ensures
        series_of(m).len() == match m.reading {
            Reading::Group(slots) => slots@.len(),
            _ => 1,
        },
        series_of(m)[i].metadata.len() > m.metadata@.len(),
        series_of(m)[i].metadata[0] == ("metric"@, m.name@),
        forall|j: int|
            0 <= j < m.metadata@.len() ==> series_of(m)[i].metadata[j + 1] == (
            #[trigger] m.metadata@[j])@,
        m.reading matches Reading::Counter(v) ==> series_of(m)[i].name == m.name@ && series_of(
            m,
        )[i].value == SeriesValue::Counter(v),
        m.reading matches Reading::Gauge(v) ==> series_of(m)[i].name == m.name@ && series_of(
            m,
        )[i].value == SeriesValue::Gauge(v),
        m.reading matches Reading::Group(slots) ==> series_of(m)[i].name == m.name@ + "x"@
            + text::decimal(slots@[i].index as nat) && series_of(m)[i].value
            == SeriesValue::Counter(slots@[i].value),
        m.reading is Histogram ==> series_of(m)[i].name == m.name@ && series_of(m)[i].value
            == SeriesValue::Histogram,
{
}

} // verus!
