//! What holds of every rendered line: that it is one line, that it survives
//! updates of the metrics, and that histogram lines count observations.

use vstd::prelude::*;
use crate::atomic;
use crate::bounded::BoundedString;
use crate::erased::DescModel;
use crate::erased::GroupModel;
use crate::erased::HistModel;
use crate::erased::HistReading;
use crate::erased::HistVecModel;
use crate::erased::MetricModel;
use crate::escape;
use crate::exposition;
use crate::exposition::Cursor;
use crate::exposition::Drained;
use crate::exposition::Failure;
use crate::exposition::Limits;
use crate::exposition::Outcome;
use crate::histogram;
use crate::labels;
use crate::names;
use crate::render;
use crate::render::RenderError;
use crate::series;
use crate::series::IntReading;
use crate::sink;
use crate::sink::FormatError;
use crate::slots;
use crate::slots::SeriesModel;
use crate::step;
use crate::step::Step;
use crate::text;
use crate::transcript;
use crate::value;
use crate::value::Value;

verus! {

/// Whether a text breaks no line.
pub open spec fn one_line(s: Seq<char>) -> bool {
    !s.contains('\n')
}

broadcast proof fn lemma_one_line_concat(a: Seq<char>, b: Seq<char>)
    requires
        one_line(a),
        one_line(b),
    ensures
        #[trigger] one_line(a + b),
{
    if (a + b).contains('\n') {
        let i = choose|i: int| 0 <= i < (a + b).len() && (a + b)[i] == '\n';
        if i < a.len() {
            assert(a[i] == '\n');
        } else {
            assert(b[i - a.len()] == '\n');
        }
    }
}

/// Digits break no line.
proof fn lemma_decimal_is_one_line(n: nat)
    ensures
        one_line(text::decimal(n)),
    decreases n,
{
    if n >= 10 {
        lemma_decimal_is_one_line(n / 10);
        let high = text::decimal(n / 10);
        let last = seq![text::digit_char(n % 10)];
        assert(text::decimal(n) =~= high + last);
        assert(one_line(last));
        lemma_one_line_concat(high, last);
    }
}

/// Whether a sample value is written on one line: a float's own decimal text
/// is what decides.
pub open spec fn value_clean(v: Value) -> bool {
    v matches Value::F64(f) ==> one_line(f.shown@)
}

proof fn lemma_value_is_one_line(v: Value)
    requires
        value_clean(v),
    ensures
        one_line(value::value_text(v)),
{
    broadcast use lemma_one_line_concat;

    reveal_strlit("NaN");
    reveal_strlit("+Inf");
    reveal_strlit("-Inf");
    match v {
        Value::U64(n) => lemma_decimal_is_one_line(n as nat),
        Value::I64(n) => {
            if n < 0 {
                lemma_decimal_is_one_line((-n) as nat);
                assert(one_line(seq!['-']));
            } else {
                lemma_decimal_is_one_line(n as nat);
            }
        },
        Value::F64(f) => {},
    }
}

/// Whether label blocks that can be formatted break no line.
pub open spec fn labels_clean(labels: Option<Seq<char>>) -> bool {
    labels matches Some(block) ==> one_line(block)
}

/// Whether neither the name of a metric, nor its labels, nor its values break
/// a line. Its help text can hold anything.
pub open spec fn desc_clean(d: DescModel) -> bool {
    &&& one_line(d.namespace)
    &&& one_line(d.name)
    &&& match d.metric {
        MetricModel::Counter(n) => true,
        MetricModel::Gauge(v) => value_clean(v),
        MetricModel::CounterVec(s) => forall|i: int|
            0 <= i < s.len() ==> labels_clean((#[trigger] s[i]).labels),
        MetricModel::GaugeVec(s) => forall|i: int|
            0 <= i < s.len() ==> labels_clean((#[trigger] s[i]).labels) && value_clean(s[i].value),
        MetricModel::Histogram(h) => forall|b: int|
            0 <= b < h.bounds.len() ==> value_clean(#[trigger] h.bounds[b]),
        MetricModel::HistogramVec(h) => {
            &&& forall|b: int| 0 <= b < h.bounds.len() ==> value_clean(#[trigger] h.bounds[b])
            &&& forall|i: int|
                0 <= i < h.series.len() ==> labels_clean((#[trigger] h.series[i]).labels)
        },
    }
}

proof fn lemma_name_is_one_line(d: DescModel, suffix: Seq<char>)
    requires
        one_line(d.namespace),
        one_line(d.name),
        one_line(suffix),
    ensures
        one_line(exposition::full_name(d, suffix)),
{
    broadcast use lemma_one_line_concat;

    assert(one_line(seq!['_']));
}

/// Every rendered line ends with a line break.
pub proof fn law_lines_end_with_a_break(step: Step, d: DescModel, reading: HistReading, n: u64)
    ensures
        exposition::step_text(step, d, reading, n) matches Some(shown) ==> shown.len() > 0
            && shown.last() == '\n',
{
}

/// A rendered line has no line break but the one at its end, whatever the help
/// text and the label values hold.
pub proof fn law_lines_break_only_at_their_end(
    step: Step,
    d: DescModel,
    reading: HistReading,
    n: u64,
)
    requires
        desc_clean(d),
        value_clean(reading.sum),
        step::fits(step, d.metric),
    ensures
        exposition::step_text(step, d, reading, n) matches Some(shown) ==> one_line(
            shown.drop_last(),
        ),
{
    broadcast use lemma_one_line_concat;

    reveal_strlit("");
    reveal_strlit("# HELP ");
    reveal_strlit("# TYPE ");
    reveal_strlit("counter");
    reveal_strlit("gauge");
    reveal_strlit("histogram");
    reveal_strlit("_bucket");
    reveal_strlit("_sum");
    reveal_strlit("_count");
    reveal_strlit("} ");
    reveal_strlit("le=\"");
    reveal_strlit("\"} ");
    reveal_strlit("le=\"+Inf\"} ");
    lemma_name_is_one_line(d, ""@);
    lemma_name_is_one_line(d, "_bucket"@);
    lemma_name_is_one_line(d, "_sum"@);
    lemma_name_is_one_line(d, "_count"@);
    escape::law_escaped_help_is_one_line(d.help);
    lemma_value_is_one_line(reading.sum);
    lemma_decimal_is_one_line(n as nat);
    lemma_decimal_is_one_line(reading.count as nat);
    assert(one_line(seq![' ']));
    assert(one_line(seq!['{']));
    assert(one_line(seq!['}']));
    assert(one_line(seq![',']));
    if let Some(shown) = exposition::step_text(step, d, reading, n) {
        let name = exposition::full_name(d, ""@);
        match step {
            Step::Help => {
                assert(shown.drop_last() =~= "# HELP "@ + name + seq![' ']
                    + escape::escaped_help(d.help));
            },
            Step::Type => {
                assert(shown.drop_last() =~= "# TYPE "@ + name + seq![' ']
                    + exposition::type_word(d.metric));
            },
            Step::Sample => {
                let value = exposition::scalar_shown(d.metric);
                match d.metric {
                    MetricModel::Counter(v) => lemma_decimal_is_one_line(v as nat),
                    MetricModel::Gauge(v) => lemma_value_is_one_line(v),
                    _ => {},
                }
                assert(shown.drop_last() =~= name + seq![' '] + value);
            },
            Step::Series(i) => {
                let labels = exposition::series_labels(d.metric, i as int)->Some_0;
                let value = exposition::series_shown(d.metric, i as int);
                match d.metric {
                    MetricModel::CounterVec(s) => lemma_decimal_is_one_line(
                        s[i as int].value as nat,
                    ),
                    MetricModel::GaugeVec(s) => lemma_value_is_one_line(s[i as int].value),
                    _ => {},
                }
                assert(shown.drop_last() =~= name + seq!['{'] + labels + "} "@ + value);
            },
            Step::Bucket { s, b } => {
                let bound = value::value_text(step::hist_bound(d.metric, b as int));
                let head = exposition::bucket_head(d, exposition::hist_labels(d.metric, s));
                lemma_value_is_one_line(step::hist_bound(d.metric, b as int));
                assert(one_line(head));
                assert(shown.drop_last() =~= head + "le=\""@ + bound + "\"} "@ + text::decimal(
                    n as nat,
                ));
            },
            Step::BucketInf { s } => {
                let head = exposition::bucket_head(d, exposition::hist_labels(d.metric, s));
                assert(one_line(head));
                assert(shown.drop_last() =~= head + "le=\"+Inf\"} "@ + text::decimal(
                    reading.count as nat,
                ));
            },
            Step::Sum { s } => {
                let head = exposition::total_head(
                    d,
                    "_sum"@,
                    exposition::hist_labels(d.metric, s),
                );
                assert(one_line(head));
                assert(shown.drop_last() =~= head + seq![' '] + value::value_text(reading.sum));
            },
            Step::Count { s } => {
                let head = exposition::total_head(
                    d,
                    "_count"@,
                    exposition::hist_labels(d.metric, s),
                );
                assert(one_line(head));
                assert(shown.drop_last() =~= head + seq![' '] + text::decimal(
                    reading.count as nat,
                ));
            },
            Step::Advance => {},
        }
    }
}

/// A line that is rendered fits in the line buffer.
pub proof fn law_rendered_lines_fit(groups: Seq<GroupModel>, c: Cursor, limits: Limits)
    ensures
        exposition::advanced(groups, c, limits) matches Outcome::Line(shown, next)
            ==> text::byte_len(shown) <= limits.line,
{
}

/// A renderer that has rendered everything stands behind the last group, and
/// stays there.
pub proof fn law_done_renderers_stay_done(groups: Seq<GroupModel>, c: Cursor, limits: Limits)
    ensures
        exposition::advanced(groups, c, limits) matches Outcome::Done(end) ==> {
            &&& end.g >= groups.len()
            &&& exposition::advanced(groups, end, limits) == Outcome::Done(end)
        },
{
    exposition::lemma_located(groups, c);
}

/// Rendering to the end leaves the renderer behind the last group, and doing
/// so again renders nothing more and changes nothing.
pub proof fn law_rendering_ends_behind_the_last_group(
    groups: Seq<GroupModel>,
    c: Cursor,
    limits: Limits,
)
    ensures
        exposition::drained(groups, c, limits).end matches Ok(end) ==> {
            let again = exposition::drained(groups, end, limits);
            &&& end.g >= groups.len()
            &&& again.lines.len() == 0
            &&& again.end == Ok::<_, Failure>(end)
        },
    decreases
        exposition::groups_left(groups, c),
        exposition::metrics_left(groups, c),
        step::phase(c.step),
        step::series_left(c.step, exposition::metric_at(groups, c)),
        step::lines_left(c.step, exposition::metric_at(groups, c)),
{
    law_done_renderers_stay_done(groups, c, limits);
    exposition::lemma_advanced_descends(groups, c, limits);
    if let Outcome::Line(shown, next) = exposition::advanced(groups, c, limits) {
        law_rendering_ends_behind_the_last_group(groups, next, limits);
    }
}

/// Valid metric and label names break no line.
pub proof fn law_valid_names_are_one_line(name: Seq<char>)
    requires
        escape::metric_name_ok(name) || escape::label_name_ok(name),
    ensures
        one_line(name),
{
    if name.contains('\n') {
        let i = choose|i: int| 0 <= i < name.len() && name[i] == '\n';
        if i > 0 {
            assert(escape::name_continue(name[i]) || escape::label_continue(name[i]));
        }
    }
}

/// The label blocks of a collection with valid label names break no line.
pub proof fn law_collection_labels_are_one_line<T>(
    series: Seq<SeriesModel<T>>,
    label_names: Seq<Seq<char>>,
    capacity: nat,
    histogram: bool,
    i: int,
)
    requires
        names::names_fault(label_names, histogram) is None,
        slots::well_labeled(series, label_names, capacity),
        0 <= i < series.len(),
    ensures
        one_line(series[i].labels),
{
    names::law_names_without_fault(label_names, histogram);
    assert forall|j: int| 0 <= j < label_names.len() implies !(
    #[trigger] label_names[j]).contains('\n') by {
        law_valid_names_are_one_line(label_names[j]);
    }
    assert(slots::is_block(label_names, series[i].labels));
    let values = choose|values: Seq<Seq<char>>|
        values.len() == label_names.len() && series[i].labels == #[trigger] labels::block_text(
            label_names,
            values,
        );
    labels::law_blocks_are_one_line(label_names, values);
}

/// Whether a metric can have become another by updates alone: it is of the
/// same kind with the same bounds, and each series has kept its index and its
/// labels, while series can have been added and everything else can have
/// changed.
pub open spec fn metric_evolves(before: MetricModel, after: MetricModel) -> bool {
    match (before, after) {
        (MetricModel::Counter(a), MetricModel::Counter(b)) => true,
        (MetricModel::Gauge(a), MetricModel::Gauge(b)) => true,
        (MetricModel::CounterVec(a), MetricModel::CounterVec(b)) => {
            &&& a.len() <= b.len()
            &&& forall|i: int| 0 <= i < a.len() ==> (#[trigger] a[i]).labels == b[i].labels
        },
        (MetricModel::GaugeVec(a), MetricModel::GaugeVec(b)) => {
            &&& a.len() <= b.len()
            &&& forall|i: int| 0 <= i < a.len() ==> (#[trigger] a[i]).labels == b[i].labels
        },
        (MetricModel::Histogram(a), MetricModel::Histogram(b)) => a.bounds == b.bounds,
        (MetricModel::HistogramVec(a), MetricModel::HistogramVec(b)) => {
            &&& a.bounds == b.bounds
            &&& a.series.len() <= b.series.len()
            &&& forall|i: int|
                0 <= i < a.series.len() ==> (#[trigger] a.series[i]).labels == b.series[i].labels
        },
        _ => false,
    }
}

/// The same of a metric with its identity.
pub open spec fn desc_evolves(before: DescModel, after: DescModel) -> bool {
    &&& before.namespace == after.namespace
    &&& before.name == after.name
    &&& before.help == after.help
    &&& metric_evolves(before.metric, after.metric)
}

/// The same of all metrics of all groups.
pub open spec fn groups_evolve(before: Seq<GroupModel>, after: Seq<GroupModel>) -> bool {
    &&& before.len() == after.len()
    &&& forall|g: nat, m: nat|
        match (
            #[trigger] exposition::desc_at(before, g, m),
            exposition::desc_at(after, g, m),
        ) {
            (Some(a), Some(b)) => desc_evolves(a, b),
            (None, None) => true,
            _ => false,
        }
}

/// A cursor that fits some groups still fits them after updates: rendering can
/// go on whatever was incremented, set, observed or added between two lines.
pub proof fn law_cursors_survive_updates(
    before: Seq<GroupModel>,
    after: Seq<GroupModel>,
    c: Cursor,
    limits: Limits,
)
    requires
        groups_evolve(before, after),
        exposition::cursor_fits(before, c, limits),
    ensures
        exposition::cursor_fits(after, c, limits),
{
    if let Some(d) = exposition::desc_at(after, c.g, c.m) {
        let was = exposition::desc_at(before, c.g, c.m)->Some_0;
        assert(exposition::desc_at(before, c.g, c.m) is Some);
        assert(desc_evolves(was, d));
    }
}

/// Giving a series of a labeled counter a value is an update in this sense.
pub proof fn law_counter_updates_evolve(
    series: Seq<SeriesModel<u64>>,
    capacity: nat,
    budget: nat,
    block: Seq<char>,
    value: u64,
)
    ensures
        slots::slot(slots::labels_of(series), capacity, budget, block) matches Some(i)
            ==> metric_evolves(
            MetricModel::CounterVec(crate::vec::counter_models(series)),
            MetricModel::CounterVec(
                crate::vec::counter_models(slots::updated(series, i, block, value)),
            ),
        ),
{
    slots::lemma_labels_stay(series, capacity, budget, block, value);
}

/// Giving a series of a labeled gauge a value is an update in this sense.
pub proof fn law_gauge_updates_evolve(
    series: Seq<SeriesModel<i64>>,
    capacity: nat,
    budget: nat,
    block: Seq<char>,
    value: i64,
)
    ensures
        slots::slot(slots::labels_of(series), capacity, budget, block) matches Some(i)
            ==> metric_evolves(
            MetricModel::GaugeVec(crate::vec::gauge_models(series)),
            MetricModel::GaugeVec(
                crate::vec::gauge_models(slots::updated(series, i, block, value)),
            ),
        ),
{
    slots::lemma_labels_stay(series, capacity, budget, block, value);
}

/// Giving a series of a labeled histogram a value is an update in this sense.
pub proof fn law_histogram_updates_evolve(
    series: Seq<SeriesModel<IntReading>>,
    capacity: nat,
    budget: nat,
    block: Seq<char>,
    value: IntReading,
    bounds: Seq<Value>,
)
    ensures
        slots::slot(slots::labels_of(series), capacity, budget, block) matches Some(i)
            ==> metric_evolves(
            MetricModel::HistogramVec(
                HistVecModel { bounds, series: crate::vec::histogram_models(series) },
            ),
            MetricModel::HistogramVec(
                HistVecModel {
                    bounds,
                    series: crate::vec::histogram_models(slots::updated(series, i, block, value)),
                },
            ),
        ),
{
    slots::lemma_labels_stay(series, capacity, budget, block, value);
}

/// Where histograms are shown by snapshots, the lines of a histogram behind
/// the first one do not depend on what is observed after it: they show the
/// snapshot.
pub proof fn law_snapshot_lines_ignore_updates(
    c: Cursor,
    before: DescModel,
    after: DescModel,
    limits: Limits,
)
    requires
        limits.coherent,
        desc_evolves(before, after),
        exposition::step_fits(c.step, before.metric, limits),
        c.step is Bucket || c.step is BucketInf || c.step is Sum || c.step is Count,
        !exposition::captures(c.step, before.metric),
    ensures
        match (
            exposition::emitted(c, before, limits),
            exposition::emitted(c, after, limits),
        ) {
            (Outcome::Line(a, x), Outcome::Line(b, y)) => {
                &&& a == b
                &&& x.scratch == y.scratch
                &&& x.cumulative == y.cumulative
            },
            (Outcome::Failed(a), Outcome::Failed(b)) => a == b,
            _ => false,
        },
{
}

/// Where histograms are shown by snapshots, one that is too large for a
/// snapshot is refused at its first line: nothing of it is rendered.
pub proof fn law_oversized_histograms_are_refused(
    c: Cursor,
    d: DescModel,
    limits: Limits,
    required: usize,
)
    requires
        limits.coherent,
        limits.buckets <= usize::MAX,
        c.step is Help,
        step::bucket_total(d.metric) == Some(required as nat),
        required > limits.buckets,
    ensures
        exposition::emitted(c, d, limits) matches Outcome::Failed(
            Failure::HistogramCapacityExceeded { required: r, capacity, namespace, metric },
        ) && r == required && capacity == limits.buckets && namespace == d.namespace && metric
            == d.name,
{
}

/// The lines of an integer histogram count its observations: finite bucket `b`
/// those up to its bound, the `+Inf` bucket and the count all of them, and the
/// sum is their sum; each modulo the range of the counter.
pub proof fn law_histogram_lines_count_observations(
    d: DescModel,
    bounds: Seq<u64>,
    observations: Seq<u64>,
    b: usize,
)
    requires
        series::strictly_increasing(bounds),
        b < bounds.len(),
        d.metric == MetricModel::Histogram(
            HistModel {
                bounds: histogram::bound_values(bounds),
                reading: series::observed_all(
                    IntReading::zero(bounds.len()),
                    bounds,
                    observations,
                ).erased(),
            },
        ),
    ensures
        ({
            let total = atomic::wrap_u64(observations.len() as int);
            let sum = atomic::wrap_u64(series::total(observations) as int);
            let up_to = atomic::wrap_u64(
                series::tally(observations, |v: u64| v <= bounds[b as int]) as int,
            );
            &&& transcript::line_of(Step::Bucket { s: None, b }, d) == Some(
                exposition::bucket_line(d, None, text::decimal(bounds[b as int] as nat), up_to),
            )
            &&& transcript::line_of(Step::BucketInf { s: None }, d) == Some(
                exposition::infinite_bucket_line(d, None, total),
            )
            &&& transcript::line_of(Step::Sum { s: None }, d) == Some(
                exposition::total_line(d, "_sum"@, None, text::decimal(sum as nat)),
            )
            &&& transcript::line_of(Step::Count { s: None }, d) == Some(
                exposition::total_line(d, "_count"@, None, text::decimal(total as nat)),
            )
        }),
{
    series::law_histogram_counts_by_range(bounds, observations);
    series::law_rolling_total_counts_up_to_bound(bounds, observations, b as int);
}

/// The lines of a series of a labeled integer histogram count the observations
/// of that series in the same way, behind its own labels.
pub proof fn law_labeled_histogram_lines_count_observations(
    d: DescModel,
    h: HistVecModel,
    labels: Seq<char>,
    bounds: Seq<u64>,
    observations: Seq<u64>,
    i: usize,
    b: usize,
)
    requires
        series::strictly_increasing(bounds),
        b < bounds.len(),
        d.metric == MetricModel::HistogramVec(h),
        h.bounds == histogram::bound_values(bounds),
        i < h.series.len(),
        h.series[i as int].labels == Some(labels),
        h.series[i as int].reading == series::observed_all(
            IntReading::zero(bounds.len()),
            bounds,
            observations,
        ).erased(),
    ensures
        ({
            let s = Some(i);
            let total = atomic::wrap_u64(observations.len() as int);
            let sum = atomic::wrap_u64(series::total(observations) as int);
            let up_to = atomic::wrap_u64(
                series::tally(observations, |v: u64| v <= bounds[b as int]) as int,
            );
            &&& transcript::line_of(Step::Bucket { s, b }, d) == Some(
                exposition::bucket_line(
                    d,
                    Some(labels),
                    text::decimal(bounds[b as int] as nat),
                    up_to,
                ),
            )
            &&& transcript::line_of(Step::BucketInf { s }, d) == Some(
                exposition::infinite_bucket_line(d, Some(labels), total),
            )
            &&& transcript::line_of(Step::Sum { s }, d) == Some(
                exposition::total_line(d, "_sum"@, Some(labels), text::decimal(sum as nat)),
            )
            &&& transcript::line_of(Step::Count { s }, d) == Some(
                exposition::total_line(d, "_count"@, Some(labels), text::decimal(total as nat)),
            )
        }),
{
    series::law_histogram_counts_by_range(bounds, observations);
    series::law_rolling_total_counts_up_to_bound(bounds, observations, b as int);
}

/// The `+Inf` bucket and the count of the same reading of a histogram, or of a
/// series of it, show the same number.
pub proof fn law_infinite_bucket_shows_the_count(
    d: DescModel,
    s: Option<usize>,
    reading: HistReading,
    cumulative: u64,
)
    requires
        exposition::hist_printable(d.metric, s),
    ensures
        ({
            let labels = exposition::hist_labels(d.metric, s);
            let n = reading.count;
            &&& exposition::step_text(Step::BucketInf { s }, d, reading, cumulative) == Some(
                exposition::infinite_bucket_line(d, labels, n),
            )
            &&& exposition::step_text(Step::Count { s }, d, reading, cumulative) == Some(
                exposition::total_line(d, "_count"@, labels, text::decimal(n as nat)),
            )
        }),
{
}

/// A bounded string with room for as many bytes as a render takes takes the
/// whole render.
pub proof fn law_rendered_len_is_enough_room<const N: usize>(
    out: BoundedString<N>,
    after: BoundedString<N>,
    all: Drained,
    length: Result<usize, RenderError>,
    r: Result<(), FormatError>,
)
    requires
        out@ == Seq::<char>::empty(),
        render::counted(all, length),
        length matches Ok(n) && n <= N,
        sink::wrote(out, after, all.lines, r),
    ensures
        r is Ok,
        after@ == all.text(),
{
    sink::law_bounded_strings_hold_whole_pieces(out, after, all.lines, r);
    assert(Seq::<char>::empty() + all.text() =~= all.text());
}

} // verus!
