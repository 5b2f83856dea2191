//! What the text exposition of metrics is: the text of each line, and how a
//! cursor over registered metric groups moves from line to line.

use vstd::prelude::*;
use crate::atomic;
use crate::erased::DescModel;
use crate::erased::GroupModel;
use crate::erased::HistReading;
use crate::erased::MetricModel;
use crate::escape;
use crate::line;
use crate::step;
use crate::step::Step;
use crate::text;
use crate::value;
use crate::value::Value;

verus! {

/// The name of a metric with its namespace before it and `suffix` behind it.
pub open spec fn full_name(d: DescModel, suffix: Seq<char>) -> Seq<char> {
    if d.namespace.len() > 0 {
        d.namespace + seq!['_'] + d.name + suffix
    } else {
        d.name + suffix
    }
}

/// The word for a metric's type.
pub open spec fn type_word(metric: MetricModel) -> Seq<char> {
    match metric {
        MetricModel::Counter(n) => "counter"@,
        MetricModel::CounterVec(series) => "counter"@,
        MetricModel::Gauge(v) => "gauge"@,
        MetricModel::GaugeVec(series) => "gauge"@,
        MetricModel::Histogram(h) => "histogram"@,
        MetricModel::HistogramVec(h) => "histogram"@,
    }
}

/// The `# HELP` line of a metric.
pub open spec fn help_line(d: DescModel) -> Seq<char> {
    "# HELP "@ + full_name(d, ""@) + seq![' '] + escape::escaped_help(d.help) + seq!['\n']
}

/// The `# TYPE` line of a metric.
pub open spec fn type_line(d: DescModel) -> Seq<char> {
    "# TYPE "@ + full_name(d, ""@) + seq![' '] + type_word(d.metric) + seq!['\n']
}

/// The line of a sample without labels.
pub open spec fn sample_line(d: DescModel, shown: Seq<char>) -> Seq<char> {
    full_name(d, ""@) + seq![' '] + shown + seq!['\n']
}

/// The line of a sample with labels.
pub open spec fn series_line(d: DescModel, labels: Seq<char>, shown: Seq<char>) -> Seq<char> {
    full_name(d, ""@) + seq!['{'] + labels + "} "@ + shown + seq!['\n']
}

/// What stands before the `le` label of a bucket: other labels, if any.
pub open spec fn bucket_head(d: DescModel, labels: Option<Seq<char>>) -> Seq<char> {
    match labels {
        Some(labels) => full_name(d, "_bucket"@) + seq!['{'] + labels + seq![','],
        None => full_name(d, "_bucket"@) + seq!['{'],
    }
}

/// The line of a finite histogram bucket.
pub open spec fn bucket_line(
    d: DescModel,
    labels: Option<Seq<char>>,
    bound: Seq<char>,
    n: u64,
) -> Seq<char> {
    bucket_head(d, labels) + "le=\""@ + bound + "\"} "@ + text::decimal(n as nat) + seq!['\n']
}

/// The line of the implicit `+Inf` histogram bucket.
pub open spec fn infinite_bucket_line(
    d: DescModel,
    labels: Option<Seq<char>>,
    n: u64,
) -> Seq<char> {
    bucket_head(d, labels) + "le=\"+Inf\"} "@ + text::decimal(n as nat) + seq!['\n']
}

/// The name of a histogram with `suffix`, and its labels if any.
pub open spec fn total_head(
    d: DescModel,
    suffix: Seq<char>,
    labels: Option<Seq<char>>,
) -> Seq<char> {
    match labels {
        Some(labels) => full_name(d, suffix) + seq!['{'] + labels + seq!['}'],
        None => full_name(d, suffix),
    }
}

/// The line of a histogram's sum or count.
pub open spec fn total_line(
    d: DescModel,
    suffix: Seq<char>,
    labels: Option<Seq<char>>,
    shown: Seq<char>,
) -> Seq<char> {
    total_head(d, suffix, labels) + seq![' '] + shown + seq!['\n']
}

/// The label block of a series of a labeled metric, or `None` where it cannot
/// be formatted.
pub open spec fn series_labels(metric: MetricModel, i: int) -> Option<Seq<char>> {
    match metric {
        MetricModel::CounterVec(series) => series[i].labels,
        MetricModel::GaugeVec(series) => series[i].labels,
        MetricModel::HistogramVec(h) => h.series[i].labels,
        _ => None,
    }
}

/// How the value of a series of a labeled counter or gauge is written.
pub open spec fn series_shown(metric: MetricModel, i: int) -> Seq<char> {
    match metric {
        MetricModel::CounterVec(series) => text::decimal(series[i].value as nat),
        MetricModel::GaugeVec(series) => value::value_text(series[i].value),
        _ => Seq::empty(),
    }
}

/// How the value of a counter or gauge is written.
pub open spec fn scalar_shown(metric: MetricModel) -> Seq<char> {
    match metric {
        MetricModel::Counter(n) => text::decimal(n as nat),
        MetricModel::Gauge(v) => value::value_text(v),
        _ => Seq::empty(),
    }
}

/// The labels of the part `s` of a histogram.
pub open spec fn hist_labels(metric: MetricModel, s: Option<usize>) -> Option<Seq<char>> {
    match s {
        Some(i) => series_labels(metric, i as int),
        None => None,
    }
}

/// Whether the labels of the part `s` of a histogram, if any, can be formatted.
pub open spec fn hist_printable(metric: MetricModel, s: Option<usize>) -> bool {
    s matches Some(i) ==> series_labels(metric, i as int) is Some
}

/// The line that `step` renders, or `None` where it cannot be formatted. A
/// histogram shows `reading`, and `cumulative` as the count of a finite bucket.
pub open spec fn step_text(
    step: Step,
    d: DescModel,
    reading: HistReading,
    cumulative: u64,
) -> Option<Seq<char>> {
    match step {
        Step::Help => Some(help_line(d)),
        Step::Type => Some(type_line(d)),
        Step::Sample => Some(sample_line(d, scalar_shown(d.metric))),
        Step::Series(i) => match series_labels(d.metric, i as int) {
            Some(labels) => Some(series_line(d, labels, series_shown(d.metric, i as int))),
            None => None,
        },
        Step::Bucket { s, b } => if hist_printable(d.metric, s) {
            Some(
                bucket_line(
                    d,
                    hist_labels(d.metric, s),
                    value::value_text(step::hist_bound(d.metric, b as int)),
                    cumulative,
                ),
            )
        } else {
            None
        },
        Step::BucketInf { s } => if hist_printable(d.metric, s) {
            Some(infinite_bucket_line(d, hist_labels(d.metric, s), reading.count))
        } else {
            None
        },
        Step::Sum { s } => if hist_printable(d.metric, s) {
            Some(
                total_line(
                    d,
                    "_sum"@,
                    hist_labels(d.metric, s),
                    value::value_text(reading.sum),
                ),
            )
        } else {
            None
        },
        Step::Count { s } => if hist_printable(d.metric, s) {
            Some(
                total_line(
                    d,
                    "_count"@,
                    hist_labels(d.metric, s),
                    text::decimal(reading.count as nat),
                ),
            )
        } else {
            None
        },
        Step::Advance => None,
    }
}

/// The part of a histogram that a step is about.
pub open spec fn part_of(step: Step) -> Option<usize> {
    match step {
        Step::Bucket { s, b } => s,
        Step::BucketInf { s } => s,
        Step::Sum { s } => s,
        Step::Count { s } => s,
        _ => None,
    }
}

/// Why rendering stopped.
pub enum Failure {
    LineTooLong { required: usize, capacity: usize, namespace: Seq<char>, metric: Seq<char> },
    HistogramCapacityExceeded {
        required: usize,
        capacity: usize,
        namespace: Seq<char>,
        metric: Seq<char>,
    },
    Formatting,
    Sink,
}

/// How much a renderer can hold: the bytes of a line, and the finite buckets
/// of a histogram; and whether it shows each histogram by one snapshot.
pub struct Limits {
    pub line: nat,
    pub buckets: nat,
    pub coherent: bool,
}

/// Where a renderer stands: at step `step` of metric `m` of group `g`, with the
/// last histogram snapshot and the rolling total of the last bucket.
pub struct Cursor {
    pub g: nat,
    pub m: nat,
    pub step: Step,
    pub scratch: HistReading,
    pub cumulative: u64,
}

/// Where a renderer with room for this many buckets begins.
pub open spec fn start(buckets: nat) -> Cursor {
    Cursor {
        g: 0,
        m: 0,
        step: Step::Help,
        scratch: HistReading {
            buckets: Seq::new(buckets, |i: int| 0u64),
            sum: Value::U64(0),
            count: 0,
        },
        cumulative: 0,
    }
}

/// What comes of rendering one more line: nothing, at the end of the groups; a
/// line; or a failure.
pub enum Outcome {
    Done(Cursor),
    Line(Seq<char>, Cursor),
    Failed(Failure),
}

/// The metric at index `m` of group `g`, if there is one.
pub open spec fn desc_at(groups: Seq<GroupModel>, g: nat, m: nat) -> Option<DescModel> {
    if g < groups.len() && m < groups[g as int].len() {
        groups[g as int][m as int]
    } else {
        None
    }
}

/// The cursor moved on to the next step that renders a line, past what is
/// fully rendered and past groups and indexes without a metric.
pub open spec fn located(groups: Seq<GroupModel>, c: Cursor) -> Cursor
    decreases groups.len() - c.g, if c.g < groups.len() {
        groups[c.g as int].len() - c.m
    } else {
        0
    },
{
    if c.g >= groups.len() {
        c
    } else if c.m >= groups[c.g as int].len() {
        located(groups, Cursor { g: c.g + 1, m: 0, step: Step::Help, ..c })
    } else if groups[c.g as int][c.m as int] is None || c.step is Advance {
        located(groups, Cursor { m: c.m + 1, step: Step::Help, ..c })
    } else {
        c
    }
}

/// Whether a coherent renderer takes a snapshot before this step.
pub open spec fn captures(step: Step, metric: MetricModel) -> bool {
    match step {
        Step::Bucket { s, b } => b == 0,
        Step::BucketInf { s } => step::bucket_total(metric) == Some(0nat),
        _ => false,
    }
}

/// The snapshot buffer after a reading was copied to its beginning.
pub open spec fn overlaid(scratch: HistReading, reading: HistReading) -> HistReading {
    HistReading {
        buckets: reading.buckets + scratch.buckets.skip(reading.buckets.len() as int),
        sum: reading.sum,
        count: reading.count,
    }
}

/// Whether a coherent renderer cannot hold the histogram that this step is
/// about to begin.
pub open spec fn over_capacity(step: Step, metric: MetricModel, limits: Limits) -> bool {
    &&& limits.coherent
    &&& step is Help || captures(step, metric)
    &&& step::bucket_total(metric) matches Some(n) && n > limits.buckets
}

/// The snapshot that a coherent renderer holds once it is at this step.
pub open spec fn scratch_at(
    step: Step,
    metric: MetricModel,
    scratch: HistReading,
    limits: Limits,
) -> HistReading {
    if limits.coherent && captures(step, metric) {
        overlaid(scratch, step::hist_reading(metric, part_of(step)))
    } else {
        scratch
    }
}

/// What is shown of a histogram: the snapshot of a coherent renderer, or else
/// what the histogram holds.
pub open spec fn reading_at(
    step: Step,
    metric: MetricModel,
    scratch: HistReading,
    limits: Limits,
) -> HistReading {
    if limits.coherent {
        scratch
    } else {
        step::hist_reading(metric, part_of(step))
    }
}

/// The rolling total after a step: the count of the first bucket starts it
/// and those of the others are added, modulo the range of the counter.
pub open spec fn cumulative_at(step: Step, cumulative: u64, reading: HistReading) -> u64 {
    match step {
        Step::Bucket { s, b } => if b == 0 {
            reading.buckets[0]
        } else {
            atomic::wrap_u64(cumulative + reading.buckets[b as int])
        },
        _ => cumulative,
    }
}

/// Rendering the step at which the cursor stands, of metric `d`.
pub open spec fn emitted(c: Cursor, d: DescModel, limits: Limits) -> Outcome {
    if over_capacity(c.step, d.metric, limits) {
        Outcome::Failed(
            Failure::HistogramCapacityExceeded {
                required: step::bucket_total(d.metric)->Some_0 as usize,
                capacity: limits.buckets as usize,
                namespace: d.namespace,
                metric: d.name,
            },
        )
    } else {
        let scratch = scratch_at(c.step, d.metric, c.scratch, limits);
        let reading = reading_at(c.step, d.metric, scratch, limits);
        let cumulative = cumulative_at(c.step, c.cumulative, reading);
        match step_text(c.step, d, reading, cumulative) {
            None => Outcome::Failed(Failure::Formatting),
            Some(shown) => if text::byte_len(shown) > limits.line {
                Outcome::Failed(
                    Failure::LineTooLong {
                        required: line::saturated(text::byte_len(shown)),
                        capacity: limits.line as usize,
                        namespace: d.namespace,
                        metric: d.name,
                    },
                )
            } else {
                Outcome::Line(
                    shown,
                    Cursor {
                        step: step::following(c.step, d.metric),
                        scratch,
                        cumulative,
                        ..c
                    },
                )
            },
        }
    }
}

/// Rendering one more line from where the cursor stands.
pub open spec fn advanced(groups: Seq<GroupModel>, c: Cursor, limits: Limits) -> Outcome {
    let at = located(groups, c);
    match desc_at(groups, at.g, at.m) {
        Some(d) => emitted(at, d, limits),
        None => Outcome::Done(at),
    }
}

/// Whether `step` points at something that the metric has, and that a coherent
/// renderer has begun within its capacity.
pub open spec fn step_fits(step: Step, metric: MetricModel, limits: Limits) -> bool {
    &&& step::fits(step, metric)
    &&& limits.coherent && !captures(step, metric) ==> (step matches Step::Bucket { s, b }
        ==> step::bucket_total(metric)->Some_0 <= limits.buckets)
}

/// Whether the cursor's step fits the metric there, if there is one.
pub open spec fn cursor_fits(groups: Seq<GroupModel>, c: Cursor, limits: Limits) -> bool {
    desc_at(groups, c.g, c.m) matches Some(d) ==> step_fits(c.step, d.metric, limits)
}

/// How many groups are left from the cursor on.
pub open spec fn groups_left(groups: Seq<GroupModel>, c: Cursor) -> int {
    groups.len() - c.g
}

/// How many metrics of the cursor's group are left.
pub open spec fn metrics_left(groups: Seq<GroupModel>, c: Cursor) -> int {
    if c.g < groups.len() {
        groups[c.g as int].len() - c.m
    } else {
        0
    }
}

/// The metric at the cursor.
pub open spec fn metric_at(groups: Seq<GroupModel>, c: Cursor) -> MetricModel {
    desc_at(groups, c.g, c.m)->Some_0.metric
}

/// A located cursor stands at a step that renders a line, or behind the last
/// group; and it has not moved back.
pub proof fn lemma_located(groups: Seq<GroupModel>, c: Cursor)
    ensures
        ({
            let at = located(groups, c);
            &&& desc_at(groups, at.g, at.m) is None ==> at.g >= groups.len()
            &&& desc_at(groups, at.g, at.m) is Some ==> at.step !is Advance
            &&& at.scratch == c.scratch
            &&& at.cumulative == c.cumulative
            &&& at == c || {
                &&& at.step is Help
                &&& at.g > c.g || at.g == c.g && at.m > c.m
            }
        }),
    decreases groups_left(groups, c), metrics_left(groups, c),
{
    if c.g < groups.len() {
        if c.m >= groups[c.g as int].len() {
            lemma_located(groups, Cursor { g: c.g + 1, m: 0, step: Step::Help, ..c });
        } else if groups[c.g as int][c.m as int] is None || c.step is Advance {
            lemma_located(groups, Cursor { m: c.m + 1, step: Step::Help, ..c });
        }
    }
}

/// A rendered line brings the cursor nearer to the end of the groups.
pub proof fn lemma_advanced_descends(groups: Seq<GroupModel>, c: Cursor, limits: Limits)
    ensures
        advanced(groups, c, limits) matches Outcome::Line(shown, next) ==> decreases_to!(
            groups_left(groups, c),
            metrics_left(groups, c),
            step::phase(c.step),
            step::series_left(c.step, metric_at(groups, c)),
            step::lines_left(c.step, metric_at(groups, c))
            => groups_left(groups, next),
            metrics_left(groups, next),
            step::phase(next.step),
            step::series_left(next.step, metric_at(groups, next)),
            step::lines_left(next.step, metric_at(groups, next))
        ),
{
    lemma_located(groups, c);
    let at = located(groups, c);
    if let Some(d) = desc_at(groups, at.g, at.m) {
        step::lemma_following_descends(at.step, d.metric);
    }
}

/// All lines that are rendered from the cursor on, and how the rendering ends:
/// with the cursor behind the last group, or with a failure.
#[verifier::ext_equal]
pub struct Drained {
    pub lines: Seq<Seq<char>>,
    pub end: Result<Cursor, Failure>,
}

impl Drained {
    /// The lines one behind the other.
    pub open spec fn text(self) -> Seq<char> {
        text::joined(self.lines)
    }
}

/// Rendering line after line for as long as there is one, while the metrics
/// stay as they are.
pub open spec fn drained(groups: Seq<GroupModel>, c: Cursor, limits: Limits) -> Drained
    decreases
        groups_left(groups, c),
        metrics_left(groups, c),
        step::phase(c.step),
        step::series_left(c.step, metric_at(groups, c)),
        step::lines_left(c.step, metric_at(groups, c)),
{
    match advanced(groups, c, limits) {
        Outcome::Done(end) => Drained { lines: Seq::empty(), end: Ok(end) },
        Outcome::Failed(failure) => Drained { lines: Seq::empty(), end: Err(failure) },
        Outcome::Line(shown, next) => {
            proof {
                lemma_advanced_descends(groups, c, limits);
            }
            let rest = drained(groups, next, limits);
            Drained { lines: seq![shown] + rest.lines, end: rest.end }
        },
    }
}

/// Where a renderer that began at `c` stands before call `k` of `next_line`, if
/// all calls before gave a line. `at(i)` are the groups as they are at call `i`.
pub open spec fn reached(
    at: spec_fn(nat) -> Seq<GroupModel>,
    c: Cursor,
    limits: Limits,
    k: nat,
) -> Option<Cursor>
    decreases k,
{
    if k == 0 {
        Some(c)
    } else {
        let j = (k - 1) as nat;
        match reached(at, c, limits, j) {
            Some(last) => match advanced(at(j), last, limits) {
                Outcome::Line(shown, next) => Some(next),
                _ => None,
            },
            None => None,
        }
    }
}

/// The first call is one call, and those after it the others.
proof fn lemma_reached_from_next(
    groups: Seq<GroupModel>,
    c: Cursor,
    next: Cursor,
    limits: Limits,
    k: nat,
)
    requires
        advanced(groups, c, limits) matches Outcome::Line(shown, n) && n == next,
    ensures
        reached(|i: nat| groups, c, limits, k + 1) == reached(|i: nat| groups, next, limits, k),
    decreases k,
{
    let at = |i: nat| groups;
    if k == 0 {
        assert(reached(at, c, limits, 0) == Some(c));
        assert(reached(at, c, limits, 1) == Some(next));
    } else {
        lemma_reached_from_next(groups, c, next, limits, (k - 1) as nat);
    }
}

/// Draining a renderer hands over the lines that calls of `next_line` give, in
/// order and whole, up to the end or the failure that those come to. This is
/// stated of groups that stay as they are.
pub proof fn law_render_to_gives_the_lines_of_next_line(
    groups: Seq<GroupModel>,
    c: Cursor,
    limits: Limits,
    k: nat,
)
    requires
        k <= drained(groups, c, limits).lines.len(),
    ensures
        ({
            let all = drained(groups, c, limits);
            reached(|i: nat| groups, c, limits, k) matches Some(here) && if k < all.lines.len() {
                advanced(groups, here, limits) matches Outcome::Line(shown, next) && shown
                    == all.lines[k as int]
            } else {
                advanced(groups, here, limits) == match all.end {
                    Ok(end) => Outcome::Done(end),
                    Err(failure) => Outcome::Failed(failure),
                }
            }
        }),
    decreases k,
{
    let all = drained(groups, c, limits);
    if let Outcome::Line(shown, next) = advanced(groups, c, limits) {
        let rest = drained(groups, next, limits);
        assert(all.lines == seq![shown] + rest.lines);
        if k > 0 {
            let j = (k - 1) as nat;
            law_render_to_gives_the_lines_of_next_line(groups, next, limits, j);
            lemma_reached_from_next(groups, c, next, limits, j);
        }
    }
}

} // verus!
