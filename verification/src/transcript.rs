//! The exposition of metrics as a whole, line by line, and that rendering
//! produces it.

use vstd::prelude::*;
use crate::erased::MetricDesc;
use crate::erased;
use crate::erased::DescModel;
use crate::erased::GroupModel;
use crate::erased::HistReading;
use crate::erased::HistVecModel;
use crate::erased::MetricModel;
use crate::exposition;
use crate::exposition::Cursor;
use crate::exposition::Failure;
use crate::exposition::Limits;
use crate::exposition::Outcome;
use crate::line;
use crate::step;
use crate::step::Step;
use crate::text;

verus! {

/// The steps of one histogram, or of its series `s`: each finite bucket, the
/// implicit `+Inf` bucket, the sum and the count.
pub open spec fn hist_steps(s: Option<usize>, buckets: nat) -> Seq<Step> {
    Seq::new(buckets, |b: int| Step::Bucket { s, b: b as usize }) + seq![
        Step::BucketInf { s },
        Step::Sum { s },
        Step::Count { s },
    ]
}

/// The steps of the series of a labeled histogram from series `i` on.
pub open spec fn hist_series_steps(h: HistVecModel, i: int) -> Seq<Step>
    decreases h.series.len() - i,
{
    if i >= h.series.len() {
        Seq::empty()
    } else {
        hist_steps(Some(i as usize), h.bounds.len()) + hist_series_steps(h, i + 1)
    }
}

/// The steps that show what a metric holds.
pub open spec fn data_steps(metric: MetricModel) -> Seq<Step> {
    match metric {
        MetricModel::Counter(n) => seq![Step::Sample],
        MetricModel::Gauge(v) => seq![Step::Sample],
        MetricModel::CounterVec(series) => Seq::new(
            series.len(),
            |i: int| Step::Series(i as usize),
        ),
        MetricModel::GaugeVec(series) => Seq::new(series.len(), |i: int| Step::Series(i as usize)),
        MetricModel::Histogram(h) => hist_steps(None, h.bounds.len()),
        MetricModel::HistogramVec(h) => hist_series_steps(h, 0),
    }
}

/// The steps of a metric: its help, its type and what it holds.
pub open spec fn metric_steps(metric: MetricModel) -> Seq<Step> {
    seq![Step::Help, Step::Type] + data_steps(metric)
}

/// A line of the exposition: step `step` of metric `m` of group `g`.
pub struct Stop {
    pub g: nat,
    pub m: nat,
    pub step: Step,
}

/// Steps of metric `m` of group `g`.
pub open spec fn stops_at(g: nat, m: nat, steps: Seq<Step>) -> Seq<Stop> {
    Seq::new(steps.len(), |k: int| Stop { g, m, step: steps[k] })
}

/// The lines of the metrics of group `g` from index `m` on.
pub open spec fn group_stops(groups: Seq<GroupModel>, g: nat, m: nat) -> Seq<Stop>
    decreases groups[g as int].len() - m,
{
    if m >= groups[g as int].len() {
        Seq::empty()
    } else {
        (match groups[g as int][m as int] {
            Some(d) => stops_at(g, m, metric_steps(d.metric)),
            None => Seq::empty(),
        }) + group_stops(groups, g, m + 1)
    }
}

/// The lines of the groups from index `g` on.
pub open spec fn stops_from(groups: Seq<GroupModel>, g: nat) -> Seq<Stop>
    decreases groups.len() - g,
{
    if g >= groups.len() {
        Seq::empty()
    } else {
        group_stops(groups, g, 0) + stops_from(groups, g + 1)
    }
}

/// The order of the whole exposition: the lines of all metrics of all groups.
pub open spec fn exposition_stops(groups: Seq<GroupModel>) -> Seq<Stop> {
    stops_from(groups, 0)
}

/// The text of a step on what the metric holds, with the rolling total of the
/// buckets up to it; or `None` where it cannot be formatted.
pub open spec fn line_of(step: Step, d: DescModel) -> Option<Seq<char>> {
    let reading = step::hist_reading(d.metric, exposition::part_of(step));
    let n = match step {
        Step::Bucket { s, b } => erased::rolling_total(reading.buckets, b as int),
        _ => 0,
    };
    exposition::step_text(step, d, reading, n)
}

/// What comes of rendering a step of a metric that stays as it is: its text,
/// or why there is none. A histogram that is too large for a snapshot is
/// refused at its first step.
pub open spec fn shown(step: Step, d: DescModel, limits: Limits) -> Result<Seq<char>, Failure> {
    if step is Help && exposition::over_capacity(step, d.metric, limits) {
        Err(
            Failure::HistogramCapacityExceeded {
                required: step::bucket_total(d.metric)->Some_0 as usize,
                capacity: limits.buckets as usize,
                namespace: d.namespace,
                metric: d.name,
            },
        )
    } else {
        match line_of(step, d) {
            None => Err(Failure::Formatting),
            Some(line) => if text::byte_len(line) > limits.line {
                Err(
                    Failure::LineTooLong {
                        required: line::saturated(text::byte_len(line)),
                        capacity: limits.line as usize,
                        namespace: d.namespace,
                        metric: d.name,
                    },
                )
            } else {
                Ok(line)
            },
        }
    }
}

/// The same at a stop.
pub open spec fn shown_at(
    groups: Seq<GroupModel>,
    stop: Stop,
    limits: Limits,
) -> Result<Seq<char>, Failure> {
    shown(stop.step, exposition::desc_at(groups, stop.g, stop.m)->Some_0, limits)
}

/// The whole exposition of these groups, line by line, with the reason where
/// a line cannot be rendered.
pub open spec fn exposition_lines(groups: Seq<GroupModel>, limits: Limits) -> Seq<
    Result<Seq<char>, Failure>,
> {
    lines_at(groups, exposition_stops(groups), limits)
}

/// The same of some of the lines.
pub open spec fn lines_at(groups: Seq<GroupModel>, stops: Seq<Stop>, limits: Limits) -> Seq<
    Result<Seq<char>, Failure>,
> {
    Seq::new(stops.len(), |k: int| shown_at(groups, stops[k], limits))
}

/// How many lines there are before the first that cannot be rendered.
pub open spec fn printable_lines(lines: Seq<Result<Seq<char>, Failure>>) -> nat
    decreases lines.len(),
{
    if lines.len() == 0 || lines[0] is Err {
        0
    } else {
        1 + printable_lines(lines.skip(1))
    }
}

/// The text of the lines before the first that cannot be rendered.
pub open spec fn printed(lines: Seq<Result<Seq<char>, Failure>>) -> Seq<Seq<char>> {
    Seq::new(printable_lines(lines), |k: int| lines[k]->Ok_0)
}

/// A metric whose parts can be counted by machine integers, and which has a
/// count for each finite bucket.
pub open spec fn metric_valid(metric: MetricModel) -> bool {
    match metric {
        MetricModel::Histogram(h) => {
            &&& h.bounds.len() <= usize::MAX
            &&& h.reading.buckets.len() == h.bounds.len()
        },
        MetricModel::HistogramVec(h) => {
            &&& h.bounds.len() <= usize::MAX
            &&& h.series.len() <= usize::MAX
            &&& forall|i: int|
                0 <= i < h.series.len() ==> (#[trigger] h.series[i]).reading.buckets.len()
                    == h.bounds.len()
        },
        _ => step::series_total(metric) <= usize::MAX,
    }
}

/// Groups all of whose metrics are valid.
pub open spec fn groups_valid(groups: Seq<GroupModel>) -> bool {
    forall|g: nat, m: nat|
        (#[trigger] exposition::desc_at(groups, g, m)) matches Some(d) ==> metric_valid(d.metric)
}

/// The steps of a metric from `step` on.
spec fn steps_from(step: Step, metric: MetricModel) -> Seq<Step>
    decreases
        step::phase(step),
        step::series_left(step, metric),
        step::lines_left(step, metric),
{
    if step is Advance {
        Seq::empty()
    } else {
        proof {
            step::lemma_following_descends(step, metric);
        }
        seq![step] + steps_from(step::following(step, metric), metric)
    }
}

/// From a series on, the steps are those of the series left.
proof fn lemma_series_steps(metric: MetricModel, i: usize)
    requires
        metric_valid(metric),
        metric is CounterVec || metric is GaugeVec,
        i < step::series_total(metric),
    ensures
        steps_from(Step::Series(i), metric) == Seq::new(
            (step::series_total(metric) - i) as nat,
            |k: int| Step::Series((i + k) as usize),
        ),
    decreases step::series_total(metric) - i,
{
    let n = step::series_total(metric);
    let all = Seq::new((n - i) as nat, |k: int| Step::Series((i + k) as usize));
    if i + 1 < n {
        lemma_series_steps(metric, (i + 1) as usize);
    } else {
        assert(steps_from(Step::Advance, metric) =~= Seq::<Step>::empty());
    }
    assert(steps_from(Step::Series(i), metric) =~= all);
}

/// What stands behind the part `s` of a histogram.
spec fn steps_behind(metric: MetricModel, s: Option<usize>) -> Seq<Step> {
    match (s, metric) {
        (Some(i), MetricModel::HistogramVec(h)) => hist_series_steps(h, i + 1),
        _ => Seq::empty(),
    }
}

/// From a bucket on, the steps are those of the buckets left, of the `+Inf`
/// bucket, of the sum and the count, and of the series behind.
proof fn lemma_bucket_steps(metric: MetricModel, s: Option<usize>, b: usize)
    requires
        metric_valid(metric),
        step::fits(Step::Bucket { s, b }, metric),
        steps_from(Step::Count { s }, metric) == seq![Step::Count { s }] + steps_behind(metric, s),
    ensures
        steps_from(Step::Bucket { s, b }, metric) == hist_steps(
            s,
            step::bucket_total(metric)->Some_0,
        ).skip(b as int) + steps_behind(metric, s),
    decreases step::bucket_total(metric)->Some_0 - b,
{
    let n = step::bucket_total(metric)->Some_0;
    let all = hist_steps(s, n);
    if b + 1 < n {
        lemma_bucket_steps(metric, s, (b + 1) as usize);
    } else {
        lemma_infinite_bucket_steps(metric, s);
    }
    assert(all.skip(b as int) =~= seq![Step::Bucket { s, b }] + all.skip(b + 1));
    assert(steps_from(Step::Bucket { s, b }, metric) =~= all.skip(b as int) + steps_behind(
        metric,
        s,
    ));
}

proof fn lemma_infinite_bucket_steps(metric: MetricModel, s: Option<usize>)
    requires
        metric_valid(metric),
        step::hist_part(metric, s),
        steps_from(Step::Count { s }, metric) == seq![Step::Count { s }] + steps_behind(metric, s),
    ensures
        steps_from(Step::BucketInf { s }, metric) == hist_steps(
            s,
            step::bucket_total(metric)->Some_0,
        ).skip(step::bucket_total(metric)->Some_0 as int) + steps_behind(metric, s),
{
    let n = step::bucket_total(metric)->Some_0;
    let all = hist_steps(s, n);
    let count = steps_from(Step::Count { s }, metric);
    let sum = steps_from(Step::Sum { s }, metric);
    assert(sum =~= seq![Step::Sum { s }] + count);
    assert(steps_from(Step::BucketInf { s }, metric) =~= seq![Step::BucketInf { s }] + sum);
    assert(steps_from(Step::BucketInf { s }, metric) =~= all.skip(n as int) + steps_behind(
        metric,
        s,
    ));
}

/// From the first step of a part of a histogram on, the steps are those of the
/// part and of the series behind.
proof fn lemma_part_steps(metric: MetricModel, s: Option<usize>)
    requires
        metric_valid(metric),
        step::hist_part(metric, s),
    ensures
        steps_from(step::first_bucket(s, step::bucket_total(metric)->Some_0), metric)
            == hist_steps(s, step::bucket_total(metric)->Some_0) + steps_behind(metric, s),
    decreases step::series_left(Step::Count { s }, metric),
{
    let n = step::bucket_total(metric)->Some_0;
    match (s, metric) {
        (Some(i), MetricModel::HistogramVec(h)) => {
            if i + 1 < h.series.len() {
                lemma_part_steps(metric, Some((i + 1) as usize));
                assert(steps_behind(metric, s) == hist_steps(Some((i + 1) as usize), n)
                    + steps_behind(metric, Some((i + 1) as usize)));
            } else {
                assert(steps_from(Step::Advance, metric) =~= steps_behind(metric, s));
            }
        },
        _ => {
            assert(steps_from(Step::Advance, metric) =~= steps_behind(metric, s));
        },
    }
    assert(steps_from(Step::Count { s }, metric) =~= seq![Step::Count { s }] + steps_behind(
        metric,
        s,
    ));
    let all = hist_steps(s, n);
    if n == 0 {
        lemma_infinite_bucket_steps(metric, s);
    } else {
        lemma_bucket_steps(metric, s, 0);
    }
    assert(all.skip(0) =~= all);
}

/// The steps of a metric from the first on are all its steps.
proof fn lemma_metric_steps(metric: MetricModel)
    requires
        metric_valid(metric),
    ensures
        steps_from(Step::Help, metric) == metric_steps(metric),
{
    let first = step::following(Step::Type, metric);
    match metric {
        MetricModel::Counter(_) | MetricModel::Gauge(_) => {
            assert(steps_from(Step::Advance, metric) =~= Seq::<Step>::empty());
            assert(steps_from(first, metric) =~= data_steps(metric));
        },
        MetricModel::CounterVec(_) | MetricModel::GaugeVec(_) => {
            if step::series_total(metric) > 0 {
                lemma_series_steps(metric, 0);
            }
            assert(steps_from(first, metric) =~= data_steps(metric));
        },
        MetricModel::Histogram(h) => {
            lemma_part_steps(metric, None);
            assert(steps_from(first, metric) =~= data_steps(metric));
        },
        MetricModel::HistogramVec(h) => {
            if h.series.len() > 0 {
                lemma_part_steps(metric, Some(0));
            }
            assert(steps_from(first, metric) =~= data_steps(metric));
        },
    }
    let tail = steps_from(Step::Type, metric);
    assert(tail =~= seq![Step::Type] + data_steps(metric));
    assert(steps_from(Step::Help, metric) =~= seq![Step::Help] + tail);
    assert(steps_from(Step::Help, metric) =~= metric_steps(metric));
}

/// The lines that are left from the cursor on.
spec fn rest_stops(groups: Seq<GroupModel>, c: Cursor) -> Seq<Stop> {
    if c.g >= groups.len() {
        Seq::empty()
    } else if c.m >= groups[c.g as int].len() {
        stops_from(groups, c.g + 1)
    } else {
        (match groups[c.g as int][c.m as int] {
            Some(d) => stops_at(c.g, c.m, steps_from(c.step, d.metric)),
            None => Seq::empty(),
        }) + group_stops(groups, c.g, c.m + 1) + stops_from(groups, c.g + 1)
    }
}

/// At the beginning of a metric, the lines left are those of its group from it
/// on and those of the groups behind.
proof fn lemma_rest_at_help(groups: Seq<GroupModel>, c: Cursor)
    requires
        groups_valid(groups),
        c.step is Help,
        c.g < groups.len(),
    ensures
        rest_stops(groups, c) == group_stops(groups, c.g, c.m) + stops_from(groups, c.g + 1),
{
    let group = groups[c.g as int];
    if c.m < group.len() {
        if let Some(d) = exposition::desc_at(groups, c.g, c.m) {
            lemma_metric_steps(d.metric);
        }
    } else {
        assert(group_stops(groups, c.g, c.m) + stops_from(groups, c.g + 1) =~= stops_from(
            groups,
            c.g + 1,
        ));
    }
}

/// Moving on to the next step that renders a line skips no line.
proof fn lemma_rest_located(groups: Seq<GroupModel>, c: Cursor)
    requires
        groups_valid(groups),
    ensures
        rest_stops(groups, exposition::located(groups, c)) == rest_stops(groups, c),
    decreases exposition::groups_left(groups, c), exposition::metrics_left(groups, c),
{
    if c.g < groups.len() {
        let group = groups[c.g as int];
        if c.m >= group.len() {
            let next = Cursor { g: c.g + 1, m: 0, step: Step::Help, ..c };
            lemma_rest_located(groups, next);
            if next.g < groups.len() {
                lemma_rest_at_help(groups, next);
            }
        } else if group[c.m as int] is None || c.step is Advance {
            let next = Cursor { m: c.m + 1, step: Step::Help, ..c };
            lemma_rest_located(groups, next);
            lemma_rest_at_help(groups, next);
            assert(Seq::<Stop>::empty() + group_stops(groups, c.g, c.m + 1) =~= group_stops(
                groups,
                c.g,
                c.m + 1,
            ));
            if group[c.m as int] is Some {
                assert(stops_at(
                    c.g,
                    c.m,
                    steps_from(c.step, group[c.m as int]->Some_0.metric),
                ) =~= Seq::<Stop>::empty());
            }
        }
    }
}

/// Rendering one more line is rendering the first of the lines that are left,
/// and leaves the others.
proof fn lemma_next_stop(groups: Seq<GroupModel>, c: Cursor, limits: Limits)
    requires
        groups_valid(groups),
    ensures
        ({
            let stops = rest_stops(groups, c);
            let at = exposition::located(groups, c);
            let outcome = exposition::advanced(groups, c, limits);
            &&& outcome is Done <==> stops.len() == 0
            &&& stops.len() > 0 ==> {
                &&& stops[0] == Stop { g: at.g, m: at.m, step: at.step }
                &&& exposition::desc_at(groups, at.g, at.m) is Some
            }
            &&& outcome matches Outcome::Line(line, next) ==> rest_stops(groups, next)
                == stops.skip(1)
        }),
{
    let at = exposition::located(groups, c);
    exposition::lemma_located(groups, c);
    lemma_rest_located(groups, c);
    if let Some(d) = exposition::desc_at(groups, at.g, at.m) {
        let stops = rest_stops(groups, c);
        let tail = steps_from(step::following(at.step, d.metric), d.metric);
        let behind = group_stops(groups, at.g, at.m + 1);
        let after = stops_from(groups, at.g + 1);
        let here = stops_at(at.g, at.m, steps_from(at.step, d.metric));
        assert(steps_from(at.step, d.metric) == seq![at.step] + tail);
        assert(stops == here + behind + after);
        assert(here =~= seq![Stop { g: at.g, m: at.m, step: at.step }] + stops_at(
            at.g,
            at.m,
            tail,
        ));
        assert(stops[0] == here[0]);
        if let Outcome::Line(line, next) = exposition::emitted(at, d, limits) {
            assert(next.g == at.g && next.m == at.m);
            assert(rest_stops(groups, next) =~= stops_at(at.g, at.m, tail) + behind + after);
            assert(stops.skip(1) =~= stops_at(at.g, at.m, tail) + behind + after);
        }
    } else {
        assert(rest_stops(groups, at) =~= Seq::<Stop>::empty());
    }
}

/// Two metrics of the same type, with as many series and as many buckets.
pub open spec fn same_parts(a: MetricModel, b: MetricModel) -> bool {
    match (a, b) {
        (MetricModel::Counter(_), MetricModel::Counter(_)) => true,
        (MetricModel::Gauge(_), MetricModel::Gauge(_)) => true,
        (MetricModel::CounterVec(x), MetricModel::CounterVec(y)) => x.len() == y.len(),
        (MetricModel::GaugeVec(x), MetricModel::GaugeVec(y)) => x.len() == y.len(),
        (MetricModel::Histogram(x), MetricModel::Histogram(y)) => x.bounds.len() == y.bounds.len(),
        (MetricModel::HistogramVec(x), MetricModel::HistogramVec(y)) => {
            &&& x.bounds.len() == y.bounds.len()
            &&& x.series.len() == y.series.len()
        },
        _ => false,
    }
}

/// The same groups with the same metrics and series, whatever these hold.
pub open spec fn same_layout(a: Seq<GroupModel>, b: Seq<GroupModel>) -> bool {
    &&& a.len() == b.len()
    &&& forall|g: int|
        0 <= g < a.len() ==> (#[trigger] a[g]).len() == (#[trigger] b[g]).len()
    &&& forall|g: int, m: int|
        0 <= g < a.len() && 0 <= m < a[g].len() ==> match (
            #[trigger] a[g][m],
            #[trigger] b[g][m],
        ) {
            (Some(x), Some(y)) => same_parts(x.metric, y.metric),
            (None, None) => true,
            _ => false,
        }
}

/// Metrics with the same parts are shown in the same steps.
proof fn lemma_same_steps(a: MetricModel, b: MetricModel)
    requires
        same_parts(a, b),
    ensures
        metric_steps(a) == metric_steps(b),
{
    match (a, b) {
        (MetricModel::HistogramVec(x), MetricModel::HistogramVec(y)) => {
            lemma_same_series_steps(x, y, 0);
        },
        _ => {
            assert(data_steps(a) =~= data_steps(b));
        },
    }
}

proof fn lemma_same_series_steps(x: HistVecModel, y: HistVecModel, i: int)
    requires
        x.bounds.len() == y.bounds.len(),
        x.series.len() == y.series.len(),
    ensures
        hist_series_steps(x, i) == hist_series_steps(y, i),
    decreases x.series.len() - i,
{
    if i < x.series.len() {
        lemma_same_series_steps(x, y, i + 1);
    }
}

proof fn lemma_same_group_stops(a: Seq<GroupModel>, b: Seq<GroupModel>, g: nat, m: nat)
    requires
        same_layout(a, b),
        g < a.len(),
    ensures
        group_stops(a, g, m) == group_stops(b, g, m),
    decreases a[g as int].len() - m,
{
    assert(a[g as int].len() == b[g as int].len());
    if m < a[g as int].len() {
        lemma_same_group_stops(a, b, g, m + 1);
        if let (Some(x), Some(y)) = (a[g as int][m as int], b[g as int][m as int]) {
            lemma_same_steps(x.metric, y.metric);
        }
    }
}

proof fn lemma_same_stops_from(a: Seq<GroupModel>, b: Seq<GroupModel>, g: nat)
    requires
        same_layout(a, b),
    ensures
        stops_from(a, g) == stops_from(b, g),
    decreases a.len() - g,
{
    if g < a.len() {
        lemma_same_stops_from(a, b, g + 1);
        lemma_same_group_stops(a, b, g, 0);
    }
}

/// The steps from a step on are the same for metrics with the same parts.
proof fn lemma_same_steps_from(step: Step, a: MetricModel, b: MetricModel)
    requires
        same_parts(a, b),
        step::fits(step, a),
    ensures
        steps_from(step, a) == steps_from(step, b),
    decreases step::phase(step), step::series_left(step, a), step::lines_left(step, a),
{
    if step !is Advance {
        step::lemma_following_descends(step, a);
        step::law_following_steps_fit(step, a);
        assert(step::following(step, a) == step::following(step, b));
        lemma_same_steps_from(step::following(step, a), a, b);
    }
}

/// The lines left from a cursor on are the same in the same layout.
proof fn lemma_same_rest(a: Seq<GroupModel>, b: Seq<GroupModel>, c: Cursor)
    requires
        same_layout(a, b),
        exposition::desc_at(a, c.g, c.m) matches Some(d) ==> step::fits(c.step, d.metric),
    ensures
        rest_stops(a, c) == rest_stops(b, c),
{
    lemma_same_stops_from(a, b, c.g + 1);
    if c.g < a.len() {
        assert(a[c.g as int].len() == b[c.g as int].len());
        lemma_same_group_stops(a, b, c.g, c.m + 1);
        if c.m < a[c.g as int].len() {
            if let (Some(x), Some(y)) = (
                a[c.g as int][c.m as int],
                b[c.g as int][c.m as int],
            ) {
                lemma_same_steps_from(c.step, x.metric, y.metric);
            }
        }
    }
}

/// At the beginning all lines are left.
proof fn lemma_rest_at_start(groups: Seq<GroupModel>, buckets: nat)
    requires
        groups_valid(groups),
    ensures
        rest_stops(groups, exposition::start(buckets)) == exposition_stops(groups),
{
    let c = exposition::start(buckets);
    if groups.len() > 0 {
        lemma_rest_at_help(groups, c);
    }
    assert(rest_stops(groups, c) =~= exposition_stops(groups));
}

/// Whether a cursor stands where `k` lines of the order are behind it, in
/// groups laid out as `groups` are.
spec fn in_order(groups: Seq<GroupModel>, c: Cursor, k: nat) -> bool {
    let stops = exposition_stops(groups);
    &&& k <= stops.len()
    &&& rest_stops(groups, c) == stops.skip(k as int)
    &&& exposition::desc_at(groups, c.g, c.m) matches Some(d) ==> step::fits(c.step, d.metric)
}

/// A line brings the cursor one line further in the order.
proof fn lemma_order_step(
    first: Seq<GroupModel>,
    groups: Seq<GroupModel>,
    c: Cursor,
    limits: Limits,
    k: nat,
)
    requires
        groups_valid(groups),
        same_layout(first, groups),
        in_order(first, c, k),
    ensures
        exposition::advanced(groups, c, limits) matches Outcome::Line(line, next) ==> in_order(
            first,
            next,
            k + 1,
        ),
{
    let stops = exposition_stops(first);
    if let Outcome::Line(line, next) = exposition::advanced(groups, c, limits) {
        lemma_same_rest(first, groups, c);
        lemma_next_stop(groups, c, limits);
        lemma_stays_fitting(first, groups, c, limits);
        lemma_same_rest(first, groups, next);
        assert(stops.skip(k as int).skip(1) =~= stops.skip((k + 1) as int));
    }
}

/// What was rendered so far is what the order says, whatever the metrics held
/// meanwhile.
proof fn lemma_order(at: spec_fn(nat) -> Seq<GroupModel>, limits: Limits, k: nat)
    requires
        forall|i: nat| groups_valid(#[trigger] at(i)),
        forall|i: nat| same_layout(at(0), #[trigger] at(i)),
    ensures
        exposition::reached(at, exposition::start(limits.buckets), limits, k) matches Some(c)
            ==> in_order(at(0), c, k),
    decreases k,
{
    let start = exposition::start(limits.buckets);
    if k == 0 {
        assert(groups_valid(at(0)));
        lemma_rest_at_start(at(0), limits.buckets);
        assert(exposition_stops(at(0)).skip(0) =~= exposition_stops(at(0)));
    } else {
        let j = (k - 1) as nat;
        lemma_order(at, limits, j);
        if let Some(last) = exposition::reached(at, start, limits, j) {
            assert(groups_valid(at(j)) && same_layout(at(0), at(j)));
            lemma_order_step(at(0), at(j), last, limits, j);
        }
    }
}

/// After a line the cursor's step fits the metric there.
proof fn lemma_stays_fitting(
    first: Seq<GroupModel>,
    groups: Seq<GroupModel>,
    c: Cursor,
    limits: Limits,
)
    requires
        same_layout(first, groups),
        exposition::desc_at(first, c.g, c.m) matches Some(d) ==> step::fits(c.step, d.metric),
    ensures
        exposition::advanced(groups, c, limits) matches Outcome::Line(line, next) ==> (
        exposition::desc_at(first, next.g, next.m) matches Some(d) ==> step::fits(
            next.step,
            d.metric,
        )),
{
    let at = exposition::located(groups, c);
    exposition::lemma_located(groups, c);
    if let Outcome::Line(line, next) = exposition::advanced(groups, c, limits) {
        if let Some(d) = exposition::desc_at(first, next.g, next.m) {
            let now = exposition::desc_at(groups, at.g, at.m)->Some_0;
            assert(first[at.g as int].len() == groups[at.g as int].len());
            assert(same_parts(d.metric, now.metric));
            assert(step::fits(at.step, d.metric));
            assert(step::following(at.step, now.metric) == step::following(at.step, d.metric));
            step::law_following_steps_fit(at.step, d.metric);
        }
    }
}

/// Calls of `next_line` on a fresh renderer go through the exposition in
/// order, each at the next line, and end behind the last, as long as none
/// fails: also where metrics are updated between the calls, as long as no
/// series is added. `at(i)` are the groups as they are at call `i`.
pub proof fn law_lines_come_in_order(
    at: spec_fn(nat) -> Seq<GroupModel>,
    limits: Limits,
    k: nat,
)
    requires
        forall|i: nat| groups_valid(#[trigger] at(i)),
        forall|i: nat| same_layout(at(0), #[trigger] at(i)),
    ensures
        exposition::reached(at, exposition::start(limits.buckets), limits, k) matches Some(c) ==> {
            let stops = exposition_stops(at(0));
            let here = exposition::located(at(k), c);
            let outcome = exposition::advanced(at(k), c, limits);
            &&& k <= stops.len()
            &&& outcome is Done <==> k == stops.len()
            &&& k < stops.len() ==> {
                &&& stops[k as int] == Stop { g: here.g, m: here.m, step: here.step }
                &&& exposition::desc_at(at(k), here.g, here.m) matches Some(d) && outcome
                    == exposition::emitted(here, d, limits)
            }
        },
{
    lemma_order(at, limits, k);
    if let Some(c) = exposition::reached(at, exposition::start(limits.buckets), limits, k) {
        assert(groups_valid(at(k)) && same_layout(at(0), at(k)));
        lemma_same_rest(at(0), at(k), c);
        lemma_next_stop(at(k), c, limits);
    }
}

/// Whether a snapshot shows a reading: the same sum and count, and the same
/// counts in as many buckets as the reading has.
spec fn shows(scratch: HistReading, reading: HistReading) -> bool {
    &&& scratch.sum == reading.sum
    &&& scratch.count == reading.count
    &&& scratch.buckets.len() >= reading.buckets.len()
    &&& forall|b: int|
        0 <= b < reading.buckets.len() ==> scratch.buckets[b] == #[trigger] reading.buckets[b]
}

/// Whether a step shows a part of a histogram.
spec fn of_histogram(step: Step) -> bool {
    step is Bucket || step is BucketInf || step is Sum || step is Count
}

/// Whether the cursor carries what the rest of a metric needs: the rolling
/// total so far, and the snapshot of the part at hand.
spec fn on_course(c: Cursor, metric: MetricModel, limits: Limits) -> bool {
    let reading = step::hist_reading(metric, exposition::part_of(c.step));
    &&& exposition::step_fits(c.step, metric, limits)
    &&& c.step matches Step::Bucket { s, b } ==> (b > 0 ==> c.cumulative == erased::rolling_total(
        reading.buckets,
        b - 1,
    ))
    &&& limits.coherent && of_histogram(c.step) && !exposition::captures(c.step, metric) ==> shows(
        c.scratch,
        reading,
    )
    &&& limits.coherent && c.step !is Help ==> (step::bucket_total(metric) matches Some(n) ==> n
        <= limits.buckets)
}

/// The same at the metric where the cursor stands, if there is one.
spec fn steady(groups: Seq<GroupModel>, c: Cursor, limits: Limits) -> bool {
    exposition::desc_at(groups, c.g, c.m) matches Some(d) ==> on_course(c, d.metric, limits)
}

/// Rendering a step of a metric gives its line, and keeps the cursor on course.
proof fn lemma_emitted(c: Cursor, d: DescModel, limits: Limits)
    requires
        metric_valid(d.metric),
        on_course(c, d.metric, limits),
        c.step !is Advance,
    ensures
        match exposition::emitted(c, d, limits) {
            Outcome::Line(line, next) => {
                &&& shown(c.step, d, limits) == Ok::<_, Failure>(line)
                &&& next.g == c.g
                &&& next.m == c.m
                &&& next.step == step::following(c.step, d.metric)
                &&& on_course(next, d.metric, limits)
            },
            Outcome::Failed(failure) => shown(c.step, d, limits) == Err::<Seq<char>, _>(failure),
            Outcome::Done(end) => false,
        },
{
    let metric = d.metric;
    let part = exposition::part_of(c.step);
    let reading = step::hist_reading(metric, part);
    let scratch = exposition::scratch_at(c.step, metric, c.scratch, limits);
    let read = exposition::reading_at(c.step, metric, scratch, limits);
    let cumulative = exposition::cumulative_at(c.step, c.cumulative, read);
    step::law_following_steps_fit(c.step, metric);
    if of_histogram(c.step) {
        assert(step::hist_part(metric, part));
        assert(reading.buckets.len() == step::bucket_total(metric)->Some_0);
        if limits.coherent && exposition::captures(c.step, metric) {
            assert(shows(scratch, reading));
        }
        if let Step::Bucket { s, b } = c.step {
            assert(read.buckets[b as int] == reading.buckets[b as int]);
            assert(cumulative == erased::rolling_total(reading.buckets, b as int));
        }
    }
    assert(exposition::step_text(c.step, d, read, cumulative) == line_of(c.step, d));
}

/// Rendering one more line gives the first of the lines that are left.
proof fn lemma_advanced(groups: Seq<GroupModel>, c: Cursor, limits: Limits)
    requires
        groups_valid(groups),
        steady(groups, c, limits),
    ensures
        ({
            let lines = lines_at(groups, rest_stops(groups, c), limits);
            match exposition::advanced(groups, c, limits) {
                Outcome::Done(end) => lines.len() == 0,
                Outcome::Line(line, next) => {
                    &&& lines.len() > 0
                    &&& lines[0] == Ok::<_, Failure>(line)
                    &&& lines_at(groups, rest_stops(groups, next), limits) == lines.skip(1)
                    &&& steady(groups, next, limits)
                },
                Outcome::Failed(failure) => {
                    &&& lines.len() > 0
                    &&& lines[0] == Err::<Seq<char>, _>(failure)
                },
            }
        }),
{
    let at = exposition::located(groups, c);
    let stops = rest_stops(groups, c);
    let lines = lines_at(groups, stops, limits);
    exposition::lemma_located(groups, c);
    lemma_next_stop(groups, c, limits);
    if let Some(d) = exposition::desc_at(groups, at.g, at.m) {
        assert(on_course(at, d.metric, limits));
        lemma_emitted(at, d, limits);
        assert(lines[0] == shown(at.step, d, limits));
        if let Outcome::Line(line, next) = exposition::advanced(groups, c, limits) {
            assert(exposition::desc_at(groups, next.g, next.m) == Some(d));
            assert(lines_at(groups, rest_stops(groups, next), limits) =~= lines.skip(1));
        }
    }
}

/// Rendering line after line gives the lines that are left, up to the first
/// that cannot be rendered.
proof fn lemma_drained(groups: Seq<GroupModel>, c: Cursor, limits: Limits)
    requires
        groups_valid(groups),
        steady(groups, c, limits),
    ensures
        ({
            let lines = lines_at(groups, rest_stops(groups, c), limits);
            let n = printable_lines(lines);
            let all = exposition::drained(groups, c, limits);
            &&& n <= lines.len()
            &&& all.lines == printed(lines)
            &&& all.end is Ok <==> n == lines.len()
            &&& all.end matches Err(failure) ==> lines[n as int] == Err::<Seq<char>, _>(failure)
        }),
    decreases
        exposition::groups_left(groups, c),
        exposition::metrics_left(groups, c),
        step::phase(c.step),
        step::series_left(c.step, exposition::metric_at(groups, c)),
        step::lines_left(c.step, exposition::metric_at(groups, c)),
{
    let lines = lines_at(groups, rest_stops(groups, c), limits);
    lemma_advanced(groups, c, limits);
    exposition::lemma_advanced_descends(groups, c, limits);
    match exposition::advanced(groups, c, limits) {
        Outcome::Line(line, next) => {
            lemma_drained(groups, next, limits);
            let rest = lines.skip(1);
            assert(printed(lines) =~= seq![line] + printed(rest)) by {
                assert(forall|k: int| 0 < k < lines.len() ==> lines[k] == rest[k - 1]);
            }
        },
        _ => {
            assert(printed(lines) =~= Seq::<Seq<char>>::empty());
        },
    }
}

/// A renderer over groups that stay as they are renders their exposition: all
/// lines of all metrics in order, or those before the first that cannot be
/// rendered, which is then what the failure reports: one that cannot be
/// formatted or does not fit, or the first line of a histogram that is too
/// large for a snapshot.
pub proof fn law_rendering_gives_the_exposition(groups: Seq<GroupModel>, limits: Limits)
    requires
        groups_valid(groups),
    ensures
        ({
            let lines = exposition_lines(groups, limits);
            let n = printable_lines(lines);
            let all = exposition::drained(groups, exposition::start(limits.buckets), limits);
            &&& n <= lines.len()
            &&& all.lines == printed(lines)
            &&& all.end is Ok <==> n == lines.len()
            &&& all.end matches Err(failure) ==> lines[n as int] == Err::<Seq<char>, _>(failure)
        }),
{
    lemma_rest_at_start(groups, limits.buckets);
    lemma_drained(groups, exposition::start(limits.buckets), limits);
}

/// Where no histogram is too large for a snapshot, none is refused as such.
pub proof fn law_small_histograms_are_not_refused(
    groups: Seq<GroupModel>,
    c: Cursor,
    limits: Limits,
)
    requires
        forall|g: nat, m: nat|
            (#[trigger] exposition::desc_at(groups, g, m)) matches Some(d) ==> (
            step::bucket_total(d.metric) matches Some(n) ==> n <= limits.buckets),
    ensures
        exposition::drained(groups, c, limits).end matches Err(failure) ==> failure is LineTooLong
            || failure is Formatting,
    decreases
        exposition::groups_left(groups, c),
        exposition::metrics_left(groups, c),
        step::phase(c.step),
        step::series_left(c.step, exposition::metric_at(groups, c)),
        step::lines_left(c.step, exposition::metric_at(groups, c)),
{
    exposition::lemma_advanced_descends(groups, c, limits);
    if let Outcome::Line(line, next) = exposition::advanced(groups, c, limits) {
        law_small_histograms_are_not_refused(groups, next, limits);
    }
}

/// Call `k` of `next_line` on a fresh renderer, over groups that stay as they
/// are, gives line `k` of their exposition; the call behind the last line
/// gives none, and the first line that cannot be rendered ends the calls with
/// what it reports.
pub proof fn law_next_line_gives_the_exposition(groups: Seq<GroupModel>, limits: Limits, k: nat)
    requires
        groups_valid(groups),
        k <= printable_lines(exposition_lines(groups, limits)),
    ensures
        ({
            let lines = exposition_lines(groups, limits);
            let start = exposition::start(limits.buckets);
            let at = |i: nat| groups;
            exposition::reached(at, start, limits, k) matches Some(c) && if k == lines.len() {
                exposition::advanced(groups, c, limits) is Done
            } else {
                match lines[k as int] {
                    Ok(line) => exposition::advanced(groups, c, limits) matches Outcome::Line(
                        given,
                        next,
                    ) && given == line,
                    Err(failure) => exposition::advanced(groups, c, limits) == Outcome::Failed(
                        failure,
                    ),
                }
            }
        }),
{
    let lines = exposition_lines(groups, limits);
    let start = exposition::start(limits.buckets);
    law_rendering_gives_the_exposition(groups, limits);
    exposition::law_render_to_gives_the_lines_of_next_line(groups, start, limits, k);
    lemma_printable_are_ok(lines, k as int);
}

/// The lines before the first that cannot be rendered can be rendered.
proof fn lemma_printable_are_ok(lines: Seq<Result<Seq<char>, Failure>>, k: int)
    requires
        0 <= k <= printable_lines(lines),
    ensures
        printable_lines(lines) <= lines.len(),
        k < printable_lines(lines) ==> lines[k] is Ok,
        k == printable_lines(lines) && k < lines.len() ==> lines[k] is Err,
    decreases lines.len(),
{
    if lines.len() > 0 && lines[0] is Ok {
        if k > 0 {
            lemma_printable_are_ok(lines.skip(1), k - 1);
            assert(lines.skip(1)[k - 1] == lines[k] || k == lines.len());
        } else {
            lemma_printable_are_ok(lines.skip(1), 0);
        }
    }
}

/// Each step of a metric is followed by the next of its steps, and the last by
/// moving on.
pub proof fn law_each_step_is_followed_by_the_next<'a>(metric: MetricModel, k: int)
    requires
        metric_valid(metric),
        0 <= k < metric_steps(metric).len(),
    ensures
        ({
            let steps = metric_steps(metric);
            let next = if k + 1 < steps.len() {
                steps[k + 1]
            } else {
                Step::Advance
            };
            &&& step::following(steps[k], metric) == next
            &&& forall|desc: &'a MetricDesc<'a>, r: Step| #[trigger]
                call_ensures(step::next_step, (steps[k], desc), r) && desc.model().metric
                    == metric ==> r == next
        }),
{
    lemma_from_step(metric, k);
    lemma_after_step(metric, k);
}

/// From step `k` on, the steps are those from `k` on.
proof fn lemma_from_step(metric: MetricModel, k: int)
    requires
        metric_valid(metric),
        0 <= k < metric_steps(metric).len(),
    ensures
        steps_from(metric_steps(metric)[k], metric) == metric_steps(metric).skip(k),
        !(metric_steps(metric)[k] is Advance),
    decreases k,
{
    let steps = metric_steps(metric);
    if k == 0 {
        lemma_metric_steps(metric);
        assert(steps.skip(0) =~= steps);
        assert(steps[0] == Step::Help);
    } else {
        lemma_from_step(metric, k - 1);
        lemma_after_step(metric, k - 1);
    }
}

/// What follows step `k`, and the steps from there on.
proof fn lemma_after_step(metric: MetricModel, k: int)
    requires
        metric_valid(metric),
        0 <= k < metric_steps(metric).len(),
        steps_from(metric_steps(metric)[k], metric) == metric_steps(metric).skip(k),
        !(metric_steps(metric)[k] is Advance),
    ensures
        ({
            let steps = metric_steps(metric);
            let next = step::following(steps[k], metric);
            &&& steps_from(next, metric) == steps.skip(k + 1)
            &&& k + 1 < steps.len() ==> next == steps[k + 1] && !(next is Advance)
            &&& k + 1 == steps.len() ==> next is Advance
        }),
{
    let steps = metric_steps(metric);
    let next = step::following(steps[k], metric);
    let here = steps_from(steps[k], metric);
    let rest = steps_from(next, metric);
    assert(here == seq![steps[k]] + rest);
    assert(here.skip(1) =~= rest);
    assert(steps.skip(k).skip(1) =~= steps.skip(k + 1));
    if k + 1 < steps.len() {
        assert(steps.skip(k + 1)[0] == steps[k + 1]);
        assert(rest.len() > 0);
        assert(rest[0] == next);
    } else {
        assert(rest.len() == 0);
    }
}

} // verus!
