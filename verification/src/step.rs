//! The steps in which one metric is rendered, one output line each.

use vstd::prelude::*;
use crate::erased::HistReading;
use crate::erased::MetricDesc;
use crate::erased::MetricModel;
use crate::erased::MetricRef;
use crate::value::Value;

verus! {

/// What is to be rendered next of a metric.
#[derive(Debug, Clone, Copy, PartialEq, Eq)]
pub enum Step {
    /// The `# HELP` line.
    Help,
    /// The `# TYPE` line.
    Type,
    /// A scalar `Counter`/`Gauge` sample.
    Sample,
    /// One series of a `CounterVec`/`GaugeVec`, by index.
    Series(usize),
    /// One finite bucket of a histogram (`s` is `None` for a plain histogram,
    /// `Some(series)` for a vec).
    Bucket { s: Option<usize>, b: usize },
    /// The implicit `+Inf` bucket of a histogram.
    BucketInf { s: Option<usize> },
    /// The sum of a histogram.
    Sum { s: Option<usize> },
    /// The count of a histogram.
    Count { s: Option<usize> },
    /// Marks that the current metric is fully rendered; advance to the next
    /// metric (or group) on the next call. Never itself rendered.
    Advance,
}

/// How many series of a labeled counter or gauge there are.
pub open spec fn series_total(metric: MetricModel) -> nat {
    match metric {
        MetricModel::CounterVec(series) => series.len(),
        MetricModel::GaugeVec(series) => series.len(),
        _ => 0,
    }
}

/// How many finite buckets a histogram has, if the metric is one.
pub open spec fn bucket_total(metric: MetricModel) -> Option<nat> {
    match metric {
        MetricModel::Histogram(h) => Some(h.bounds.len()),
        MetricModel::HistogramVec(h) => Some(h.bounds.len()),
        _ => None,
    }
}

/// Whether `s` stands for a part of a histogram: nothing for a plain one, one
/// of its series for a labeled one.
pub open spec fn hist_part(metric: MetricModel, s: Option<usize>) -> bool {
    match metric {
        MetricModel::Histogram(h) => s is None,
        MetricModel::HistogramVec(h) => s matches Some(i) && i < h.series.len(),
        _ => false,
    }
}

/// What the part `s` of a histogram holds.
pub open spec fn hist_reading(metric: MetricModel, s: Option<usize>) -> HistReading {
    match metric {
        MetricModel::Histogram(h) => h.reading,
        MetricModel::HistogramVec(h) => h.series[s->Some_0 as int].reading,
        _ => arbitrary(),
    }
}

/// The upper bound of finite bucket `b` of a histogram.
pub open spec fn hist_bound(metric: MetricModel, b: int) -> Value {
    match metric {
        MetricModel::Histogram(h) => h.bounds[b],
        MetricModel::HistogramVec(h) => h.bounds[b],
        _ => arbitrary(),
    }
}

/// Whether `step` points at something that the metric has.
pub open spec fn fits(step: Step, metric: MetricModel) -> bool {
    match step {
        Step::Help | Step::Type | Step::Advance => true,
        Step::Sample => metric is Counter || metric is Gauge,
        Step::Series(i) => i < series_total(metric),
        Step::Bucket { s, b } => hist_part(metric, s) && b < bucket_total(metric)->Some_0,
        Step::BucketInf { s } => hist_part(metric, s),
        Step::Sum { s } => hist_part(metric, s),
        Step::Count { s } => hist_part(metric, s),
    }
}

/// Whether there is an index behind `i` among this many. Indexes are machine
/// integers.
pub open spec fn has_next(i: usize, total: nat) -> bool {
    i + 1 < total && i < usize::MAX
}

/// The first step of a labeled counter or gauge with this many series.
pub open spec fn first_series(series: nat) -> Step {
    if series == 0 {
        Step::Advance
    } else {
        Step::Series(0)
    }
}

/// The first step of a histogram, or of one series of it, with this many
/// finite buckets.
pub open spec fn first_bucket(s: Option<usize>, buckets: nat) -> Step {
    if buckets == 0 {
        Step::BucketInf { s }
    } else {
        Step::Bucket { s, b: 0 }
    }
}

/// The step after `step`.
pub open spec fn following(step: Step, metric: MetricModel) -> Step {
    match step {
        Step::Help => Step::Type,
        Step::Type => match metric {
            MetricModel::Counter(n) => Step::Sample,
            MetricModel::Gauge(v) => Step::Sample,
            MetricModel::CounterVec(series) => first_series(series.len()),
            MetricModel::GaugeVec(series) => first_series(series.len()),
            MetricModel::Histogram(h) => first_bucket(None, h.bounds.len()),
            MetricModel::HistogramVec(h) => if h.series.len() == 0 {
                Step::Advance
            } else {
                first_bucket(Some(0), h.bounds.len())
            },
        },
        Step::Sample => Step::Advance,
        Step::Series(i) => if has_next(i, series_total(metric)) {
            Step::Series((i + 1) as usize)
        } else {
            Step::Advance
        },
        Step::Bucket { s, b } => if has_next(b, bucket_total(metric)->Some_0) {
            Step::Bucket { s, b: (b + 1) as usize }
        } else {
            Step::BucketInf { s }
        },
        Step::BucketInf { s } => Step::Sum { s },
        Step::Sum { s } => Step::Count { s },
        Step::Count { s } => match (s, metric) {
            (Some(i), MetricModel::HistogramVec(h)) => if has_next(i, h.series.len()) {
                first_bucket(Some((i + 1) as usize), h.bounds.len())
            } else {
                Step::Advance
            },
            _ => Step::Advance,
        },
        Step::Advance => Step::Advance,
    }
}

/// The first step of a labeled counter or gauge.
fn first_series_step(series_count: usize) -> (r: Step)
    ensures
        r == first_series(series_count as nat),
{
    if series_count == 0 {
        Step::Advance
    } else {
        Step::Series(0)
    }
}

/// The first step of a histogram, or of one series of it.
fn first_hist_step(s: Option<usize>, bucket_count: usize) -> (r: Step)
    ensures
        r == first_bucket(s, bucket_count as nat),
{
    if bucket_count == 0 {
        Step::BucketInf { s }
    } else {
        Step::Bucket { s, b: 0 }
    }
}

/// Number of finite buckets, if the metric is a histogram.
pub fn bucket_count_of(metric: &MetricRef<'_>) -> (r: Option<usize>)
    ensures
        r is Some <==> bucket_total(metric.model()) is Some,
        r matches Some(n) ==> bucket_total(metric.model()) == Some(n as nat),
{
    match metric {
        MetricRef::Histogram { h } => Some(h.bucket_count()),
        MetricRef::HistogramVec { h } => Some(h.bucket_count()),
        _ => None,
    }
}

/// Number of series, if the metric is a labeled counter or gauge.
fn series_count_of(metric: &MetricRef<'_>) -> (n: usize)
    ensures
        n == series_total(metric.model()),
{
    match metric {
        MetricRef::CounterVec(cv) => cv.series_count(),
        MetricRef::GaugeVec(gv) => gv.series_count(),
        _ => 0,
    }
}

/// Whether `s` stands for a part of a histogram.
fn is_hist_part(metric: &MetricRef<'_>, s: Option<usize>) -> (b: bool)
    ensures
        b == hist_part(metric.model(), s),
{
    match metric {
        MetricRef::Histogram { h: _ } => s.is_none(),
        MetricRef::HistogramVec { h } => match s {
            Some(i) => i < h.series_count(),
            None => false,
        },
        _ => false,
    }
}

/// Whether `step` points at something that the metric has.
pub fn is_fitting(step: Step, metric: &MetricRef<'_>) -> (b: bool)
    ensures
        b == fits(step, metric.model()),
{
    match step {
        Step::Help | Step::Type | Step::Advance => true,
        Step::Sample => match metric {
            MetricRef::Counter(_) => true,
            MetricRef::Gauge(_) => true,
            _ => false,
        },
        Step::Series(i) => i < series_count_of(metric),
        Step::Bucket { s, b } => is_hist_part(metric, s) && match bucket_count_of(metric) {
            Some(n) => b < n,
            None => false,
        },
        Step::BucketInf { s } => is_hist_part(metric, s),
        Step::Sum { s } => is_hist_part(metric, s),
        Step::Count { s } => is_hist_part(metric, s),
    }
}

/// Determine the next step to attempt after `step`, given the metric being
/// rendered. Only ever called with a step that was just successfully
/// rendered (never [`Step::Advance`]).
pub fn next_step(step: Step, desc: &MetricDesc<'_>) -> (r: Step)
    requires
        step !is Advance,
        fits(step, desc.model().metric),
    ensures
        r == following(step, desc.model().metric),
        fits(r, desc.model().metric),
{
    match step {
        Step::Help => Step::Type,
        Step::Type => match &desc.metric {
            MetricRef::Counter(_) => Step::Sample,
            MetricRef::Gauge(_) => Step::Sample,
            MetricRef::CounterVec(cv) => first_series_step(cv.series_count()),
            MetricRef::GaugeVec(gv) => first_series_step(gv.series_count()),
            MetricRef::Histogram { h } => first_hist_step(None, h.bucket_count()),
            MetricRef::HistogramVec { h } => {
                if h.series_count() == 0 {
                    Step::Advance
                } else {
                    first_hist_step(Some(0), h.bucket_count())
                }
            },
        },
        Step::Sample => Step::Advance,
        Step::Series(i) => {
            let n: usize = series_count_of(&desc.metric);
            if i + 1 < n {
                Step::Series(i + 1)
            } else {
                Step::Advance
            }
        },
        Step::Bucket { s, b } => {
            let bucket_count: usize = match bucket_count_of(&desc.metric) {
                Some(n) => n,
                None => 0,
            };
            if b + 1 < bucket_count {
                Step::Bucket { s, b: b + 1 }
            } else {
                Step::BucketInf { s }
            }
        },
        Step::BucketInf { s } => Step::Sum { s },
        Step::Sum { s } => Step::Count { s },
        Step::Count { s } => match s {
            None => Step::Advance,
            Some(i) => match &desc.metric {
                MetricRef::HistogramVec { h } => {
                    let n: usize = h.series_count();
                    if i + 1 < n {
                        first_hist_step(Some(i + 1), h.bucket_count())
                    } else {
                        Step::Advance
                    }
                },
                _ => Step::Advance,
            },
        },
        Step::Advance => Step::Advance,
    }
}

/// The step after one that fits a metric fits it too.
pub proof fn law_following_steps_fit(step: Step, metric: MetricModel)
    requires
        fits(step, metric),
    ensures
        fits(following(step, metric), metric),
{
}

/// How far a step is from the end of its metric, at first glance.
pub open spec fn phase(step: Step) -> nat {
    match step {
        Step::Help => 3,
        Step::Type => 2,
        Step::Advance => 0,
        _ => 1,
    }
}

/// How many series are left from this step on.
pub open spec fn series_left(step: Step, metric: MetricModel) -> int {
    match (step, metric) {
        (Step::Series(i), _) => series_total(metric) - i,
        (Step::Bucket { s: Some(i), b }, MetricModel::HistogramVec(h)) => h.series.len() - i,
        (Step::BucketInf { s: Some(i) }, MetricModel::HistogramVec(h)) => h.series.len() - i,
        (Step::Sum { s: Some(i) }, MetricModel::HistogramVec(h)) => h.series.len() - i,
        (Step::Count { s: Some(i) }, MetricModel::HistogramVec(h)) => h.series.len() - i,
        _ => 0,
    }
}

/// How many lines of a histogram, or of one series of it, are left.
pub open spec fn lines_left(step: Step, metric: MetricModel) -> int {
    match step {
        Step::Bucket { s, b } => if b < bucket_total(metric)->Some_0 {
            3 + bucket_total(metric)->Some_0 - b
        } else {
            4
        },
        Step::BucketInf { s } => 3,
        Step::Sum { s } => 2,
        Step::Count { s } => 1,
        _ => 0,
    }
}

/// Each step is nearer to the end of its metric than the one before it.
pub proof fn lemma_following_descends(step: Step, metric: MetricModel)
    requires
        step !is Advance,
    ensures
        decreases_to!(
            phase(step),
            series_left(step, metric),
            lines_left(step, metric)
            => phase(following(step, metric)),
            series_left(following(step, metric), metric),
            lines_left(following(step, metric), metric)
        ),
{
}

} // verus!
