//! In which order the lines of the exposition come.

use vstd::prelude::*;
use crate::erased::DescModel;
use crate::erased::GroupModel;
use crate::erased::HistVecModel;
use crate::erased::MetricModel;
use crate::erased::MetricRef;
use crate::exposition::Failure;
use crate::exposition::Limits;
use crate::exposition;
use crate::step::Step;
use crate::step;
use crate::transcript;
use crate::transcript::Stop;

verus! {

/// A metric is shown by its HELP and TYPE lines and then: a counter or gauge by
/// one sample, a labeled one by one line for each series in order, a histogram
/// by its finite buckets in order, the `+Inf` bucket, the sum and the count, and
/// a labeled histogram by the same for each series in order.
pub proof fn law_metrics_are_shown_in_steps(metric: MetricModel)
    ensures
        ({
            let steps = transcript::metric_steps(metric);
            &&& steps.len() >= 2
            &&& steps[0] == Step::Help
            &&& steps[1] == Step::Type
            &&& match metric {
                MetricModel::Counter(_) | MetricModel::Gauge(_) => steps.len() == 3 && steps[2]
                    == Step::Sample,
                MetricModel::CounterVec(series) => {
                    &&& steps.len() == 2 + series.len()
                    &&& forall|i: int|
                        0 <= i < series.len() ==> #[trigger] steps[2 + i] == Step::Series(
                            i as usize,
                        )
                },
                MetricModel::GaugeVec(series) => {
                    &&& steps.len() == 2 + series.len()
                    &&& forall|i: int|
                        0 <= i < series.len() ==> #[trigger] steps[2 + i] == Step::Series(
                            i as usize,
                        )
                },
                MetricModel::Histogram(h) => {
                    let n = h.bounds.len();
                    let s = None;
                    &&& steps.len() == 5 + n
                    &&& forall|b: int|
                        0 <= b < n ==> #[trigger] steps[2 + b] == (Step::Bucket {
                            s,
                            b: b as usize,
                        })
                    &&& steps[2 + n as int] == Step::BucketInf { s }
                    &&& steps[3 + n as int] == Step::Sum { s }
                    &&& steps[4 + n as int] == Step::Count { s }
                },
                MetricModel::HistogramVec(h) => {
                    let n = h.bounds.len() as int;
                    &&& steps.len() == 2 + h.series.len() * (n + 3)
                    &&& forall|i: int, b: int|
                        0 <= i < h.series.len() && 0 <= b < n ==> #[trigger] steps[2 + i * (n + 3)
                            + b] == (Step::Bucket { s: Some(i as usize), b: b as usize })
                    &&& forall|i: int|
                        0 <= i < h.series.len() ==> #[trigger] steps[2 + i * (n + 3) + n] == (
                        Step::BucketInf { s: Some(i as usize) })
                    &&& forall|i: int|
                        0 <= i < h.series.len() ==> #[trigger] steps[2 + i * (n + 3) + n + 1] == (
                        Step::Sum { s: Some(i as usize) })
                    &&& forall|i: int|
                        0 <= i < h.series.len() ==> #[trigger] steps[2 + i * (n + 3) + n + 2] == (
                        Step::Count { s: Some(i as usize) })
                },
            }
        }),
{
    let steps = transcript::metric_steps(metric);
    if let MetricModel::HistogramVec(h) = metric {
        let n = h.bounds.len() as int;
        let data = transcript::hist_series_steps(h, 0);
        lemma_series_length(h, 0);
        assert forall|i: int, b: int| 0 <= i < h.series.len() && 0 <= b < n implies #[trigger]
            steps[2 + i * (n + 3) + b] == (Step::Bucket {
            s: Some(i as usize),
            b: b as usize,
        }) by {
            lemma_series_at(h, 0, i, b);
            assert(steps[2 + i * (n + 3) + b] == data[i * (n + 3) + b]);
        }
        assert forall|i: int| 0 <= i < h.series.len() implies #[trigger] steps[2 + i * (n + 3) + n]
            == (Step::BucketInf { s: Some(i as usize) }) by {
            lemma_series_at(h, 0, i, n);
            assert(steps[2 + i * (n + 3) + n] == data[i * (n + 3) + n]);
        }
        assert forall|i: int| 0 <= i < h.series.len() implies #[trigger] steps[2 + i * (n + 3) + n
            + 1] == (Step::Sum { s: Some(i as usize) }) by {
            lemma_series_at(h, 0, i, n + 1);
            assert(steps[2 + i * (n + 3) + n + 1] == data[i * (n + 3) + (n + 1)]);
        }
        assert forall|i: int| 0 <= i < h.series.len() implies #[trigger] steps[2 + i * (n + 3) + n
            + 2] == (Step::Count { s: Some(i as usize) }) by {
            lemma_series_at(h, 0, i, n + 2);
            assert(steps[2 + i * (n + 3) + n + 2] == data[i * (n + 3) + (n + 2)]);
        }
    }
}

proof fn lemma_series_length(h: HistVecModel, i: int)
    requires
        0 <= i <= h.series.len(),
    ensures
        transcript::hist_series_steps(h, i).len() == (h.series.len() - i) * (h.bounds.len() + 3),
    decreases h.series.len() - i,
{
    let n = h.bounds.len() as int;
    if i < h.series.len() {
        lemma_series_length(h, i + 1);
        let left = h.series.len() - i;
        assert(left * (n + 3) == (left - 1) * (n + 3) + (n + 3)) by (nonlinear_arith);
    } else {
        assert(0 * (n + 3) == 0);
    }
}

/// Step `b` of series `i`, counted from series `from` on.
proof fn lemma_series_at(h: HistVecModel, from: int, i: int, b: int)
    requires
        0 <= from <= i < h.series.len(),
        0 <= b < h.bounds.len() + 3,
    ensures
        ({
            let n = h.bounds.len() as int;
            let all = transcript::hist_series_steps(h, from);
            let k = (i - from) * (n + 3) + b;
            &&& 0 <= k < all.len()
            &&& all[k] == transcript::hist_steps(Some(i as usize), h.bounds.len())[b]
        }),
    decreases i - from,
{
    let n = h.bounds.len() as int;
    lemma_series_length(h, from);
    let first = transcript::hist_steps(Some(from as usize), h.bounds.len());
    let all = transcript::hist_series_steps(h, from);
    assert(first.len() == n + 3);
    assert(all == first + transcript::hist_series_steps(h, from + 1));
    if from == i {
        assert((i - from) * (n + 3) == 0) by (nonlinear_arith)
            requires
                from == i,
        ;
        assert(all[b] == first[b]);
        lemma_series_length(h, from + 1);
    } else {
        lemma_series_at(h, from + 1, i, b);
        let k = (i - from - 1) * (n + 3) + b;
        assert((i - from) * (n + 3) == (i - from - 1) * (n + 3) + (n + 3)) by (nonlinear_arith);
        assert(all[k + (n + 3)] == transcript::hist_series_steps(h, from + 1)[k]);
    }
}

/// The exposition of no groups is empty, and one more group or metric comes
/// behind the others: an empty group and an index without a metric add no line,
/// and a metric adds its steps in order. So the lines come group by group and
/// metric by metric, with nothing skipped, repeated or interleaved.
pub proof fn law_groups_and_metrics_come_in_order(
    groups: Seq<GroupModel>,
    group: GroupModel,
    d: DescModel,
)
    ensures
        transcript::exposition_stops(Seq::empty()) == Seq::<Stop>::empty(),
        transcript::exposition_stops(groups.push(Seq::empty())) == transcript::exposition_stops(
            groups,
        ),
        transcript::exposition_stops(groups.push(group.push(None)))
            == transcript::exposition_stops(groups.push(group)),
        transcript::exposition_stops(groups.push(group.push(Some(d))))
            == transcript::exposition_stops(groups.push(group)) + Seq::new(
            transcript::metric_steps(d.metric).len(),
            |k: int|
                Stop {
                    g: groups.len(),
                    m: group.len(),
                    step: transcript::metric_steps(d.metric)[k],
                },
        ),
{
    let none = Seq::<Option<DescModel>>::empty();
    let g = groups.len();
    lemma_last_group(groups, none, 0);
    assert(transcript::group_stops(groups.push(none), g, 0) =~= Seq::<Stop>::empty());
    lemma_last_group(groups, group, 0);
    lemma_last_group(groups, group.push(None), 0);
    lemma_last_group(groups, group.push(Some(d)), 0);
    lemma_longer_group(groups, group, None, 0);
    lemma_longer_group(groups, group, Some(d), 0);
    let before = transcript::exposition_stops(groups);
    let all = transcript::group_stops(groups.push(group), g, 0);
    let mine = Seq::new(
        transcript::metric_steps(d.metric).len(),
        |k: int|
            Stop { g, m: group.len(), step: transcript::metric_steps(d.metric)[k] },
    );
    assert(transcript::stops_at(g, group.len(), transcript::metric_steps(d.metric)) =~= mine);
    assert(before + (all + mine) =~= (before + all) + mine);
    assert(before + (all + Seq::<Stop>::empty()) =~= before + all);
    assert(before + Seq::<Stop>::empty() =~= before);
}

/// The lines of a last group come behind those of the groups before it.
proof fn lemma_last_group(groups: Seq<GroupModel>, group: GroupModel, g: nat)
    requires
        g <= groups.len(),
    ensures
        transcript::stops_from(groups.push(group), g) == transcript::stops_from(groups, g)
            + transcript::group_stops(groups.push(group), groups.len(), 0),
    decreases groups.len() - g,
{
    let all = groups.push(group);
    let last = transcript::group_stops(all, groups.len(), 0);
    if g < groups.len() {
        lemma_last_group(groups, group, g + 1);
        lemma_same_group(groups, group, g, 0);
        let here = transcript::group_stops(groups, g, 0);
        let rest = transcript::stops_from(groups, g + 1);
        assert(here + (rest + last) =~= (here + rest) + last);
    } else {
        assert(transcript::stops_from(all, g + 1) =~= Seq::<Stop>::empty());
        assert(transcript::stops_from(groups, g) =~= Seq::<Stop>::empty());
        assert(last + Seq::<Stop>::empty() =~= last);
        assert(Seq::<Stop>::empty() + last =~= last);
    }
}

proof fn lemma_same_group(groups: Seq<GroupModel>, group: GroupModel, g: nat, m: nat)
    requires
        g < groups.len(),
    ensures
        transcript::group_stops(groups.push(group), g, m) == transcript::group_stops(groups, g, m),
    decreases groups[g as int].len() - m,
{
    assert(groups.push(group)[g as int] == groups[g as int]);
    if m < groups[g as int].len() {
        lemma_same_group(groups, group, g, m + 1);
    }
}

/// The lines of a last metric come behind those of the metrics before it.
proof fn lemma_longer_group(
    groups: Seq<GroupModel>,
    group: GroupModel,
    item: Option<DescModel>,
    m: nat,
)
    requires
        m <= group.len(),
    ensures
        transcript::group_stops(groups.push(group.push(item)), groups.len(), m)
            == transcript::group_stops(groups.push(group), groups.len(), m) + match item {
            Some(d) => transcript::stops_at(
                groups.len(),
                group.len(),
                transcript::metric_steps(d.metric),
            ),
            None => Seq::empty(),
        },
    decreases group.len() - m,
{
    let g = groups.len();
    let short = groups.push(group);
    let long = groups.push(group.push(item));
    assert(short[g as int] == group);
    assert(long[g as int] == group.push(item));
    let last = match item {
        Some(d) => transcript::stops_at(g, group.len(), transcript::metric_steps(d.metric)),
        None => Seq::<Stop>::empty(),
    };
    if m < group.len() {
        lemma_longer_group(groups, group, item, m + 1);
        assert(group.push(item)[m as int] == group[m as int]);
        let here = match group[m as int] {
            Some(d) => transcript::stops_at(g, m, transcript::metric_steps(d.metric)),
            None => Seq::<Stop>::empty(),
        };
        let rest = transcript::group_stops(short, g, m + 1);
        assert(here + (rest + last) =~= (here + rest) + last);
    } else {
        assert(transcript::group_stops(long, g, m + 1) =~= Seq::<Stop>::empty());
        assert(transcript::group_stops(short, g, m) =~= Seq::<Stop>::empty());
        assert(last + Seq::<Stop>::empty() =~= last);
        assert(Seq::<Stop>::empty() + last =~= last);
    }
}

/// Each line of the exposition is what its step of its metric shows, and what
/// is printed are the lines ahead of the first that cannot be shown.
pub proof fn law_lines_are_printed_up_to_the_first_failure(
    groups: Seq<GroupModel>,
    limits: Limits,
)
    ensures
        ({
            let stops = transcript::exposition_stops(groups);
            let lines = transcript::exposition_lines(groups, limits);
            let printed = transcript::printed(lines);
            &&& lines.len() == stops.len()
            &&& forall|k: int|
                0 <= k < stops.len() ==> #[trigger] lines[k] == transcript::shown(
                    stops[k].step,
                    groups[stops[k].g as int][stops[k].m as int]->Some_0,
                    limits,
                )
            &&& printed.len() <= lines.len()
            &&& forall|k: int|
                0 <= k < printed.len() ==> lines[k] == Ok::<_, Failure>(#[trigger] printed[k])
            &&& printed.len() < lines.len() ==> lines[printed.len() as int] is Err
        }),
{
    let stops = transcript::exposition_stops(groups);
    let lines = transcript::exposition_lines(groups, limits);
    let printed = transcript::printed(lines);
    assert forall|k: int| 0 <= k < stops.len() implies #[trigger] lines[k] == transcript::shown(
        stops[k].step,
        groups[stops[k].g as int][stops[k].m as int]->Some_0,
        limits,
    ) by {
        lemma_stops_have_metrics(groups, 0, k);
    }
    lemma_printable(lines);
}

/// What can be printed of lines: all ahead of the first failure.
proof fn lemma_printable(lines: Seq<Result<Seq<char>, Failure>>)
    ensures
        transcript::printable_lines(lines) <= lines.len(),
        forall|k: int|
            0 <= k < transcript::printable_lines(lines) ==> (#[trigger] lines[k]) is Ok,
        transcript::printable_lines(lines) < lines.len()
            ==> lines[transcript::printable_lines(lines) as int] is Err,
    decreases lines.len(),
{
    if lines.len() > 0 && lines[0] is Ok {
        let rest = lines.skip(1);
        lemma_printable(rest);
        assert forall|k: int| 0 <= k < transcript::printable_lines(lines) implies (
        #[trigger] lines[k]) is Ok by {
            if k > 0 {
                assert(rest[k - 1] == lines[k]);
            }
        }
    }
}

/// Every line is one of a metric that is there.
proof fn lemma_stops_have_metrics(groups: Seq<GroupModel>, g: nat, k: int)
    requires
        0 <= k < transcript::stops_from(groups, g).len(),
    ensures
        ({
            let stop = transcript::stops_from(groups, g)[k];
            &&& stop.g < groups.len()
            &&& stop.m < groups[stop.g as int].len()
            &&& groups[stop.g as int][stop.m as int] is Some
        }),
    decreases groups.len() - g,
{
    if g < groups.len() {
        let here = transcript::group_stops(groups, g, 0);
        if k < here.len() {
            lemma_group_stops_have_metrics(groups, g, 0, k);
        } else {
            lemma_stops_have_metrics(groups, g + 1, k - here.len());
        }
    }
}

proof fn lemma_group_stops_have_metrics(groups: Seq<GroupModel>, g: nat, m: nat, k: int)
    requires
        g < groups.len(),
        0 <= k < transcript::group_stops(groups, g, m).len(),
    ensures
        ({
            let stop = transcript::group_stops(groups, g, m)[k];
            &&& stop.g == g
            &&& stop.m < groups[g as int].len()
            &&& groups[g as int][stop.m as int] is Some
        }),
    decreases groups[g as int].len() - m,
{
    if m < groups[g as int].len() {
        let here = match groups[g as int][m as int] {
            Some(d) => transcript::stops_at(g, m, transcript::metric_steps(d.metric)),
            None => Seq::<Stop>::empty(),
        };
        if k >= here.len() {
            lemma_group_stops_have_metrics(groups, g, m + 1, k - here.len());
        }
    }
}

/// A step can be rendered of a metric exactly if it is one of its steps, or
/// moves on; and finite buckets are counted of histograms alone.
pub proof fn law_steps_fit_their_metric<'a>(metric: &'a MetricRef<'a>)
    requires
        transcript::metric_valid(metric.model()),
    ensures
        forall|step: Step, b: bool| #[trigger]
            call_ensures(step::is_fitting, (step, metric), b) ==> (b <==> step is Advance
                || transcript::metric_steps(metric.model()).contains(step)),
        forall|r: Option<usize>| #[trigger]
            call_ensures(step::bucket_count_of, (metric,), r) ==> match metric.model() {
                MetricModel::Histogram(h) => r is Some && r->Some_0 == h.bounds.len(),
                MetricModel::HistogramVec(h) => r is Some && r->Some_0 == h.bounds.len(),
                _ => r is None,
            },
{
    let model = metric.model();
    let steps = transcript::metric_steps(model);
    law_metrics_are_shown_in_steps(model);
    assert forall|step: Step| step::fits(step, model) <==> step is Advance
        || #[trigger] steps.contains(step) by {
        if step::fits(step, model) && !(step is Advance) {
            lemma_fitting_step_is_listed(step, model);
        }
        if steps.contains(step) {
            let k = choose|k: int| 0 <= k < steps.len() && steps[k] == step;
            lemma_listed_step_fits(model, k);
        }
    }
}

proof fn lemma_listed_step_fits(metric: MetricModel, k: int)
    requires
        transcript::metric_valid(metric),
        0 <= k < transcript::metric_steps(metric).len(),
    ensures
        step::fits(transcript::metric_steps(metric)[k], metric),
    decreases k,
{
    let steps = transcript::metric_steps(metric);
    if k > 0 {
        lemma_listed_step_fits(metric, k - 1);
        transcript::law_each_step_is_followed_by_the_next(metric, k - 1);
        step::law_following_steps_fit(steps[k - 1], metric);
    }
}

proof fn lemma_fitting_step_is_listed(step: Step, metric: MetricModel)
    requires
        transcript::metric_valid(metric),
        step::fits(step, metric),
        !(step is Advance),
    ensures
        transcript::metric_steps(metric).contains(step),
{
    let steps = transcript::metric_steps(metric);
    law_metrics_are_shown_in_steps(metric);
    let n = match metric {
        MetricModel::Histogram(h) => h.bounds.len() as int,
        MetricModel::HistogramVec(h) => h.bounds.len() as int,
        _ => 0,
    };
    let part = exposition::part_of(step);
    let from = match part {
        Some(i) => i * (n + 3),
        None => 0,
    };
    if let MetricModel::HistogramVec(h) = metric {
        if let Some(i) = part {
            assert(i * (n + 3) + (n + 3) <= h.series.len() * (n + 3)) by (nonlinear_arith)
                requires
                    i + 1 <= h.series.len(),
                    n >= 0,
            ;
            assert(0 <= i * (n + 3)) by (nonlinear_arith)
                requires
                    n >= 0,
            ;
        }
    }
    let k = match step {
        Step::Help => 0,
        Step::Type => 1,
        Step::Sample => 2,
        Step::Series(i) => 2 + i,
        Step::Bucket { s, b } => 2 + from + b,
        Step::BucketInf { s } => 2 + from + n,
        Step::Sum { s } => 2 + from + n + 1,
        Step::Count { s } => 2 + from + n + 2,
        Step::Advance => 0,
    };
    assert(0 <= k < steps.len());
    assert(steps[k] == step);
}

} // verus!
