//! What each line of the exposition says, spelled out, and what each failure is
//! called.

use vstd::prelude::*;
use crate::atomic;
use crate::erased;
use crate::erased::DescModel;
use crate::erased::HistReading;
use crate::erased::HistModel;
use crate::erased::HistVecModel;
use crate::erased::CounterSeriesModel;
use crate::erased::GaugeSeriesModel;
use crate::erased::ErasedCounterVec;
use crate::erased::ErasedGaugeVec;
use crate::erased::ErasedHistogramVec;
use crate::erased::MetricModel;
use crate::escape;
use crate::exposition;
use crate::exposition::Cursor;
use crate::exposition::Failure;
use crate::exposition::Limits;
use crate::exposition::Outcome;
use crate::render::RenderError;
use crate::render;
use crate::sink::FormatError;
use crate::sink;
use crate::step::Step;
use crate::text;
use crate::transcript;
use crate::value;
use crate::value::Value;
use crate::vec::CounterVec;
use crate::vec::GaugeVec;
use crate::vec::IntHistogramVec;

verus! {

/// The HELP line of a metric carries its name and its escaped help, and the
/// TYPE line the same name and the word for its type. The name is the metric's
/// own where it has no namespace, and else `namespace_name`.
pub proof fn law_help_and_type_lines_carry_the_name(d: DescModel, reading: HistReading, n: u64)
    ensures
        ({
            let name = if d.namespace.len() == 0 {
                d.name
            } else {
                d.namespace + seq!['_'] + d.name
            };
            let word = match d.metric {
                MetricModel::Counter(_) | MetricModel::CounterVec(_) => "counter"@,
                MetricModel::Gauge(_) | MetricModel::GaugeVec(_) => "gauge"@,
                MetricModel::Histogram(_) | MetricModel::HistogramVec(_) => "histogram"@,
            };
            &&& exposition::step_text(Step::Help, d, reading, n) == Some(
                "# HELP "@ + name + seq![' '] + escape::escaped_help(d.help) + seq!['\n'],
            )
            &&& exposition::step_text(Step::Type, d, reading, n) == Some(
                "# TYPE "@ + name + seq![' '] + word + seq!['\n'],
            )
        }),
{
    reveal_strlit("");
    assert(d.name + ""@ =~= d.name);
    assert(d.namespace + seq!['_'] + d.name + ""@ =~= d.namespace + seq!['_'] + d.name);
}

/// The line of a counter or gauge is the name that its HELP and TYPE lines
/// carry, a space, its value and a line break.
pub proof fn law_sample_lines_are_name_and_value(
    d: DescModel,
    counted: u64,
    held: Value,
    reading: HistReading,
    n: u64,
)
    ensures
        ({
            let name = if d.namespace.len() == 0 {
                d.name
            } else {
                d.namespace + seq!['_'] + d.name
            };
            &&& d.metric == MetricModel::Counter(counted) ==> exposition::step_text(
                Step::Sample,
                d,
                reading,
                n,
            ) == Some(name + seq![' '] + text::decimal(counted as nat) + seq!['\n'])
            &&& d.metric == MetricModel::Gauge(held) ==> exposition::step_text(
                Step::Sample,
                d,
                reading,
                n,
            ) == Some(name + seq![' '] + value::value_text(held) + seq!['\n'])
        }),
{
    reveal_strlit("");
    assert(d.name + ""@ =~= d.name);
    assert(d.namespace + seq!['_'] + d.name + ""@ =~= d.namespace + seq!['_'] + d.name);
}

/// The line of series `i` of a labeled counter or gauge is the name that its
/// HELP and TYPE lines carry, the label block of that series in braces, a
/// space, the value of that series and a line break; there is none where the
/// labels cannot be formatted.
pub proof fn law_series_lines_are_name_labels_and_value(
    d: DescModel,
    counters: Seq<CounterSeriesModel>,
    gauges: Seq<GaugeSeriesModel>,
    i: usize,
    reading: HistReading,
    n: u64,
)
    ensures
        ({
            let name = if d.namespace.len() == 0 {
                d.name
            } else {
                d.namespace + seq!['_'] + d.name
            };
            &&& d.metric == MetricModel::CounterVec(counters) ==> exposition::step_text(
                Step::Series(i),
                d,
                reading,
                n,
            ) == match counters[i as int].labels {
                Some(labels) => Some(
                    name + seq!['{'] + labels + seq!['}', ' '] + text::decimal(
                        counters[i as int].value as nat,
                    ) + seq!['\n'],
                ),
                None => None,
            }
            &&& d.metric == MetricModel::GaugeVec(gauges) ==> exposition::step_text(
                Step::Series(i),
                d,
                reading,
                n,
            ) == match gauges[i as int].labels {
                Some(labels) => Some(
                    name + seq!['{'] + labels + seq!['}', ' '] + value::value_text(
                        gauges[i as int].value,
                    ) + seq!['\n'],
                ),
                None => None,
            }
        }),
{
    reveal_strlit("");
    reveal_strlit("} ");
    assert("} "@ =~= seq!['}', ' ']);
    assert(d.name + ""@ =~= d.name);
    assert(d.namespace + seq!['_'] + d.name + ""@ =~= d.namespace + seq!['_'] + d.name);
}

/// The lines of a histogram are its name with `_bucket`, `_sum` or `_count`
/// behind it and the values of the reading: a finite bucket has its bound as
/// `le` and shows the total handed to it, the implicit bucket has `+Inf` and
/// shows the count.
pub proof fn law_histogram_lines_are_name_bound_and_value(
    d: DescModel,
    h: HistModel,
    b: usize,
    reading: HistReading,
    n: u64,
)
    requires
        d.metric == MetricModel::Histogram(h),
    ensures
        ({
            let name = if d.namespace.len() == 0 {
                d.name
            } else {
                d.namespace + seq!['_'] + d.name
            };
            &&& exposition::step_text(Step::Bucket { s: None, b }, d, reading, n) == Some(
                name + "_bucket{le=\""@ + value::value_text(h.bounds[b as int]) + "\"} "@
                    + text::decimal(n as nat) + seq!['\n'],
            )
            &&& exposition::step_text(Step::BucketInf { s: None }, d, reading, n) == Some(
                name + "_bucket{le=\"+Inf\"} "@ + text::decimal(reading.count as nat) + seq!['\n'],
            )
            &&& exposition::step_text(Step::Sum { s: None }, d, reading, n) == Some(
                name + "_sum "@ + value::value_text(reading.sum) + seq!['\n'],
            )
            &&& exposition::step_text(Step::Count { s: None }, d, reading, n) == Some(
                name + "_count "@ + text::decimal(reading.count as nat) + seq!['\n'],
            )
        }),
{
    let name = if d.namespace.len() == 0 {
        d.name
    } else {
        d.namespace + seq!['_'] + d.name
    };
    reveal_strlit("_bucket");
    reveal_strlit("_sum");
    reveal_strlit("_count");
    reveal_strlit("le=\"");
    reveal_strlit("le=\"+Inf\"} ");
    reveal_strlit("_bucket{le=\"");
    reveal_strlit("_bucket{le=\"+Inf\"} ");
    reveal_strlit("_sum ");
    reveal_strlit("_count ");
    let count = text::decimal(reading.count as nat);
    let bound = value::value_text(h.bounds[b as int]);
    let total = text::decimal(n as nat);
    let sum = value::value_text(reading.sum);
    assert(exposition::bucket_line(d, None, bound, n) =~= name + "_bucket{le=\""@ + bound
        + "\"} "@ + total + seq!['\n']);
    assert(exposition::infinite_bucket_line(d, None, reading.count) =~= name
        + "_bucket{le=\"+Inf\"} "@ + count + seq!['\n']);
    assert(exposition::total_line(d, "_sum"@, None, sum) =~= name + "_sum "@ + sum + seq!['\n']);
    assert(exposition::total_line(d, "_count"@, None, count) =~= name + "_count "@ + count + seq![
        '\n',
    ]);
}

/// The lines of series `i` of a labeled histogram are the same with the label
/// block of that series in braces, ahead of `le` and a comma where there is
/// one.
pub proof fn law_labeled_histogram_lines_are_name_labels_and_value(
    d: DescModel,
    h: HistVecModel,
    i: usize,
    b: usize,
    reading: HistReading,
    n: u64,
)
    requires
        d.metric == MetricModel::HistogramVec(h),
    ensures
        ({
            let name = if d.namespace.len() == 0 {
                d.name
            } else {
                d.namespace + seq!['_'] + d.name
            };
            let s = Some(i);
            match h.series[i as int].labels {
                Some(labels) => {
                    &&& exposition::step_text(Step::Bucket { s, b }, d, reading, n) == Some(
                        name + "_bucket{"@ + labels + ",le=\""@ + value::value_text(
                            h.bounds[b as int],
                        ) + "\"} "@ + text::decimal(n as nat) + seq!['\n'],
                    )
                    &&& exposition::step_text(Step::BucketInf { s }, d, reading, n) == Some(
                        name + "_bucket{"@ + labels + ",le=\"+Inf\"} "@ + text::decimal(
                            reading.count as nat,
                        ) + seq!['\n'],
                    )
                    &&& exposition::step_text(Step::Sum { s }, d, reading, n) == Some(
                        name + "_sum{"@ + labels + seq!['}', ' '] + value::value_text(reading.sum)
                            + seq!['\n'],
                    )
                    &&& exposition::step_text(Step::Count { s }, d, reading, n) == Some(
                        name + "_count{"@ + labels + seq!['}', ' '] + text::decimal(
                            reading.count as nat,
                        ) + seq!['\n'],
                    )
                },
                None => {
                    &&& exposition::step_text(Step::Bucket { s, b }, d, reading, n) is None
                    &&& exposition::step_text(Step::BucketInf { s }, d, reading, n) is None
                    &&& exposition::step_text(Step::Sum { s }, d, reading, n) is None
                    &&& exposition::step_text(Step::Count { s }, d, reading, n) is None
                },
            }
        }),
{
    if let Some(labels) = h.series[i as int].labels {
        let name = if d.namespace.len() == 0 {
            d.name
        } else {
            d.namespace + seq!['_'] + d.name
        };
        reveal_strlit("_bucket");
        reveal_strlit("_sum");
        reveal_strlit("_count");
        reveal_strlit("le=\"");
        reveal_strlit("le=\"+Inf\"} ");
        reveal_strlit("_bucket{");
        reveal_strlit(",le=\"");
        reveal_strlit(",le=\"+Inf\"} ");
        reveal_strlit("_sum{");
        reveal_strlit("_count{");
        let l = Some(labels);
        let count = text::decimal(reading.count as nat);
        let bound = value::value_text(h.bounds[b as int]);
        let total = text::decimal(n as nat);
        let sum = value::value_text(reading.sum);
        assert(exposition::bucket_line(d, l, bound, n) =~= name + "_bucket{"@ + labels + ",le=\""@
            + bound + "\"} "@ + total + seq!['\n']);
        assert(exposition::infinite_bucket_line(d, l, reading.count) =~= name + "_bucket{"@ + labels
            + ",le=\"+Inf\"} "@ + count + seq!['\n']);
        assert(exposition::total_line(d, "_sum"@, l, sum) =~= name + "_sum{"@ + labels + seq![
            '}',
            ' ',
        ] + sum + seq!['\n']);
        assert(exposition::total_line(d, "_count"@, l, count) =~= name + "_count{"@ + labels + seq![
            '}',
            ' ',
        ] + count + seq!['\n']);
    }
}

/// Every sample line of a metric begins with the very name that its HELP line
/// and its TYPE line carry between their second and third space.
pub proof fn law_samples_bear_the_name_of_their_help(
    d: DescModel,
    step: Step,
    reading: HistReading,
    n: u64,
)
    requires
        crate::step::fits(step, d.metric),
    ensures
        exposition::step_text(step, d, reading, n) is Some && !(step is Help || step is Type)
            ==> {
            let line = exposition::step_text(step, d, reading, n)->Some_0;
            let help = exposition::step_text(Step::Help, d, reading, n)->Some_0;
            let kind = exposition::step_text(Step::Type, d, reading, n)->Some_0;
            let k = if d.namespace.len() == 0 {
                d.name.len() as int
            } else {
                d.namespace.len() as int + 1 + d.name.len()
            };
            &&& 7 + k < help.len() && 7 + k < kind.len() && k < line.len()
            &&& line.take(k) == help.subrange(7, 7 + k)
            &&& line.take(k) == kind.subrange(7, 7 + k)
            &&& help[7 + k] == ' ' && kind[7 + k] == ' '
            &&& line[k] == ' ' || line[k] == '{' || line[k] == '_'
        },
{
    if exposition::step_text(step, d, reading, n) is Some && !(step is Help || step is Type) {
        let shown = exposition::step_text(step, d, reading, n)->Some_0;
        let name = if d.namespace.len() == 0 {
            d.name
        } else {
            d.namespace + seq!['_'] + d.name
        };
        law_help_and_type_lines_carry_the_name(d, reading, n);
        let help = escape::escaped_help(d.help) + seq!['\n'];
        let word = exposition::type_word(d.metric) + seq!['\n'];
        reveal_strlit("# HELP ");
        reveal_strlit("# TYPE ");
        assert(exposition::help_line(d) =~= "# HELP "@ + (name + (seq![' '] + help)));
        assert(exposition::type_line(d) =~= "# TYPE "@ + (name + (seq![' '] + word)));
        lemma_begins("# HELP "@, name, seq![' '] + help);
        lemma_begins("# TYPE "@, name, seq![' '] + word);
        lemma_name_begins(d, step, reading, n);
    }
}

/// What stands in the middle of a text, and what follows it.
proof fn lemma_begins(head: Seq<char>, name: Seq<char>, rest: Seq<char>)
    requires
        rest.len() > 0,
    ensures
        ({
            let all = head + (name + rest);
            &&& all.subrange(head.len() as int, (head.len() + name.len()) as int) == name
            &&& head.len() + name.len() < all.len()
            &&& all[(head.len() + name.len()) as int] == rest[0]
        }),
{
    let all = head + (name + rest);
    assert(all.subrange(head.len() as int, (head.len() + name.len()) as int) =~= name);
}

/// What a text begins with, a longer one begins with too.
proof fn lemma_longer(x: Seq<char>, y: Seq<char>, k: int)
    requires
        0 <= k < x.len(),
    ensures
        k < (x + y).len(),
        (x + y).take(k) == x.take(k),
        (x + y)[k] == x[k],
{
    assert((x + y).take(k) =~= x.take(k));
}

/// A name with a suffix begins with the name, and goes on with the suffix.
proof fn lemma_full_name_begins(d: DescModel, suffix: Seq<char>)
    requires
        suffix.len() > 0,
    ensures
        ({
            let name = if d.namespace.len() == 0 {
                d.name
            } else {
                d.namespace + seq!['_'] + d.name
            };
            let full = exposition::full_name(d, suffix);
            &&& full.len() > name.len()
            &&& full.take(name.len() as int) == name
            &&& full[name.len() as int] == suffix[0]
        }),
{
    let name = if d.namespace.len() == 0 {
        d.name
    } else {
        d.namespace + seq!['_'] + d.name
    };
    assert(exposition::full_name(d, suffix).take(name.len() as int) =~= name);
}

/// A sample line begins with the name of the metric.
proof fn lemma_name_begins(d: DescModel, step: Step, reading: HistReading, n: u64)
    requires
        crate::step::fits(step, d.metric),
        exposition::step_text(step, d, reading, n) is Some,
        !(step is Help || step is Type),
    ensures
        ({
            let shown = exposition::step_text(step, d, reading, n)->Some_0;
            let name = if d.namespace.len() == 0 {
                d.name
            } else {
                d.namespace + seq!['_'] + d.name
            };
            let k = name.len() as int;
            &&& k < shown.len()
            &&& shown.take(k) == name
            &&& shown[k] == ' ' || shown[k] == '{' || shown[k] == '_'
        }),
{
    let name = if d.namespace.len() == 0 {
        d.name
    } else {
        d.namespace + seq!['_'] + d.name
    };
    let k = name.len() as int;
    let part = exposition::part_of(step);
    let labels = exposition::hist_labels(d.metric, part);
    reveal_strlit("");
    reveal_strlit("_bucket");
    reveal_strlit("_sum");
    reveal_strlit("_count");
    match step {
        Step::Sample => {
            let shown = exposition::scalar_shown(d.metric);
            let x = exposition::full_name(d, ""@) + seq![' '];
            assert(exposition::full_name(d, ""@) =~= name);
            assert(x.take(k) =~= name);
            lemma_longer(x, shown, k);
            lemma_longer(x + shown, seq!['\n'], k);
        },
        Step::Series(i) => {
            let block = exposition::series_labels(d.metric, i as int)->Some_0;
            let shown = exposition::series_shown(d.metric, i as int);
            let x = exposition::full_name(d, ""@) + seq!['{'];
            assert(exposition::full_name(d, ""@) =~= name);
            assert(x.take(k) =~= name);
            lemma_longer(x, block, k);
            lemma_longer(x + block, "} "@, k);
            lemma_longer(x + block + "} "@, shown, k);
            lemma_longer(x + block + "} "@ + shown, seq!['\n'], k);
        },
        Step::Bucket { s, b } => {
            let bound = value::value_text(crate::step::hist_bound(d.metric, b as int));
            lemma_bucket_head_begins(d, labels);
            let x = exposition::bucket_head(d, labels);
            lemma_longer(x, "le=\""@, k);
            lemma_longer(x + "le=\""@, bound, k);
            lemma_longer(x + "le=\""@ + bound, "\"} "@, k);
            let y = x + "le=\""@ + bound + "\"} "@;
            lemma_longer(y, text::decimal(n as nat), k);
            lemma_longer(y + text::decimal(n as nat), seq!['\n'], k);
        },
        Step::BucketInf { s } => {
            lemma_bucket_head_begins(d, labels);
            let x = exposition::bucket_head(d, labels);
            let count = text::decimal(reading.count as nat);
            lemma_longer(x, "le=\"+Inf\"} "@, k);
            lemma_longer(x + "le=\"+Inf\"} "@, count, k);
            lemma_longer(x + "le=\"+Inf\"} "@ + count, seq!['\n'], k);
        },
        Step::Sum { s } => {
            lemma_total_line_begins(d, "_sum"@, labels, value::value_text(reading.sum));
        },
        Step::Count { s } => {
            lemma_total_line_begins(d, "_count"@, labels, text::decimal(reading.count as nat));
        },
        _ => {},
    }
}

proof fn lemma_bucket_head_begins(d: DescModel, labels: Option<Seq<char>>)
    ensures
        ({
            let name = if d.namespace.len() == 0 {
                d.name
            } else {
                d.namespace + seq!['_'] + d.name
            };
            let head = exposition::bucket_head(d, labels);
            &&& head.len() > name.len()
            &&& head.take(name.len() as int) == name
            &&& head[name.len() as int] == '_'
        }),
{
    let name = if d.namespace.len() == 0 {
        d.name
    } else {
        d.namespace + seq!['_'] + d.name
    };
    let k = name.len() as int;
    reveal_strlit("_bucket");
    lemma_full_name_begins(d, "_bucket"@);
    let full = exposition::full_name(d, "_bucket"@);
    lemma_longer(full, seq!['{'], k);
    if let Some(block) = labels {
        lemma_longer(full + seq!['{'], block, k);
        lemma_longer(full + seq!['{'] + block, seq![','], k);
    }
}

proof fn lemma_total_line_begins(
    d: DescModel,
    suffix: Seq<char>,
    labels: Option<Seq<char>>,
    shown: Seq<char>,
)
    requires
        suffix.len() > 0,
        suffix[0] == '_',
    ensures
        ({
            let name = if d.namespace.len() == 0 {
                d.name
            } else {
                d.namespace + seq!['_'] + d.name
            };
            let all = exposition::total_line(d, suffix, labels, shown);
            &&& all.len() > name.len()
            &&& all.take(name.len() as int) == name
            &&& all[name.len() as int] == '_'
        }),
{
    let name = if d.namespace.len() == 0 {
        d.name
    } else {
        d.namespace + seq!['_'] + d.name
    };
    let k = name.len() as int;
    lemma_full_name_begins(d, suffix);
    let full = exposition::full_name(d, suffix);
    if let Some(block) = labels {
        lemma_longer(full, seq!['{'], k);
        lemma_longer(full + seq!['{'], block, k);
        lemma_longer(full + seq!['{'] + block, seq!['}'], k);
    }
    let head = exposition::total_head(d, suffix, labels);
    lemma_longer(head, seq![' '], k);
    lemma_longer(head + seq![' '], shown, k);
    lemma_longer(head + seq![' '] + shown, seq!['\n'], k);
}

/// What is shown of a step of a metric that stays as it is: a histogram that is
/// too large for a snapshot fails at its HELP line; a step whose labels cannot
/// be formatted fails as such; a line of more bytes than fit fails with that
/// many; and any other step gives its line, with the sum of the buckets up to
/// it as the count of a finite bucket.
pub proof fn law_steps_show_their_line_or_why_not(step: Step, d: DescModel, limits: Limits)
    ensures
        ({
            let buckets = match d.metric {
                MetricModel::Histogram(h) => Some(h.bounds.len()),
                MetricModel::HistogramVec(h) => Some(h.bounds.len()),
                _ => None,
            };
            let line = transcript::line_of(step, d);
            let shown = transcript::shown(step, d, limits);
            if limits.coherent && step is Help && buckets is Some && buckets->Some_0
                > limits.buckets {
                shown == Err::<Seq<char>, _>(
                    Failure::HistogramCapacityExceeded {
                        required: buckets->Some_0 as usize,
                        capacity: limits.buckets as usize,
                        namespace: d.namespace,
                        metric: d.name,
                    },
                )
            } else {
                &&& line is None ==> shown == Err::<Seq<char>, _>(Failure::Formatting)
                &&& line matches Some(l) ==> if text::byte_len(l) <= limits.line {
                    shown == Ok::<_, Failure>(l)
                } else {
                    shown == Err::<Seq<char>, _>(
                        Failure::LineTooLong {
                            required: if text::byte_len(l) <= usize::MAX {
                                text::byte_len(l) as usize
                            } else {
                                usize::MAX
                            },
                            capacity: limits.line as usize,
                            namespace: d.namespace,
                            metric: d.name,
                        },
                    )
                }
            }
        }),
        ({
            let reading = match (d.metric, step) {
                (MetricModel::Histogram(h), _) => h.reading,
                (MetricModel::HistogramVec(h), Step::Bucket { s: Some(i), b }) =>
                    h.series[i as int].reading,
                (MetricModel::HistogramVec(h), Step::BucketInf { s: Some(i) }) =>
                    h.series[i as int].reading,
                (MetricModel::HistogramVec(h), Step::Sum { s: Some(i) }) =>
                    h.series[i as int].reading,
                (MetricModel::HistogramVec(h), Step::Count { s: Some(i) }) =>
                    h.series[i as int].reading,
                _ => crate::step::hist_reading(d.metric, exposition::part_of(step)),
            };
            transcript::line_of(step, d) == exposition::step_text(
                step,
                d,
                reading,
                match step {
                    Step::Bucket { s, b } => erased::rolling_total(reading.buckets, b as int),
                    _ => 0,
                },
            )
        }),
{
}

/// A failure is called by what it is about: the metric by its name, in quotes,
/// with its namespace before it if there is one, and the sizes in decimal.
pub proof fn law_failures_are_called_by_name_and_size()
    ensures
        forall|e: &RenderError, s: String| #[trigger]
            call_ensures(RenderError::message, (e,), s) ==> match *e {
                RenderError::LineTooLong { required, capacity, namespace, metric } => s@
                    == "metric \""@ + (if namespace@.len() == 0 {
                    metric@
                } else {
                    namespace@ + seq!['_'] + metric@
                }) + "\" requires a "@ + text::decimal(required as nat)
                    + "-byte render line, but the renderer capacity is "@ + text::decimal(
                    capacity as nat,
                ) + " bytes"@,
                RenderError::HistogramCapacityExceeded { required, capacity, namespace, metric } =>
                    s@ == "histogram \""@ + (if namespace@.len() == 0 {
                        metric@
                    } else {
                        namespace@ + seq!['_'] + metric@
                    }) + "\" has "@ + text::decimal(required as nat)
                        + " finite buckets, but the renderer snapshot capacity is "@
                        + text::decimal(capacity as nat),
                RenderError::Formatting => s@
                    == "a metric failed while formatting its render line"@,
                RenderError::Sink => s@ == "the render output sink rejected a line"@,
            },
        forall|e: &RenderError| match *e {
            RenderError::LineTooLong { required, capacity, namespace, metric } => (#[trigger] e@)
                == (Failure::LineTooLong {
                required,
                capacity,
                namespace: namespace@,
                metric: metric@,
            }),
            RenderError::HistogramCapacityExceeded { required, capacity, namespace, metric } => e@
                == (Failure::HistogramCapacityExceeded {
                required,
                capacity,
                namespace: namespace@,
                metric: metric@,
            }),
            RenderError::Formatting => e@ == Failure::Formatting,
            RenderError::Sink => e@ == Failure::Sink,
        },
{
    assert forall|e: &RenderError, s: String| #[trigger]
        call_ensures(RenderError::message, (e,), s) implies match *e {
        RenderError::LineTooLong { required, capacity, namespace, metric } => s@ == "metric \""@
            + (if namespace@.len() == 0 {
            metric@
        } else {
            namespace@ + seq!['_'] + metric@
        }) + "\" requires a "@ + text::decimal(required as nat)
            + "-byte render line, but the renderer capacity is "@ + text::decimal(capacity as nat)
            + " bytes"@,
        RenderError::HistogramCapacityExceeded { required, capacity, namespace, metric } => s@
            == "histogram \""@ + (if namespace@.len() == 0 {
            metric@
        } else {
            namespace@ + seq!['_'] + metric@
        }) + "\" has "@ + text::decimal(required as nat)
            + " finite buckets, but the renderer snapshot capacity is "@ + text::decimal(
            capacity as nat,
        ),
        RenderError::Formatting => s@ == "a metric failed while formatting its render line"@,
        RenderError::Sink => s@ == "the render output sink rejected a line"@,
    } by {
        reveal_strlit("_");
        match *e {
            RenderError::LineTooLong { required, capacity, namespace, metric } => {
                let name = crate::render::name_pieces(namespace@, metric@);
                let tail = seq![
                    "\" requires a "@,
                    text::decimal(required as nat),
                    "-byte render line, but the renderer capacity is "@,
                    text::decimal(capacity as nat),
                    " bytes"@,
                ];
                lemma_joined_name(namespace@, metric@);
                text::lemma_joined_one("metric \""@);
                text::lemma_joined_concat(seq!["metric \""@], name);
                text::lemma_joined_concat(seq!["metric \""@] + name, tail);
                lemma_joined_five(tail[0], tail[1], tail[2], tail[3], tail[4]);
                assert(tail =~= seq![tail[0], tail[1], tail[2], tail[3], tail[4]]);
            },
            RenderError::HistogramCapacityExceeded { required, capacity, namespace, metric } => {
                let name = crate::render::name_pieces(namespace@, metric@);
                let tail = seq![
                    "\" has "@,
                    text::decimal(required as nat),
                    " finite buckets, but the renderer snapshot capacity is "@,
                    text::decimal(capacity as nat),
                ];
                lemma_joined_name(namespace@, metric@);
                text::lemma_joined_one("histogram \""@);
                text::lemma_joined_concat(seq!["histogram \""@], name);
                text::lemma_joined_concat(seq!["histogram \""@] + name, tail);
                let empty = Seq::<char>::empty();
                lemma_joined_five(empty, tail[0], tail[1], tail[2], tail[3]);
                text::lemma_joined_concat(seq![empty], tail);
                text::lemma_joined_one(empty);
                assert(seq![empty] + tail =~= seq![empty, tail[0], tail[1], tail[2], tail[3]]);
            },
            RenderError::Formatting => {
                text::lemma_joined_one("a metric failed while formatting its render line"@);
            },
            RenderError::Sink => {
                text::lemma_joined_one("the render output sink rejected a line"@);
            },
        }
    }
}

proof fn lemma_joined_name(namespace: Seq<char>, metric: Seq<char>)
    ensures
        text::joined(crate::render::name_pieces(namespace, metric)) == if namespace.len() == 0 {
            metric
        } else {
            namespace + seq!['_'] + metric
        },
{
    reveal_strlit("_");
    assert("_"@ =~= seq!['_']);
    text::lemma_joined_one(metric);
    if namespace.len() > 0 {
        let a = seq![namespace];
        let b = seq!["_"@];
        let c = seq![metric];
        assert(crate::render::name_pieces(namespace, metric) =~= a + b + c);
        text::lemma_joined_concat(a, b);
        text::lemma_joined_concat(a + b, c);
        text::lemma_joined_one(namespace);
        text::lemma_joined_one("_"@);
    }
}

proof fn lemma_joined_five(
    a: Seq<char>,
    b: Seq<char>,
    c: Seq<char>,
    d: Seq<char>,
    e: Seq<char>,
)
    ensures
        text::joined(seq![a, b, c, d, e]) == a + b + c + d + e,
{
    text::lemma_joined_one(a);
    text::lemma_joined_one(b);
    text::lemma_joined_one(c);
    text::lemma_joined_one(d);
    text::lemma_joined_one(e);
    text::lemma_joined_concat(seq![a], seq![b]);
    text::lemma_joined_concat(seq![a] + seq![b], seq![c]);
    text::lemma_joined_concat(seq![a] + seq![b] + seq![c], seq![d]);
    text::lemma_joined_concat(seq![a] + seq![b] + seq![c] + seq![d], seq![e]);
    assert(seq![a, b, c, d, e] =~= seq![a] + seq![b] + seq![c] + seq![d] + seq![e]);
}

/// A line of a labeled collection shows the series at its index and no other:
/// its own label block, and what it holds itself.
pub proof fn law_collection_lines_show_their_own_series<
    const N: usize,
    const B: usize,
    const K: usize,
    const V: usize,
>(
    c: CounterVec<N, K, V>,
    g: GaugeVec<N, K, V>,
    h: IntHistogramVec<N, B, K, V>,
    d: DescModel,
    i: usize,
    b: usize,
)
    ensures
        ({
            let name = if d.namespace.len() == 0 {
                d.name
            } else {
                d.namespace + seq!['_'] + d.name
            };
            &&& d.metric == MetricModel::CounterVec(c.series_model()) && i < c@.len()
                ==> transcript::line_of(Step::Series(i), d) == Some(
                name + seq!['{'] + c@[i as int].labels + seq!['}', ' '] + text::decimal(
                    c@[i as int].value as nat,
                ) + seq!['\n'],
            )
            &&& d.metric == MetricModel::GaugeVec(g.series_model()) && i < g@.len()
                ==> transcript::line_of(Step::Series(i), d) == Some(
                name + seq!['{'] + g@[i as int].labels + seq!['}', ' '] + (if g@[i as int].value
                    < 0 {
                    seq!['-'] + text::decimal((-g@[i as int].value) as nat)
                } else {
                    text::decimal(g@[i as int].value as nat)
                }) + seq!['\n'],
            )
            &&& d.metric == MetricModel::HistogramVec(h.hist_model()) && i < h@.len() && b
                < h.bounds_held().len() ==> {
                let held = h@[i as int].value;
                let labels = h@[i as int].labels;
                let s = Some(i);
                &&& transcript::line_of(Step::Bucket { s, b }, d) == Some(
                    name + "_bucket{"@ + labels + ",le=\""@ + text::decimal(
                        h.bounds_held()[b as int] as nat,
                    ) + "\"} "@ + text::decimal(
                        erased::rolling_total(held.buckets, b as int) as nat,
                    ) + seq!['\n'],
                )
                &&& transcript::line_of(Step::BucketInf { s }, d) == Some(
                    name + "_bucket{"@ + labels + ",le=\"+Inf\"} "@ + text::decimal(
                        held.count as nat,
                    ) + seq!['\n'],
                )
                &&& transcript::line_of(Step::Sum { s }, d) == Some(
                    name + "_sum{"@ + labels + seq!['}', ' '] + text::decimal(held.sum as nat)
                        + seq!['\n'],
                )
                &&& transcript::line_of(Step::Count { s }, d) == Some(
                    name + "_count{"@ + labels + seq!['}', ' '] + text::decimal(held.count as nat)
                        + seq!['\n'],
                )
            }
        }),
{
    let reading = crate::step::hist_reading(d.metric, exposition::part_of(Step::Series(i)));
    law_series_lines_are_name_labels_and_value(
        d,
        c.series_model(),
        g.series_model(),
        i,
        reading,
        0,
    );
    if d.metric == MetricModel::HistogramVec(h.hist_model()) && i < h@.len() {
        let held = h.hist_model().series[i as int].reading;
        let n = erased::rolling_total(held.buckets, b as int);
        law_labeled_histogram_lines_are_name_labels_and_value(d, h.hist_model(), i, b, held, n);
        law_labeled_histogram_lines_are_name_labels_and_value(d, h.hist_model(), i, b, held, 0);
    }
}

/// A line of a metric that may change between lines shows the metric as it is
/// when the line is rendered, except that a renderer which takes snapshots
/// shows the buckets, sum and count as they were at the first line of the
/// histogram, or of the series. A finite bucket shows the total that was rolled
/// up to it, which begins with the first bucket. A line fails where its
/// histogram has too many buckets for a snapshot, its text cannot be formatted,
/// or is too long.
pub proof fn law_lines_show_the_metric_or_its_snapshot(c: Cursor, d: DescModel, limits: Limits)
    ensures
        ({
            let (bounds, now) = match d.metric {
                MetricModel::Histogram(h) => (h.bounds.len(), h.reading),
                MetricModel::HistogramVec(h) => (
                    h.bounds.len(),
                    h.series[(match c.step {
                        Step::Bucket { s, b } => s,
                        Step::BucketInf { s } => s,
                        Step::Sum { s } => s,
                        Step::Count { s } => s,
                        _ => None,
                    })->Some_0 as int].reading,
                ),
                _ => (0, arbitrary()),
            };
            let is_histogram = d.metric is Histogram || d.metric is HistogramVec;
            let begins = match c.step {
                Step::Bucket { s, b } => b == 0,
                Step::BucketInf { s } => is_histogram && bounds == 0,
                _ => false,
            };
            let snapshot = if limits.coherent && begins {
                HistReading {
                    buckets: now.buckets + c.scratch.buckets.skip(now.buckets.len() as int),
                    sum: now.sum,
                    count: now.count,
                }
            } else {
                c.scratch
            };
            let read = if limits.coherent {
                snapshot
            } else {
                now
            };
            let total = match c.step {
                Step::Bucket { s, b } => if b == 0 {
                    read.buckets[0] as int
                } else {
                    (c.cumulative + read.buckets[b as int]) % 0x1_0000_0000_0000_0000
                },
                _ => c.cumulative as int,
            };
            let text = exposition::step_text(c.step, d, read, total as u64);
            match exposition::emitted(c, d, limits) {
                Outcome::Line(shown, next) => {
                    &&& text == Some(shown)
                    &&& text::byte_len(shown) <= limits.line
                    &&& next.g == c.g && next.m == c.m
                    &&& next.scratch == snapshot
                    &&& next.cumulative == total
                    &&& limits.coherent && is_histogram && (c.step is Help || begins) ==> bounds
                        <= limits.buckets
                },
                Outcome::Failed(failure) => if limits.coherent && is_histogram && (c.step is Help
                    || begins) && bounds > limits.buckets {
                    failure == Failure::HistogramCapacityExceeded {
                        required: bounds as usize,
                        capacity: limits.buckets as usize,
                        namespace: d.namespace,
                        metric: d.name,
                    }
                } else {
                    match text {
                        None => failure is Formatting,
                        Some(shown) => {
                            &&& text::byte_len(shown) > limits.line
                            &&& failure matches Failure::LineTooLong {
                                required,
                                capacity,
                                namespace,
                                metric,
                            }
                            &&& text::byte_len(shown) <= usize::MAX ==> required
                                == text::byte_len(shown)
                            &&& text::byte_len(shown) > usize::MAX ==> required == usize::MAX
                            &&& capacity == limits.line as usize
                            &&& namespace == d.namespace
                            &&& metric == d.name
                        },
                    }
                },
                Outcome::Done(_) => false,
            }
        }),
{
    if let Step::Bucket { s, b } = c.step {
        let read = exposition::reading_at(
            c.step,
            d.metric,
            exposition::scratch_at(c.step, d.metric, c.scratch, limits),
            limits,
        );
        let sum = c.cumulative + read.buckets[b as int];
        assert(sum % 0x1_0000_0000_0000_0000 == atomic::wrap_u64(sum));
    }
}

/// What a failure is written as is its message.
pub proof fn law_failures_are_written_as_their_message<'a>()
    ensures
        forall|e: &'a RenderError, w: &'a mut String, r: Result<(), FormatError>, s: String|
            #![trigger call_ensures(RenderError::fmt::<String>, (e, w), r),
                call_ensures(RenderError::message, (e,), s)]
            call_ensures(RenderError::fmt::<String>, (e, w), r) && call_ensures(
                RenderError::message,
                (e,),
                s,
            ) ==> r is Ok && (*final(w))@ == (*w)@ + s@,
{
    assert forall|e: &'a RenderError, w: &'a mut String, r: Result<(), FormatError>, s: String|
        #![trigger call_ensures(RenderError::fmt::<String>, (e, w), r),
            call_ensures(RenderError::message, (e,), s)]
        call_ensures(RenderError::fmt::<String>, (e, w), r) && call_ensures(
            RenderError::message,
            (e,),
            s,
        ) implies r is Ok && (*final(w))@ == (*w)@ + s@ by {
        sink::law_strings_take_everything(*w, *final(w), render::failure_pieces(e@), r);
    }
}

} // verus!
