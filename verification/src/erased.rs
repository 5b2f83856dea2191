//! Type-erased view over metrics, used for dynamic dispatch from the
//! registry without the exporter knowing any crate's concrete metrics type.
//!
//! Each view has a mathematical model, which says what its methods return. A
//! verified implementation gives the model; it is unspecified otherwise.

use vstd::prelude::*;
use crate::atomic;
use crate::counter::Counter;
use crate::sink::FormatError;
use crate::value::Value;

verus! {

/// One series of a labeled counter: its label block, or `None` where the
/// block cannot be formatted, and its value.
pub struct CounterSeriesModel {
    pub labels: Option<Seq<char>>,
    pub value: u64,
}

/// One series of a labeled gauge.
pub struct GaugeSeriesModel {
    pub labels: Option<Seq<char>>,
    pub value: Value,
}

/// What a histogram holds: non-cumulative counts of the finite buckets in
/// bound order, the sum of all observations and their number.
pub struct HistReading {
    pub buckets: Seq<u64>,
    pub sum: Value,
    pub count: u64,
}

/// The sum of the counts of the buckets up to index `b`, modulo the range of
/// the counter.
pub open spec fn rolling_total(buckets: Seq<u64>, b: int) -> u64
    decreases b,
{
    if b <= 0 {
        buckets[0]
    } else {
        atomic::wrap_u64(rolling_total(buckets, b - 1) + buckets[b])
    }
}

/// A histogram: the upper bounds of its finite buckets and what it holds.
pub struct HistModel {
    pub bounds: Seq<Value>,
    pub reading: HistReading,
}

/// One series of a labeled histogram.
pub struct HistSeriesModel {
    pub labels: Option<Seq<char>>,
    pub reading: HistReading,
}

/// A labeled histogram: bounds that all series share, and the series.
pub struct HistVecModel {
    pub bounds: Seq<Value>,
    pub series: Seq<HistSeriesModel>,
}

/// One metric's data.
pub enum MetricModel {
    Counter(u64),
    Gauge(Value),
    Histogram(HistModel),
    CounterVec(Seq<CounterSeriesModel>),
    GaugeVec(Seq<GaugeSeriesModel>),
    HistogramVec(HistVecModel),
}

/// One metric's identity and data.
pub struct DescModel {
    pub namespace: Seq<char>,
    pub name: Seq<char>,
    pub help: Seq<char>,
    pub metric: MetricModel,
}

/// The metrics of a group, by index. A group can leave an index out.
pub type GroupModel = Seq<Option<DescModel>>;

/// A coherent histogram reading backed by the initialized prefix of the
/// caller-provided bucket buffer.
#[derive(Debug, PartialEq)]
pub struct HistogramSnapshot<'a> {
    /// Non-cumulative counts for the finite buckets, in bound order.
    pub buckets: &'a [u64],
    /// Sum of every observation represented by this snapshot.
    pub sum: Value,
    /// Total observation count, also used for the implicit `+Inf` bucket.
    pub count: u64,
}

impl<'a> Clone for HistogramSnapshot<'a> {
    fn clone(&self) -> (copy: Self)
        ensures
            copy == *self,
    {
        HistogramSnapshot { buckets: self.buckets, sum: self.sum.clone(), count: self.count }
    }
}

impl<'a> HistogramSnapshot<'a> {
    /// What the snapshot holds.
    pub open spec fn reading(&self) -> HistReading {
        HistReading { buckets: self.buckets@, sum: self.sum, count: self.count }
    }
}

/// The caller-provided histogram snapshot buffer was too small.
#[derive(Debug, Clone, Copy, PartialEq, Eq)]
pub struct HistogramSnapshotError {
    /// Number of finite bucket slots required.
    pub required: usize,
    /// Number of bucket slots provided.
    pub capacity: usize,
}

/// The first `required` slots of `buckets`, or an error if there are fewer.
pub fn snapshot_bucket_prefix(buckets: &mut [u64], required: usize) -> (r: Result<
    &mut [u64],
    HistogramSnapshotError,
>)
    ensures
        r is Ok <==> required <= old(buckets)@.len(),
        r matches Ok(prefix) ==> prefix@ == old(buckets)@.take(required as int) && final(buckets)@
            == final(prefix)@ + old(buckets)@.skip(required as int),
        r matches Err(e) ==> e.required == required && e.capacity == old(buckets)@.len(),
        r is Err ==> final(buckets)@ == old(buckets)@,
{
    let capacity: usize = buckets.len();
    if capacity < required {
        return Err(HistogramSnapshotError { required, capacity });
    }
    Ok(buckets.split_at_mut(required).0)
}

/// Object-safe view over a labeled counter collection ([`crate::vec::CounterVec`]).
pub trait ErasedCounterVec {
    /// The series, in the order of their creation.
    open spec fn series_model(&self) -> Seq<CounterSeriesModel> {
        arbitrary()
    }

    /// Number of distinct label-value combinations currently recorded.
    fn series_count(&self) -> (n: usize)
        ensures
            n == self.series_model().len(),
    ;

    /// Append the label block (e.g. `reason="timeout"`, no braces) for series
    /// `s` to `out`.
    fn write_labels(&self, s: usize, out: &mut String) -> (r: Result<(), FormatError>)
        requires
            s < self.series_model().len(),
        ensures
            r is Ok <==> self.series_model()[s as int].labels is Some,
            r is Ok ==> final(out)@ == old(out)@ + self.series_model()[s as int].labels->Some_0,
    ;

    /// The current value of series `s`.
    fn value(&self, s: usize) -> (n: u64)
        requires
            s < self.series_model().len(),
        ensures
            n == self.series_model()[s as int].value,
    ;
}

/// Object-safe view over a labeled gauge collection ([`crate::vec::GaugeVec`]).
pub trait ErasedGaugeVec {
    /// The series, in the order of their creation.
    open spec fn series_model(&self) -> Seq<GaugeSeriesModel> {
        arbitrary()
    }

    /// Number of distinct label-value combinations currently recorded.
    fn series_count(&self) -> (n: usize)
        ensures
            n == self.series_model().len(),
    ;

    /// Append the label block for series `s` to `out`.
    fn write_labels(&self, s: usize, out: &mut String) -> (r: Result<(), FormatError>)
        requires
            s < self.series_model().len(),
        ensures
            r is Ok <==> self.series_model()[s as int].labels is Some,
            r is Ok ==> final(out)@ == old(out)@ + self.series_model()[s as int].labels->Some_0,
    ;

    /// The current value of series `s`.
    fn value(&self, s: usize) -> (v: Value)
        requires
            s < self.series_model().len(),
        ensures
            v == self.series_model()[s as int].value,
    ;
}

/// Object-safe view over an unlabeled histogram
/// ([`crate::histogram::IntHistogram`]).
pub trait ErasedHistogram {
    /// The bounds and what the histogram holds.
    open spec fn hist_model(&self) -> HistModel {
        arbitrary()
    }

    /// Number of finite buckets. The mandatory implicit `+Inf` bucket is not
    /// stored separately because its value is exactly [`Self::total_count`].
    fn bucket_count(&self) -> (n: usize)
        ensures
            n == self.hist_model().bounds.len(),
            n == self.hist_model().reading.buckets.len(),
    ;

    /// The upper bound of finite bucket `b`. Bounds must be strictly
    /// increasing; floating-point bounds must also be finite.
    fn bound(&self, b: usize) -> (v: Value)
        requires
            b < self.hist_model().bounds.len(),
        ensures
            v == self.hist_model().bounds[b as int],
    ;

    /// The non-cumulative count for finite bucket `b`.
    fn bucket(&self, b: usize) -> (n: u64)
        requires
            b < self.hist_model().bounds.len(),
        ensures
            n == self.hist_model().reading.buckets[b as int],
    ;

    /// Total number of observations (equal to the cumulative `+Inf` bucket).
    fn total_count(&self) -> (n: u64)
        ensures
            n == self.hist_model().reading.count,
    ;

    /// Sum of all observed values.
    fn sum(&self) -> (v: Value)
        ensures
            v == self.hist_model().reading.sum,
    ;

    /// Copy one coherent finite-bucket/sum/count snapshot into `buckets`.
    ///
    /// The returned [`HistogramSnapshot::buckets`] slice identifies exactly
    /// the initialized prefix. Implementations must prevent an observation
    /// from interleaving with the copy. Fails if `buckets` has fewer than
    /// [`Self::bucket_count`] entries.
    fn snapshot<'a>(&self, buckets: &'a mut [u64]) -> (r: Result<
        HistogramSnapshot<'a>,
        HistogramSnapshotError,
    >)
        ensures
            r is Ok <==> self.hist_model().bounds.len() <= old(buckets)@.len(),
            r matches Ok(s) ==> s.buckets@.len() == self.hist_model().bounds.len(),
            r matches Ok(s) ==> s.reading() == self.hist_model().reading && final(buckets)@
                == s.buckets@ + old(buckets)@.skip(self.hist_model().bounds.len() as int),
            r matches Err(e) ==> e.required == self.hist_model().bounds.len(),
            r matches Err(e) ==> e.capacity == old(buckets)@.len(),
            r is Err ==> final(buckets)@ == old(buckets)@,
    ;
}

/// Object-safe view over a labeled histogram collection
/// ([`crate::vec::IntHistogramVec`]).
pub trait ErasedHistogramVec {
    /// The shared bounds and the series, in the order of their creation.
    open spec fn hist_model(&self) -> HistVecModel {
        arbitrary()
    }

    /// Number of finite buckets. The mandatory implicit `+Inf` bucket is not
    /// stored separately because its value is exactly [`Self::total_count`].
    fn bucket_count(&self) -> (n: usize)
        ensures
            n == self.hist_model().bounds.len(),
            forall|s: int|
                0 <= s < self.hist_model().series.len() ==> (
                #[trigger] self.hist_model().series[s]).reading.buckets.len() == n,
    ;

    /// The upper bound of finite bucket `b`, shared by every series. Bounds
    /// must be strictly increasing; floating-point bounds must also be finite.
    fn bound(&self, b: usize) -> (v: Value)
        requires
            b < self.hist_model().bounds.len(),
        ensures
            v == self.hist_model().bounds[b as int],
    ;

    /// Number of distinct label-value combinations currently recorded.
    fn series_count(&self) -> (n: usize)
        ensures
            n == self.hist_model().series.len(),
    ;

    /// Append the label block for series `s` (without the `le` label) to `out`.
    fn write_labels(&self, s: usize, out: &mut String) -> (r: Result<(), FormatError>)
        requires
            s < self.hist_model().series.len(),
        ensures
            r is Ok <==> self.hist_model().series[s as int].labels is Some,
            r is Ok ==> final(out)@ == old(out)@
                + self.hist_model().series[s as int].labels->Some_0,
    ;

    /// The non-cumulative count for finite bucket `b` of series `s`.
    fn bucket(&self, s: usize, b: usize) -> (n: u64)
        requires
            s < self.hist_model().series.len(),
            b < self.hist_model().bounds.len(),
        ensures
            n == self.hist_model().series[s as int].reading.buckets[b as int],
    ;

    /// Total number of observations for series `s`.
    fn total_count(&self, s: usize) -> (n: u64)
        requires
            s < self.hist_model().series.len(),
        ensures
            n == self.hist_model().series[s as int].reading.count,
    ;

    /// Sum of all observed values for series `s`.
    fn sum(&self, s: usize) -> (v: Value)
        requires
            s < self.hist_model().series.len(),
        ensures
            v == self.hist_model().series[s as int].reading.sum,
    ;

    /// Copy one coherent bucket/sum/count snapshot for series `s` into
    /// `buckets`. See [`ErasedHistogram::snapshot`] for the contract.
    fn snapshot<'a>(&self, s: usize, buckets: &'a mut [u64]) -> (r: Result<
        HistogramSnapshot<'a>,
        HistogramSnapshotError,
    >)
        requires
            s < self.hist_model().series.len(),
        ensures
            r is Ok <==> self.hist_model().bounds.len() <= old(buckets)@.len(),
            r matches Ok(p) ==> p.buckets@.len() == self.hist_model().bounds.len(),
            r matches Ok(p) ==> p.reading() == self.hist_model().series[s as int].reading,
            r matches Ok(p) ==> final(buckets)@ == p.buckets@ + old(buckets)@.skip(
                self.hist_model().bounds.len() as int,
            ),
            r matches Err(e) ==> e.required == self.hist_model().bounds.len(),
            r matches Err(e) ==> e.capacity == old(buckets)@.len(),
            r is Err ==> final(buckets)@ == old(buckets)@,
    ;
}

/// A type-erased reference to one metric's data.
#[allow(inconsistent_fields)]
pub enum MetricRef<'a> {
    /// Counters have one concrete representation, so retaining a reference
    /// avoids loading their atomic value while rendering HELP and TYPE lines.
    Counter(&'a Counter),
    /// Gauges have integer and floating-point representations, so normalize
    /// their current value eagerly instead of adding an erased gauge trait.
    Gauge(Value),
    Histogram { h: &'a dyn ErasedHistogram },
    CounterVec(&'a dyn ErasedCounterVec),
    GaugeVec(&'a dyn ErasedGaugeVec),
    HistogramVec { h: &'a dyn ErasedHistogramVec },
}

impl<'a> MetricRef<'a> {
    /// The data referred to.
    pub open spec fn model(&self) -> MetricModel {
        match *self {
            MetricRef::Counter(c) => MetricModel::Counter(c@),
            MetricRef::Gauge(v) => MetricModel::Gauge(v),
            MetricRef::Histogram { h } => MetricModel::Histogram(h.hist_model()),
            MetricRef::CounterVec(v) => MetricModel::CounterVec(v.series_model()),
            MetricRef::GaugeVec(v) => MetricModel::GaugeVec(v.series_model()),
            MetricRef::HistogramVec { h } => MetricModel::HistogramVec(h.hist_model()),
        }
    }
}

/// One metric's identity and current data, as produced by a [`MetricGroup`].
pub struct MetricDesc<'a> {
    /// The metric group's namespace, or `""` if none. Prepended to `name` as
    /// `<namespace>_<name>` when rendered.
    pub namespace: &'static str,
    pub name: &'static str,
    pub help: &'static str,
    pub metric: MetricRef<'a>,
}

impl<'a> MetricDesc<'a> {
    /// The identity and data described.
    pub open spec fn model(&self) -> DescModel {
        DescModel {
            namespace: self.namespace@,
            name: self.name@,
            help: self.help@,
            metric: self.metric.model(),
        }
    }
}

/// Implemented by a struct of metrics. Registered with a
/// [`crate::registry::Registry`] and dispatched to dynamically by the renderer,
/// so the exporter never needs to know any crate's concrete metrics type.
pub trait MetricGroup {
    /// The group's namespace.
    open spec fn name_model(&self) -> Seq<char> {
        arbitrary()
    }

    /// The group's metrics.
    open spec fn group_model(&self) -> GroupModel {
        arbitrary()
    }

    /// The group's namespace (see [`MetricDesc::namespace`]).
    fn group_name(&self) -> (s: &'static str)
        ensures
            s@ == self.name_model(),
    ;

    /// Number of metrics in this group.
    fn len(&self) -> (n: usize)
        ensures
            n == self.group_model().len(),
    ;

    /// The metric at `index` (in `0..self.len()`), or `None` if out of range.
    fn get(&self, index: usize) -> (d: Option<MetricDesc<'_>>)
        ensures
            index >= self.group_model().len() ==> d is None,
            index < self.group_model().len() ==> (d is Some <==> self.group_model()[index as int]
                is Some),
            index < self.group_model().len() && d is Some ==> d->Some_0.model()
                == self.group_model()[index as int]->Some_0,
    ;

    /// Whether this group has no metrics.
    fn is_empty(&self) -> (e: bool)
        ensures
            e == (self.group_model().len() == 0),
    {
        self.len() == 0
    }
}

/// The rolling total up to bucket `b` is the sum of the counts of the buckets up
/// to it, modulo 2 to the 64th.
pub proof fn law_rolling_totals_are_sums(buckets: Seq<u64>, b: int)
    requires
        0 <= b < buckets.len(),
    ensures
        (rolling_total(buckets, b) - buckets.take(b + 1).fold_left(
            0int,
            |sum: int, n: u64| sum + n,
        )) % 0x1_0000_0000_0000_0000 == 0,
    decreases b,
{
    let add_up = |sum: int, n: u64| sum + n;
    let first = buckets.take(b + 1);
    assert(first.drop_last() =~= buckets.take(b));
    if b > 0 {
        law_rolling_totals_are_sums(buckets, b - 1);
    } else {
        assert(buckets.take(0).fold_left(0int, add_up) == 0);
    }
}

/// What is described of a metric is its own names and help, and what it holds.
pub proof fn law_descriptions_are_of_their_metric<'a>(
    d: MetricDesc<'a>,
    c: &'a Counter,
    v: Value,
    reading: HistogramSnapshot<'a>,
)
    ensures
        d.model().namespace == d.namespace@,
        d.model().name == d.name@,
        d.model().help == d.help@,
        d.model().metric == d.metric.model(),
        MetricRef::<'a>::Counter(c).model() == MetricModel::Counter(c@),
        MetricRef::<'a>::Gauge(v).model() == MetricModel::Gauge(v),
        d.metric matches MetricRef::Histogram { h } ==> d.metric.model() == MetricModel::Histogram(
            h.hist_model(),
        ),
        d.metric matches MetricRef::CounterVec(s) ==> d.metric.model() == MetricModel::CounterVec(
            s.series_model(),
        ),
        d.metric matches MetricRef::GaugeVec(s) ==> d.metric.model() == MetricModel::GaugeVec(
            s.series_model(),
        ),
        d.metric matches MetricRef::HistogramVec { h } ==> d.metric.model()
            == MetricModel::HistogramVec(h.hist_model()),
        reading.reading().buckets == reading.buckets@,
        reading.reading().sum == reading.sum,
        reading.reading().count == reading.count,
{
}

} // verus!
