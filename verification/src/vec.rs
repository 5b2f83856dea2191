//! Labeled metric collections with a compile-time-declared maximum
//! cardinality: at most `N` distinct label-value combinations are tracked
//! per metric. Once full, new combinations are routed to unrendered sink
//! handles whose updates are no-ops, and existing series keep updating.
//!
//! A series handle borrows its collection: it is good for several updates in a
//! row, which access the metric storage directly, but not while the
//! collection is rendered or another series of it is updated. When label
//! values are stable, call a collection's `index_of` method once and keep the
//! index, which stays with the series; updates through a handle that `at`
//! gives for it avoid rebuilding and looking up the label block. The
//! convenience methods accepting label values are intended for dynamic or
//! infrequent labels.

use vstd::prelude::*;
use crate::atomic;
use crate::counter::Counter;
use crate::erased::CounterSeriesModel;
use crate::erased::ErasedCounterVec;
use crate::erased::ErasedGaugeVec;
use crate::erased::ErasedHistogramVec;
use crate::erased::GaugeSeriesModel;
use crate::erased::HistSeriesModel;
use crate::erased::HistVecModel;
use crate::erased::HistogramSnapshot;
use crate::erased::HistogramSnapshotError;
use crate::erased::MetricModel;
use crate::gauge::Gauge;
use crate::histogram;
use crate::labels;
use crate::names;
use crate::series;
use crate::series::IntHistCells;
use crate::series::IntHistSeries;
use crate::series::IntReading;
use crate::sink::FormatError;
use crate::slots;
use crate::slots::SeriesMap;
use crate::slots::SeriesModel;
use crate::text;
use crate::transcript;
use crate::value::Value;

verus! {

/// An infallible handle to one [`CounterVec`] series.
///
/// If the requested label block did not fit or the collection was full, this
/// handle is a sink: updates are no-ops and [`get`](Self::get) returns zero.
#[derive(Debug)]
pub struct CounterSeries<'a> {
    /// The counter, or `None` for a sink.
    pub counter: Option<&'a mut Counter>,
}

impl<'a> CounterSeries<'a> {
    /// What the handle reads: the counter, or zero for a sink.
    pub open spec fn reading(&self) -> u64 {
        match self.counter {
            Some(counter) => counter@,
            None => 0,
        }
    }

    /// `after` is the same handle as `before`, with `value` in its counter if
    /// it has one.
    pub open spec fn moved_to(before: Self, after: Self, value: u64) -> bool {
        &&& after.counter is Some <==> before.counter is Some
        &&& before.counter is Some ==> after.reading() == value
    }

    /// A handle to a series.
    fn metric(counter: &'a mut Counter) -> (s: Self)
        ensures
            s.counter is Some,
            *s.counter->Some_0 == *old(counter),
            *final(counter) == *final(s.counter->Some_0),
    {
        CounterSeries { counter: Some(counter) }
    }

    /// A handle to nothing.
    fn sink() -> (s: Self)
        ensures
            s.counter is None,
    {
        CounterSeries { counter: None }
    }

    /// Increment this series by 1, or do nothing if it is a sink.
    pub fn inc(&mut self)
        ensures
            Self::moved_to(*old(self), *final(self), atomic::wrap_u64(old(self).reading() + 1)),
            old(self).counter is Some ==> *final(final(self).counter->Some_0)
                == *final(old(self).counter->Some_0),
    {
        if let Some(counter) = &mut self.counter {
            counter.inc();
        }
    }

    /// Increment this series by `n`, or do nothing if it is a sink.
    pub fn inc_by(&mut self, n: u64)
        ensures
            Self::moved_to(*old(self), *final(self), atomic::wrap_u64(old(self).reading() + n)),
            old(self).counter is Some ==> *final(final(self).counter->Some_0)
                == *final(old(self).counter->Some_0),
    {
        if let Some(counter) = &mut self.counter {
            counter.inc_by(n);
        }
    }

    /// Return the current value, or zero if this is a sink.
    pub fn get(&self) -> (n: u64)
        ensures
            n == self.reading(),
    {
        match &self.counter {
            Some(counter) => counter.get(),
            None => 0,
        }
    }

    /// Reset this series to zero, or do nothing if it is a sink.
    pub fn reset(&mut self)
        ensures
            Self::moved_to(*old(self), *final(self), 0),
            old(self).counter is Some ==> *final(final(self).counter->Some_0)
                == *final(old(self).counter->Some_0),
    {
        if let Some(counter) = &mut self.counter {
            counter.reset();
        }
    }
}

/// The series of a labeled counter as a renderer sees them.
pub open spec fn counter_models(series: Seq<SeriesModel<u64>>) -> Seq<CounterSeriesModel> {
    Seq::new(
        series.len(),
        |i: int| CounterSeriesModel { labels: Some(series[i].labels), value: series[i].value },
    )
}

/// A labeled counter collection with at most `N` distinct label-value
/// combinations, `K` label names, and a rendered label-block byte budget `V`.
#[verifier::reject_recursive_types(V)]
pub struct CounterVec<const N: usize, const K: usize, const V: usize> {
    names: &'static [&'static str; K],
    series: SeriesMap<Counter, N, V>,
}

impl<const N: usize, const K: usize, const V: usize> View for CounterVec<N, K, V> {
    type V = Seq<SeriesModel<u64>>;

    closed spec fn view(&self) -> Seq<SeriesModel<u64>> {
        slots::values_of(self.series@)
    }
}

impl<const N: usize, const K: usize, const V: usize> CounterVec<N, K, V> {
    /// The label names.
    pub closed spec fn names_held(&self) -> Seq<Seq<char>> {
        text::strs_view(self.names@)
    }

    /// There are `K` label names without a fault, and the series are at most
    /// `N`, each with a label block of its own for these names.
    pub open spec fn wf(&self) -> bool {
        &&& self.names_held().len() == K
        &&& names::names_fault(self.names_held(), false) is None
        &&& slots::well_labeled(self@, self.names_held(), N as nat)
    }

    /// The index of the series for `values`, if there is room for it.
    pub open spec fn slot_of(&self, values: Seq<&str>) -> Option<int> {
        slots::slot(slots::labels_of(self@), N as nat, V as nat, self.block_of(values))
    }

    /// The label block for `values`.
    pub open spec fn block_of(&self, values: Seq<&str>) -> Seq<char> {
        labels::block_text(self.names_held(), text::strs_view(values))
    }

    /// The series after the one for `values` was incremented by `n`.
    pub open spec fn incremented(&self, values: Seq<&str>, n: u64) -> Seq<SeriesModel<u64>> {
        match self.slot_of(values) {
            Some(i) => slots::updated(
                self@,
                i,
                self.block_of(values),
                atomic::wrap_u64(slots::value_at(self@, i, 0) + n),
            ),
            None => self@,
        }
    }

    /// What a renderer sees of the collection is a valid metric.
    pub proof fn law_model_is_valid(&self)
        requires
            self.wf(),
        ensures
            transcript::metric_valid(MetricModel::CounterVec(self.series_model())),
    {
    }

    /// The same label values have the same series, and different ones have
    /// series of their own that do not affect each other.
    pub proof fn law_series_go_by_values(&self, a: Seq<&str>, b: Seq<&str>, x: u64, y: u64)
        requires
            self.wf(),
            a.len() == K,
            b.len() == K,
        ensures
            slots::series_go_by_values(
                self@,
                self.names_held(),
                N as nat,
                V as nat,
                text::strs_view(a),
                text::strs_view(b),
                x,
                y,
                0,
            ),
    {
        slots::law_series_go_by_values(
            self@,
            self.names_held(),
            N as nat,
            V as nat,
            text::strs_view(a),
            text::strs_view(b),
            x,
            y,
            0,
        );
    }

    /// Create an empty labeled counter collection with the given distinct,
    /// valid Prometheus label names. See [`names::validate_label_names`].
    pub fn new(names: &'static [&'static str; K]) -> (v: Self)
        requires
            names::names_fault(text::strs_view(names@), false) is None,
        ensures
            v.wf(),
            v.names_held() == text::strs_view(names@),
            v@ == Seq::<SeriesModel<u64>>::empty(),
    {
        let v = CounterVec { names, series: SeriesMap::new() };
        assert(v@ =~= Seq::<SeriesModel<u64>>::empty());
        v
    }

    /// The series for `values`, creating it if not already present. If
    /// capacity `N` is exhausted or the rendered label block exceeds `V`
    /// bytes, returns an unrendered sink handle whose updates are no-ops.
    /// Keep what [`Self::index_of`] returns for repeated hot-path updates with
    /// stable label values.
    pub fn with(&mut self, values: &[&str; K]) -> (s: CounterSeries<'_>)
        ensures
            final(self).names_held() == old(self).names_held(),
            old(self).wf() ==> final(self).wf(),
            match old(self).slot_of(values@) {
                Some(i) => {
                    &&& s.counter is Some
                    &&& s.reading() == slots::value_at(old(self)@, i, 0)
                    &&& final(self)@ == slots::updated(
                        old(self)@,
                        i,
                        old(self).block_of(values@),
                        (*final(s.counter->Some_0))@,
                    )
                },
                None => s.counter is None && final(self)@ == old(self)@,
            },
    {
        proof {
            slots::lemma_bind(
                self.series@,
                self.names_held(),
                text::strs_view(values@),
                N as nat,
                V as nat,
            );
        }
        match slots::bind(&mut self.series, self.names, values, Counter::new) {
            Some(counter) => CounterSeries::metric(counter),
            None => CounterSeries::sink(),
        }
    }

    /// The index of the series for `values`, creating it if not already
    /// present: for access with [`Self::at`]. Returns `None` if capacity `N` is
    /// exhausted or the rendered label block exceeds `V` bytes. A series keeps
    /// its index.
    pub fn index_of(&mut self, values: &[&str; K]) -> (r: Option<usize>)
        ensures
            final(self).names_held() == old(self).names_held(),
            old(self).wf() ==> final(self).wf(),
            match old(self).slot_of(values@) {
                Some(i) => {
                    &&& r is Some
                    &&& r->Some_0 == i
                    &&& final(self)@ == slots::updated(
                        old(self)@,
                        i,
                        old(self).block_of(values@),
                        slots::value_at(old(self)@, i, 0),
                    )
                },
                None => r is None && final(self)@ == old(self)@,
            },
    {
        let ghost before = *self;
        let r = slots::slot_index(&mut self.series, self.names, values, Counter::new);
        proof {
            slots::lemma_indexed(
                before.series@,
                self.series@,
                self.names_held(),
                text::strs_view(values@),
                N as nat,
                V as nat,
                0u64,
            );
        }
        r
    }

    /// The series at `index`, without a label lookup.
    pub fn at(&mut self, index: usize) -> (s: CounterSeries<'_>)
        requires
            index < old(self)@.len(),
        ensures
            final(self).names_held() == old(self).names_held(),
            old(self).wf() ==> final(self).wf(),
            s.counter is Some,
            s.reading() == old(self)@[index as int].value,
            final(self)@ == slots::updated(
                old(self)@,
                index as int,
                old(self)@[index as int].labels,
                (*final(s.counter->Some_0))@,
            ),
    {
        proof {
            slots::lemma_at(self.series@, self.names_held(), N as nat, index as int);
        }
        CounterSeries::metric(self.series.metric_mut(index))
    }

    /// Increment the series for `values` by 1. This performs a label lookup on
    /// every call; rejected label blocks are routed to a sink.
    pub fn inc(&mut self, values: &[&str; K])
        ensures
            final(self).names_held() == old(self).names_held(),
            old(self).wf() ==> final(self).wf(),
            final(self)@ == old(self).incremented(values@, 1),
    {
        let mut s = self.with(values);
        s.inc();
    }

    /// Increment the series for `values` by `n`. This performs a label lookup
    /// on every call; rejected label blocks are routed to a sink.
    pub fn inc_by(&mut self, values: &[&str; K], n: u64)
        ensures
            final(self).names_held() == old(self).names_held(),
            old(self).wf() ==> final(self).wf(),
            final(self)@ == old(self).incremented(values@, n),
    {
        let mut s = self.with(values);
        s.inc_by(n);
    }

    /// Number of distinct label-value combinations currently recorded.
    pub fn series_count(&self) -> (n: usize)
        ensures
            n == self@.len(),
            n <= N,
    {
        slots::series_count_of(&self.series)
    }
}

impl<const N: usize, const K: usize, const V: usize> ErasedCounterVec for CounterVec<N, K, V> {
    open spec fn series_model(&self) -> Seq<CounterSeriesModel> {
        counter_models(self@)
    }

    fn series_count(&self) -> (n: usize) {
        slots::series_count_of(&self.series)
    }

    fn write_labels(&self, s: usize, out: &mut String) -> (r: Result<(), FormatError>) {
        slots::write_labels_at(&self.series, s, out);
        Ok(())
    }

    fn value(&self, s: usize) -> (n: u64) {
        self.series.metric(s).get()
    }
}

/// An infallible handle to one [`GaugeVec`] series.
///
/// If the requested label block did not fit or the collection was full, this
/// handle is a sink: updates are no-ops and [`get`](Self::get) returns zero.
#[derive(Debug)]
pub struct GaugeSeries<'a> {
    /// The gauge, or `None` for a sink.
    pub gauge: Option<&'a mut Gauge>,
}

impl<'a> GaugeSeries<'a> {
    /// What the handle reads: the gauge, or zero for a sink.
    pub open spec fn reading(&self) -> i64 {
        match self.gauge {
            Some(gauge) => gauge@,
            None => 0,
        }
    }

    /// `after` is the same handle as `before`, with `value` in its gauge if it
    /// has one.
    pub open spec fn moved_to(before: Self, after: Self, value: i64) -> bool {
        &&& after.gauge is Some <==> before.gauge is Some
        &&& before.gauge is Some ==> after.reading() == value
    }

    /// A handle to a series.
    fn metric(gauge: &'a mut Gauge) -> (s: Self)
        ensures
            s.gauge is Some,
            *s.gauge->Some_0 == *old(gauge),
            *final(gauge) == *final(s.gauge->Some_0),
    {
        GaugeSeries { gauge: Some(gauge) }
    }

    /// A handle to nothing.
    fn sink() -> (s: Self)
        ensures
            s.gauge is None,
    {
        GaugeSeries { gauge: None }
    }

    /// Set this series, or do nothing if it is a sink.
    pub fn set(&mut self, value: i64)
        ensures
            Self::moved_to(*old(self), *final(self), value),
            old(self).gauge is Some ==> *final(final(self).gauge->Some_0)
                == *final(old(self).gauge->Some_0),
    {
        if let Some(gauge) = &mut self.gauge {
            gauge.set(value);
        }
    }

    /// Add `delta` to this series, or do nothing if it is a sink.
    pub fn add(&mut self, delta: i64)
        ensures
            Self::moved_to(*old(self), *final(self), atomic::wrap_i64(old(self).reading() + delta)),
            old(self).gauge is Some ==> *final(final(self).gauge->Some_0)
                == *final(old(self).gauge->Some_0),
    {
        if let Some(gauge) = &mut self.gauge {
            gauge.add(delta);
        }
    }

    /// Subtract `delta` from this series, or do nothing if it is a sink.
    pub fn sub(&mut self, delta: i64)
        ensures
            Self::moved_to(*old(self), *final(self), atomic::wrap_i64(old(self).reading() - delta)),
            old(self).gauge is Some ==> *final(final(self).gauge->Some_0)
                == *final(old(self).gauge->Some_0),
    {
        if let Some(gauge) = &mut self.gauge {
            gauge.sub(delta);
        }
    }

    /// Increment this series by 1, or do nothing if it is a sink.
    pub fn inc(&mut self)
        ensures
            Self::moved_to(*old(self), *final(self), atomic::wrap_i64(old(self).reading() + 1)),
            old(self).gauge is Some ==> *final(final(self).gauge->Some_0)
                == *final(old(self).gauge->Some_0),
    {
        if let Some(gauge) = &mut self.gauge {
            gauge.inc();
        }
    }

    /// Decrement this series by 1, or do nothing if it is a sink.
    pub fn dec(&mut self)
        ensures
            Self::moved_to(*old(self), *final(self), atomic::wrap_i64(old(self).reading() - 1)),
            old(self).gauge is Some ==> *final(final(self).gauge->Some_0)
                == *final(old(self).gauge->Some_0),
    {
        if let Some(gauge) = &mut self.gauge {
            gauge.dec();
        }
    }

    /// Return the current value, or zero if this is a sink.
    pub fn get(&self) -> (n: i64)
        ensures
            n == self.reading(),
    {
        match &self.gauge {
            Some(gauge) => gauge.get(),
            None => 0,
        }
    }
}

/// A gauge at zero.
fn zero_gauge() -> (g: Gauge)
    ensures
        g@ == 0,
{
    Gauge::new(0)
}

/// The series of a labeled gauge as a renderer sees them.
pub open spec fn gauge_models(series: Seq<SeriesModel<i64>>) -> Seq<GaugeSeriesModel> {
    Seq::new(
        series.len(),
        |i: int|
            GaugeSeriesModel {
                labels: Some(series[i].labels),
                value: Value::I64(series[i].value),
            },
    )
}

/// A labeled gauge collection with at most `N` distinct label-value
/// combinations, `K` label names, and a rendered label-block byte budget `V`.
#[verifier::reject_recursive_types(V)]
pub struct GaugeVec<const N: usize, const K: usize, const V: usize> {
    names: &'static [&'static str; K],
    series: SeriesMap<Gauge, N, V>,
}

impl<const N: usize, const K: usize, const V: usize> View for GaugeVec<N, K, V> {
    type V = Seq<SeriesModel<i64>>;

    closed spec fn view(&self) -> Seq<SeriesModel<i64>> {
        slots::values_of(self.series@)
    }
}

impl<const N: usize, const K: usize, const V: usize> GaugeVec<N, K, V> {
    /// The label names.
    pub closed spec fn names_held(&self) -> Seq<Seq<char>> {
        text::strs_view(self.names@)
    }

    /// There are `K` label names without a fault, and the series are at most
    /// `N`, each with a label block of its own for these names.
    pub open spec fn wf(&self) -> bool {
        &&& self.names_held().len() == K
        &&& names::names_fault(self.names_held(), false) is None
        &&& slots::well_labeled(self@, self.names_held(), N as nat)
    }

    /// The index of the series for `values`, if there is room for it.
    pub open spec fn slot_of(&self, values: Seq<&str>) -> Option<int> {
        slots::slot(slots::labels_of(self@), N as nat, V as nat, self.block_of(values))
    }

    /// The label block for `values`.
    pub open spec fn block_of(&self, values: Seq<&str>) -> Seq<char> {
        labels::block_text(self.names_held(), text::strs_view(values))
    }

    /// What the series for `values` holds: zero where it is yet to be created.
    pub open spec fn held_for(&self, values: Seq<&str>) -> i64 {
        match self.slot_of(values) {
            Some(i) => slots::value_at(self@, i, 0),
            None => 0,
        }
    }

    /// The series after the one for `values` was set to `value`.
    pub open spec fn assigned(&self, values: Seq<&str>, value: i64) -> Seq<SeriesModel<i64>> {
        match self.slot_of(values) {
            Some(i) => slots::updated(self@, i, self.block_of(values), value),
            None => self@,
        }
    }

    /// What a renderer sees of the collection is a valid metric.
    pub proof fn law_model_is_valid(&self)
        requires
            self.wf(),
        ensures
            transcript::metric_valid(MetricModel::GaugeVec(self.series_model())),
    {
    }

    /// The same label values have the same series, and different ones have
    /// series of their own that do not affect each other.
    pub proof fn law_series_go_by_values(&self, a: Seq<&str>, b: Seq<&str>, x: i64, y: i64)
        requires
            self.wf(),
            a.len() == K,
            b.len() == K,
        ensures
            slots::series_go_by_values(
                self@,
                self.names_held(),
                N as nat,
                V as nat,
                text::strs_view(a),
                text::strs_view(b),
                x,
                y,
                0,
            ),
    {
        slots::law_series_go_by_values(
            self@,
            self.names_held(),
            N as nat,
            V as nat,
            text::strs_view(a),
            text::strs_view(b),
            x,
            y,
            0,
        );
    }

    /// Create an empty labeled gauge collection with the given distinct,
    /// valid Prometheus label names. See [`names::validate_label_names`].
    pub fn new(names: &'static [&'static str; K]) -> (v: Self)
        requires
            names::names_fault(text::strs_view(names@), false) is None,
        ensures
            v.wf(),
            v.names_held() == text::strs_view(names@),
            v@ == Seq::<SeriesModel<i64>>::empty(),
    {
        let v = GaugeVec { names, series: SeriesMap::new() };
        assert(v@ =~= Seq::<SeriesModel<i64>>::empty());
        v
    }

    /// The series for `values`, creating it if not already present. See
    /// [`CounterVec::with`] for the capacity/length failure behavior and the
    /// hot-path pattern.
    pub fn with(&mut self, values: &[&str; K]) -> (s: GaugeSeries<'_>)
        ensures
            final(self).names_held() == old(self).names_held(),
            old(self).wf() ==> final(self).wf(),
            match old(self).slot_of(values@) {
                Some(i) => {
                    &&& s.gauge is Some
                    &&& s.reading() == slots::value_at(old(self)@, i, 0)
                    &&& final(self)@ == slots::updated(
                        old(self)@,
                        i,
                        old(self).block_of(values@),
                        (*final(s.gauge->Some_0))@,
                    )
                },
                None => s.gauge is None && final(self)@ == old(self)@,
            },
    {
        proof {
            slots::lemma_bind(
                self.series@,
                self.names_held(),
                text::strs_view(values@),
                N as nat,
                V as nat,
            );
        }
        match slots::bind(&mut self.series, self.names, values, zero_gauge) {
            Some(gauge) => GaugeSeries::metric(gauge),
            None => GaugeSeries::sink(),
        }
    }

    /// The index of the series for `values`, creating it if not already
    /// present: for access with [`Self::at`]. Returns `None` if capacity `N` is
    /// exhausted or the rendered label block exceeds `V` bytes. A series keeps
    /// its index.
    pub fn index_of(&mut self, values: &[&str; K]) -> (r: Option<usize>)
        ensures
            final(self).names_held() == old(self).names_held(),
            old(self).wf() ==> final(self).wf(),
            match old(self).slot_of(values@) {
                Some(i) => {
                    &&& r is Some
                    &&& r->Some_0 == i
                    &&& final(self)@ == slots::updated(
                        old(self)@,
                        i,
                        old(self).block_of(values@),
                        slots::value_at(old(self)@, i, 0),
                    )
                },
                None => r is None && final(self)@ == old(self)@,
            },
    {
        let ghost before = *self;
        let r = slots::slot_index(&mut self.series, self.names, values, zero_gauge);
        proof {
            slots::lemma_indexed(
                before.series@,
                self.series@,
                self.names_held(),
                text::strs_view(values@),
                N as nat,
                V as nat,
                0i64,
            );
        }
        r
    }

    /// The series at `index`, without a label lookup.
    pub fn at(&mut self, index: usize) -> (s: GaugeSeries<'_>)
        requires
            index < old(self)@.len(),
        ensures
            final(self).names_held() == old(self).names_held(),
            old(self).wf() ==> final(self).wf(),
            s.gauge is Some,
            s.reading() == old(self)@[index as int].value,
            final(self)@ == slots::updated(
                old(self)@,
                index as int,
                old(self)@[index as int].labels,
                (*final(s.gauge->Some_0))@,
            ),
    {
        proof {
            slots::lemma_at(self.series@, self.names_held(), N as nat, index as int);
        }
        GaugeSeries::metric(self.series.metric_mut(index))
    }

    /// Set the series for `values`. This performs a label lookup on every call
    /// and routes rejected label blocks to a sink.
    pub fn set(&mut self, values: &[&str; K], v: i64)
        ensures
            final(self).names_held() == old(self).names_held(),
            old(self).wf() ==> final(self).wf(),
            final(self)@ == old(self).assigned(values@, v),
    {
        let mut s = self.with(values);
        s.set(v);
    }

    /// Add `d` to the series for `values`. This performs a label lookup on
    /// every call and routes rejected label blocks to a sink.
    pub fn add(&mut self, values: &[&str; K], d: i64)
        ensures
            final(self).names_held() == old(self).names_held(),
            old(self).wf() ==> final(self).wf(),
            final(self)@ == old(self).assigned(
                values@,
                atomic::wrap_i64(old(self).held_for(values@) + d),
            ),
    {
        let mut s = self.with(values);
        s.add(d);
    }

    /// Number of distinct label-value combinations currently recorded.
    pub fn series_count(&self) -> (n: usize)
        ensures
            n == self@.len(),
            n <= N,
    {
        slots::series_count_of(&self.series)
    }
}

impl<const N: usize, const K: usize, const V: usize> ErasedGaugeVec for GaugeVec<N, K, V> {
    open spec fn series_model(&self) -> Seq<GaugeSeriesModel> {
        gauge_models(self@)
    }

    fn series_count(&self) -> (n: usize) {
        slots::series_count_of(&self.series)
    }

    fn write_labels(&self, s: usize, out: &mut String) -> (r: Result<(), FormatError>) {
        slots::write_labels_at(&self.series, s, out);
        Ok(())
    }

    fn value(&self, s: usize) -> (v: Value) {
        Value::I64(self.series.metric(s).get())
    }
}

/// The series of a labeled histogram as a renderer sees them.
pub open spec fn histogram_models(series: Seq<SeriesModel<IntReading>>) -> Seq<HistSeriesModel> {
    Seq::new(
        series.len(),
        |i: int|
            HistSeriesModel {
                labels: Some(series[i].labels),
                reading: series[i].value.erased(),
            },
    )
}

/// A labeled histogram collection over `u64` observations, with at most `N`
/// distinct label-value combinations, `B` finite buckets shared by all
/// series, `K` label names, and a rendered label-block byte budget `V`.
#[verifier::reject_recursive_types(B)]
#[verifier::reject_recursive_types(V)]
pub struct IntHistogramVec<const N: usize, const B: usize, const K: usize, const V: usize> {
    names: &'static [&'static str; K],
    bounds: &'static [u64; B],
    series: SeriesMap<IntHistCells<B>, N, V>,
}

impl<const N: usize, const B: usize, const K: usize, const V: usize> View for IntHistogramVec<
    N,
    B,
    K,
    V,
> {
    type V = Seq<SeriesModel<IntReading>>;

    closed spec fn view(&self) -> Seq<SeriesModel<IntReading>> {
        slots::values_of(self.series@)
    }
}

impl<const N: usize, const B: usize, const K: usize, const V: usize> IntHistogramVec<N, B, K, V> {
    /// The label names.
    pub closed spec fn names_held(&self) -> Seq<Seq<char>> {
        text::strs_view(self.names@)
    }

    /// The bucket upper bounds.
    pub closed spec fn bounds_held(&self) -> Seq<u64> {
        self.bounds@
    }

    /// There are `K` label names without a fault, the bounds are strictly
    /// increasing, and the series are at most `N`, each with a label block of
    /// its own for these names.
    pub open spec fn wf(&self) -> bool {
        &&& self.names_held().len() == K
        &&& names::names_fault(self.names_held(), true) is None
        &&& series::strictly_increasing(self.bounds_held())
        &&& slots::well_labeled(self@, self.names_held(), N as nat)
    }

    /// The index of the series for `values`, if there is room for it.
    pub open spec fn slot_of(&self, values: Seq<&str>) -> Option<int> {
        slots::slot(slots::labels_of(self@), N as nat, V as nat, self.block_of(values))
    }

    /// The label block for `values`.
    pub open spec fn block_of(&self, values: Seq<&str>) -> Seq<char> {
        labels::block_text(self.names_held(), text::strs_view(values))
    }

    /// The series after an observation of `v` for `values`.
    pub open spec fn recorded(&self, values: Seq<&str>, v: u64) -> Seq<SeriesModel<IntReading>> {
        match self.slot_of(values) {
            Some(i) => slots::updated(
                self@,
                i,
                self.block_of(values),
                series::observed(
                    slots::value_at(self@, i, IntReading::zero(B as nat)),
                    self.bounds_held(),
                    v,
                ),
            ),
            None => self@,
        }
    }

    /// What a renderer sees of the collection is a valid metric, with one bucket
    /// for each bound.
    pub proof fn law_model_is_valid(&self)
        requires
            self.wf(),
        ensures
            transcript::metric_valid(MetricModel::HistogramVec(self.hist_model())),
            self.bounds_held().len() == B,
    {
        let h = self.hist_model();
        assert forall|i: int| 0 <= i < h.series.len() implies (
        #[trigger] h.series[i]).reading.buckets.len() == h.bounds.len() by {
            self.series@[i].value.lemma_bucket_count();
        }
    }

    /// A series whose observations were `earlier` is shown, after one more of
    /// `v`, by what `earlier` and `v` make of it, behind the label block of its
    /// values.
    pub proof fn law_observations_accumulate(&self, values: Seq<&str>, earlier: Seq<u64>, v: u64)
        requires
            self.wf(),
            self.slot_of(values) matches Some(i) && slots::value_at(
                self@,
                i,
                IntReading::zero(B as nat),
            ) == series::observed_all(IntReading::zero(B as nat), self.bounds_held(), earlier),
        ensures
            ({
                let i = self.slot_of(values)->Some_0;
                let shown = histogram_models(self.recorded(values, v))[i];
                &&& 0 <= i < self.recorded(values, v).len()
                &&& shown.labels == Some(self.block_of(values))
                &&& shown.reading == series::observed_all(
                    IntReading::zero(B as nat),
                    self.bounds_held(),
                    earlier.push(v),
                ).erased()
            }),
    {
        slots::lemma_found(self@, N as nat, V as nat, self.block_of(values));
        assert(earlier.push(v).drop_last() =~= earlier);
    }

    /// The same label values have the same series, and different ones have
    /// series of their own that do not affect each other.
    pub proof fn law_series_go_by_values(&self, a: Seq<&str>, b: Seq<&str>, x: IntReading, y: IntReading)
        requires
            self.wf(),
            a.len() == K,
            b.len() == K,
        ensures
            slots::series_go_by_values(
                self@,
                self.names_held(),
                N as nat,
                V as nat,
                text::strs_view(a),
                text::strs_view(b),
                x,
                y,
                IntReading::zero(B as nat),
            ),
    {
        slots::law_series_go_by_values(
            self@,
            self.names_held(),
            N as nat,
            V as nat,
            text::strs_view(a),
            text::strs_view(b),
            x,
            y,
            IntReading::zero(B as nat),
        );
    }

    /// Create an empty labeled histogram collection with distinct, valid
    /// Prometheus label names and strictly increasing bucket upper bounds.
    /// `K` must be greater than zero; unlabeled histograms use
    /// [`crate::histogram::IntHistogram`]. The name `le` is reserved for
    /// generated bucket labels. See [`names::validate_label_names`] and
    /// [`crate::histogram::validate_u64_bounds`].
    pub fn new(names: &'static [&'static str; K], bounds: &'static [u64; B]) -> (v: Self)
        requires
            names::names_fault(text::strs_view(names@), true) is None,
            series::strictly_increasing(bounds@),
        ensures
            v.wf(),
            v.names_held() == text::strs_view(names@),
            v.bounds_held() == bounds@,
            v@ == Seq::<SeriesModel<IntReading>>::empty(),
    {
        let v = IntHistogramVec { names, bounds, series: SeriesMap::new() };
        assert(v@ =~= Seq::<SeriesModel<IntReading>>::empty());
        v
    }

    /// The series for `values`, creating it if not already present. See
    /// [`CounterVec::with`] for the capacity/length failure behavior and the
    /// hot-path pattern.
    pub fn with(&mut self, values: &[&str; K]) -> (s: IntHistSeries<'_, B>)
        ensures
            final(self).names_held() == old(self).names_held(),
            final(self).bounds_held() == old(self).bounds_held(),
            old(self).wf() ==> final(self).wf(),
            s.bounds@ == old(self).bounds_held(),
            match old(self).slot_of(values@) {
                Some(i) => {
                    &&& s.cells is Some
                    &&& s.reading() == slots::value_at(
                        old(self)@,
                        i,
                        IntReading::zero(B as nat),
                    )
                    &&& final(self)@ == slots::updated(
                        old(self)@,
                        i,
                        old(self).block_of(values@),
                        (*final(s.cells->Some_0))@,
                    )
                },
                None => s.cells is None && final(self)@ == old(self)@,
            },
    {
        proof {
            slots::lemma_bind(
                self.series@,
                self.names_held(),
                text::strs_view(values@),
                N as nat,
                V as nat,
            );
        }
        match slots::bind(&mut self.series, self.names, values, IntHistCells::<B>::new) {
            Some(cells) => IntHistSeries::bound(self.bounds, cells),
            None => IntHistSeries::sink(self.bounds),
        }
    }

    /// The index of the series for `values`, creating it if not already
    /// present: for access with [`Self::at`]. Returns `None` if capacity `N` is
    /// exhausted or the rendered label block exceeds `V` bytes. A series keeps
    /// its index.
    pub fn index_of(&mut self, values: &[&str; K]) -> (r: Option<usize>)
        ensures
            final(self).names_held() == old(self).names_held(),
            final(self).bounds_held() == old(self).bounds_held(),
            old(self).wf() ==> final(self).wf(),
            match old(self).slot_of(values@) {
                Some(i) => {
                    &&& r is Some
                    &&& r->Some_0 == i
                    &&& final(self)@ == slots::updated(
                        old(self)@,
                        i,
                        old(self).block_of(values@),
                        slots::value_at(old(self)@, i, IntReading::zero(B as nat)),
                    )
                },
                None => r is None && final(self)@ == old(self)@,
            },
    {
        let ghost before = *self;
        let r = slots::slot_index(&mut self.series, self.names, values, IntHistCells::<B>::new);
        proof {
            slots::lemma_indexed(
                before.series@,
                self.series@,
                self.names_held(),
                text::strs_view(values@),
                N as nat,
                V as nat,
                IntReading::zero(B as nat),
            );
        }
        r
    }

    /// The series at `index`, without a label lookup.
    pub fn at(&mut self, index: usize) -> (s: IntHistSeries<'_, B>)
        requires
            index < old(self)@.len(),
        ensures
            final(self).names_held() == old(self).names_held(),
            final(self).bounds_held() == old(self).bounds_held(),
            s.bounds@ == old(self).bounds_held(),
            old(self).wf() ==> final(self).wf(),
            s.cells is Some,
            s.reading() == old(self)@[index as int].value,
            final(self)@ == slots::updated(
                old(self)@,
                index as int,
                old(self)@[index as int].labels,
                (*final(s.cells->Some_0))@,
            ),
    {
        proof {
            slots::lemma_at(self.series@, self.names_held(), N as nat, index as int);
        }
        IntHistSeries::bound(self.bounds, self.series.metric_mut(index))
    }

    /// Record an observation for the series matching `values`. This performs
    /// a label lookup on every call and routes rejected label blocks to a
    /// sink.
    pub fn observe(&mut self, values: &[&str; K], v: u64)
        ensures
            final(self).names_held() == old(self).names_held(),
            final(self).bounds_held() == old(self).bounds_held(),
            old(self).wf() ==> final(self).wf(),
            final(self)@ == old(self).recorded(values@, v),
    {
        let mut s = self.with(values);
        s.observe(v);
    }

    /// The bucket upper bounds, ascending, excluding the implicit `+Inf`
    /// bucket. Shared by every series.
    pub fn bounds(&self) -> (bounds: &'static [u64])
        ensures
            bounds@ == self.bounds_held(),
    {
        self.bounds
    }

    /// Number of distinct label-value combinations currently recorded.
    pub fn series_count(&self) -> (n: usize)
        ensures
            n == self@.len(),
            n <= N,
    {
        slots::series_count_of(&self.series)
    }
}

impl<
    const N: usize,
    const B: usize,
    const K: usize,
    const V: usize,
> ErasedHistogramVec for IntHistogramVec<N, B, K, V> {
    open spec fn hist_model(&self) -> HistVecModel {
        HistVecModel {
            bounds: histogram::bound_values(self.bounds_held()),
            series: histogram_models(self@),
        }
    }

    fn bucket_count(&self) -> (n: usize) {
        proof {
            assert forall|s: int| 0 <= s < self.hist_model().series.len() implies (
            #[trigger] self.hist_model().series[s]).reading.buckets.len() == B by {
                self.series@[s].value.lemma_bucket_count();
            }
        }
        B
    }

    fn bound(&self, b: usize) -> (v: Value) {
        Value::U64(self.bounds[b])
    }

    fn series_count(&self) -> (n: usize) {
        slots::series_count_of(&self.series)
    }

    fn write_labels(&self, s: usize, out: &mut String) -> (r: Result<(), FormatError>) {
        slots::write_labels_at(&self.series, s, out);
        Ok(())
    }

    fn bucket(&self, s: usize, b: usize) -> (n: u64) {
        self.series.metric(s).bucket(b)
    }

    fn total_count(&self, s: usize) -> (n: u64) {
        self.series.metric(s).count()
    }

    fn sum(&self, s: usize) -> (v: Value) {
        Value::U64(self.series.metric(s).sum())
    }

    fn snapshot<'a>(&self, s: usize, buckets: &'a mut [u64]) -> (r: Result<
        HistogramSnapshot<'a>,
        HistogramSnapshotError,
    >) {
        series::snapshot_cells(self.series.metric(s), buckets)
    }
}

} // verus!
