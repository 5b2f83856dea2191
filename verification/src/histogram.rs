//! Histograms with fixed bucket boundaries, as many as their type says.

use vstd::prelude::*;
use crate::erased::ErasedHistogram;
use crate::erased::HistModel;
use crate::erased::HistogramSnapshot;
use crate::erased::HistogramSnapshotError;
use crate::erased::MetricModel;
use crate::series;
use crate::series::IntHistCells;
use crate::series::IntHistSeries;
use crate::series::IntReading;
use crate::transcript;
use crate::value::Value;

verus! {

/// Why a list of bucket bounds is refused.
#[derive(Debug, Clone, Copy, PartialEq, Eq)]
pub enum BoundsError {
    /// The list does not have one bound for each bucket.
    WrongLength,
    /// A bound is not above the one before it.
    NotIncreasing,
}

/// Check that there are `B` bounds and that they are strictly increasing.
pub fn validate_u64_bounds<const B: usize>(bounds: &[u64]) -> (r: Result<(), BoundsError>)
    ensures
        r == (if bounds@.len() != B {
            Err::<(), _>(BoundsError::WrongLength)
        } else if !series::strictly_increasing(bounds@) {
            Err(BoundsError::NotIncreasing)
        } else {
            Ok(())
        }),
{
    if bounds.len() != B {
        return Err(BoundsError::WrongLength);
    }
    let mut i: usize = 1;
    while i < B
        invariant
            1 <= i,
            B == bounds@.len(),
            forall|j: int, k: int|
                0 <= j < k < i && k < bounds@.len() ==> bounds@[j] < bounds@[k],
        decreases B - i,
    {
        if bounds[i - 1] >= bounds[i] {
            return Err(BoundsError::NotIncreasing);
        }
        assert forall|j: int, k: int|
            0 <= j < k < i + 1 && k < bounds@.len() implies bounds@[j] < bounds@[k] by {
            if k == i && j < i - 1 {
                assert(bounds@[j] < bounds@[i - 1]);
            }
        }
        i = i + 1;
    }
    Ok(())
}

/// A Prometheus histogram over `u64` observations, with `B` finite buckets
/// plus an implicit `+Inf` bucket (represented by `count`).
///
/// Bucket counts are stored non-cumulatively and accumulated with one rolling
/// total at render time. Each finite bucket is read once, so both observation
/// and rendering are linear scans with `observe` performing exactly 3 atomic
/// ops regardless of `B`.
pub struct IntHistogram<const B: usize> {
    bounds: &'static [u64; B],
    cells: IntHistCells<B>,
}

impl<const B: usize> View for IntHistogram<B> {
    type V = IntReading;

    closed spec fn view(&self) -> IntReading {
        self.cells@
    }
}

impl<const B: usize> IntHistogram<B> {
    /// The bucket upper bounds.
    pub closed spec fn bounds_held(&self) -> Seq<u64> {
        self.bounds@
    }

    /// The bounds are strictly increasing.
    pub open spec fn wf(&self) -> bool {
        series::strictly_increasing(self.bounds_held())
    }

    /// What a renderer sees of the histogram is a valid metric, with one bucket
    /// for each bound.
    pub proof fn law_model_is_valid(&self)
        ensures
            transcript::metric_valid(MetricModel::Histogram(self.hist_model())),
            self.bounds_held().len() == B,
    {
        self.cells.lemma_bucket_count();
    }

    /// Create a histogram with strictly increasing bucket upper bounds
    /// (exclusive of the implicit `+Inf` bucket). See [`validate_u64_bounds`].
    pub fn new(bounds: &'static [u64; B]) -> (h: Self)
        requires
            series::strictly_increasing(bounds@),
        ensures
            h.wf(),
            h.bounds_held() == bounds@,
            h@ == IntReading::zero(B as nat),
    {
        IntHistogram { bounds, cells: IntHistCells::new() }
    }

    /// Record an observation. Wrapped in a critical section so `_bucket`,
    /// `_sum`, and `_count` are always mutually consistent under a concurrent
    /// render.
    pub fn observe(&mut self, v: u64)
        ensures
            final(self)@ == series::observed(old(self)@, old(self).bounds_held(), v),
            final(self).bounds_held() == old(self).bounds_held(),
    {
        let bounds: &'static [u64; B] = self.bounds;
        series::observe_in_critical_section(&mut self.cells, bounds, v);
    }

    /// A handle to the histogram as one series.
    pub fn series(&mut self) -> (s: IntHistSeries<'_, B>)
        ensures
            s.bounds@ == old(self).bounds_held(),
            s.cells is Some,
            s.reading() == old(self)@,
            final(self)@ == (*final(s.cells->Some_0))@,
            final(self).bounds_held() == old(self).bounds_held(),
    {
        IntHistSeries::bound(self.bounds, &mut self.cells)
    }

    /// The bucket upper bounds, ascending, excluding the implicit `+Inf` bucket.
    pub fn bounds(&self) -> (bounds: &'static [u64])
        ensures
            bounds@ == self.bounds_held(),
    {
        self.bounds
    }

    /// The non-cumulative count for bucket `i` (i.e. observations that fell
    /// into `(bounds[i-1], bounds[i]]`, or `[0, bounds[0]]` for `i == 0`).
    pub fn bucket(&self, i: usize) -> (n: u64)
        requires
            i < B,
        ensures
            n == self@.buckets[i as int],
    {
        self.cells.bucket(i)
    }

    /// Total number of observations (equal to the cumulative `+Inf` bucket).
    pub fn count(&self) -> (n: u64)
        ensures
            n == self@.count,
    {
        self.cells.count()
    }

    /// Sum of all observed values.
    pub fn sum(&self) -> (n: u64)
        ensures
            n == self@.sum,
    {
        self.cells.sum()
    }
}

/// Integer bounds as sample values.
pub open spec fn bound_values(bounds: Seq<u64>) -> Seq<Value> {
    Seq::new(bounds.len(), |i: int| Value::U64(bounds[i]))
}

impl<const B: usize> ErasedHistogram for IntHistogram<B> {
    open spec fn hist_model(&self) -> HistModel {
        HistModel { bounds: bound_values(self.bounds_held()), reading: self@.erased() }
    }

    fn bucket_count(&self) -> (n: usize) {
        proof {
            self.cells.lemma_bucket_count();
        }
        B
    }

    fn bound(&self, b: usize) -> (v: Value) {
        Value::U64(self.bounds[b])
    }

    fn bucket(&self, b: usize) -> (n: u64) {
        self.cells.bucket(b)
    }

    fn total_count(&self) -> (n: u64) {
        self.cells.count()
    }

    fn sum(&self) -> (v: Value) {
        Value::U64(self.cells.sum())
    }

    fn snapshot<'a>(&self, buckets: &'a mut [u64]) -> (r: Result<
        HistogramSnapshot<'a>,
        HistogramSnapshotError,
    >) {
        series::snapshot_cells(&self.cells, buckets)
    }
}

/// Bounds are accepted exactly where there is one for each bucket and each is
/// above the one before it; else the first of the two that fails is reported.
pub proof fn law_bounds_are_checked<const B: usize>()
    ensures
        forall|bounds: &[u64], r: Result<(), BoundsError>| #[trigger]
            call_ensures(validate_u64_bounds::<B>, (bounds,), r) ==> {
                let rising = forall|i: int|
                    0 < i < bounds@.len() ==> bounds@[i - 1] < #[trigger] bounds@[i];
                &&& r is Ok <==> bounds@.len() == B && rising
                &&& r == Err::<(), _>(BoundsError::WrongLength) <==> bounds@.len() != B
                &&& r == Err::<(), _>(BoundsError::NotIncreasing) <==> bounds@.len() == B
                    && !rising
            },
{
    assert forall|bounds: Seq<u64>| (forall|i: int|
        0 < i < bounds.len() ==> bounds[i - 1] < #[trigger] bounds[i])
        == #[trigger] series::strictly_increasing(bounds) by {
        if forall|i: int| 0 < i < bounds.len() ==> bounds[i - 1] < #[trigger] bounds[i] {
            assert forall|i: int, j: int| 0 <= i < j < bounds.len() implies bounds[i]
                < bounds[j] by {
                lemma_rising(bounds, i, j);
            }
        }
    }
}

/// A bound is above every bound before it where each is above the one before.
proof fn lemma_rising(bounds: Seq<u64>, i: int, j: int)
    requires
        forall|k: int| 0 < k < bounds.len() ==> bounds[k - 1] < #[trigger] bounds[k],
        0 <= i < j < bounds.len(),
    ensures
        bounds[i] < bounds[j],
    decreases j - i,
{
    assert(bounds[j - 1] < bounds[j]);
    if i < j - 1 {
        lemma_rising(bounds, i, j - 1);
    }
}

/// A handle to a histogram reads the histogram and leaves in it what it counts.
pub proof fn law_handles_are_of_their_histogram<'a, const B: usize>()
    ensures
        forall|h: &'a mut IntHistogram<B>, s: IntHistSeries<'a, B>| #[trigger]
            call_ensures(IntHistogram::<B>::series, (h,), s) ==> {
                &&& s.cells is Some
                &&& s.bounds@ == (*h).bounds_held()
                &&& s.cells->Some_0@ == (*h)@
                &&& (*final(h))@ == (*final(s.cells->Some_0))@
                &&& (*final(h)).bounds_held() == (*h).bounds_held()
            },
{
}

} // verus!
