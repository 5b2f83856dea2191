//! The storage of one integer histogram series, and borrowed handles to it.
//!
//! [`IntHistSeries`] is the shared view returned by both
//! [`crate::histogram::IntHistogram::series`] and
//! [`crate::vec::IntHistogramVec::with`].

use vstd::prelude::*;
use crate::array;
use crate::atomic;
use crate::critical;
use crate::erased;
use crate::erased::snapshot_bucket_prefix;
use crate::erased::HistReading;
use crate::erased::HistogramSnapshot;
use crate::erased::HistogramSnapshotError;
use crate::value::Value;
use portable_atomic::AtomicU64;

verus! {

/// What an integer histogram series holds: non-cumulative counts of the
/// finite buckets, the sum of all observations and their number.
pub struct IntReading {
    pub buckets: Seq<u64>,
    pub sum: u64,
    pub count: u64,
}

impl IntReading {
    /// What a series holds before any observation.
    pub open spec fn zero(buckets: nat) -> IntReading {
        IntReading { buckets: Seq::new(buckets, |i: int| 0u64), sum: 0, count: 0 }
    }

    /// The same reading with its sum as a sample value.
    pub open spec fn erased(self) -> HistReading {
        HistReading { buckets: self.buckets, sum: Value::U64(self.sum), count: self.count }
    }
}

/// The first index from `i` on whose bound is at least `v`, or the number of
/// bounds where there is none: the implicit `+Inf` bucket.
pub open spec fn bucket_from(bounds: Seq<u64>, v: u64, i: int) -> int
    decreases bounds.len() - i,
{
    if i >= bounds.len() {
        bounds.len() as int
    } else if v <= bounds[i] {
        i
    } else {
        bucket_from(bounds, v, i + 1)
    }
}

/// The bucket that an observation of `v` falls into.
pub open spec fn bucket_of(bounds: Seq<u64>, v: u64) -> int {
    bucket_from(bounds, v, 0)
}

/// A reading after one more observation: its bucket, if it is a finite one,
/// and the number of observations are one higher, and the sum is `v` higher.
pub open spec fn observed(reading: IntReading, bounds: Seq<u64>, v: u64) -> IntReading {
    let b = bucket_of(bounds, v);
    IntReading {
        buckets: if b < bounds.len() {
            reading.buckets.update(b, atomic::wrap_u64(reading.buckets[b] + 1))
        } else {
            reading.buckets
        },
        sum: atomic::wrap_u64(reading.sum + v),
        count: atomic::wrap_u64(reading.count + 1),
    }
}

/// Whether each bound is above the one before it.
pub open spec fn strictly_increasing(bounds: Seq<u64>) -> bool {
    forall|i: int, j: int| 0 <= i < j < bounds.len() ==> bounds[i] < bounds[j]
}

/// Whether `v` lies in `(bounds[i-1], bounds[i]]`, or in `[0, bounds[0]]` for
/// `i == 0`.
pub open spec fn in_bucket(bounds: Seq<u64>, i: int, v: u64) -> bool {
    (i == 0 || bounds[i - 1] < v) && v <= bounds[i]
}

/// A reading after each of `vs` has been observed, in order.
pub open spec fn observed_all(reading: IntReading, bounds: Seq<u64>, vs: Seq<u64>) -> IntReading
    decreases vs.len(),
{
    if vs.len() == 0 {
        reading
    } else {
        observed(observed_all(reading, bounds, vs.drop_last()), bounds, vs.last())
    }
}

/// How many of `vs` satisfy `p`.
pub open spec fn tally(vs: Seq<u64>, p: spec_fn(u64) -> bool) -> nat
    decreases vs.len(),
{
    if vs.len() == 0 {
        0
    } else {
        tally(vs.drop_last(), p) + if p(vs.last()) {
            1nat
        } else {
            0nat
        }
    }
}

/// The sum of `vs`.
pub open spec fn total(vs: Seq<u64>) -> nat
    decreases vs.len(),
{
    if vs.len() == 0 {
        0
    } else {
        total(vs.drop_last()) + vs.last() as nat
    }
}

/// A value falls into the one bucket whose range holds it.
proof fn lemma_bucket_from(bounds: Seq<u64>, v: u64, k: int, i: int)
    requires
        strictly_increasing(bounds),
        0 <= k <= bounds.len(),
        0 <= i < bounds.len(),
        k > 0 ==> bounds[k - 1] < v,
    ensures
        bucket_from(bounds, v, k) == i <==> in_bucket(bounds, i, v),
    decreases bounds.len() - k,
{
    if k < bounds.len() && v > bounds[k] {
        lemma_bucket_from(bounds, v, k + 1, i);
    }
}

/// The bucket of a value is a bucket index or the number of buckets.
proof fn lemma_bucket_range(bounds: Seq<u64>, v: u64, k: int)
    requires
        0 <= k <= bounds.len(),
    ensures
        k <= bucket_from(bounds, v, k) <= bounds.len(),
    decreases bounds.len() - k,
{
    if k < bounds.len() && v > bounds[k] {
        lemma_bucket_range(bounds, v, k + 1);
    }
}

/// A value falls into bucket `i` exactly where it is above the bound before, if
/// there is one, and at most the bound of that bucket.
pub proof fn lemma_bucket_by_range(bounds: Seq<u64>, v: u64, i: int)
    requires
        strictly_increasing(bounds),
        0 <= i < bounds.len(),
    ensures
        bucket_of(bounds, v) == i <==> (i == 0 || bounds[i - 1] < v) && v <= bounds[i],
        0 <= bucket_of(bounds, v) <= bounds.len(),
{
    lemma_bucket_from(bounds, v, 0, i);
    lemma_bucket_range(bounds, v, 0);
}

/// An observation counts one in the bucket whose range holds it, if any, and in
/// no other, one in the count, and its value in the sum; each modulo 2 to the
/// 64th.
pub proof fn law_observations_are_counted_by_range(reading: IntReading, bounds: Seq<u64>, v: u64)
    requires
        forall|i: int, j: int| 0 <= i < j < bounds.len() ==> bounds[i] < bounds[j],
        reading.buckets.len() == bounds.len(),
    ensures
        ({
            let after = observed(reading, bounds, v);
            &&& after.buckets.len() == bounds.len()
            &&& forall|b: int|
                0 <= b < bounds.len() ==> (#[trigger] after.buckets[b] - reading.buckets[b] - if (b
                    == 0 || bounds[b - 1] < v) && v <= bounds[b] {
                    1int
                } else {
                    0int
                }) % 0x1_0000_0000_0000_0000 == 0
            &&& (after.sum - reading.sum - v) % 0x1_0000_0000_0000_0000 == 0
            &&& (after.count - reading.count - 1) % 0x1_0000_0000_0000_0000 == 0
        }),
{
    let after = observed(reading, bounds, v);
    assert forall|b: int| 0 <= b < bounds.len() implies (#[trigger] after.buckets[b]
        - reading.buckets[b] - if (b == 0 || bounds[b - 1] < v) && v <= bounds[b] {
        1int
    } else {
        0int
    }) % 0x1_0000_0000_0000_0000 == 0 by {
        lemma_bucket_by_range(bounds, v, b);
    }
    lemma_bucket_range(bounds, v, 0);
}

/// After any run of observations, bucket `i` holds the number of values in its
/// range, the count holds the number of all values and the sum their sum, each
/// modulo the range of the counter.
pub proof fn law_histogram_counts_by_range(bounds: Seq<u64>, vs: Seq<u64>)
    requires
        strictly_increasing(bounds),
    ensures
        ({
            let reading = observed_all(IntReading::zero(bounds.len()), bounds, vs);
            &&& reading.buckets.len() == bounds.len()
            &&& reading.count == atomic::wrap_u64(vs.len() as int)
            &&& reading.sum == atomic::wrap_u64(total(vs) as int)
            &&& forall|i: int|
                0 <= i < bounds.len() ==> #[trigger] reading.buckets[i] == atomic::wrap_u64(
                    tally(vs, |v: u64| in_bucket(bounds, i, v)) as int,
                )
        }),
    decreases vs.len(),
{
    if vs.len() > 0 {
        let v = vs.last();
        let before = vs.drop_last();
        let reading = observed_all(IntReading::zero(bounds.len()), bounds, before);
        law_histogram_counts_by_range(bounds, before);
        lemma_bucket_range(bounds, v, 0);
        atomic::lemma_wrap_u64_again(before.len() as int, 1);
        atomic::lemma_wrap_u64_again(total(before) as int, v as int);
        let next = observed(reading, bounds, v);
        assert forall|i: int| 0 <= i < bounds.len() implies #[trigger] next.buckets[i]
            == atomic::wrap_u64(tally(vs, |w: u64| in_bucket(bounds, i, w)) as int) by {
            lemma_bucket_from(bounds, v, 0, i);
            atomic::lemma_wrap_u64_again(
                tally(before, |w: u64| in_bucket(bounds, i, w)) as int,
                1,
            );
            assert(reading.buckets[i] == atomic::wrap_u64(
                tally(before, |w: u64| in_bucket(bounds, i, w)) as int,
            ));
        }
    }
}

/// The values up to a bound are those up to the bound before it and those in
/// the bucket between the two.
proof fn lemma_tally_splits(bounds: Seq<u64>, vs: Seq<u64>, i: int)
    requires
        strictly_increasing(bounds),
        0 < i < bounds.len(),
    ensures
        tally(vs, |v: u64| v <= bounds[i]) == tally(vs, |v: u64| v <= bounds[i - 1]) + tally(
            vs,
            |v: u64| in_bucket(bounds, i, v),
        ),
    decreases vs.len(),
{
    if vs.len() > 0 {
        lemma_tally_splits(bounds, vs.drop_last(), i);
    }
}

/// After any run of observations, the rolling total up to bucket `i` is the
/// number of values that are at most its bound, modulo the range of the
/// counter: what a cumulative bucket means.
pub proof fn law_rolling_total_counts_up_to_bound(bounds: Seq<u64>, vs: Seq<u64>, i: int)
    requires
        strictly_increasing(bounds),
        0 <= i < bounds.len(),
    ensures
        erased::rolling_total(
            observed_all(IntReading::zero(bounds.len()), bounds, vs).buckets,
            i,
        ) == atomic::wrap_u64(tally(vs, |v: u64| v <= bounds[i]) as int),
    decreases i,
{
    law_histogram_counts_by_range(bounds, vs);
    let buckets = observed_all(IntReading::zero(bounds.len()), bounds, vs).buckets;
    let here = tally(vs, |v: u64| in_bucket(bounds, i, v));
    assert(buckets[i] == atomic::wrap_u64(here as int));
    if i == 0 {
        assert((|v: u64| in_bucket(bounds, 0, v)) =~= (|v: u64| v <= bounds[0]));
    } else {
        law_rolling_total_counts_up_to_bound(bounds, vs, i - 1);
        lemma_tally_splits(bounds, vs, i);
        let below = tally(vs, |v: u64| v <= bounds[i - 1]);
        atomic::lemma_wrap_u64_again(below as int, atomic::wrap_u64(here as int) as int);
        atomic::lemma_wrap_u64_again(here as int, below as int);
    }
}

/// No more values are up to a bound than up to a larger one, and no more than
/// there are.
proof fn lemma_tally_grows(vs: Seq<u64>, low: u64, high: u64)
    requires
        low <= high,
    ensures
        tally(vs, |v: u64| v <= low) <= tally(vs, |v: u64| v <= high) <= vs.len(),
    decreases vs.len(),
{
    if vs.len() > 0 {
        lemma_tally_grows(vs.drop_last(), low, high);
    }
}

/// Short of wrapping, rolling totals never fall from one bucket to the next
/// and never exceed the count, which is what the implicit `+Inf` bucket shows.
pub proof fn law_rolling_totals_never_fall(bounds: Seq<u64>, vs: Seq<u64>, i: int, j: int)
    requires
        strictly_increasing(bounds),
        vs.len() <= u64::MAX,
        0 <= i <= j < bounds.len(),
    ensures
        ({
            let reading = observed_all(IntReading::zero(bounds.len()), bounds, vs);
            &&& erased::rolling_total(reading.buckets, i) <= erased::rolling_total(
                reading.buckets,
                j,
            )
            &&& erased::rolling_total(reading.buckets, j) <= reading.count
        }),
{
    let reading = observed_all(IntReading::zero(bounds.len()), bounds, vs);
    let below = tally(vs, |v: u64| v <= bounds[i]);
    let above = tally(vs, |v: u64| v <= bounds[j]);
    assert(below <= above <= vs.len()) by {
        lemma_tally_grows(vs, bounds[i], bounds[j]);
    }
    assert(erased::rolling_total(reading.buckets, i) == below) by {
        law_rolling_total_counts_up_to_bound(bounds, vs, i);
        atomic::lemma_wrap_u64_fits(below as int);
    }
    assert(erased::rolling_total(reading.buckets, j) == above) by {
        law_rolling_total_counts_up_to_bound(bounds, vs, j);
        atomic::lemma_wrap_u64_fits(above as int);
    }
    assert(reading.count == vs.len()) by {
        law_histogram_counts_by_range(bounds, vs);
        atomic::lemma_wrap_u64_fits(vs.len() as int);
    }
}

/// What the buckets of a histogram series hold: non-cumulative counts of the
/// finite buckets, and the number of observations.
pub struct BucketReading {
    pub buckets: Seq<u64>,
    pub count: u64,
}

/// A reading after one more observation in bucket `b`, which is a finite bucket
/// or, past those, the implicit `+Inf` bucket.
pub open spec fn recorded(reading: BucketReading, b: int) -> BucketReading {
    BucketReading {
        buckets: if b < reading.buckets.len() {
            reading.buckets.update(b, atomic::wrap_u64(reading.buckets[b] + 1))
        } else {
            reading.buckets
        },
        count: atomic::wrap_u64(reading.count + 1),
    }
}

/// The atomics that hold the buckets of one series.
pub struct BucketCells<const B: usize> {
    buckets: [AtomicU64; B],
    count: AtomicU64,
}

impl<const B: usize> View for BucketCells<B> {
    type V = BucketReading;

    closed spec fn view(&self) -> BucketReading {
        BucketReading {
            buckets: Seq::new(B as nat, |i: int| atomic::u64_held(self.buckets@[i])),
            count: atomic::u64_held(self.count),
        }
    }
}

/// An atomic that holds zero.
fn zero_u64() -> (a: AtomicU64)
    ensures
        atomic::u64_held(a) == 0,
{
    atomic::new_u64(0)
}

impl<const B: usize> BucketCells<B> {
    /// Buckets without observations.
    pub fn new() -> (c: Self)
        ensures
            c@.buckets == Seq::new(B as nat, |i: int| 0u64),
            c@.count == 0,
    {
        let c = BucketCells { buckets: array::filled(zero_u64), count: zero_u64() };
        assert(c@.buckets =~= Seq::new(B as nat, |i: int| 0u64));
        c
    }

    /// Every reading has one count for each finite bucket.
    pub proof fn lemma_bucket_count(&self)
        ensures
            self@.buckets.len() == B,
    {
    }

    /// Record one observation in bucket `i`, or in none of the finite buckets
    /// if there are fewer.
    pub fn record(&mut self, i: usize)
        ensures
            final(self)@ == recorded(old(self)@, i as int),
    {
        if i < B {
            atomic::fetch_add_u64(&mut self.buckets[i], 1);
        }
        atomic::fetch_add_u64(&mut self.count, 1);
        assert(self@.buckets =~= recorded(old(self)@, i as int).buckets);
    }

    /// The non-cumulative count for bucket `i`.
    pub fn bucket(&self, i: usize) -> (n: u64)
        requires
            i < B,
        ensures
            n == self@.buckets[i as int],
    {
        atomic::load_u64(&self.buckets[i])
    }

    /// Total number of observations.
    pub fn count(&self) -> (n: u64)
        ensures
            n == self@.count,
    {
        atomic::load_u64(&self.count)
    }

    /// Copy the counts of all finite buckets to `out`.
    pub fn read_into(&self, out: &mut [u64])
        requires
            old(out)@.len() == B,
        ensures
            final(out)@ == self@.buckets,
    {
        self.read_from(0, out);
        assert(self@.buckets.skip(0) =~= self@.buckets);
    }

    /// Copy the counts of the buckets from index `from` on to `out`.
    fn read_from(&self, from: usize, out: &mut [u64])
        requires
            from + old(out)@.len() == B,
        ensures
            final(out)@ == self@.buckets.skip(from as int),
        decreases old(out)@.len(),
    {
        if from < B {
            let (head, tail) = out.split_at_mut(1);
            if let Some(slot) = head.first_mut() {
                *slot = self.bucket(from);
            }
            self.read_from(from + 1, tail);
            assert(self@.buckets.skip(from as int) =~= seq![self@.buckets[from as int]]
                + self@.buckets.skip(from + 1));
        }
    }
}

/// The atomics that hold one integer series.
pub struct IntHistCells<const B: usize> {
    cells: BucketCells<B>,
    sum: AtomicU64,
}

impl<const B: usize> View for IntHistCells<B> {
    type V = IntReading;

    closed spec fn view(&self) -> IntReading {
        IntReading {
            buckets: self.cells@.buckets,
            sum: atomic::u64_held(self.sum),
            count: self.cells@.count,
        }
    }
}

impl<const B: usize> IntHistCells<B> {
    /// A series without observations.
    pub fn new() -> (c: Self)
        ensures
            c@ == IntReading::zero(B as nat),
    {
        IntHistCells { cells: BucketCells::new(), sum: zero_u64() }
    }

    /// Every reading has one count for each finite bucket.
    pub proof fn lemma_bucket_count(&self)
        ensures
            self@.buckets.len() == B,
    {
    }

    /// Record one observation.
    pub fn observe_inner(&mut self, bounds: &[u64; B], v: u64)
        ensures
            final(self)@ == observed(old(self)@, bounds@, v),
    {
        let mut i: usize = 0;
        while i < B && v > bounds[i]
            invariant
                i <= B,
                bucket_of(bounds@, v) == bucket_from(bounds@, v, i as int),
            decreases B - i,
        {
            i = i + 1;
        }
        self.cells.record(i);
        atomic::fetch_add_u64(&mut self.sum, v);
    }

    /// The non-cumulative count for bucket `i`.
    pub fn bucket(&self, i: usize) -> (n: u64)
        requires
            i < B,
        ensures
            n == self@.buckets[i as int],
    {
        self.cells.bucket(i)
    }

    /// Total number of observations.
    pub fn count(&self) -> (n: u64)
        ensures
            n == self@.count,
    {
        self.cells.count()
    }

    /// Sum of all observed values.
    pub fn sum(&self) -> (n: u64)
        ensures
            n == self@.sum,
    {
        atomic::load_u64(&self.sum)
    }
}

/// Copy one coherent reading of `cells`: the bucket counts to `out`, the sum
/// and the count as a result.
fn read_step<const B: usize>(arg: (&IntHistCells<B>, &mut [u64])) -> (r: (u64, u64))
    requires
        old(arg.1)@.len() == B,
    ensures
        final(arg.1)@ == arg.0@.buckets,
        r.0 == arg.0@.sum,
        r.1 == arg.0@.count,
{
    let (cells, out) = arg;
    cells.cells.read_into(out);
    (cells.sum(), cells.count())
}

/// Copy one coherent reading of `cells` into `buckets`, in a critical section
/// so that no observation interleaves with the copy. Fails if `buckets` has
/// fewer than `B` entries.
pub fn snapshot_cells<'a, const B: usize>(
    cells: &IntHistCells<B>,
    buckets: &'a mut [u64],
) -> (r: Result<HistogramSnapshot<'a>, HistogramSnapshotError>)
    ensures
        r is Ok <==> B <= old(buckets)@.len(),
        r matches Ok(s) ==> s.buckets@.len() == B,
        r matches Ok(s) ==> s.reading() == cells@.erased() && final(buckets)@ == s.buckets@ + old(
            buckets)@.skip(B as int),
        r matches Err(e) ==> e.required == B && e.capacity == old(buckets)@.len() && final(buckets)@
            == old(buckets)@,
{
    let prefix = match snapshot_bucket_prefix(buckets, B) {
        Ok(prefix) => prefix,
        Err(e) => return Err(e),
    };
    let (sum, count) = critical::in_critical_section(read_step, (cells, &mut *prefix));
    Ok(HistogramSnapshot { buckets: prefix, sum: Value::U64(sum), count })
}

/// Record one observation, with all arguments in one value.
fn observe_step<const B: usize>(arg: (&mut IntHistCells<B>, &[u64; B], u64))
    ensures
        final(arg.0)@ == observed(old(arg.0)@, arg.1@, arg.2),
{
    let (cells, bounds, v) = arg;
    cells.observe_inner(bounds, v);
}

/// Record one observation in a critical section, so that the buckets, the sum
/// and the count are always mutually consistent under a concurrent render.
pub fn observe_in_critical_section<const B: usize>(
    cells: &mut IntHistCells<B>,
    bounds: &[u64; B],
    v: u64,
)
    ensures
        final(cells)@ == observed(old(cells)@, bounds@, v),
{
    critical::in_critical_section(observe_step, (cells, bounds, v));
}

/// An infallible, reusable handle to one histogram series.
///
/// Returned by [`crate::histogram::IntHistogram::series`] and
/// [`crate::vec::IntHistogramVec::with`]. Retaining this handle avoids later
/// label-map lookups. A rejected labeled binding produces an unrendered sink
/// whose observations are no-ops and whose reads return zero.
pub struct IntHistSeries<'a, const B: usize> {
    /// The bucket upper bounds.
    pub bounds: &'static [u64; B],
    /// The series, or `None` for a sink.
    pub cells: Option<&'a mut IntHistCells<B>>,
}

impl<'a, const B: usize> IntHistSeries<'a, B> {
    /// What the handle reads: the series, or zero for a sink.
    pub open spec fn reading(&self) -> IntReading {
        match self.cells {
            Some(cells) => cells@,
            None => IntReading::zero(B as nat),
        }
    }

    /// A handle to a series.
    pub(crate) fn bound(bounds: &'static [u64; B], cells: &'a mut IntHistCells<B>) -> (s: Self)
        ensures
            s.bounds == bounds,
            s.cells is Some,
            *s.cells->Some_0 == *old(cells),
            *final(cells) == *final(s.cells->Some_0),
    {
        IntHistSeries { bounds, cells: Some(cells) }
    }

    /// A handle to nothing.
    pub(crate) fn sink(bounds: &'static [u64; B]) -> (s: Self)
        ensures
            s.bounds == bounds,
            s.cells is None,
    {
        IntHistSeries { bounds, cells: None }
    }

    /// Record an observation, or do nothing if this is a sink. Real-series
    /// observations are serialized so a concurrent renderer can take a
    /// coherent snapshot.
    pub fn observe(&mut self, v: u64)
        ensures
            final(self).bounds == old(self).bounds,
            final(self).cells is Some <==> old(self).cells is Some,
            old(self).cells is Some ==> final(self).reading() == observed(
                old(self).reading(),
                old(self).bounds@,
                v,
            ),
            old(self).cells is Some ==> *final(final(self).cells->Some_0) == *final(
                old(self).cells->Some_0),
    {
        let bounds: &'static [u64; B] = self.bounds;
        if let Some(cells) = &mut self.cells {
            observe_in_critical_section(cells, bounds, v);
        }
    }

    /// The bucket upper bounds, ascending, excluding the implicit `+Inf`
    /// bucket. Shared by every series in the collection, including sinks.
    pub fn bounds(&self) -> (bounds: &'static [u64])
        ensures
            bounds@ == self.bounds@,
    {
        self.bounds
    }

    /// The non-cumulative count for bucket `i`, or zero if this is a sink.
    pub fn bucket(&self, i: usize) -> (n: u64)
        requires
            i < B,
        ensures
            n == self.reading().buckets[i as int],
    {
        match &self.cells {
            Some(cells) => cells.bucket(i),
            None => 0,
        }
    }

    /// Total number of observations (equal to the cumulative `+Inf` bucket),
    /// or zero if this is a sink.
    pub fn count(&self) -> (n: u64)
        ensures
            n == self.reading().count,
    {
        match &self.cells {
            Some(cells) => cells.count(),
            None => 0,
        }
    }

    /// Sum of all observed values, or zero if this is a sink.
    pub fn sum(&self) -> (n: u64)
        ensures
            n == self.reading().sum,
    {
        match &self.cells {
            Some(cells) => cells.sum(),
            None => 0,
        }
    }
}

/// An observation is recorded the same way whether the cells are reached
/// directly or inside a critical section, and cells are read whole.
pub proof fn law_cells_record_and_are_read_whole<'a, const B: usize>()
    ensures
        forall|cells: &'a mut IntHistCells<B>, bounds: &'a [u64; B], v: u64| #[trigger]
            call_ensures(IntHistCells::<B>::observe_inner, (cells, bounds, v), ()) ==> (
            *final(cells))@ == observed((*cells)@, bounds@, v),
        forall|cells: &'a mut IntHistCells<B>, bounds: &'a [u64; B], v: u64| #[trigger]
            call_ensures(observe_in_critical_section::<B>, (cells, bounds, v), ()) ==> (
            *final(cells))@ == observed((*cells)@, bounds@, v),
        forall|
            cells: &'a IntHistCells<B>,
            buckets: &'a mut [u64],
            r: Result<HistogramSnapshot<'a>, HistogramSnapshotError>,
        | #[trigger]
            call_ensures(snapshot_cells::<B>, (cells, buckets), r) ==> {
                &&& r is Ok <==> B <= (*buckets)@.len()
                &&& r matches Ok(s) ==> {
                    &&& s.buckets@ == cells@.buckets
                    &&& s.sum == Value::U64(cells@.sum)
                    &&& s.count == cells@.count
                }
                &&& r matches Err(e) ==> {
                    &&& e.required == B
                    &&& e.capacity == (*buckets)@.len()
                    &&& (*final(buckets))@ == (*buckets)@
                }
            },
{
}

/// New cells have counted nothing, and cells are read bucket by bucket and as
/// they stand.
pub proof fn law_cells_are_read_as_they_stand<'a, const B: usize>()
    ensures
        forall|c: IntHistCells<B>| #[trigger]
            call_ensures(IntHistCells::<B>::new, (), c) ==> {
                &&& c@.buckets.len() == B
                &&& forall|i: int| 0 <= i < B ==> #[trigger] c@.buckets[i] == 0
                &&& c@.sum == 0
                &&& c@.count == 0
            },
        forall|c: &'a IntHistCells<B>, i: usize, n: u64| #[trigger]
            call_ensures(IntHistCells::<B>::bucket, (c, i), n) && i < B ==> n
                == c@.buckets[i as int],
        forall|c: &'a IntHistCells<B>, n: u64| #[trigger]
            call_ensures(IntHistCells::<B>::count, (c,), n) ==> n == c@.count,
        forall|c: &'a IntHistCells<B>, n: u64| #[trigger]
            call_ensures(IntHistCells::<B>::sum, (c,), n) ==> n == c@.sum,
        forall|c: &'a BucketCells<B>, out: &'a mut [u64]| #[trigger]
            call_ensures(BucketCells::<B>::read_into, (c, out), ()) ==> (*final(out))@
                == c@.buckets,
{
}

} // verus!
