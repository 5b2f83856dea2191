//! The histogram reading that a renderer shows.

use vstd::prelude::*;
use crate::erased::HistReading;
use crate::erased::HistogramSnapshotError;
use crate::erased::MetricModel;
use crate::erased::MetricRef;
use crate::exposition;
use crate::line::LineBuffer;
use crate::sink::TextSink;
use crate::step;
use crate::value;
use crate::value::Value;

verus! {

/// Scratch state for one scalar histogram or one histogram-vector series, of
/// at most `H` finite buckets. Where `C` is set, histograms are shown by the
/// snapshot that was captured last; otherwise by what they hold.
pub struct HistogramScratch<const H: usize, const C: bool> {
    buckets: [u64; H],
    sum: Value,
    count: u64,
}

impl<const H: usize, const C: bool> View for HistogramScratch<H, C> {
    type V = HistReading;

    closed spec fn view(&self) -> HistReading {
        HistReading { buckets: self.buckets@, sum: self.sum, count: self.count }
    }
}

impl<const H: usize, const C: bool> HistogramScratch<H, C> {
    /// An empty snapshot.
    pub fn new() -> (s: Self)
        ensures
            s@.buckets == Seq::new(H as nat, |i: int| 0u64),
            s@.sum == Value::U64(0),
            s@.count == 0,
    {
        let s = HistogramScratch { buckets: [0; H], sum: Value::U64(0), count: 0 };
        assert(s@.buckets =~= Seq::new(H as nat, |i: int| 0u64));
        s
    }

    /// What a histogram shows here: the snapshot, or what it holds.
    pub open spec fn shows(&self, metric: MetricRef<'_>, s: Option<usize>) -> HistReading {
        if C {
            self@
        } else {
            step::hist_reading(metric.model(), s)
        }
    }

    /// Copy one coherent snapshot of the histogram `metric`, or of its series
    /// `s`. Fails if the histogram has more than `H` finite buckets.
    pub fn capture(&mut self, metric: &MetricRef<'_>, s: Option<usize>) -> (r: Result<
        (),
        HistogramSnapshotError,
    >)
        requires
            step::hist_part(metric.model(), s),
        ensures
            r is Ok <==> step::bucket_total(metric.model())->Some_0 <= H,
            r is Ok ==> final(self)@ == exposition::overlaid(
                old(self)@,
                step::hist_reading(metric.model(), s),
            ),
            r matches Err(e) ==> e.required == step::bucket_total(metric.model())->Some_0
                && e.capacity == H && final(self)@ == old(self)@,
    {
        match (metric, s) {
            (MetricRef::Histogram { h }, _) => {
                let snapshot = h.snapshot(&mut self.buckets)?;
                self.sum = snapshot.sum;
                self.count = snapshot.count;
                Ok(())
            },
            (MetricRef::HistogramVec { h }, Some(i)) => {
                let snapshot = h.snapshot(i, &mut self.buckets)?;
                self.sum = snapshot.sum;
                self.count = snapshot.count;
                Ok(())
            },
            _ => Ok(()),
        }
    }

    /// The non-cumulative count that finite bucket `b` shows.
    pub fn bucket(&self, metric: &MetricRef<'_>, s: Option<usize>, b: usize) -> (n: u64)
        requires
            step::hist_part(metric.model(), s),
            b < step::bucket_total(metric.model())->Some_0,
            C ==> b < H,
        ensures
            n == self.shows(*metric, s).buckets[b as int],
    {
        if C {
            return self.buckets[b];
        }
        match (metric, s) {
            (MetricRef::Histogram { h }, _) => h.bucket(b),
            (MetricRef::HistogramVec { h }, Some(i)) => h.bucket(i, b),
            _ => 0,
        }
    }

    /// The count that a histogram shows.
    pub fn count(&self, metric: &MetricRef<'_>, s: Option<usize>) -> (n: u64)
        requires
            step::hist_part(metric.model(), s),
        ensures
            n == self.shows(*metric, s).count,
    {
        if C {
            return self.count;
        }
        match (metric, s) {
            (MetricRef::Histogram { h }, _) => h.total_count(),
            (MetricRef::HistogramVec { h }, Some(i)) => h.total_count(i),
            _ => 0,
        }
    }

    /// Write the sum that a histogram shows.
    pub fn put_sum<const L: usize>(
        &self,
        line: &mut LineBuffer<L>,
        metric: &MetricRef<'_>,
        s: Option<usize>,
    )
        requires
            old(line).wf(),
            step::hist_part(metric.model(), s),
        ensures
            final(line).wf(),
            final(line).written() == old(line).written() + value::value_text(
                self.shows(*metric, s).sum,
            ),
    {
        if C {
            line.put_value(&self.sum);
            return ;
        }
        match (metric, s) {
            (MetricRef::Histogram { h }, _) => line.put_value(&h.sum()),
            (MetricRef::HistogramVec { h }, Some(i)) => line.put_value(&h.sum(i)),
            _ => {},
        }
    }
}

/// A snapshot is taken exactly where the buckets fit, and then shows the whole
/// reading of its histogram at the front of its buffer; else nothing changes.
/// A scratch that takes snapshots shows the last one, and any other shows what
/// the histogram holds.
pub proof fn law_snapshots_show_whole_readings<'a, const H: usize, const C: bool>()
    ensures
        forall|
            scratch: &'a mut HistogramScratch<H, C>,
            metric: &'a MetricRef<'a>,
            s: Option<usize>,
            r: Result<(), HistogramSnapshotError>,
        | #[trigger]
            call_ensures(HistogramScratch::<H, C>::capture, (scratch, metric, s), r) ==> match (
                metric.model(),
                s,
            ) {
                (MetricModel::Histogram(h), _) => {
                    &&& r is Ok <==> h.bounds.len() <= H
                    &&& r is Ok ==> {
                        &&& (*final(scratch))@.buckets == h.reading.buckets
                            + (*scratch)@.buckets.skip(h.reading.buckets.len() as int)
                        &&& (*final(scratch))@.sum == h.reading.sum
                        &&& (*final(scratch))@.count == h.reading.count
                    }
                    &&& r is Err ==> (*final(scratch))@ == (*scratch)@
                },
                (MetricModel::HistogramVec(h), Some(i)) => {
                    &&& r is Ok <==> h.bounds.len() <= H
                    &&& r is Ok ==> {
                        let reading = h.series[i as int].reading;
                        &&& (*final(scratch))@.buckets == reading.buckets
                            + (*scratch)@.buckets.skip(reading.buckets.len() as int)
                        &&& (*final(scratch))@.sum == reading.sum
                        &&& (*final(scratch))@.count == reading.count
                    }
                    &&& r is Err ==> (*final(scratch))@ == (*scratch)@
                },
                _ => true,
            },
        forall|
            scratch: &'a HistogramScratch<H, C>,
            metric: &'a MetricRef<'a>,
            s: Option<usize>,
            b: usize,
            n: u64,
        | #[trigger]
            call_ensures(HistogramScratch::<H, C>::bucket, (scratch, metric, s, b), n) ==> {
                &&& C ==> n == scratch@.buckets[b as int]
                &&& !C ==> match (metric.model(), s) {
                    (MetricModel::Histogram(h), _) => n == h.reading.buckets[b as int],
                    (MetricModel::HistogramVec(h), Some(i)) => n
                        == h.series[i as int].reading.buckets[b as int],
                    _ => true,
                }
            },
        forall|
            scratch: &'a HistogramScratch<H, C>,
            metric: &'a MetricRef<'a>,
            s: Option<usize>,
            n: u64,
        | #[trigger]
            call_ensures(HistogramScratch::<H, C>::count, (scratch, metric, s), n) ==> {
                &&& C ==> n == scratch@.count
                &&& !C ==> match (metric.model(), s) {
                    (MetricModel::Histogram(h), _) => n == h.reading.count,
                    (MetricModel::HistogramVec(h), Some(i)) => n
                        == h.series[i as int].reading.count,
                    _ => true,
                }
            },
{
}

} // verus!
