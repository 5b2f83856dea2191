//! What the operations of labeled collections do, stated of their calls.

use vstd::prelude::*;
use crate::counter::Counter;
use crate::erased::ErasedCounterVec;
use crate::erased::ErasedGaugeVec;
use crate::erased::snapshot_bucket_prefix;
use crate::erased::ErasedHistogramVec;
use crate::erased::HistogramSnapshot;
use crate::erased::HistogramSnapshotError;
use crate::erased::ErasedHistogram;
use crate::gauge::Gauge;
use crate::histogram::IntHistogram;
use crate::labels;
use crate::series::BucketCells;
use crate::series::IntHistSeries;
use crate::series::IntReading;
use crate::sink::FormatError;
use crate::slots;
use crate::slots::SeriesModel;
use crate::text;
use crate::value::Value;
use crate::vec::CounterSeries;
use crate::vec::CounterVec;
use crate::vec::GaugeSeries;
use crate::vec::GaugeVec;
use crate::vec::IntHistogramVec;

verus! {

/// What a look-up for a label block among `series` comes to, as far as it is
/// decided by the lengths and the blocks alone.
proof fn lemma_look_up<T>(series: Seq<SeriesModel<T>>, capacity: nat, budget: nat, block: Seq<char>)
    ensures
        ({
            let listed = exists|i: int|
                0 <= i < series.len() && (#[trigger] series[i]).labels == block;
            let slot = slots::slot(slots::labels_of(series), capacity, budget, block);
            &&& slot is Some <==> text::byte_len(block) <= budget && (listed || series.len()
                < capacity)
            &&& slot matches Some(i) ==> if listed {
                &&& 0 <= i < series.len()
                &&& series[i].labels == block
                &&& forall|j: int| 0 <= j < i ==> (#[trigger] series[j]).labels != block
            } else {
                i == series.len()
            }
        }),
{
    slots::lemma_held(series, block);
    slots::law_blocks_have_a_series_while_there_is_room(
        slots::labels_of(series),
        capacity,
        budget,
        block,
    );
    if let Some(i) = slots::slot(slots::labels_of(series), capacity, budget, block) {
        assert forall|j: int| 0 <= j < i && j < series.len() implies (#[trigger] series[j]).labels
            != block by {
            assert(slots::labels_of(series)[j] != block);
        }
    }
}

/// A handle to a labeled counter reaches the series of its label values: the
/// first with their label block, or a new one at zero behind all others. It is
/// a sink exactly where the block takes more than `V` bytes, or is new while
/// `N` series are held, and then nothing changes.
pub proof fn law_counter_handles_reach_their_series<
    'a,
    const N: usize,
    const K: usize,
    const V: usize,
>()
    ensures
        forall|c: &'a mut CounterVec<N, K, V>, values: &[&str; K], s: CounterSeries<'a>| #[trigger]
            call_ensures(CounterVec::<N, K, V>::with, (c, values), s)
                ==> {
                    let block = labels::block_text(
                        c.names_held(),
                        Seq::new(K as nat, |i: int| values@[i]@),
                    );
                    let listed = exists|i: int|
                        0 <= i < c@.len() && (#[trigger] c@[i]).labels == block;
                    &&& (*final(c)).names_held() == c.names_held()
                    &&& s.counter is Some <==> text::byte_len(block) <= V
                        && (listed || c@.len() < N)
                    &&& s.counter is None ==> (*final(c))@ == c@ && s.reading() == 0
                    &&& s.counter is Some && !listed ==> {
                        &&& s.reading() == 0
                        &&& (*final(c))@ == c@.push(
                            SeriesModel {
                                labels: block,
                                value: (*final(s.counter->Some_0))@,
                            },
                        )
                    }
                    &&& s.counter is Some && listed ==> exists|i: int|
                        {
                            &&& 0 <= i < c@.len()
                            &&& (#[trigger] c@[i]).labels == block
                            &&& forall|j: int| 0 <= j < i ==> (#[trigger] c@[j]).labels != block
                            &&& s.reading() == c@[i].value
                            &&& (*final(c))@ == c@.update(
                                i,
                                SeriesModel {
                                    labels: block,
                                    value: (*final(s.counter->Some_0))@,
                                },
                            )
                        }
                },
{
    assert forall|
        c: &'a mut CounterVec<N, K, V>,
        values: &[&str; K],
        s: CounterSeries<'a>,
    | #[trigger]
        call_ensures(CounterVec::<N, K, V>::with, (c, values), s) implies {
                    let block = labels::block_text(
                        c.names_held(),
                        Seq::new(K as nat, |i: int| values@[i]@),
                    );
                    let listed = exists|i: int|
                        0 <= i < c@.len() && (#[trigger] c@[i]).labels == block;
                    &&& (*final(c)).names_held() == c.names_held()
                    &&& s.counter is Some <==> text::byte_len(block) <= V
                        && (listed || c@.len() < N)
                    &&& s.counter is None ==> (*final(c))@ == c@ && s.reading() == 0
                    &&& s.counter is Some && !listed ==> {
                        &&& s.reading() == 0
                        &&& (*final(c))@ == c@.push(
                            SeriesModel {
                                labels: block,
                                value: (*final(s.counter->Some_0))@,
                            },
                        )
                    }
                    &&& s.counter is Some && listed ==> exists|i: int|
                        {
                            &&& 0 <= i < c@.len()
                            &&& (#[trigger] c@[i]).labels == block
                            &&& forall|j: int| 0 <= j < i ==> (#[trigger] c@[j]).labels != block
                            &&& s.reading() == c@[i].value
                            &&& (*final(c))@ == c@.update(
                                i,
                                SeriesModel {
                                    labels: block,
                                    value: (*final(s.counter->Some_0))@,
                                },
                            )
                        }
                } by {
        let block = labels::block_text(c.names_held(), Seq::new(K as nat, |i: int| values@[i]@));
        assert(text::strs_view(values@) =~= Seq::new(K as nat, |i: int| values@[i]@));
        lemma_look_up(c@, N as nat, V as nat, block);
        if let Some(i) = slots::slot(slots::labels_of(c@), N as nat, V as nat, block) {
            if i < c@.len() {
                assert(c@[i].labels == block);
            }
        }
    }
}

/// The same of a handle to a labeled gauge.
pub proof fn law_gauge_handles_reach_their_series<
    'a,
    const N: usize,
    const K: usize,
    const V: usize,
>()
    ensures
        forall|c: &'a mut GaugeVec<N, K, V>, values: &[&str; K], s: GaugeSeries<'a>| #[trigger]
            call_ensures(GaugeVec::<N, K, V>::with, (c, values), s)
                ==> {
                    let block = labels::block_text(
                        c.names_held(),
                        Seq::new(K as nat, |i: int| values@[i]@),
                    );
                    let listed = exists|i: int|
                        0 <= i < c@.len() && (#[trigger] c@[i]).labels == block;
                    &&& (*final(c)).names_held() == c.names_held()
                    &&& s.gauge is Some <==> text::byte_len(block) <= V && (listed || c@.len() < N)
                    &&& s.gauge is None ==> (*final(c))@ == c@ && s.reading() == 0
                    &&& s.gauge is Some && !listed ==> {
                        &&& s.reading() == 0
                        &&& (*final(c))@ == c@.push(
                            SeriesModel {
                                labels: block,
                                value: (*final(s.gauge->Some_0))@,
                            },
                        )
                    }
                    &&& s.gauge is Some && listed ==> exists|i: int|
                        {
                            &&& 0 <= i < c@.len()
                            &&& (#[trigger] c@[i]).labels == block
                            &&& forall|j: int| 0 <= j < i ==> (#[trigger] c@[j]).labels != block
                            &&& s.reading() == c@[i].value
                            &&& (*final(c))@ == c@.update(
                                i,
                                SeriesModel {
                                    labels: block,
                                    value: (*final(s.gauge->Some_0))@,
                                },
                            )
                        }
                },
{
    assert forall|c: &'a mut GaugeVec<N, K, V>, values: &[&str; K], s: GaugeSeries<'a>| #[trigger]
        call_ensures(GaugeVec::<N, K, V>::with, (c, values), s) implies {
                    let block = labels::block_text(
                        c.names_held(),
                        Seq::new(K as nat, |i: int| values@[i]@),
                    );
                    let listed = exists|i: int|
                        0 <= i < c@.len() && (#[trigger] c@[i]).labels == block;
                    &&& (*final(c)).names_held() == c.names_held()
                    &&& s.gauge is Some <==> text::byte_len(block) <= V && (listed || c@.len() < N)
                    &&& s.gauge is None ==> (*final(c))@ == c@ && s.reading() == 0
                    &&& s.gauge is Some && !listed ==> {
                        &&& s.reading() == 0
                        &&& (*final(c))@ == c@.push(
                            SeriesModel {
                                labels: block,
                                value: (*final(s.gauge->Some_0))@,
                            },
                        )
                    }
                    &&& s.gauge is Some && listed ==> exists|i: int|
                        {
                            &&& 0 <= i < c@.len()
                            &&& (#[trigger] c@[i]).labels == block
                            &&& forall|j: int| 0 <= j < i ==> (#[trigger] c@[j]).labels != block
                            &&& s.reading() == c@[i].value
                            &&& (*final(c))@ == c@.update(
                                i,
                                SeriesModel {
                                    labels: block,
                                    value: (*final(s.gauge->Some_0))@,
                                },
                            )
                        }
                } by {
        let block = labels::block_text(c.names_held(), Seq::new(K as nat, |i: int| values@[i]@));
        assert(text::strs_view(values@) =~= Seq::new(K as nat, |i: int| values@[i]@));
        lemma_look_up(c@, N as nat, V as nat, block);
        if let Some(i) = slots::slot(slots::labels_of(c@), N as nat, V as nat, block) {
            if i < c@.len() {
                assert(c@[i].labels == block);
            }
        }
    }
}

/// The same of a handle to a labeled histogram, with the shared bounds.
pub proof fn law_histogram_handles_reach_their_series<
    'a,
    const N: usize,
    const B: usize,
    const K: usize,
    const V: usize,
>()
    ensures
        forall|
            c: &'a mut IntHistogramVec<N, B, K, V>,
            values: &[&str; K],
            s: IntHistSeries<'a, B>,
        | #[trigger]
            call_ensures(IntHistogramVec::<N, B, K, V>::with, (c, values), s)
                ==> {
                    let block = labels::block_text(
                        c.names_held(),
                        Seq::new(K as nat, |i: int| values@[i]@),
                    );
                    let listed = exists|i: int|
                        0 <= i < c@.len() && (#[trigger] c@[i]).labels == block;
                    &&& (*final(c)).names_held() == c.names_held()
                    &&& (*final(c)).bounds_held() == c.bounds_held()
                    &&& s.bounds@ == c.bounds_held()
                    &&& s.cells is Some <==> text::byte_len(block) <= V && (listed || c@.len() < N)
                    &&& s.cells is None
                        ==> (*final(c))@ == c@ && s.reading() == IntReading::zero(B as nat)
                    &&& s.cells is Some && !listed ==> {
                        &&& s.reading() == IntReading::zero(B as nat)
                        &&& (*final(c))@ == c@.push(
                            SeriesModel {
                                labels: block,
                                value: (*final(s.cells->Some_0))@,
                            },
                        )
                    }
                    &&& s.cells is Some && listed ==> exists|i: int|
                        {
                            &&& 0 <= i < c@.len()
                            &&& (#[trigger] c@[i]).labels == block
                            &&& forall|j: int| 0 <= j < i ==> (#[trigger] c@[j]).labels != block
                            &&& s.reading() == c@[i].value
                            &&& (*final(c))@ == c@.update(
                                i,
                                SeriesModel {
                                    labels: block,
                                    value: (*final(s.cells->Some_0))@,
                                },
                            )
                        }
                },
{
    assert forall|
        c: &'a mut IntHistogramVec<N, B, K, V>,
        values: &[&str; K],
        s: IntHistSeries<'a, B>,
    | #[trigger]
        call_ensures(IntHistogramVec::<N, B, K, V>::with, (c, values), s) implies {
                    let block = labels::block_text(
                        c.names_held(),
                        Seq::new(K as nat, |i: int| values@[i]@),
                    );
                    let listed = exists|i: int|
                        0 <= i < c@.len() && (#[trigger] c@[i]).labels == block;
                    &&& (*final(c)).names_held() == c.names_held()
                    &&& (*final(c)).bounds_held() == c.bounds_held()
                    &&& s.bounds@ == c.bounds_held()
                    &&& s.cells is Some <==> text::byte_len(block) <= V && (listed || c@.len() < N)
                    &&& s.cells is None
                        ==> (*final(c))@ == c@ && s.reading() == IntReading::zero(B as nat)
                    &&& s.cells is Some && !listed ==> {
                        &&& s.reading() == IntReading::zero(B as nat)
                        &&& (*final(c))@ == c@.push(
                            SeriesModel {
                                labels: block,
                                value: (*final(s.cells->Some_0))@,
                            },
                        )
                    }
                    &&& s.cells is Some && listed ==> exists|i: int|
                        {
                            &&& 0 <= i < c@.len()
                            &&& (#[trigger] c@[i]).labels == block
                            &&& forall|j: int| 0 <= j < i ==> (#[trigger] c@[j]).labels != block
                            &&& s.reading() == c@[i].value
                            &&& (*final(c))@ == c@.update(
                                i,
                                SeriesModel {
                                    labels: block,
                                    value: (*final(s.cells->Some_0))@,
                                },
                            )
                        }
                } by {
        let block = labels::block_text(c.names_held(), Seq::new(K as nat, |i: int| values@[i]@));
        assert(text::strs_view(values@) =~= Seq::new(K as nat, |i: int| values@[i]@));
        lemma_look_up(c@, N as nat, V as nat, block);
        if let Some(i) = slots::slot(slots::labels_of(c@), N as nat, V as nat, block) {
            if i < c@.len() {
                assert(c@[i].labels == block);
            }
        }
    }
}

/// Counting `n` more for label values adds exactly `n`, modulo 2 to the 64th, to
/// their series, which begins at zero, and touches no other; nothing changes
/// where the label block is too long or is new to a full collection.
#[verifier::spinoff_prover]
#[verifier::rlimit(50)]
pub proof fn law_labeled_counters_add_what_is_counted<
    const N: usize,
    const K: usize,
    const V: usize,
>()
    ensures
        forall|c: &mut CounterVec<N, K, V>, values: &[&str; K], n: u64| #[trigger]
            call_ensures(CounterVec::<N, K, V>::inc_by, (c, values, n), ())
                ==> {
                    let block = labels::block_text(
                        c.names_held(),
                        Seq::new(K as nat, |i: int| values@[i]@),
                    );
                    let listed = exists|i: int|
                        0 <= i < c@.len() && (#[trigger] c@[i]).labels == block;
                    let after = (*final(c))@;
                    &&& (*final(c)).names_held() == c.names_held()
                    &&& text::byte_len(block) > V || (!listed && c@.len() >= N) ==> after == c@
                    &&& text::byte_len(block) <= V && !listed && c@.len() < N ==> {
                        &&& after.len() == c@.len() + 1
                        &&& forall|j: int| 0 <= j < c@.len() ==> #[trigger] after[j] == c@[j]
                        &&& after[c@.len() as int].labels == block
                        &&& after[c@.len() as int].value == n
                    }
                    &&& text::byte_len(block) <= V && listed ==> exists|i: int|
                        {
                            &&& 0 <= i < c@.len()
                            &&& (#[trigger] c@[i]).labels == block
                            &&& forall|j: int| 0 <= j < i ==> (#[trigger] c@[j]).labels != block
                            &&& after.len() == c@.len()
                            &&& after[i].labels == block
                            &&& (after[i].value - c@[i].value - n) % 0x1_0000_0000_0000_0000 == 0
                            &&& forall|j: int|
                                0 <= j < c@.len() && j != i ==> #[trigger] after[j] == c@[j]
                        }
                },
{
    assert forall|c: &mut CounterVec<N, K, V>, values: &[&str; K], n: u64| #[trigger]
        call_ensures(CounterVec::<N, K, V>::inc_by, (c, values, n), ()) implies {
                    let block = labels::block_text(
                        c.names_held(),
                        Seq::new(K as nat, |i: int| values@[i]@),
                    );
                    let listed = exists|i: int|
                        0 <= i < c@.len() && (#[trigger] c@[i]).labels == block;
                    let after = (*final(c))@;
                    &&& (*final(c)).names_held() == c.names_held()
                    &&& text::byte_len(block) > V || (!listed && c@.len() >= N) ==> after == c@
                    &&& text::byte_len(block) <= V && !listed && c@.len() < N ==> {
                        &&& after.len() == c@.len() + 1
                        &&& forall|j: int| 0 <= j < c@.len() ==> #[trigger] after[j] == c@[j]
                        &&& after[c@.len() as int].labels == block
                        &&& after[c@.len() as int].value == n
                    }
                    &&& text::byte_len(block) <= V && listed ==> exists|i: int|
                        {
                            &&& 0 <= i < c@.len()
                            &&& (#[trigger] c@[i]).labels == block
                            &&& forall|j: int| 0 <= j < i ==> (#[trigger] c@[j]).labels != block
                            &&& after.len() == c@.len()
                            &&& after[i].labels == block
                            &&& (after[i].value - c@[i].value - n) % 0x1_0000_0000_0000_0000 == 0
                            &&& forall|j: int|
                                0 <= j < c@.len() && j != i ==> #[trigger] after[j] == c@[j]
                        }
                } by {
        let block = labels::block_text(c.names_held(), Seq::new(K as nat, |i: int| values@[i]@));
        assert(text::strs_view(values@) =~= Seq::new(K as nat, |i: int| values@[i]@));
        lemma_look_up(c@, N as nat, V as nat, block);
        if let Some(i) = slots::slot(slots::labels_of(c@), N as nat, V as nat, block) {
            let held = slots::value_at(c@, i, 0u64);
            assert((crate::atomic::wrap_u64(held + n) - held - n)
                % 0x1_0000_0000_0000_0000 == 0) by {
                crate::atomic::law_wrapping_keeps_the_remainder(held + n);
            }
        }
        if let Some(i) = slots::slot(slots::labels_of(c@), N as nat, V as nat, block) {
            if i < c@.len() {
                assert(c@[i].labels == block);
            }
        }
    }
}

/// The same of counting one more.
#[verifier::spinoff_prover]
#[verifier::rlimit(50)]
pub proof fn law_labeled_counters_add_one<const N: usize, const K: usize, const V: usize>()
    ensures
        forall|c: &mut CounterVec<N, K, V>, values: &[&str; K]| #[trigger]
            call_ensures(CounterVec::<N, K, V>::inc, (c, values), ())
                ==> {
                    let block = labels::block_text(
                        c.names_held(),
                        Seq::new(K as nat, |i: int| values@[i]@),
                    );
                    let listed = exists|i: int|
                        0 <= i < c@.len() && (#[trigger] c@[i]).labels == block;
                    let after = (*final(c))@;
                    &&& (*final(c)).names_held() == c.names_held()
                    &&& text::byte_len(block) > V || (!listed && c@.len() >= N) ==> after == c@
                    &&& text::byte_len(block) <= V && !listed && c@.len() < N ==> {
                        &&& after.len() == c@.len() + 1
                        &&& forall|j: int| 0 <= j < c@.len() ==> #[trigger] after[j] == c@[j]
                        &&& after[c@.len() as int].labels == block
                        &&& after[c@.len() as int].value == 1
                    }
                    &&& text::byte_len(block) <= V && listed ==> exists|i: int|
                        {
                            &&& 0 <= i < c@.len()
                            &&& (#[trigger] c@[i]).labels == block
                            &&& forall|j: int| 0 <= j < i ==> (#[trigger] c@[j]).labels != block
                            &&& after.len() == c@.len()
                            &&& after[i].labels == block
                            &&& (after[i].value - c@[i].value - 1) % 0x1_0000_0000_0000_0000 == 0
                            &&& forall|j: int|
                                0 <= j < c@.len() && j != i ==> #[trigger] after[j] == c@[j]
                        }
                },
{
    assert forall|c: &mut CounterVec<N, K, V>, values: &[&str; K]| #[trigger]
        call_ensures(CounterVec::<N, K, V>::inc, (c, values), ()) implies {
                    let block = labels::block_text(
                        c.names_held(),
                        Seq::new(K as nat, |i: int| values@[i]@),
                    );
                    let listed = exists|i: int|
                        0 <= i < c@.len() && (#[trigger] c@[i]).labels == block;
                    let after = (*final(c))@;
                    &&& (*final(c)).names_held() == c.names_held()
                    &&& text::byte_len(block) > V || (!listed && c@.len() >= N) ==> after == c@
                    &&& text::byte_len(block) <= V && !listed && c@.len() < N ==> {
                        &&& after.len() == c@.len() + 1
                        &&& forall|j: int| 0 <= j < c@.len() ==> #[trigger] after[j] == c@[j]
                        &&& after[c@.len() as int].labels == block
                        &&& after[c@.len() as int].value == 1
                    }
                    &&& text::byte_len(block) <= V && listed ==> exists|i: int|
                        {
                            &&& 0 <= i < c@.len()
                            &&& (#[trigger] c@[i]).labels == block
                            &&& forall|j: int| 0 <= j < i ==> (#[trigger] c@[j]).labels != block
                            &&& after.len() == c@.len()
                            &&& after[i].labels == block
                            &&& (after[i].value - c@[i].value - 1) % 0x1_0000_0000_0000_0000 == 0
                            &&& forall|j: int|
                                0 <= j < c@.len() && j != i ==> #[trigger] after[j] == c@[j]
                        }
                } by {
        let block = labels::block_text(c.names_held(), Seq::new(K as nat, |i: int| values@[i]@));
        assert(text::strs_view(values@) =~= Seq::new(K as nat, |i: int| values@[i]@));
        lemma_look_up(c@, N as nat, V as nat, block);
        if let Some(i) = slots::slot(slots::labels_of(c@), N as nat, V as nat, block) {
            let held = slots::value_at(c@, i, 0u64);
            assert((crate::atomic::wrap_u64(held + 1) - held - 1)
                % 0x1_0000_0000_0000_0000 == 0) by {
                crate::atomic::law_wrapping_keeps_the_remainder(held + 1);
            }
        }
        if let Some(i) = slots::slot(slots::labels_of(c@), N as nat, V as nat, block) {
            if i < c@.len() {
                assert(c@[i].labels == block);
            }
        }
    }
}

/// Setting a labeled gauge sets the series of its label values and no other;
/// nothing changes where the label block is too long or is new to a full
/// collection.
#[verifier::spinoff_prover]
#[verifier::rlimit(50)]
pub proof fn law_labeled_gauges_are_set<const N: usize, const K: usize, const V: usize>()
    ensures
        forall|c: &mut GaugeVec<N, K, V>, values: &[&str; K], v: i64| #[trigger]
            call_ensures(GaugeVec::<N, K, V>::set, (c, values, v), ())
                ==> {
                    let block = labels::block_text(
                        c.names_held(),
                        Seq::new(K as nat, |i: int| values@[i]@),
                    );
                    let listed = exists|i: int|
                        0 <= i < c@.len() && (#[trigger] c@[i]).labels == block;
                    let after = (*final(c))@;
                    &&& (*final(c)).names_held() == c.names_held()
                    &&& text::byte_len(block) > V || (!listed && c@.len() >= N) ==> after == c@
                    &&& text::byte_len(block) <= V && !listed && c@.len() < N ==> {
                        &&& after.len() == c@.len() + 1
                        &&& forall|j: int| 0 <= j < c@.len() ==> #[trigger] after[j] == c@[j]
                        &&& after[c@.len() as int].labels == block
                        &&& after[c@.len() as int].value == v
                    }
                    &&& text::byte_len(block) <= V && listed ==> exists|i: int|
                        {
                            &&& 0 <= i < c@.len()
                            &&& (#[trigger] c@[i]).labels == block
                            &&& forall|j: int| 0 <= j < i ==> (#[trigger] c@[j]).labels != block
                            &&& after.len() == c@.len()
                            &&& after[i].labels == block
                            &&& after[i].value == v
                            &&& forall|j: int|
                                0 <= j < c@.len() && j != i ==> #[trigger] after[j] == c@[j]
                        }
                },
{
    assert forall|c: &mut GaugeVec<N, K, V>, values: &[&str; K], v: i64| #[trigger]
        call_ensures(GaugeVec::<N, K, V>::set, (c, values, v), ()) implies {
                    let block = labels::block_text(
                        c.names_held(),
                        Seq::new(K as nat, |i: int| values@[i]@),
                    );
                    let listed = exists|i: int|
                        0 <= i < c@.len() && (#[trigger] c@[i]).labels == block;
                    let after = (*final(c))@;
                    &&& (*final(c)).names_held() == c.names_held()
                    &&& text::byte_len(block) > V || (!listed && c@.len() >= N) ==> after == c@
                    &&& text::byte_len(block) <= V && !listed && c@.len() < N ==> {
                        &&& after.len() == c@.len() + 1
                        &&& forall|j: int| 0 <= j < c@.len() ==> #[trigger] after[j] == c@[j]
                        &&& after[c@.len() as int].labels == block
                        &&& after[c@.len() as int].value == v
                    }
                    &&& text::byte_len(block) <= V && listed ==> exists|i: int|
                        {
                            &&& 0 <= i < c@.len()
                            &&& (#[trigger] c@[i]).labels == block
                            &&& forall|j: int| 0 <= j < i ==> (#[trigger] c@[j]).labels != block
                            &&& after.len() == c@.len()
                            &&& after[i].labels == block
                            &&& after[i].value == v
                            &&& forall|j: int|
                                0 <= j < c@.len() && j != i ==> #[trigger] after[j] == c@[j]
                        }
                } by {
        let block = labels::block_text(c.names_held(), Seq::new(K as nat, |i: int| values@[i]@));
        assert(text::strs_view(values@) =~= Seq::new(K as nat, |i: int| values@[i]@));
        lemma_look_up(c@, N as nat, V as nat, block);
        if let Some(i) = slots::slot(slots::labels_of(c@), N as nat, V as nat, block) {
            if i < c@.len() {
                assert(c@[i].labels == block);
            }
        }
    }
}

/// Adding to a labeled gauge adds exactly that much, modulo 2 to the 64th, to
/// the series of its label values, which begins at zero, and to no other.
#[verifier::spinoff_prover]
#[verifier::rlimit(50)]
pub proof fn law_labeled_gauges_add_what_is_added<const N: usize, const K: usize, const V: usize>()
    ensures
        forall|c: &mut GaugeVec<N, K, V>, values: &[&str; K], d: i64| #[trigger]
            call_ensures(GaugeVec::<N, K, V>::add, (c, values, d), ())
                ==> {
                    let block = labels::block_text(
                        c.names_held(),
                        Seq::new(K as nat, |i: int| values@[i]@),
                    );
                    let listed = exists|i: int|
                        0 <= i < c@.len() && (#[trigger] c@[i]).labels == block;
                    let after = (*final(c))@;
                    &&& (*final(c)).names_held() == c.names_held()
                    &&& text::byte_len(block) > V || (!listed && c@.len() >= N) ==> after == c@
                    &&& text::byte_len(block) <= V && !listed && c@.len() < N ==> {
                        &&& after.len() == c@.len() + 1
                        &&& forall|j: int| 0 <= j < c@.len() ==> #[trigger] after[j] == c@[j]
                        &&& after[c@.len() as int].labels == block
                        &&& after[c@.len() as int].value == d
                    }
                    &&& text::byte_len(block) <= V && listed ==> exists|i: int|
                        {
                            &&& 0 <= i < c@.len()
                            &&& (#[trigger] c@[i]).labels == block
                            &&& forall|j: int| 0 <= j < i ==> (#[trigger] c@[j]).labels != block
                            &&& after.len() == c@.len()
                            &&& after[i].labels == block
                            &&& (after[i].value - c@[i].value - d) % 0x1_0000_0000_0000_0000 == 0
                            &&& forall|j: int|
                                0 <= j < c@.len() && j != i ==> #[trigger] after[j] == c@[j]
                        }
                },
{
    assert forall|c: &mut GaugeVec<N, K, V>, values: &[&str; K], d: i64| #[trigger]
        call_ensures(GaugeVec::<N, K, V>::add, (c, values, d), ()) implies {
                    let block = labels::block_text(
                        c.names_held(),
                        Seq::new(K as nat, |i: int| values@[i]@),
                    );
                    let listed = exists|i: int|
                        0 <= i < c@.len() && (#[trigger] c@[i]).labels == block;
                    let after = (*final(c))@;
                    &&& (*final(c)).names_held() == c.names_held()
                    &&& text::byte_len(block) > V || (!listed && c@.len() >= N) ==> after == c@
                    &&& text::byte_len(block) <= V && !listed && c@.len() < N ==> {
                        &&& after.len() == c@.len() + 1
                        &&& forall|j: int| 0 <= j < c@.len() ==> #[trigger] after[j] == c@[j]
                        &&& after[c@.len() as int].labels == block
                        &&& after[c@.len() as int].value == d
                    }
                    &&& text::byte_len(block) <= V && listed ==> exists|i: int|
                        {
                            &&& 0 <= i < c@.len()
                            &&& (#[trigger] c@[i]).labels == block
                            &&& forall|j: int| 0 <= j < i ==> (#[trigger] c@[j]).labels != block
                            &&& after.len() == c@.len()
                            &&& after[i].labels == block
                            &&& (after[i].value - c@[i].value - d) % 0x1_0000_0000_0000_0000 == 0
                            &&& forall|j: int|
                                0 <= j < c@.len() && j != i ==> #[trigger] after[j] == c@[j]
                        }
                } by {
        let block = labels::block_text(c.names_held(), Seq::new(K as nat, |i: int| values@[i]@));
        assert(text::strs_view(values@) =~= Seq::new(K as nat, |i: int| values@[i]@));
        lemma_look_up(c@, N as nat, V as nat, block);
        if let Some(i) = slots::slot(slots::labels_of(c@), N as nat, V as nat, block) {
            let held = slots::value_at(c@, i, 0i64);
            assert((crate::atomic::wrap_i64(held + d) - held - d)
                % 0x1_0000_0000_0000_0000 == 0) by {
                crate::atomic::law_wrapping_keeps_the_remainder(held + d);
            }
        }
        if let Some(i) = slots::slot(slots::labels_of(c@), N as nat, V as nat, block) {
            if i < c@.len() {
                assert(c@[i].labels == block);
            }
        }
    }
}

/// An observation of a labeled histogram is counted in the series of its label
/// values and in no other: in the one bucket whose range holds it, if any, in
/// the sum and in the count.
#[verifier::spinoff_prover]
#[verifier::rlimit(50)]
pub proof fn law_labeled_histograms_count_by_range<
    const N: usize,
    const B: usize,
    const K: usize,
    const V: usize,
>()
    ensures
        forall|c: &mut IntHistogramVec<N, B, K, V>, values: &[&str; K], v: u64| #[trigger]
            call_ensures(IntHistogramVec::<N, B, K, V>::observe, (c, values, v), ()) && c.wf()
                ==> {
                    let block = labels::block_text(
                        c.names_held(),
                        Seq::new(K as nat, |i: int| values@[i]@),
                    );
                    let listed = exists|i: int|
                        0 <= i < c@.len() && (#[trigger] c@[i]).labels == block;
                    let after = (*final(c))@;
                    &&& (*final(c)).names_held() == c.names_held()
                    &&& (*final(c)).bounds_held() == c.bounds_held()
                    &&& text::byte_len(block) > V || (!listed && c@.len() >= N) ==> after == c@
                    &&& text::byte_len(block) <= V && !listed && c@.len() < N ==> {
                        &&& after.len() == c@.len() + 1
                        &&& forall|j: int| 0 <= j < c@.len() ==> #[trigger] after[j] == c@[j]
                        &&& after[c@.len() as int].labels == block
                        &&& forall|b: int|
                            0 <= b < B
                                ==> (#[trigger] after[c@.len() as int].value.buckets[b] - 0 - if (b
                                == 0 || c.bounds_held()[b - 1] < v) && v <= c.bounds_held()[b] {
                                1int
                            } else {
                                0int
                            }) % 0x1_0000_0000_0000_0000 == 0
                        &&& (after[c@.len() as int].value.sum - 0 - v)
                            % 0x1_0000_0000_0000_0000 == 0
                        &&& (after[c@.len() as int].value.count - 0 - 1)
                            % 0x1_0000_0000_0000_0000 == 0
                    }
                    &&& text::byte_len(block) <= V && listed ==> exists|i: int|
                        {
                            &&& 0 <= i < c@.len()
                            &&& (#[trigger] c@[i]).labels == block
                            &&& forall|j: int| 0 <= j < i ==> (#[trigger] c@[j]).labels != block
                            &&& after.len() == c@.len()
                            &&& after[i].labels == block
                            &&& forall|b: int|
                            0 <= b < B
                                ==> (#[trigger] after[i].value.buckets[b] - c@[i].value.buckets[b] - if (b
                                == 0 || c.bounds_held()[b - 1] < v) && v <= c.bounds_held()[b] {
                                1int
                            } else {
                                0int
                            }) % 0x1_0000_0000_0000_0000 == 0
                        &&& (after[i].value.sum - c@[i].value.sum - v)
                            % 0x1_0000_0000_0000_0000 == 0
                        &&& (after[i].value.count - c@[i].value.count - 1)
                            % 0x1_0000_0000_0000_0000 == 0
                            &&& forall|j: int|
                                0 <= j < c@.len() && j != i ==> #[trigger] after[j] == c@[j]
                        }
                },
{
    assert forall|c: &mut IntHistogramVec<N, B, K, V>, values: &[&str; K], v: u64| #[trigger]
        call_ensures(IntHistogramVec::<N, B, K, V>::observe, (c, values, v), ()) && c.wf() implies {
                    let block = labels::block_text(
                        c.names_held(),
                        Seq::new(K as nat, |i: int| values@[i]@),
                    );
                    let listed = exists|i: int|
                        0 <= i < c@.len() && (#[trigger] c@[i]).labels == block;
                    let after = (*final(c))@;
                    &&& (*final(c)).names_held() == c.names_held()
                    &&& (*final(c)).bounds_held() == c.bounds_held()
                    &&& text::byte_len(block) > V || (!listed && c@.len() >= N) ==> after == c@
                    &&& text::byte_len(block) <= V && !listed && c@.len() < N ==> {
                        &&& after.len() == c@.len() + 1
                        &&& forall|j: int| 0 <= j < c@.len() ==> #[trigger] after[j] == c@[j]
                        &&& after[c@.len() as int].labels == block
                        &&& forall|b: int|
                            0 <= b < B
                                ==> (#[trigger] after[c@.len() as int].value.buckets[b] - 0 - if (b
                                == 0 || c.bounds_held()[b - 1] < v) && v <= c.bounds_held()[b] {
                                1int
                            } else {
                                0int
                            }) % 0x1_0000_0000_0000_0000 == 0
                        &&& (after[c@.len() as int].value.sum - 0 - v)
                            % 0x1_0000_0000_0000_0000 == 0
                        &&& (after[c@.len() as int].value.count - 0 - 1)
                            % 0x1_0000_0000_0000_0000 == 0
                    }
                    &&& text::byte_len(block) <= V && listed ==> exists|i: int|
                        {
                            &&& 0 <= i < c@.len()
                            &&& (#[trigger] c@[i]).labels == block
                            &&& forall|j: int| 0 <= j < i ==> (#[trigger] c@[j]).labels != block
                            &&& after.len() == c@.len()
                            &&& after[i].labels == block
                            &&& forall|b: int|
                            0 <= b < B
                                ==> (#[trigger] after[i].value.buckets[b] - c@[i].value.buckets[b] - if (b
                                == 0 || c.bounds_held()[b - 1] < v) && v <= c.bounds_held()[b] {
                                1int
                            } else {
                                0int
                            }) % 0x1_0000_0000_0000_0000 == 0
                        &&& (after[i].value.sum - c@[i].value.sum - v)
                            % 0x1_0000_0000_0000_0000 == 0
                        &&& (after[i].value.count - c@[i].value.count - 1)
                            % 0x1_0000_0000_0000_0000 == 0
                            &&& forall|j: int|
                                0 <= j < c@.len() && j != i ==> #[trigger] after[j] == c@[j]
                        }
                } by {
        let block = labels::block_text(c.names_held(), Seq::new(K as nat, |i: int| values@[i]@));
        assert(text::strs_view(values@) =~= Seq::new(K as nat, |i: int| values@[i]@));
        lemma_look_up(c@, N as nat, V as nat, block);
        if let Some(i) = slots::slot(slots::labels_of(c@), N as nat, V as nat, block) {
            let held = slots::value_at(c@, i, IntReading::zero(B as nat));
            c.law_model_is_valid();
            if i < c@.len() {
                assert(c.hist_model().series[i].reading.buckets.len() == B);
            }
            crate::series::law_observations_are_counted_by_range(held, c.bounds_held(), v);
        }
        if let Some(i) = slots::slot(slots::labels_of(c@), N as nat, V as nat, block) {
            if i < c@.len() {
                assert(c@[i].labels == block);
            }
        }
    }
}

/// What a renderer sees of a labeled collection is what each series itself
/// holds, behind its own label block, in the order of creation.
pub proof fn law_renderers_see_each_series_itself<
    const N: usize,
    const B: usize,
    const K: usize,
    const V: usize,
>(c: CounterVec<N, K, V>, g: GaugeVec<N, K, V>, h: IntHistogramVec<N, B, K, V>)
    ensures
        c.series_model().len() == c@.len(),
        forall|i: int|
            0 <= i < c@.len() ==> (#[trigger] c.series_model()[i]).labels == Some(c@[i].labels)
                && c.series_model()[i].value == c@[i].value,
        g.series_model().len() == g@.len(),
        forall|i: int|
            0 <= i < g@.len() ==> (#[trigger] g.series_model()[i]).labels == Some(g@[i].labels)
                && g.series_model()[i].value == Value::I64(g@[i].value),
        h.hist_model().bounds.len() == h.bounds_held().len(),
        forall|b: int|
            0 <= b < h.bounds_held().len() ==> #[trigger] h.hist_model().bounds[b] == Value::U64(
                h.bounds_held()[b],
            ),
        h.hist_model().series.len() == h@.len(),
        forall|i: int|
            0 <= i < h@.len() ==> {
                let seen = #[trigger] h.hist_model().series[i];
                &&& seen.labels == Some(h@[i].labels)
                &&& seen.reading.buckets == h@[i].value.buckets
                &&& seen.reading.sum == Value::U64(h@[i].value.sum)
                &&& seen.reading.count == h@[i].value.count
            },
{
}

/// The same of the values that a renderer reads by index.
pub proof fn law_values_are_read_by_index<const N: usize, const K: usize, const V: usize>()
    ensures
        forall|c: &CounterVec<N, K, V>, i: usize, n: u64|
            i < c@.len() && #[trigger] call_ensures(
                <CounterVec<N, K, V> as ErasedCounterVec>::value,
                (c, i),
                n,
            ) ==> n == c@[i as int].value,
        forall|g: &GaugeVec<N, K, V>, i: usize, v: Value|
            i < g@.len() && #[trigger] call_ensures(
                <GaugeVec<N, K, V> as ErasedGaugeVec>::value,
                (g, i),
                v,
            ) ==> v == Value::I64(g@[i as int].value),
        forall|c: &CounterVec<N, K, V>, n: usize| #[trigger]
            call_ensures(CounterVec::<N, K, V>::series_count, (c,), n) ==> n == c@.len() && n <= N,
        forall|g: &GaugeVec<N, K, V>, n: usize| #[trigger]
            call_ensures(GaugeVec::<N, K, V>::series_count, (g,), n) ==> n == g@.len() && n <= N,
{
}

/// An update through a handle to a labeled counter moves its series by exactly
/// that much, and through a sink does nothing; a sink reads as zero.
pub proof fn law_counter_handles_move_their_series<'a>()
    ensures
        forall|s: &CounterSeries<'a>, n: u64| #[trigger]
            call_ensures(CounterSeries::get, (s,), n) ==> n == match s.counter {
                Some(held) => held@,
                None => 0,
            },
        forall|s: &CounterSeries<'a>| #[trigger]
            s.reading() == match s.counter {
                Some(held) => held@,
                None => 0,
            },
        forall|s: &mut CounterSeries<'a>| #[trigger]
            call_ensures(CounterSeries::inc, (s,), ()) ==> {
                let after = *final(s);
                &&& after.counter is Some <==> s.counter is Some
                &&& s.counter is Some ==> *final(after.counter->Some_0) == *final(s.counter->Some_0)
                &&& s.counter is Some
                    ==> (after.reading() - s.reading() - 1) % 0x1_0000_0000_0000_0000 == 0
                &&& s.counter is None ==> after.reading() == 0
            },
        forall|s: &mut CounterSeries<'a>, n: u64| #[trigger]
            call_ensures(CounterSeries::inc_by, (s, n), ()) ==> {
                let after = *final(s);
                &&& after.counter is Some <==> s.counter is Some
                &&& s.counter is Some ==> *final(after.counter->Some_0) == *final(s.counter->Some_0)
                &&& s.counter is Some
                    ==> (after.reading() - s.reading() - n) % 0x1_0000_0000_0000_0000 == 0
                &&& s.counter is None ==> after.reading() == 0
            },
        forall|s: &mut CounterSeries<'a>| #[trigger]
            call_ensures(CounterSeries::reset, (s,), ()) ==> {
                let after = *final(s);
                &&& after.counter is Some <==> s.counter is Some
                &&& s.counter is Some ==> *final(after.counter->Some_0) == *final(s.counter->Some_0)
                &&& s.counter is Some ==> after.reading() == 0
                &&& s.counter is None ==> after.reading() == 0
            },
{
}

/// An update through a handle to a labeled gauge moves its series by exactly
/// that much, and through a sink does nothing; a sink reads as zero.
pub proof fn law_gauge_handles_move_their_series<'a>()
    ensures
        forall|s: &GaugeSeries<'a>, n: i64| #[trigger]
            call_ensures(GaugeSeries::get, (s,), n) ==> n == match s.gauge {
                Some(held) => held@,
                None => 0,
            },
        forall|s: &GaugeSeries<'a>| #[trigger]
            s.reading() == match s.gauge {
                Some(held) => held@,
                None => 0,
            },
        forall|s: &mut GaugeSeries<'a>, v: i64| #[trigger]
            call_ensures(GaugeSeries::set, (s, v), ()) ==> {
                let after = *final(s);
                &&& after.gauge is Some <==> s.gauge is Some
                &&& s.gauge is Some ==> *final(after.gauge->Some_0) == *final(s.gauge->Some_0)
                &&& s.gauge is Some ==> after.reading() == v
                &&& s.gauge is None ==> after.reading() == 0
            },
        forall|s: &mut GaugeSeries<'a>, d: i64| #[trigger]
            call_ensures(GaugeSeries::add, (s, d), ()) ==> {
                let after = *final(s);
                &&& after.gauge is Some <==> s.gauge is Some
                &&& s.gauge is Some ==> *final(after.gauge->Some_0) == *final(s.gauge->Some_0)
                &&& s.gauge is Some
                    ==> (after.reading() - s.reading() - d) % 0x1_0000_0000_0000_0000 == 0
                &&& s.gauge is None ==> after.reading() == 0
            },
        forall|s: &mut GaugeSeries<'a>, d: i64| #[trigger]
            call_ensures(GaugeSeries::sub, (s, d), ()) ==> {
                let after = *final(s);
                &&& after.gauge is Some <==> s.gauge is Some
                &&& s.gauge is Some ==> *final(after.gauge->Some_0) == *final(s.gauge->Some_0)
                &&& s.gauge is Some
                    ==> (after.reading() - s.reading() + d) % 0x1_0000_0000_0000_0000 == 0
                &&& s.gauge is None ==> after.reading() == 0
            },
        forall|s: &mut GaugeSeries<'a>| #[trigger]
            call_ensures(GaugeSeries::inc, (s,), ()) ==> {
                let after = *final(s);
                &&& after.gauge is Some <==> s.gauge is Some
                &&& s.gauge is Some ==> *final(after.gauge->Some_0) == *final(s.gauge->Some_0)
                &&& s.gauge is Some
                    ==> (after.reading() - s.reading() - 1) % 0x1_0000_0000_0000_0000 == 0
                &&& s.gauge is None ==> after.reading() == 0
            },
        forall|s: &mut GaugeSeries<'a>| #[trigger]
            call_ensures(GaugeSeries::dec, (s,), ()) ==> {
                let after = *final(s);
                &&& after.gauge is Some <==> s.gauge is Some
                &&& s.gauge is Some ==> *final(after.gauge->Some_0) == *final(s.gauge->Some_0)
                &&& s.gauge is Some
                    ==> (after.reading() - s.reading() + 1) % 0x1_0000_0000_0000_0000 == 0
                &&& s.gauge is None ==> after.reading() == 0
            },
{
}

/// A labeled counter begins without series, with the label names given. The
/// index of label values is that of their series, which is created where it is
/// missing; and an index reaches that series and no other.
pub proof fn law_counter_indexes_reach_their_series<
    'a,
    const N: usize,
    const K: usize,
    const V: usize,
>()
    ensures
        forall|names: &'static [&'static str; K], v: CounterVec<N, K, V>| #[trigger]
            call_ensures(CounterVec::<N, K, V>::new, (names,), v) ==> {
                &&& v@ == Seq::<SeriesModel<u64>>::empty()
                &&& v.names_held().len() == K
                &&& forall|i: int| 0 <= i < K ==> #[trigger] v.names_held()[i] == names@[i]@
            },
        forall|c: &mut CounterVec<N, K, V>, values: &[&str; K], r: Option<usize>| #[trigger]
            call_ensures(CounterVec::<N, K, V>::index_of, (c, values), r) ==> {
                let block = labels::block_text(
                    c.names_held(),
                    Seq::new(K as nat, |i: int| values@[i]@),
                );
                let listed = exists|i: int| 0 <= i < c@.len() && (#[trigger] c@[i]).labels == block;
                &&& (*final(c)).names_held() == c.names_held()
                &&& r is Some <==> text::byte_len(block) <= V && (listed || c@.len() < N)
                &&& r is None || listed ==> (*final(c))@ == c@
                &&& r matches Some(i) ==> if listed {
                    &&& i < c@.len()
                    &&& c@[i as int].labels == block
                    &&& forall|j: int| 0 <= j < i ==> (#[trigger] c@[j]).labels != block
                } else {
                    &&& i == c@.len()
                    &&& (*final(c))@ == c@.push(SeriesModel { labels: block, value: 0 })
                }
            },
        forall|c: &'a mut CounterVec<N, K, V>, index: usize, s: CounterSeries<'a>|
            index < c@.len() && #[trigger] call_ensures(
                CounterVec::<N, K, V>::at,
                (c, index),
                s,
            ) ==> {
                &&& (*final(c)).names_held() == c.names_held()
                &&& s.counter is Some
                &&& s.reading() == c@[index as int].value
                &&& (*final(c))@ == c@.update(
                    index as int,
                    SeriesModel {
                        labels: c@[index as int].labels,
                        value: (*final(s.counter->Some_0))@,
                    },
                )
            },
{
    assert forall|c: &mut CounterVec<N, K, V>, values: &[&str; K], r: Option<usize>| #[trigger]
        call_ensures(CounterVec::<N, K, V>::index_of, (c, values), r) implies {
                let block = labels::block_text(
                    c.names_held(),
                    Seq::new(K as nat, |i: int| values@[i]@),
                );
                let listed = exists|i: int| 0 <= i < c@.len() && (#[trigger] c@[i]).labels == block;
                &&& (*final(c)).names_held() == c.names_held()
                &&& r is Some <==> text::byte_len(block) <= V && (listed || c@.len() < N)
                &&& r is None || listed ==> (*final(c))@ == c@
                &&& r matches Some(i) ==> if listed {
                    &&& i < c@.len()
                    &&& c@[i as int].labels == block
                    &&& forall|j: int| 0 <= j < i ==> (#[trigger] c@[j]).labels != block
                } else {
                    &&& i == c@.len()
                    &&& (*final(c))@ == c@.push(SeriesModel { labels: block, value: 0 })
                }
            } by {
        let block = labels::block_text(c.names_held(), Seq::new(K as nat, |i: int| values@[i]@));
        assert(text::strs_view(values@) =~= Seq::new(K as nat, |i: int| values@[i]@));
        lemma_look_up(c@, N as nat, V as nat, block);
        slots::lemma_found(c@, N as nat, V as nat, block);
    }
}

/// A labeled gauge begins without series, with the label names given. The
/// index of label values is that of their series, which is created where it is
/// missing; and an index reaches that series and no other.
pub proof fn law_gauge_indexes_reach_their_series<
    'a,
    const N: usize,
    const K: usize,
    const V: usize,
>()
    ensures
        forall|names: &'static [&'static str; K], v: GaugeVec<N, K, V>| #[trigger]
            call_ensures(GaugeVec::<N, K, V>::new, (names,), v) ==> {
                &&& v@ == Seq::<SeriesModel<i64>>::empty()
                &&& v.names_held().len() == K
                &&& forall|i: int| 0 <= i < K ==> #[trigger] v.names_held()[i] == names@[i]@
            },
        forall|c: &mut GaugeVec<N, K, V>, values: &[&str; K], r: Option<usize>| #[trigger]
            call_ensures(GaugeVec::<N, K, V>::index_of, (c, values), r) ==> {
                let block = labels::block_text(
                    c.names_held(),
                    Seq::new(K as nat, |i: int| values@[i]@),
                );
                let listed = exists|i: int| 0 <= i < c@.len() && (#[trigger] c@[i]).labels == block;
                &&& (*final(c)).names_held() == c.names_held()
                &&& r is Some <==> text::byte_len(block) <= V && (listed || c@.len() < N)
                &&& r is None || listed ==> (*final(c))@ == c@
                &&& r matches Some(i) ==> if listed {
                    &&& i < c@.len()
                    &&& c@[i as int].labels == block
                    &&& forall|j: int| 0 <= j < i ==> (#[trigger] c@[j]).labels != block
                } else {
                    &&& i == c@.len()
                    &&& (*final(c))@ == c@.push(SeriesModel { labels: block, value: 0 })
                }
            },
        forall|c: &'a mut GaugeVec<N, K, V>, index: usize, s: GaugeSeries<'a>|
            index < c@.len() && #[trigger] call_ensures(
                GaugeVec::<N, K, V>::at,
                (c, index),
                s,
            ) ==> {
                &&& (*final(c)).names_held() == c.names_held()
                &&& s.gauge is Some
                &&& s.reading() == c@[index as int].value
                &&& (*final(c))@ == c@.update(
                    index as int,
                    SeriesModel {
                        labels: c@[index as int].labels,
                        value: (*final(s.gauge->Some_0))@,
                    },
                )
            },
{
    assert forall|c: &mut GaugeVec<N, K, V>, values: &[&str; K], r: Option<usize>| #[trigger]
        call_ensures(GaugeVec::<N, K, V>::index_of, (c, values), r) implies {
                let block = labels::block_text(
                    c.names_held(),
                    Seq::new(K as nat, |i: int| values@[i]@),
                );
                let listed = exists|i: int| 0 <= i < c@.len() && (#[trigger] c@[i]).labels == block;
                &&& (*final(c)).names_held() == c.names_held()
                &&& r is Some <==> text::byte_len(block) <= V && (listed || c@.len() < N)
                &&& r is None || listed ==> (*final(c))@ == c@
                &&& r matches Some(i) ==> if listed {
                    &&& i < c@.len()
                    &&& c@[i as int].labels == block
                    &&& forall|j: int| 0 <= j < i ==> (#[trigger] c@[j]).labels != block
                } else {
                    &&& i == c@.len()
                    &&& (*final(c))@ == c@.push(SeriesModel { labels: block, value: 0 })
                }
            } by {
        let block = labels::block_text(c.names_held(), Seq::new(K as nat, |i: int| values@[i]@));
        assert(text::strs_view(values@) =~= Seq::new(K as nat, |i: int| values@[i]@));
        lemma_look_up(c@, N as nat, V as nat, block);
        slots::lemma_found(c@, N as nat, V as nat, block);
    }
}

/// A labeled histogram begins without series, with the label names given. The
/// index of label values is that of their series, which is created where it is
/// missing; and an index reaches that series and no other.
pub proof fn law_histogram_indexes_reach_their_series<
    'a,
    const N: usize,
    const B: usize,
    const K: usize,
    const V: usize,
>()
    ensures
        forall|
            names: &'static [&'static str; K],
            bounds: &'static [u64; B],
            v: IntHistogramVec<N, B, K, V>,
        | #[trigger]
            call_ensures(IntHistogramVec::<N, B, K, V>::new, (names, bounds), v) ==> {
                &&& v@ == Seq::<SeriesModel<IntReading>>::empty()
                &&& v.bounds_held() == bounds@
                &&& v.names_held().len() == K
                &&& forall|i: int| 0 <= i < K ==> #[trigger] v.names_held()[i] == names@[i]@
            },
        forall|c: &mut IntHistogramVec<N, B, K, V>, values: &[&str; K], r: Option<usize>| #[trigger]
            call_ensures(IntHistogramVec::<N, B, K, V>::index_of, (c, values), r) ==> {
                let block = labels::block_text(
                    c.names_held(),
                    Seq::new(K as nat, |i: int| values@[i]@),
                );
                let listed = exists|i: int| 0 <= i < c@.len() && (#[trigger] c@[i]).labels == block;
                &&& (*final(c)).names_held() == c.names_held()
                &&& (*final(c)).bounds_held() == c.bounds_held()
                &&& r is Some <==> text::byte_len(block) <= V && (listed || c@.len() < N)
                &&& r is None || listed ==> (*final(c))@ == c@
                &&& r matches Some(i) ==> if listed {
                    &&& i < c@.len()
                    &&& c@[i as int].labels == block
                    &&& forall|j: int| 0 <= j < i ==> (#[trigger] c@[j]).labels != block
                } else {
                    &&& i == c@.len()
                    &&& (*final(c))@ == c@.push(
                        SeriesModel { labels: block, value: IntReading::zero(B as nat) },
                    )
                }
            },
        forall|c: &'a mut IntHistogramVec<N, B, K, V>, index: usize, s: IntHistSeries<'a, B>|
            index < c@.len() && #[trigger] call_ensures(
                IntHistogramVec::<N, B, K, V>::at,
                (c, index),
                s,
            ) ==> {
                &&& (*final(c)).names_held() == c.names_held()
                &&& (*final(c)).bounds_held() == c.bounds_held()
                &&& s.bounds@ == c.bounds_held()
                &&& s.cells is Some
                &&& s.reading() == c@[index as int].value
                &&& (*final(c))@ == c@.update(
                    index as int,
                    SeriesModel {
                        labels: c@[index as int].labels,
                        value: (*final(s.cells->Some_0))@,
                    },
                )
            },
{
    assert forall|
        c: &mut IntHistogramVec<N, B, K, V>,
        values: &[&str; K],
        r: Option<usize>,
    | #[trigger]
        call_ensures(IntHistogramVec::<N, B, K, V>::index_of, (c, values), r) implies {
                let block = labels::block_text(
                    c.names_held(),
                    Seq::new(K as nat, |i: int| values@[i]@),
                );
                let listed = exists|i: int| 0 <= i < c@.len() && (#[trigger] c@[i]).labels == block;
                &&& (*final(c)).names_held() == c.names_held()
                &&& (*final(c)).bounds_held() == c.bounds_held()
                &&& r is Some <==> text::byte_len(block) <= V && (listed || c@.len() < N)
                &&& r is None || listed ==> (*final(c))@ == c@
                &&& r matches Some(i) ==> if listed {
                    &&& i < c@.len()
                    &&& c@[i as int].labels == block
                    &&& forall|j: int| 0 <= j < i ==> (#[trigger] c@[j]).labels != block
                } else {
                    &&& i == c@.len()
                    &&& (*final(c))@ == c@.push(
                        SeriesModel { labels: block, value: IntReading::zero(B as nat) },
                    )
                }
            } by {
        let block = labels::block_text(c.names_held(), Seq::new(K as nat, |i: int| values@[i]@));
        assert(text::strs_view(values@) =~= Seq::new(K as nat, |i: int| values@[i]@));
        lemma_look_up(c@, N as nat, V as nat, block);
        slots::lemma_found(c@, N as nat, V as nat, block);
    }
}

/// An observation through a handle to a histogram is counted by range in its
/// series, and through a sink nowhere; a handle reads the series, and a sink
/// zero throughout.
pub proof fn law_histogram_handles_count_by_range<'a, const B: usize>()
    ensures
        forall|s: &mut IntHistSeries<'a, B>, v: u64|
            s.cells is Some && (forall|i: int, j: int|
                0 <= i < j < B ==> s.bounds@[i] < s.bounds@[j]) && s.reading().buckets.len() == B
                && #[trigger] call_ensures(IntHistSeries::<'a, B>::observe, (s, v), ()) ==> {
                let after = (*final(s)).reading();
                &&& (*final(s)).bounds == s.bounds
                &&& (*final(s)).cells is Some
                &&& *final((*final(s)).cells->Some_0) == *final(s.cells->Some_0)
                &&& forall|b: int|
                    0 <= b < B ==> (#[trigger] after.buckets[b] - s.reading().buckets[b] - if (b
                        == 0 || s.bounds@[b - 1] < v) && v <= s.bounds@[b] {
                        1int
                    } else {
                        0int
                    }) % 0x1_0000_0000_0000_0000 == 0
                &&& (after.sum - s.reading().sum - v) % 0x1_0000_0000_0000_0000 == 0
                &&& (after.count - s.reading().count - 1) % 0x1_0000_0000_0000_0000 == 0
            },
        forall|s: &mut IntHistSeries<'a, B>, v: u64|
            s.cells is None && #[trigger] call_ensures(
                IntHistSeries::<'a, B>::observe,
                (s, v),
                (),
            ) ==> (*final(s)).cells is None && (*final(s)).bounds == s.bounds,
        forall|s: &IntHistSeries<'a, B>| #[trigger]
            s.reading() == match s.cells {
                Some(cells) => cells@,
                None => IntReading { buckets: Seq::new(B as nat, |i: int| 0u64), sum: 0, count: 0 },
            },
        forall|s: &IntHistSeries<'a, B>, i: usize, n: u64|
            i < B && #[trigger] call_ensures(IntHistSeries::<'a, B>::bucket, (s, i), n) ==> n
                == s.reading().buckets[i as int],
        forall|s: &IntHistSeries<'a, B>, n: u64| #[trigger]
            call_ensures(IntHistSeries::<'a, B>::count, (s,), n) ==> n == s.reading().count,
        forall|s: &IntHistSeries<'a, B>, n: u64| #[trigger]
            call_ensures(IntHistSeries::<'a, B>::sum, (s,), n) ==> n == s.reading().sum,
        forall|s: &IntHistSeries<'a, B>, bounds: &'static [u64]| #[trigger]
            call_ensures(IntHistSeries::<'a, B>::bounds, (s,), bounds) ==> bounds@ == s.bounds@,
{
    assert forall|s: &mut IntHistSeries<'a, B>, v: u64|
        s.cells is Some && (forall|i: int, j: int|
            0 <= i < j < B ==> s.bounds@[i] < s.bounds@[j]) && s.reading().buckets.len() == B
            && #[trigger] call_ensures(IntHistSeries::<'a, B>::observe, (s, v), ()) implies {
        let after = (*final(s)).reading();
        &&& (*final(s)).bounds == s.bounds
        &&& (*final(s)).cells is Some
        &&& *final((*final(s)).cells->Some_0) == *final(s.cells->Some_0)
        &&& forall|b: int|
            0 <= b < B ==> (#[trigger] after.buckets[b] - s.reading().buckets[b] - if (b == 0
                || s.bounds@[b - 1] < v) && v <= s.bounds@[b] {
                1int
            } else {
                0int
            }) % 0x1_0000_0000_0000_0000 == 0
        &&& (after.sum - s.reading().sum - v) % 0x1_0000_0000_0000_0000 == 0
        &&& (after.count - s.reading().count - 1) % 0x1_0000_0000_0000_0000 == 0
    } by {
        crate::series::law_observations_are_counted_by_range(s.reading(), s.bounds@, v);
    }
}

/// A histogram begins with zero in every bucket, sum and count, counts each
/// observation by range, and is read as it stands.
pub proof fn law_histograms_count_by_range<const B: usize>()
    ensures
        forall|bounds: &'static [u64; B], h: IntHistogram<B>| #[trigger]
            call_ensures(IntHistogram::<B>::new, (bounds,), h) ==> {
                &&& h.bounds_held() == bounds@
                &&& h@.sum == 0
                &&& h@.count == 0
                &&& h@.buckets == Seq::new(B as nat, |i: int| 0u64)
            },
        forall|h: &mut IntHistogram<B>, v: u64|
            (forall|i: int, j: int| 0 <= i < j < B ==> h.bounds_held()[i] < h.bounds_held()[j])
                && #[trigger] call_ensures(IntHistogram::<B>::observe, (h, v), ()) ==> {
                let after = (*final(h))@;
                &&& (*final(h)).bounds_held() == h.bounds_held()
                &&& forall|b: int|
                    0 <= b < B ==> (#[trigger] after.buckets[b] - h@.buckets[b] - if (b == 0
                        || h.bounds_held()[b - 1] < v) && v <= h.bounds_held()[b] {
                        1int
                    } else {
                        0int
                    }) % 0x1_0000_0000_0000_0000 == 0
                &&& (after.sum - h@.sum - v) % 0x1_0000_0000_0000_0000 == 0
                &&& (after.count - h@.count - 1) % 0x1_0000_0000_0000_0000 == 0
            },
        forall|h: &IntHistogram<B>, i: usize, n: u64|
            i < B && #[trigger] call_ensures(IntHistogram::<B>::bucket, (h, i), n) ==> n
                == h@.buckets[i as int],
        forall|h: &IntHistogram<B>, n: u64| #[trigger]
            call_ensures(IntHistogram::<B>::count, (h,), n) ==> n == h@.count,
        forall|h: &IntHistogram<B>, n: u64| #[trigger]
            call_ensures(IntHistogram::<B>::sum, (h,), n) ==> n == h@.sum,
        forall|h: &IntHistogram<B>, bounds: &'static [u64]| #[trigger]
            call_ensures(IntHistogram::<B>::bounds, (h,), bounds) ==> bounds@ == h.bounds_held(),
        forall|h: &IntHistogram<B>| {
            let seen = #[trigger] h.hist_model();
            &&& seen.bounds == Seq::new(B as nat, |i: int| Value::U64(h.bounds_held()[i]))
            &&& seen.reading.buckets == h@.buckets
            &&& seen.reading.sum == Value::U64(h@.sum)
            &&& seen.reading.count == h@.count
        },
{
    assert forall|h: &IntHistogram<B>| {
        let seen = #[trigger] h.hist_model();
        &&& seen.bounds == Seq::new(B as nat, |i: int| Value::U64(h.bounds_held()[i]))
        &&& seen.reading.buckets == h@.buckets
        &&& seen.reading.sum == Value::U64(h@.sum)
        &&& seen.reading.count == h@.count
    } by {
        h.law_model_is_valid();
        assert(h.hist_model().bounds =~= Seq::new(
            B as nat,
            |i: int| Value::U64(h.bounds_held()[i]),
        ));
    }
    assert forall|h: &mut IntHistogram<B>, v: u64|
        (forall|i: int, j: int| 0 <= i < j < B ==> h.bounds_held()[i] < h.bounds_held()[j])
            && #[trigger] call_ensures(IntHistogram::<B>::observe, (h, v), ()) implies {
        let after = (*final(h))@;
        &&& (*final(h)).bounds_held() == h.bounds_held()
        &&& forall|b: int|
            0 <= b < B ==> (#[trigger] after.buckets[b] - h@.buckets[b] - if (b == 0
                || h.bounds_held()[b - 1] < v) && v <= h.bounds_held()[b] {
                1int
            } else {
                0int
            }) % 0x1_0000_0000_0000_0000 == 0
        &&& (after.sum - h@.sum - v) % 0x1_0000_0000_0000_0000 == 0
        &&& (after.count - h@.count - 1) % 0x1_0000_0000_0000_0000 == 0
    } by {
        h.law_model_is_valid();
        assert(h.hist_model().reading.buckets.len() == B);
        crate::series::law_observations_are_counted_by_range(h@, h.bounds_held(), v);
    }
}

/// Bucket cells begin at zero, and recording bucket `i` counts one in it, if it
/// is a finite one, and one in the count.
pub proof fn law_bucket_cells_count<const B: usize>()
    ensures
        forall|c: BucketCells<B>| #[trigger]
            call_ensures(BucketCells::<B>::new, (), c) ==> c@.count == 0 && c@.buckets == Seq::new(
                B as nat,
                |i: int| 0u64,
            ),
        forall|c: &mut BucketCells<B>, i: usize|
            c@.buckets.len() == B && #[trigger] call_ensures(
                BucketCells::<B>::record,
                (c, i),
                (),
            ) ==> {
                let after = (*final(c))@;
                &&& after.buckets.len() == B
                &&& forall|b: int|
                    0 <= b < B ==> (#[trigger] after.buckets[b] - c@.buckets[b] - if b == i {
                        1int
                    } else {
                        0int
                    }) % 0x1_0000_0000_0000_0000 == 0
                &&& (after.count - c@.count - 1) % 0x1_0000_0000_0000_0000 == 0
            },
        forall|c: &BucketCells<B>, i: usize, n: u64|
            i < B && #[trigger] call_ensures(BucketCells::<B>::bucket, (c, i), n) ==> n
                == c@.buckets[i as int],
        forall|c: &BucketCells<B>, n: u64| #[trigger]
            call_ensures(BucketCells::<B>::count, (c,), n) ==> n == c@.count,
{
}
/// What a renderer reads of a labeled collection by index is what the series at
/// that index holds, and the label block that it appends is that of the series.
pub proof fn law_labels_are_read_by_index<
    const N: usize,
    const B: usize,
    const K: usize,
    const V: usize,
>()
    ensures
        forall|c: &CounterVec<N, K, V>, i: usize, out: &mut String, r: Result<(), FormatError>|
            i < c@.len() && #[trigger] call_ensures(
                <CounterVec<N, K, V> as ErasedCounterVec>::write_labels,
                (c, i, out),
                r,
            ) ==> r is Ok && (*final(out))@ == out@ + c@[i as int].labels,
        forall|c: &GaugeVec<N, K, V>, i: usize, out: &mut String, r: Result<(), FormatError>|
            i < c@.len() && #[trigger] call_ensures(
                <GaugeVec<N, K, V> as ErasedGaugeVec>::write_labels,
                (c, i, out),
                r,
            ) ==> r is Ok && (*final(out))@ == out@ + c@[i as int].labels,
        forall|
            c: &IntHistogramVec<N, B, K, V>,
            i: usize,
            out: &mut String,
            r: Result<(), FormatError>,
        |
            i < c@.len() && #[trigger] call_ensures(
                <IntHistogramVec<N, B, K, V> as ErasedHistogramVec>::write_labels,
                (c, i, out),
                r,
            ) ==> r is Ok && (*final(out))@ == out@ + c@[i as int].labels,
        forall|c: &IntHistogramVec<N, B, K, V>, i: usize, b: usize, n: u64|
            i < c@.len() && b < c.bounds_held().len() && #[trigger] call_ensures(
                <IntHistogramVec<N, B, K, V> as ErasedHistogramVec>::bucket,
                (c, i, b),
                n,
            ) ==> n == c@[i as int].value.buckets[b as int],
        forall|c: &IntHistogramVec<N, B, K, V>, i: usize, n: u64|
            i < c@.len() && #[trigger] call_ensures(
                <IntHistogramVec<N, B, K, V> as ErasedHistogramVec>::total_count,
                (c, i),
                n,
            ) ==> n == c@[i as int].value.count,
        forall|c: &IntHistogramVec<N, B, K, V>, i: usize, v: Value|
            i < c@.len() && #[trigger] call_ensures(
                <IntHistogramVec<N, B, K, V> as ErasedHistogramVec>::sum,
                (c, i),
                v,
            ) ==> v == Value::U64(c@[i as int].value.sum),
        forall|c: &IntHistogramVec<N, B, K, V>, b: usize, v: Value|
            b < c.bounds_held().len() && #[trigger] call_ensures(
                <IntHistogramVec<N, B, K, V> as ErasedHistogramVec>::bound,
                (c, b),
                v,
            ) ==> v == Value::U64(c.bounds_held()[b as int]),
        forall|c: &IntHistogramVec<N, B, K, V>, n: usize| #[trigger]
            call_ensures(
                <IntHistogramVec<N, B, K, V> as ErasedHistogramVec>::bucket_count,
                (c,),
                n,
            ) ==> n == c.bounds_held().len(),
        forall|c: &IntHistogramVec<N, B, K, V>, n: usize| #[trigger]
            call_ensures(IntHistogramVec::<N, B, K, V>::series_count, (c,), n) ==> n == c@.len()
                && n <= N,
        forall|c: &IntHistogramVec<N, B, K, V>, bounds: &'static [u64]| #[trigger]
            call_ensures(IntHistogramVec::<N, B, K, V>::bounds, (c,), bounds) ==> bounds@
                == c.bounds_held(),
{
}

/// A snapshot of a histogram, or of a series of it, is its buckets, sum and
/// count together, in the first slots of the buffer; it fails, and changes
/// nothing, exactly where the buffer is too short.
pub proof fn law_snapshots_are_whole_readings<
    'a,
    const N: usize,
    const B: usize,
    const K: usize,
    const V: usize,
>()
    ensures
        forall|
            h: &IntHistogram<B>,
            buffer: &'a mut [u64],
            r: Result<HistogramSnapshot<'a>, HistogramSnapshotError>,
        | #[trigger]
            call_ensures(<IntHistogram<B> as ErasedHistogram>::snapshot, (h, buffer), r) ==> {
                let n = h.bounds_held().len();
                &&& r is Ok <==> n <= buffer@.len()
                &&& r matches Ok(p) ==> {
                    &&& p.buckets@ == h@.buckets
                    &&& p.sum == Value::U64(h@.sum)
                    &&& p.count == h@.count
                    &&& (*final(buffer))@ == h@.buckets + buffer@.skip(n as int)
                }
                &&& r matches Err(e) ==> {
                    &&& e.required == n
                    &&& e.capacity == buffer@.len()
                    &&& (*final(buffer))@ == buffer@
                }
            },
        forall|
            h: &IntHistogramVec<N, B, K, V>,
            i: usize,
            buffer: &'a mut [u64],
            r: Result<HistogramSnapshot<'a>, HistogramSnapshotError>,
        |
            i < h@.len() && #[trigger] call_ensures(
                <IntHistogramVec<N, B, K, V> as ErasedHistogramVec>::snapshot,
                (h, i, buffer),
                r,
            ) ==> {
                let n = h.bounds_held().len();
                let held = h@[i as int].value;
                &&& r is Ok <==> n <= buffer@.len()
                &&& r matches Ok(p) ==> {
                    &&& p.buckets@ == held.buckets
                    &&& p.sum == Value::U64(held.sum)
                    &&& p.count == held.count
                    &&& (*final(buffer))@ == held.buckets + buffer@.skip(n as int)
                }
                &&& r matches Err(e) ==> {
                    &&& e.required == n
                    &&& e.capacity == buffer@.len()
                    &&& (*final(buffer))@ == buffer@
                }
            },
        forall|buffer: &'a mut [u64], n: usize, r: Result<&'a mut [u64], HistogramSnapshotError>|
            #[trigger]
            call_ensures(snapshot_bucket_prefix, (buffer, n), r) ==> {
                &&& r is Ok <==> n <= buffer@.len()
                &&& r matches Ok(prefix) ==> prefix@ == buffer@.take(n as int)
                &&& r matches Err(e) ==> e.required == n && e.capacity == buffer@.len()
            },
{
}

/// Any metric can be updated at any time, by any value and under any label
/// values.
pub proof fn law_updates_are_always_possible<
    'a,
    const N: usize,
    const B: usize,
    const K: usize,
    const V: usize,
>()
    ensures
        forall|c: &'a mut Counter| #[trigger]
            call_requires(Counter::inc, (c,)),
        forall|c: &'a mut Counter, n: u64| #[trigger]
            call_requires(Counter::inc_by, (c, n)),
        forall|c: &'a mut Counter| #[trigger]
            call_requires(Counter::reset, (c,)),
        forall|g: &'a mut Gauge, v: i64| #[trigger]
            call_requires(Gauge::set, (g, v)),
        forall|g: &'a mut Gauge, v: i64| #[trigger]
            call_requires(Gauge::add, (g, v)),
        forall|g: &'a mut Gauge, v: i64| #[trigger]
            call_requires(Gauge::sub, (g, v)),
        forall|g: &'a mut Gauge| #[trigger]
            call_requires(Gauge::inc, (g,)),
        forall|g: &'a mut Gauge| #[trigger]
            call_requires(Gauge::dec, (g,)),
        forall|h: &'a mut IntHistogram<B>, v: u64| #[trigger]
            call_requires(IntHistogram::<B>::observe, (h, v)),
        forall|c: &'a mut CounterVec<N, K, V>, values: &'a [&'a str; K]| #[trigger]
            call_requires(CounterVec::<N, K, V>::with, (c, values)),
        forall|c: &'a mut CounterVec<N, K, V>, values: &'a [&'a str; K]| #[trigger]
            call_requires(CounterVec::<N, K, V>::index_of, (c, values)),
        forall|c: &'a mut CounterVec<N, K, V>, values: &'a [&'a str; K]| #[trigger]
            call_requires(CounterVec::<N, K, V>::inc, (c, values)),
        forall|c: &'a mut CounterVec<N, K, V>, values: &'a [&'a str; K], n: u64| #[trigger]
            call_requires(CounterVec::<N, K, V>::inc_by, (c, values, n)),
        forall|g: &'a mut GaugeVec<N, K, V>, values: &'a [&'a str; K]| #[trigger]
            call_requires(GaugeVec::<N, K, V>::with, (g, values)),
        forall|g: &'a mut GaugeVec<N, K, V>, values: &'a [&'a str; K]| #[trigger]
            call_requires(GaugeVec::<N, K, V>::index_of, (g, values)),
        forall|g: &'a mut GaugeVec<N, K, V>, values: &'a [&'a str; K], v: i64| #[trigger]
            call_requires(GaugeVec::<N, K, V>::set, (g, values, v)),
        forall|g: &'a mut GaugeVec<N, K, V>, values: &'a [&'a str; K], d: i64| #[trigger]
            call_requires(GaugeVec::<N, K, V>::add, (g, values, d)),
        forall|h: &'a mut IntHistogramVec<N, B, K, V>, values: &'a [&'a str; K]| #[trigger]
            call_requires(IntHistogramVec::<N, B, K, V>::with, (h, values)),
        forall|h: &'a mut IntHistogramVec<N, B, K, V>, values: &'a [&'a str; K]| #[trigger]
            call_requires(IntHistogramVec::<N, B, K, V>::index_of, (h, values)),
        forall|h: &'a mut IntHistogramVec<N, B, K, V>, values: &'a [&'a str; K], v: u64| #[trigger]
            call_requires(IntHistogramVec::<N, B, K, V>::observe, (h, values, v)),
{
}

} // verus!
