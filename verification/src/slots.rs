//! The storage of labeled metrics: series found by their label block, each
//! created on first use until the capacity is exhausted.

use vstd::prelude::*;
use vstd::string::StringExecFns;
use crate::bounded::BoundedVec;
use crate::critical;
use crate::labels;
use crate::labels::LabelBlock;
use crate::text;

verus! {

/// One series of a labeled metric: its label block and what it holds.
pub struct SeriesModel<T> {
    pub labels: Seq<char>,
    pub value: T,
}

/// The label blocks of a list of series.
pub open spec fn labels_of<T>(series: Seq<SeriesModel<T>>) -> Seq<Seq<char>> {
    Seq::new(series.len(), |i: int| series[i].labels)
}

/// The first index from `i` on at which `block` stands, or the number of
/// blocks where there is none.
pub open spec fn position_from(blocks: Seq<Seq<char>>, block: Seq<char>, i: int) -> int
    decreases blocks.len() - i,
{
    if i >= blocks.len() {
        blocks.len() as int
    } else if blocks[i] == block {
        i
    } else {
        position_from(blocks, block, i + 1)
    }
}

/// The index at which a series with label block `block` is found or created
/// in a collection that holds series for `blocks`: none where the block takes
/// more than `budget` bytes, or where it is new and `capacity` is exhausted.
pub open spec fn slot(
    blocks: Seq<Seq<char>>,
    capacity: nat,
    budget: nat,
    block: Seq<char>,
) -> Option<int> {
    let i = position_from(blocks, block, 0);
    if text::byte_len(block) > budget {
        None
    } else if i < blocks.len() || blocks.len() < capacity {
        Some(i)
    } else {
        None
    }
}

/// What the series at index `i` holds; `fresh` where it is yet to be created.
pub open spec fn value_at<T>(series: Seq<SeriesModel<T>>, i: int, fresh: T) -> T {
    if i < series.len() {
        series[i].value
    } else {
        fresh
    }
}

/// The series after the one at index `i`, which is created where it is the
/// next one, has been given a value.
pub open spec fn updated<T>(
    series: Seq<SeriesModel<T>>,
    i: int,
    block: Seq<char>,
    value: T,
) -> Seq<SeriesModel<T>> {
    if i < series.len() {
        series.update(i, SeriesModel { labels: block, value })
    } else {
        series.push(SeriesModel { labels: block, value })
    }
}

/// The same series, each metric by its view.
pub open spec fn values_of<M: View>(series: Seq<SeriesModel<M>>) -> Seq<SeriesModel<M::V>> {
    Seq::new(
        series.len(),
        |i: int| SeriesModel { labels: series[i].labels, value: series[i].value@ },
    )
}

/// `after` is what the series `before` become when the one with label block
/// `block` is looked up with result `r`, and created with what `make` returns
/// where it is missing.
pub open spec fn placed<M, F: FnOnce() -> M>(
    before: Seq<SeriesModel<M>>,
    after: Seq<SeriesModel<M>>,
    capacity: nat,
    budget: nat,
    block: Seq<char>,
    r: Option<usize>,
    make: F,
) -> bool {
    match slot(labels_of(before), capacity, budget, block) {
        Some(i) => {
            &&& r is Some
            &&& r->Some_0 == i
            &&& if i < before.len() {
                after == before
            } else {
                exists|fresh: M| #[trigger]
                    make.ensures((), fresh) && after == before.push(
                        SeriesModel { labels: block, value: fresh },
                    )
            }
        },
        None => r is None && after == before,
    }
}

/// Whether a list of series is one that a collection with these label names
/// can hold: at most `capacity`, each with a label block of its own that was
/// built from label values.
pub open spec fn well_labeled<T>(
    series: Seq<SeriesModel<T>>,
    names: Seq<Seq<char>>,
    capacity: nat,
) -> bool {
    &&& series.len() <= capacity
    &&& labels_of(series).no_duplicates()
    &&& forall|i: int| 0 <= i < series.len() ==> is_block(names, #[trigger] series[i].labels)
}

/// Whether `block` is the label block of some values for these names.
pub open spec fn is_block(names: Seq<Seq<char>>, block: Seq<char>) -> bool {
    exists|values: Seq<Seq<char>>|
        values.len() == names.len() && block == #[trigger] labels::block_text(names, values)
}

/// Giving the series of some label values a value keeps a collection well
/// labeled, whether the series was there or not.
pub proof fn law_updates_keep_series_distinct<T>(
    series: Seq<SeriesModel<T>>,
    names: Seq<Seq<char>>,
    values: Seq<Seq<char>>,
    capacity: nat,
    budget: nat,
    value: T,
)
    requires
        values.len() == names.len(),
        well_labeled(series, names, capacity),
    ensures
        match slot(labels_of(series), capacity, budget, labels::block_text(names, values)) {
            Some(i) => well_labeled(
                updated(series, i, labels::block_text(names, values), value),
                names,
                capacity,
            ),
            None => true,
        },
{
    let block = labels::block_text(names, values);
    let blocks = labels_of(series);
    lemma_position(blocks, block, 0);
    assert(is_block(names, block));
    if let Some(i) = slot(blocks, capacity, budget, block) {
        let after = updated(series, i, block, value);
        if i < series.len() {
            assert(labels_of(after) =~= blocks);
        } else {
            assert(labels_of(after) =~= blocks.push(block));
        }
        assert forall|j: int| 0 <= j < after.len() implies is_block(
            names,
            #[trigger] after[j].labels,
        ) by {
            if j < series.len() && j != i {
                assert(after[j] == series[j]);
                assert(is_block(names, series[j].labels));
            }
        }
    }
}

/// A series that was given a value is found again under its label block, at
/// the same index and with that value.
pub proof fn law_series_are_found_again<T>(
    series: Seq<SeriesModel<T>>,
    capacity: nat,
    budget: nat,
    block: Seq<char>,
    value: T,
    fresh: T,
)
    ensures
        match slot(labels_of(series), capacity, budget, block) {
            Some(i) => {
                let after = updated(series, i, block, value);
                &&& slot(labels_of(after), capacity, budget, block) == Some(i)
                &&& value_at(after, i, fresh) == value
            },
            None => true,
        },
{
    lemma_position(labels_of(series), block, 0);
    if let Some(i) = slot(labels_of(series), capacity, budget, block) {
        let after = labels_of(updated(series, i, block, value));
        lemma_position(after, block, 0);
        assert(after[i] == block);
        let j = position_from(after, block, 0);
        if j < i {
            assert(after[j] == labels_of(series)[j]);
        }
    }
}

/// Giving one series a value changes no other: a series with another label
/// block is found where it was, with the value that it had.
pub proof fn law_series_are_independent<T>(
    series: Seq<SeriesModel<T>>,
    capacity: nat,
    budget: nat,
    block: Seq<char>,
    other: Seq<char>,
    value: T,
    fresh: T,
)
    requires
        block != other,
        labels_of(series).contains(other),
    ensures
        match slot(labels_of(series), capacity, budget, block) {
            Some(i) => {
                let after = updated(series, i, block, value);
                let j = slot(labels_of(series), capacity, budget, other);
                &&& slot(labels_of(after), capacity, budget, other) == j
                &&& j is Some ==> value_at(after, j->Some_0, fresh) == value_at(
                    series,
                    j->Some_0,
                    fresh,
                )
            },
            None => true,
        },
{
    lemma_position(labels_of(series), block, 0);
    lemma_position(labels_of(series), other, 0);
    if let Some(i) = slot(labels_of(series), capacity, budget, block) {
        let blocks = labels_of(series);
        let after = labels_of(updated(series, i, block, value));
        lemma_position(after, other, 0);
        let j = position_from(blocks, other, 0);
        let k = position_from(after, other, 0);
        assert(j < blocks.len());
        assert(after[j] == other);
        assert(k <= j);
        assert(blocks[k] == after[k]);
    }
}

/// Series are only ever added: each keeps its index and its label block.
pub proof fn law_series_stay_in_place<T>(
    series: Seq<SeriesModel<T>>,
    capacity: nat,
    budget: nat,
    block: Seq<char>,
    value: T,
)
    ensures
        match slot(labels_of(series), capacity, budget, block) {
            Some(i) => labels_of(series).is_prefix_of(labels_of(updated(series, i, block, value))),
            None => true,
        },
{
    lemma_position(labels_of(series), block, 0);
    if let Some(i) = slot(labels_of(series), capacity, budget, block) {
        let after = labels_of(updated(series, i, block, value));
        assert(after.take(series.len() as int) =~= labels_of(series));
    }
}

/// A full collection takes exactly the label blocks that it holds already.
pub proof fn law_full_collections_take_no_new_series<T>(
    series: Seq<SeriesModel<T>>,
    capacity: nat,
    budget: nat,
    block: Seq<char>,
)
    requires
        series.len() >= capacity,
        text::byte_len(block) <= budget,
    ensures
        slot(labels_of(series), capacity, budget, block) is Some <==> labels_of(series).contains(
            block,
        ),
{
    lemma_position(labels_of(series), block, 0);
    let i = position_from(labels_of(series), block, 0);
    if i < series.len() {
        assert(labels_of(series)[i] == block);
    }
}

/// Which series label values stand for, where `series` are first looked up for
/// `a`, whose series then holds `x`, and next for `b`, whose series then holds
/// `y`. The same values find the same series, and different values different
/// ones that do not affect each other; a series that is there already, or
/// that is refused, adds none, and there are never more than `capacity`.
pub open spec fn series_go_by_values<T>(
    series: Seq<SeriesModel<T>>,
    names: Seq<Seq<char>>,
    capacity: nat,
    budget: nat,
    a: Seq<Seq<char>>,
    b: Seq<Seq<char>>,
    x: T,
    y: T,
    fresh: T,
) -> bool {
    let block_a = labels::block_text(names, a);
    let block_b = labels::block_text(names, b);
    match slot(labels_of(series), capacity, budget, block_a) {
        Some(i) => {
            let first = updated(series, i, block_a, x);
            &&& slot(labels_of(first), capacity, budget, block_a) == Some(i)
            &&& value_at(first, i, fresh) == x
            &&& first.len() == if labels_of(series).contains(block_a) {
                series.len()
            } else {
                series.len() + 1
            }
            &&& first.len() <= capacity
            &&& match slot(labels_of(first), capacity, budget, block_b) {
                Some(j) => {
                    let last = updated(first, j, block_b, y);
                    &&& i == j <==> a == b
                    &&& slot(labels_of(last), capacity, budget, block_a) == Some(i)
                    &&& slot(labels_of(last), capacity, budget, block_b) == Some(j)
                    &&& value_at(last, j, fresh) == y
                    &&& a != b ==> value_at(last, i, fresh) == x
                    &&& last.len() <= capacity
                },
                None => a != b,
            }
        },
        None => true,
    }
}

/// Label values stand for series of their own.
pub proof fn law_series_go_by_values<T>(
    series: Seq<SeriesModel<T>>,
    names: Seq<Seq<char>>,
    capacity: nat,
    budget: nat,
    a: Seq<Seq<char>>,
    b: Seq<Seq<char>>,
    x: T,
    y: T,
    fresh: T,
)
    requires
        a.len() == names.len(),
        b.len() == names.len(),
        well_labeled(series, names, capacity),
    ensures
        series_go_by_values(series, names, capacity, budget, a, b, x, y, fresh),
{
    let block_a = labels::block_text(names, a);
    let block_b = labels::block_text(names, b);
    lemma_position(labels_of(series), block_a, 0);
    law_series_are_found_again(series, capacity, budget, block_a, x, fresh);
    law_updates_keep_series_distinct(series, names, a, capacity, budget, x);
    if block_a == block_b {
        labels::law_blocks_tell_values_apart(names, a, b);
    }
    if let Some(i) = slot(labels_of(series), capacity, budget, block_a) {
        let first = updated(series, i, block_a, x);
        assert(labels_of(first)[i] == block_a);
        if i < series.len() {
            assert(labels_of(series)[i] == block_a);
        }
        law_series_are_found_again(first, capacity, budget, block_b, y, fresh);
        law_updates_keep_series_distinct(first, names, b, capacity, budget, y);
        lemma_position(labels_of(first), block_b, 0);
        if block_a != block_b {
            law_series_are_independent(first, capacity, budget, block_b, block_a, y, fresh);
        }
    }
}

/// Label values and what their series is given.
pub struct Update<T> {
    pub values: Seq<Seq<char>>,
    pub value: T,
}

/// The series after one update after the other.
pub open spec fn after_updates<T>(
    series: Seq<SeriesModel<T>>,
    names: Seq<Seq<char>>,
    capacity: nat,
    budget: nat,
    updates: Seq<Update<T>>,
) -> Seq<SeriesModel<T>>
    decreases updates.len(),
{
    if updates.len() == 0 {
        series
    } else {
        let before = after_updates(series, names, capacity, budget, updates.drop_last());
        let block = labels::block_text(names, updates.last().values);
        match slot(labels_of(before), capacity, budget, block) {
            Some(i) => updated(before, i, block, updates.last().value),
            None => before,
        }
    }
}

/// Label values that have a series keep it whatever series are updated or
/// added, with its value as long as no update is for these values; and the
/// series stay at most `capacity`, each for label values of its own.
pub proof fn law_values_keep_their_series<T>(
    series: Seq<SeriesModel<T>>,
    names: Seq<Seq<char>>,
    capacity: nat,
    budget: nat,
    updates: Seq<Update<T>>,
    values: Seq<Seq<char>>,
    fresh: T,
)
    requires
        well_labeled(series, names, capacity),
        values.len() == names.len(),
        labels_of(series).contains(labels::block_text(names, values)),
        forall|k: int|
            0 <= k < updates.len() ==> (#[trigger] updates[k]).values.len() == names.len(),
    ensures
        ({
            let block = labels::block_text(names, values);
            let after = after_updates(series, names, capacity, budget, updates);
            let i = slot(labels_of(series), capacity, budget, block);
            &&& well_labeled(after, names, capacity)
            &&& labels_of(after).contains(block)
            &&& slot(labels_of(after), capacity, budget, block) == i
            &&& i is Some && (forall|k: int|
                0 <= k < updates.len() ==> (#[trigger] updates[k]).values != values) ==> value_at(
                after,
                i->Some_0,
                fresh,
            ) == value_at(series, i->Some_0, fresh)
        }),
    decreases updates.len(),
{
    let block = labels::block_text(names, values);
    if updates.len() > 0 {
        let rest = updates.drop_last();
        let last = updates.last();
        let new = labels::block_text(names, last.values);
        assert forall|k: int| 0 <= k < rest.len() implies (#[trigger] rest[k]).values.len()
            == names.len() by {
            assert(rest[k] == updates[k]);
        }
        law_values_keep_their_series(series, names, capacity, budget, rest, values, fresh);
        let before = after_updates(series, names, capacity, budget, rest);
        assert(updates[updates.len() - 1] == last);
        law_updates_keep_series_distinct(
            before,
            names,
            last.values,
            capacity,
            budget,
            last.value,
        );
        if new == block {
            law_series_are_found_again(before, capacity, budget, block, last.value, fresh);
            labels::law_blocks_tell_values_apart(names, last.values, values);
        } else {
            law_series_are_independent(
                before,
                capacity,
                budget,
                new,
                block,
                last.value,
                fresh,
            );
        }
        law_series_stay_in_place(before, capacity, budget, new, last.value);
        let after = after_updates(series, names, capacity, budget, updates);
        let i = labels_of(before).index_of(block);
        assert(labels_of(before)[i] == block);
        assert(labels_of(after)[i] == block);
        if forall|k: int| 0 <= k < updates.len() ==> (#[trigger] updates[k]).values != values {
            assert forall|k: int| 0 <= k < rest.len() implies (#[trigger] rest[k]).values
                != values by {
                assert(rest[k] == updates[k]);
            }
        }
    }
}

/// A series that is there already is found with the block it is looked up by.
pub proof fn lemma_found<T>(
    series: Seq<SeriesModel<T>>,
    capacity: nat,
    budget: nat,
    block: Seq<char>,
)
    ensures
        slot(labels_of(series), capacity, budget, block) matches Some(i) ==> {
            &&& 0 <= i <= series.len()
            &&& i < series.len() ==> updated(series, i, block, series[i].value) == series
        },
{
    lemma_position(labels_of(series), block, 0);
    if let Some(i) = slot(labels_of(series), capacity, budget, block) {
        if i < series.len() {
            assert(labels_of(series)[i] == block);
            assert(updated(series, i, block, series[i].value) =~= series);
        }
    }
}

/// Each series keeps its label block when one is given a value.
pub proof fn lemma_labels_stay<T>(
    series: Seq<SeriesModel<T>>,
    capacity: nat,
    budget: nat,
    block: Seq<char>,
    value: T,
)
    ensures
        slot(labels_of(series), capacity, budget, block) matches Some(i) ==> {
            let after = updated(series, i, block, value);
            &&& series.len() <= after.len()
            &&& forall|j: int|
                0 <= j < series.len() ==> (#[trigger] series[j]).labels == after[j].labels
        },
{
    law_series_stay_in_place(series, capacity, budget, block, value);
    if let Some(i) = slot(labels_of(series), capacity, budget, block) {
        let after = updated(series, i, block, value);
        assert forall|j: int| 0 <= j < series.len() implies (#[trigger] series[j]).labels
            == after[j].labels by {
            assert(labels_of(series)[j] == labels_of(after)[j]);
        }
    }
}

/// What a collection needs to know of a look-up for an index: the series stays
/// as it is, or is created with what a new one holds.
pub proof fn lemma_indexed<M: View>(
    before: Seq<SeriesModel<M>>,
    after: Seq<SeriesModel<M>>,
    names: Seq<Seq<char>>,
    values: Seq<Seq<char>>,
    capacity: nat,
    budget: nat,
    fresh: M::V,
)
    requires
        values.len() == names.len(),
        ({
            let block = labels::block_text(names, values);
            match slot(labels_of(before), capacity, budget, block) {
                Some(i) => if i < before.len() {
                    after == before
                } else {
                    &&& after == before.push(after.last())
                    &&& after.last().labels == block
                    &&& after.last().value@ == fresh
                },
                None => after == before,
            }
        }),
    ensures
        labels_of(values_of(before)) == labels_of(before),
        well_labeled(values_of(before), names, capacity) ==> well_labeled(
            values_of(after),
            names,
            capacity,
        ),
        ({
            let block = labels::block_text(names, values);
            let viewed = values_of(before);
            slot(labels_of(before), capacity, budget, block) matches Some(i) ==> values_of(after)
                == updated(viewed, i, block, value_at(viewed, i, fresh))
        }),
{
    let block = labels::block_text(names, values);
    let viewed = values_of(before);
    lemma_bind(before, names, values, capacity, budget);
    lemma_found(before, capacity, budget, block);
    if let Some(i) = slot(labels_of(before), capacity, budget, block) {
        let held = if i < before.len() {
            before[i].value
        } else {
            after.last().value
        };
        assert(after == updated(before, i, block, held));
    }
}

/// What a collection needs to know of access to its storage by index: as with
/// a look-up.
pub proof fn lemma_at<M: View>(
    series: Seq<SeriesModel<M>>,
    names: Seq<Seq<char>>,
    capacity: nat,
    i: int,
)
    requires
        0 <= i < series.len(),
    ensures
        forall|m: M|
            {
                let viewed = values_of(series);
                let after = values_of(#[trigger] updated(series, i, series[i].labels, m));
                &&& after == updated(viewed, i, viewed[i].labels, m@)
                &&& well_labeled(viewed, names, capacity) ==> well_labeled(after, names, capacity)
            },
{
    let viewed = values_of(series);
    assert forall|m: M|
        {
            let after = values_of(#[trigger] updated(series, i, series[i].labels, m));
            &&& after == updated(viewed, i, viewed[i].labels, m@)
            &&& well_labeled(viewed, names, capacity) ==> well_labeled(after, names, capacity)
        } by {
        let after = values_of(updated(series, i, series[i].labels, m));
        assert(after =~= updated(viewed, i, viewed[i].labels, m@));
        assert(labels_of(after) =~= labels_of(viewed));
        assert forall|j: int|
            0 <= j < after.len() && well_labeled(viewed, names, capacity) implies is_block(
            names,
            #[trigger] after[j].labels,
        ) by {
            assert(after[j].labels == viewed[j].labels);
        }
    }
}

/// What a collection needs to know of a look-up in its storage: it is the same
/// on the metrics and on their views, and keeps the collection well labeled
/// whatever value the series is given.
pub proof fn lemma_bind<M: View>(
    series: Seq<SeriesModel<M>>,
    names: Seq<Seq<char>>,
    values: Seq<Seq<char>>,
    capacity: nat,
    budget: nat,
)
    requires
        values.len() == names.len(),
    ensures
        labels_of(values_of(series)) == labels_of(series),
        ({
            let block = labels::block_text(names, values);
            match slot(labels_of(series), capacity, budget, block) {
                Some(i) => {
                    &&& 0 <= i <= series.len()
                    &&& forall|m: M|
                        {
                            let after = values_of(#[trigger] updated(series, i, block, m));
                            &&& after == updated(values_of(series), i, block, m@)
                            &&& well_labeled(values_of(series), names, capacity) ==> well_labeled(
                                after,
                                names,
                                capacity,
                            )
                        }
                },
                None => true,
            }
        }),
{
    let block = labels::block_text(names, values);
    let viewed = values_of(series);
    lemma_position(labels_of(series), block, 0);
    assert(labels_of(viewed) =~= labels_of(series));
    if let Some(i) = slot(labels_of(series), capacity, budget, block) {
        assert forall|m: M|
            {
                let after = values_of(#[trigger] updated(series, i, block, m));
                &&& after == updated(viewed, i, block, m@)
                &&& well_labeled(viewed, names, capacity) ==> well_labeled(after, names, capacity)
            } by {
            assert(values_of(updated(series, i, block, m)) =~= updated(viewed, i, block, m@));
            if well_labeled(viewed, names, capacity) {
                law_updates_keep_series_distinct(viewed, names, values, capacity, budget, m@);
            }
        }
    }
}

/// A found position holds the block, and nothing before it does.
proof fn lemma_position(blocks: Seq<Seq<char>>, block: Seq<char>, k: int)
    requires
        0 <= k <= blocks.len(),
    ensures
        k <= position_from(blocks, block, k) <= blocks.len(),
        position_from(blocks, block, k) < blocks.len() ==> blocks[position_from(blocks, block, k)]
            == block,
        forall|j: int| k <= j < position_from(blocks, block, k) ==> blocks[j] != block,
    decreases blocks.len() - k,
{
    if k < blocks.len() && blocks[k] != block {
        lemma_position(blocks, block, k + 1);
    }
}

/// One series of a labeled metric.
pub struct LabeledSeries<M, const V: usize> {
    labels: LabelBlock<V>,
    metric: M,
}

/// At most `N` series of a labeled metric, each with its own label block.
#[verifier::reject_recursive_types(M)]
#[verifier::reject_recursive_types(V)]
pub struct SeriesMap<M, const N: usize, const V: usize> {
    entries: BoundedVec<LabeledSeries<M, V>, N>,
}

impl<M, const N: usize, const V: usize> View for SeriesMap<M, N, V> {
    type V = Seq<SeriesModel<M>>;

    closed spec fn view(&self) -> Seq<SeriesModel<M>> {
        Seq::new(
            self.entries@.len(),
            |i: int|
                SeriesModel { labels: self.entries@[i].labels@, value: self.entries@[i].metric },
        )
    }
}

impl<M, const N: usize, const V: usize> SeriesMap<M, N, V> {
    /// No series.
    pub fn new() -> (map: Self)
        ensures
            map@ == Seq::<SeriesModel<M>>::empty(),
    {
        let map = SeriesMap { entries: BoundedVec::new() };
        assert(map@ =~= Seq::<SeriesModel<M>>::empty());
        map
    }

    /// Number of series.
    pub fn len(&self) -> (n: usize)
        ensures
            n == self@.len(),
            n <= N,
    {
        self.entries.as_slice().len()
    }

    /// The label block of series `s`.
    pub fn labels(&self, s: usize) -> (block: &str)
        requires
            s < self@.len(),
        ensures
            block@ == self@[s as int].labels,
    {
        self.entries.as_slice()[s].labels.as_str()
    }

    /// The metric of series `s`.
    pub fn metric(&self, s: usize) -> (metric: &M)
        requires
            s < self@.len(),
        ensures
            *metric == self@[s as int].value,
    {
        &self.entries.as_slice()[s].metric
    }

    /// The metric of series `s`, to be changed in place.
    pub fn metric_mut(&mut self, s: usize) -> (metric: &mut M)
        requires
            s < old(self)@.len(),
        ensures
            *metric == old(self)@[s as int].value,
            final(self)@ == updated(
                old(self)@,
                s as int,
                old(self)@[s as int].labels,
                *final(metric),
            ),
    {
        let entry = self.entries.item_mut(s);
        &mut entry.metric
    }

    /// The first series whose label block is `block`, or the number of series
    /// where there is none.
    fn position(&self, block: &str) -> (i: usize)
        ensures
            i == position_from(labels_of(self@), block@, 0),
            i <= self@.len() <= N,
    {
        let ghost blocks = labels_of(self@);
        let n: usize = self.len();
        let mut i: usize = 0;
        while i < n
            invariant
                i <= n,
                n == self@.len(),
                n <= N,
                blocks == labels_of(self@),
                position_from(blocks, block@, 0) == position_from(blocks, block@, i as int),
            decreases n - i,
        {
            if text::str_eq(self.labels(i), block) {
                return i;
            }
            i = i + 1;
        }
        i
    }
}

/// Find the series of a label block, or create it with what `make` returns.
fn find_or_create<M, F: FnOnce() -> M, const N: usize, const V: usize>(
    arg: (&mut SeriesMap<M, N, V>, LabelBlock<V>, F),
) -> (r: Option<usize>)
    requires
        arg.2.requires(()),
        text::byte_len(arg.1@) <= V,
    ensures
        placed(old(arg.0)@, final(arg.0)@, N as nat, V as nat, arg.1@, r, arg.2),
{
    let (map, block, make) = arg;
    let ghost before = map@;
    let i: usize = map.position(block.as_str());
    proof {
        lemma_position(labels_of(before), block@, 0);
    }
    if i < map.len() {
        return Some(i);
    }
    let ghost text = block@;
    let fresh = make();
    let ghost made = fresh;
    match map.entries.push(LabeledSeries { labels: block, metric: fresh }) {
        Ok(()) => {
            assert(map@ =~= before.push(SeriesModel { labels: text, value: made }));
            Some(i)
        },
        Err(_) => {
            assert(map@ =~= before);
            None
        },
    }
}

/// Look up the slot of `values` in `map`, creating it (and returning its
/// index) if not already present. Returns `None` if the label block doesn't
/// fit in `V` bytes, or if capacity `N` is exhausted.
pub fn slot_index<
    M,
    F: FnOnce() -> M,
    const N: usize,
    const K: usize,
    const V: usize,
>(
    map: &mut SeriesMap<M, N, V>,
    names: &'static [&'static str; K],
    values: &[&str; K],
    make: F,
) -> (r: Option<usize>)
    requires
        make.requires(()),
    ensures
        placed(
            old(map)@,
            final(map)@,
            N as nat,
            V as nat,
            labels::block_text(text::strs_view(names@), text::strs_view(values@)),
            r,
            make,
        ),
{
    match labels::build_block::<K, V>(names, values) {
        Ok(block) => critical::in_critical_section(find_or_create, (map, block, make)),
        Err(()) => None,
    }
}

/// The metric of the series for `values`, to be changed in place. The series is
/// created with what `make` returns if it is not already present. Returns
/// `None` if the label block doesn't fit in `V` bytes, or if capacity `N` is
/// exhausted.
pub fn bind<'a, M, F: FnOnce() -> M, const N: usize, const K: usize, const V: usize>(
    map: &'a mut SeriesMap<M, N, V>,
    names: &'static [&'static str; K],
    values: &[&str; K],
    make: F,
) -> (r: Option<&'a mut M>)
    requires
        make.requires(()),
    ensures
        ({
            let block = labels::block_text(text::strs_view(names@), text::strs_view(values@));
            match slot(labels_of(old(map)@), N as nat, V as nat, block) {
                Some(i) => {
                    &&& r is Some
                    &&& i < old(map)@.len() ==> *r->Some_0 == old(map)@[i].value
                    &&& i >= old(map)@.len() ==> make.ensures((), *r->Some_0)
                    &&& final(map)@ == updated(old(map)@, i, block, *final(r->Some_0))
                },
                None => r is None && final(map)@ == old(map)@,
            }
        }),
{
    let ghost before = map@;
    let ghost block = labels::block_text(text::strs_view(names@), text::strs_view(values@));
    match slot_index(map, names, values, make) {
        Some(i) => {
            let ghost middle = map@;
            proof {
                lemma_position(labels_of(before), block, 0);
                assert forall|m: M| #[trigger]
                    updated(middle, i as int, middle[i as int].labels, m) == updated(
                        before,
                        i as int,
                        block,
                        m,
                    ) by {
                    assert(updated(middle, i as int, middle[i as int].labels, m) =~= updated(
                        before,
                        i as int,
                        block,
                        m,
                    ));
                }
            }
            Some(map.metric_mut(i))
        },
        None => None,
    }
}

/// Append one label block, with all arguments in one value.
fn append_labels<M, const N: usize, const V: usize>(
    arg: (&SeriesMap<M, N, V>, usize, &mut String),
)
    requires
        arg.1 < arg.0@.len(),
    ensures
        final(arg.2)@ == old(arg.2)@ + arg.0@[arg.1 as int].labels,
{
    let (map, s, out) = arg;
    out.append(map.labels(s));
}

/// Append the label block of series `s` to `out`.
pub fn write_labels_at<M, const N: usize, const V: usize>(
    map: &SeriesMap<M, N, V>,
    s: usize,
    out: &mut String,
)
    requires
        s < map@.len(),
    ensures
        final(out)@ == old(out)@ + map@[s as int].labels,
{
    critical::in_critical_section(append_labels, (map, s, out));
}

/// Number of series, with the map as the one argument.
fn count_series<M, const N: usize, const V: usize>(map: &SeriesMap<M, N, V>) -> (n: usize)
    ensures
        n == map@.len(),
        n <= N,
{
    map.len()
}

/// Number of series.
pub fn series_count_of<M, const N: usize, const V: usize>(map: &SeriesMap<M, N, V>) -> (n: usize)
    ensures
        n == map@.len(),
        n <= N,
{
    critical::in_critical_section(count_series, map)
}

/// A label block has a series wherever it takes at most `budget` bytes and is
/// held already or finds fewer than `capacity` series held, and nowhere else:
/// at the first index where it is held, or else behind all series.
pub proof fn law_blocks_have_a_series_while_there_is_room(
    blocks: Seq<Seq<char>>,
    capacity: nat,
    budget: nat,
    block: Seq<char>,
)
    ensures
        slot(blocks, capacity, budget, block) is Some <==> text::byte_len(block) <= budget && (
        blocks.contains(block) || blocks.len() < capacity),
        slot(blocks, capacity, budget, block) matches Some(i) ==> {
            &&& 0 <= i <= blocks.len()
            &&& i < blocks.len() <==> blocks.contains(block)
            &&& i < blocks.len() ==> blocks[i] == block
            &&& forall|j: int| 0 <= j < i ==> #[trigger] blocks[j] != block
        },
{
    lemma_position(blocks, block, 0);
    let i = position_from(blocks, block, 0);
    if blocks.contains(block) {
        let j = choose|j: int| 0 <= j < blocks.len() && blocks[j] == block;
        assert(!(j < i));
    } else if i < blocks.len() {
        assert(blocks.contains(blocks[i]));
    }
}

/// Giving a series a value touches that series alone, and reading it gives
/// that value; what is yet to be created reads as a new series.
pub proof fn law_values_are_given_to_one_series<T>(
    series: Seq<SeriesModel<T>>,
    i: int,
    block: Seq<char>,
    value: T,
    fresh: T,
)
    requires
        0 <= i <= series.len(),
    ensures
        ({
            let after = updated(series, i, block, value);
            &&& i < series.len() ==> after.len() == series.len() && value_at(series, i, fresh)
                == series[i].value
            &&& i == series.len() ==> after.len() == series.len() + 1 && value_at(
                series,
                i,
                fresh,
            ) == fresh
            &&& after[i].labels == block
            &&& after[i].value == value
            &&& forall|j: int| 0 <= j < series.len() && j != i ==> #[trigger] after[j] == series[j]
        }),
        labels_of(series).len() == series.len(),
        forall|j: int| 0 <= j < series.len() ==> #[trigger] labels_of(series)[j]
            == series[j].labels,
{
}

/// The metrics of series are viewed one by one.
pub proof fn law_metrics_are_viewed_one_by_one<M: View>(series: Seq<SeriesModel<M>>)
    ensures
        values_of(series).len() == series.len(),
        forall|i: int|
            0 <= i < series.len() ==> (#[trigger] values_of(series)[i]).labels == series[i].labels
                && values_of(series)[i].value == series[i].value@,
{
}

/// A look-up gives the index of the series of a label block: where it is held,
/// and nothing changes; or behind all series, where it is created with what
/// `make` returns. It gives none, and changes nothing, exactly where the block
/// is too long or is new to a full collection.
pub proof fn law_look_ups_find_or_create<M, F: FnOnce() -> M>(
    before: Seq<SeriesModel<M>>,
    after: Seq<SeriesModel<M>>,
    capacity: nat,
    budget: nat,
    block: Seq<char>,
    r: Option<usize>,
    make: F,
)
    requires
        placed(before, after, capacity, budget, block, r, make),
    ensures
        ({
            let held = exists|i: int|
                0 <= i < before.len() && (#[trigger] before[i]).labels == block;
            &&& r is Some <==> text::byte_len(block) <= budget && (held || before.len() < capacity)
            &&& r is None || held ==> after == before
            &&& r matches Some(i) ==> if held {
                &&& i < before.len()
                &&& before[i as int].labels == block
                &&& forall|j: int| 0 <= j < i ==> (#[trigger] before[j]).labels != block
            } else {
                &&& i == before.len()
                &&& after.len() == before.len() + 1
                &&& forall|j: int| 0 <= j < before.len() ==> #[trigger] after[j] == before[j]
                &&& after[i as int].labels == block
                &&& make.ensures((), after[i as int].value)
            }
        }),
{
    lemma_held(before, block);
    law_blocks_have_a_series_while_there_is_room(labels_of(before), capacity, budget, block);
    if let Some(i) = r {
        assert forall|j: int| 0 <= j < i && j < before.len() implies (#[trigger] before[j]).labels
            != block by {
            assert(labels_of(before)[j] != block);
        }
    }
}

/// A block is held where it is the label block of a series.
pub proof fn lemma_held<T>(series: Seq<SeriesModel<T>>, block: Seq<char>)
    ensures
        labels_of(series).contains(block) <==> exists|i: int|
            0 <= i < series.len() && (#[trigger] series[i]).labels == block,
{
    if labels_of(series).contains(block) {
        let i = choose|i: int| 0 <= i < labels_of(series).len() && labels_of(series)[i] == block;
        assert(series[i].labels == block);
    }
    if exists|i: int| 0 <= i < series.len() && (#[trigger] series[i]).labels == block {
        let i = choose|i: int| 0 <= i < series.len() && (#[trigger] series[i]).labels == block;
        assert(labels_of(series)[i] == block);
    }
}

/// A series is read and changed at its own index, and a change leaves the others
/// and all labels as they are.
pub proof fn law_series_are_reached_by_index<'a, M, const N: usize, const V: usize>()
    ensures
        forall|map: &'a SeriesMap<M, N, V>, n: usize| #[trigger]
            call_ensures(series_count_of::<M, N, V>, (map,), n) ==> n == map@.len() && n <= N,
        forall|map: &'a SeriesMap<M, N, V>, s: usize, block: &'a str| #[trigger]
            call_ensures(SeriesMap::<M, N, V>::labels, (map, s), block) && s < map@.len()
                ==> block@ == map@[s as int].labels,
        forall|map: &'a SeriesMap<M, N, V>, s: usize, metric: &'a M| #[trigger]
            call_ensures(SeriesMap::<M, N, V>::metric, (map, s), metric) && s < map@.len()
                ==> *metric == map@[s as int].value,
        forall|map: &'a mut SeriesMap<M, N, V>, s: usize, metric: &'a mut M| #[trigger]
            call_ensures(SeriesMap::<M, N, V>::metric_mut, (map, s), metric) && s < (*map)@.len()
                ==> {
                let before = (*map)@;
                let after = (*final(map))@;
                &&& *metric == before[s as int].value
                &&& after.len() == before.len()
                &&& after[s as int].value == *final(metric)
                &&& after[s as int].labels == before[s as int].labels
                &&& forall|j: int|
                    0 <= j < before.len() && j != s ==> #[trigger] after[j] == before[j]
            },
        forall|map: &'a SeriesMap<M, N, V>, s: usize, out: &'a mut String| #[trigger]
            call_ensures(write_labels_at::<M, N, V>, (map, s, out), ()) && s < map@.len() ==> (
            *final(out))@ == (*out)@ + map@[s as int].labels,
{
}

/// A look-up by label values reaches the series whose block is that of the
/// values, and makes it where it is missing and there is room; then it holds
/// what the caller leaves in it.
pub proof fn law_look_ups_reach_the_series_of_the_values<
    'a,
    M,
    F: FnOnce() -> M,
    const N: usize,
    const K: usize,
    const V: usize,
>()
    ensures
        forall|
            map: &'a mut SeriesMap<M, N, V>,
            names: &'static [&'static str; K],
            values: &'a [&'a str; K],
            make: F,
            r: Option<usize>,
        | #[trigger]
            call_ensures(slot_index::<M, F, N, K, V>, (map, names, values, make), r) ==> {
                let block = labels::block_text(text::strs_view(names@), text::strs_view(values@));
                let before = (*map)@;
                let after = (*final(map))@;
                let held = exists|i: int|
                    0 <= i < before.len() && (#[trigger] before[i]).labels == block;
                &&& r is Some <==> text::byte_len(block) <= V && (held || before.len() < N)
                &&& r is None || held ==> after == before
                &&& r is Some ==> r->Some_0 < after.len() && after[r->Some_0 as int].labels
                    == block
            },
        forall|
            map: &'a mut SeriesMap<M, N, V>,
            names: &'static [&'static str; K],
            values: &'a [&'a str; K],
            make: F,
            r: Option<&'a mut M>,
        | #[trigger]
            call_ensures(bind::<M, F, N, K, V>, (map, names, values, make), r) ==> {
                let block = labels::block_text(text::strs_view(names@), text::strs_view(values@));
                let before = (*map)@;
                let after = (*final(map))@;
                let held = exists|i: int|
                    0 <= i < before.len() && (#[trigger] before[i]).labels == block;
                &&& r is Some <==> text::byte_len(block) <= V && (held || before.len() < N)
                &&& r is None ==> after == before
                &&& r is Some ==> exists|i: int|
                    0 <= i < after.len() && (#[trigger] after[i]).labels == block && after[i].value
                        == *final(r->Some_0) && (i < before.len() ==> *r->Some_0
                        == before[i].value) && (i == before.len() ==> make.ensures(
                        (),
                        *r->Some_0,
                    )) && (forall|j: int|
                        0 <= j < before.len() && j != i ==> after[j] == #[trigger] before[j])
            },
{
    assert forall|
        map: &'a mut SeriesMap<M, N, V>,
        names: &'static [&'static str; K],
        values: &'a [&'a str; K],
        make: F,
        r: Option<usize>,
    | #[trigger]
        call_ensures(slot_index::<M, F, N, K, V>, (map, names, values, make), r) implies {
        let block = labels::block_text(text::strs_view(names@), text::strs_view(values@));
        let before = (*map)@;
        let after = (*final(map))@;
        let held = exists|i: int| 0 <= i < before.len() && (#[trigger] before[i]).labels == block;
        &&& r is Some <==> text::byte_len(block) <= V && (held || before.len() < N)
        &&& r is None || held ==> after == before
        &&& r is Some ==> r->Some_0 < after.len() && after[r->Some_0 as int].labels == block
    } by {
        let block = labels::block_text(text::strs_view(names@), text::strs_view(values@));
        law_look_ups_find_or_create((*map)@, (*final(map))@, N as nat, V as nat, block, r, make);
    }
    assert forall|
        map: &'a mut SeriesMap<M, N, V>,
        names: &'static [&'static str; K],
        values: &'a [&'a str; K],
        make: F,
        r: Option<&'a mut M>,
    | #[trigger]
        call_ensures(bind::<M, F, N, K, V>, (map, names, values, make), r) implies {
        let block = labels::block_text(text::strs_view(names@), text::strs_view(values@));
        let before = (*map)@;
        let after = (*final(map))@;
        let held = exists|i: int| 0 <= i < before.len() && (#[trigger] before[i]).labels == block;
        &&& r is Some <==> text::byte_len(block) <= V && (held || before.len() < N)
        &&& r is None ==> after == before
        &&& r is Some ==> exists|i: int|
            0 <= i < after.len() && (#[trigger] after[i]).labels == block && after[i].value
                == *final(r->Some_0) && (i < before.len() ==> *r->Some_0 == before[i].value) && (i
                == before.len() ==> make.ensures((), *r->Some_0)) && (forall|j: int|
                0 <= j < before.len() && j != i ==> after[j] == #[trigger] before[j])
    } by {
        let block = labels::block_text(text::strs_view(names@), text::strs_view(values@));
        let before = (*map)@;
        let after = (*final(map))@;
        lemma_held(before, block);
        law_blocks_have_a_series_while_there_is_room(labels_of(before), N as nat, V as nat, block);
        if let Some(i) = slot(labels_of(before), N as nat, V as nat, block) {
            assert(0 <= i < after.len());
            assert(after[i].labels == block);
        }
    }
}

/// A new collection has no series, and a collection has as many as it holds.
pub proof fn law_collections_begin_without_series<'a, M, const N: usize, const V: usize>()
    ensures
        forall|map: SeriesMap<M, N, V>| #[trigger]
            call_ensures(SeriesMap::<M, N, V>::new, (), map) ==> map@.len() == 0,
        forall|map: &'a SeriesMap<M, N, V>, n: usize| #[trigger]
            call_ensures(SeriesMap::<M, N, V>::len, (map,), n) ==> n == map@.len(),
{
}

} // verus!
