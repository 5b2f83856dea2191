//! Building and storing rendered, escaped label blocks for labeled metrics.

use vstd::prelude::*;
use crate::bounded::BoundedString;
use crate::escape;
use crate::sink;
use crate::sink::FormatError;
use crate::sink::TextSink;
use crate::text;

verus! {

/// A pre-rendered, pre-escaped label block (e.g. `reason="timeout"`, no
/// surrounding braces), stored as the key for one series of a labeled
/// metric. `V` is the byte budget for the whole block, not one value.
pub type LabelBlock<const V: usize> = BoundedString<V>;

/// `name="value"`, with the value escaped.
pub open spec fn pair_text(name: Seq<char>, value: Seq<char>) -> Seq<char> {
    name + seq!['=', '"'] + escape::escaped_label(value) + seq!['"']
}

/// What stands before the pair at index `i`: a comma, except at the start.
pub open spec fn pair_separator(i: int) -> Seq<char> {
    if i > 0 {
        seq![',']
    } else {
        Seq::empty()
    }
}

/// The pairs from index `i` on, each with its separator.
pub open spec fn block_from(names: Seq<Seq<char>>, values: Seq<Seq<char>>, i: int) -> Seq<char>
    decreases names.len() - i,
{
    if i >= names.len() {
        Seq::empty()
    } else {
        pair_separator(i) + pair_text(names[i], values[i]) + block_from(names, values, i + 1)
    }
}

/// The comma-separated pairs of `names` and `values`.
pub open spec fn block_text(names: Seq<Seq<char>>, values: Seq<Seq<char>>) -> Seq<char> {
    block_from(names, values, 0)
}

/// Label values that differ are written as blocks that differ, whatever they
/// hold: two series never share a block.
pub proof fn law_blocks_tell_values_apart(
    names: Seq<Seq<char>>,
    a: Seq<Seq<char>>,
    b: Seq<Seq<char>>,
)
    requires
        a.len() == names.len(),
        b.len() == names.len(),
        block_text(names, a) == block_text(names, b),
    ensures
        a == b,
{
    lemma_blocks_tell_values_apart_from(names, a, b, 0);
    assert(a =~= b);
}

proof fn lemma_blocks_tell_values_apart_from(
    names: Seq<Seq<char>>,
    a: Seq<Seq<char>>,
    b: Seq<Seq<char>>,
    i: int,
)
    requires
        a.len() == names.len(),
        b.len() == names.len(),
        0 <= i <= names.len(),
        block_from(names, a, i) == block_from(names, b, i),
    ensures
        forall|j: int| i <= j < names.len() ==> a[j] == b[j],
    decreases names.len() - i,
{
    if i < names.len() {
        let head = pair_separator(i) + names[i] + seq!['=', '"'];
        let rest_a = block_from(names, a, i + 1);
        let rest_b = block_from(names, b, i + 1);
        let tail_a = escape::escaped_label(a[i]) + seq!['"'] + rest_a;
        let tail_b = escape::escaped_label(b[i]) + seq!['"'] + rest_b;
        assert(block_from(names, a, i) =~= head + tail_a);
        assert(block_from(names, b, i) =~= head + tail_b);
        assert((head + tail_a).skip(head.len() as int) =~= tail_a);
        assert((head + tail_b).skip(head.len() as int) =~= tail_b);
        escape::law_closing_quote_is_unambiguous(a[i], b[i], rest_a, rest_b);
        lemma_blocks_tell_values_apart_from(names, a, b, i + 1);
    }
}

/// A label block never breaks the line that it stands on, as long as no label
/// name does.
pub proof fn law_blocks_are_one_line(names: Seq<Seq<char>>, values: Seq<Seq<char>>)
    requires
        names.len() == values.len(),
        forall|j: int| 0 <= j < names.len() ==> !(#[trigger] names[j]).contains('\n'),
    ensures
        !block_text(names, values).contains('\n'),
{
    lemma_blocks_are_one_line_from(names, values, 0);
}

proof fn lemma_blocks_are_one_line_from(names: Seq<Seq<char>>, values: Seq<Seq<char>>, i: int)
    requires
        names.len() == values.len(),
        0 <= i <= names.len(),
        forall|j: int| 0 <= j < names.len() ==> !(#[trigger] names[j]).contains('\n'),
    ensures
        !block_from(names, values, i).contains('\n'),
    decreases names.len() - i,
{
    if i < names.len() {
        lemma_blocks_are_one_line_from(names, values, i + 1);
        escape::law_escaped_label_is_one_line(values[i]);
        let separator = pair_separator(i);
        let name = names[i];
        let value = escape::escaped_label(values[i]);
        let rest = block_from(names, values, i + 1);
        let whole = separator + (name + seq!['=', '"'] + value + seq!['"']) + rest;
        assert forall|k: int| 0 <= k < whole.len() implies whole[k] != '\n' by {
            let at_name = k - separator.len();
            let at_value = at_name - name.len() - 2;
            let at_rest = at_value - value.len() - 1;
            if 0 <= at_name < name.len() {
                assert(whole[k] == name[at_name]);
            } else if 0 <= at_value < value.len() {
                assert(whole[k] == value[at_value]);
            } else if 0 <= at_rest {
                assert(whole[k] == rest[at_rest]);
            }
        }
    }
}

/// The first `i` pairs followed by the others are all of them.
proof fn lemma_block_take(names: Seq<Seq<char>>, values: Seq<Seq<char>>, k: int, i: int)
    requires
        names.len() == values.len(),
        0 <= k <= i <= names.len(),
    ensures
        block_from(names, values, k) == block_from(names.take(i), values.take(i), k) + block_from(
            names,
            values,
            i,
        ),
    decreases i - k,
{
    if k < i {
        lemma_block_take(names, values, k + 1, i);
        let pair = pair_separator(k) + pair_text(names[k], values[k]);
        assert(block_from(names, values, k) =~= pair + block_from(names, values, k + 1));
        assert(block_from(names.take(i), values.take(i), k) =~= pair + block_from(
            names.take(i),
            values.take(i),
            k + 1,
        ));
        assert(block_from(names, values, k) =~= block_from(names.take(i), values.take(i), k)
            + block_from(names, values, i));
    } else {
        assert(block_from(names.take(i), values.take(i), k) =~= Seq::<char>::empty());
        assert(block_from(names, values, k) =~= Seq::<char>::empty() + block_from(
            names,
            values,
            i,
        ));
    }
}

/// One more pair extends a block by its separator and its text.
proof fn lemma_block_push(names: Seq<Seq<char>>, values: Seq<Seq<char>>, i: int)
    requires
        names.len() == values.len(),
        0 <= i < names.len(),
    ensures
        block_text(names.take(i + 1), values.take(i + 1)) == block_text(
            names.take(i),
            values.take(i),
        ) + pair_separator(i) + pair_text(names[i], values[i]),
{
    let n = names.take(i + 1);
    let v = values.take(i + 1);
    lemma_block_take(n, v, 0, i);
    assert(n.take(i) =~= names.take(i));
    assert(v.take(i) =~= values.take(i));
    assert(block_from(n, v, i + 1) =~= Seq::<char>::empty());
    assert(block_from(n, v, i) =~= pair_separator(i) + pair_text(names[i], values[i]));
    assert(block_text(n, v) =~= block_text(names.take(i), values.take(i)) + pair_separator(i)
        + pair_text(names[i], values[i]));
}

/// The pieces that a pair is written in, with the comma before it.
spec fn pair_pieces(i: int, name: Seq<char>, value: Seq<char>) -> Seq<Seq<char>> {
    comma_pieces(i) + seq![name, seq!['='], seq!['"']] + escape::label_pieces(value) + seq![
        seq!['"'],
    ]
}

/// The comma before every pair but the first, as pieces.
spec fn comma_pieces(i: int) -> Seq<Seq<char>> {
    if i > 0 {
        seq![seq![',']]
    } else {
        Seq::empty()
    }
}

/// The pieces of a pair are its text, with the comma before it.
proof fn lemma_pair_pieces(i: int, name: Seq<char>, value: Seq<char>)
    requires
        i >= 0,
    ensures
        text::joined(pair_pieces(i, name, value)) == pair_separator(i) + pair_text(name, value),
{
    let head = seq![name, seq!['='], seq!['"']];
    let quote = seq![seq!['"']];
    let pieces = escape::label_pieces(value);
    text::lemma_joined_concat(comma_pieces(i), head);
    text::lemma_joined_concat(comma_pieces(i) + head, pieces);
    text::lemma_joined_concat(comma_pieces(i) + head + pieces, quote);
    assert(head =~= seq![name] + seq![seq!['=']] + seq![seq!['"']]);
    text::lemma_joined_concat(seq![name], seq![seq!['=']]);
    text::lemma_joined_concat(seq![name] + seq![seq!['=']], quote);
    text::lemma_joined_one(name);
    text::lemma_joined_one(seq!['=']);
    text::lemma_joined_one(seq!['"']);
    text::lemma_joined_one(seq![',']);
    escape::lemma_label_pieces(value);
    assert(text::joined(comma_pieces(i)) =~= pair_separator(i));
    assert(text::joined(pair_pieces(i, name, value)) =~= pair_separator(i) + pair_text(
        name,
        value,
    ));
}

/// Write one `name="value"` pair, after a comma unless it is the first.
fn write_pair<W: TextSink>(out: &mut W, i: usize, name: &str, value: &str) -> (r: Result<
    (),
    FormatError,
>)
    requires
        old(out).wf(),
    ensures
        sink::wrote(*old(out), *final(out), pair_pieces(i as int, name@, value@), r),
{
    let ghost start = *out;
    let ghost whole = pair_pieces(i as int, name@, value@);
    let ghost mut done = Seq::<Seq<char>>::empty();
    proof {
        sink::lemma_wrote_nothing(*out);
    }
    if i > 0 {
        let r = sink::put_char(out, ',');
        proof {
            done = comma_pieces(i as int);
        }
        if let Err(e) = r {
            proof {
                lemma_cut_short(start, *out, done, whole);
            }
            return Err(e);
        }
    }
    assert(done =~= comma_pieces(i as int));
    let ghost before = *out;
    let r = sink::put_str(out, name);
    proof {
        sink::lemma_wrote_both(start, before, *out, done, seq![name@], r);
        done = done + seq![name@];
    }
    if let Err(e) = r {
        proof {
            lemma_cut_short(start, *out, done, whole);
        }
        return Err(e);
    }
    let ghost before = *out;
    let r = sink::put_char(out, '=');
    proof {
        sink::lemma_wrote_both(start, before, *out, done, seq![seq!['=']], r);
        done = done + seq![seq!['=']];
    }
    if let Err(e) = r {
        proof {
            lemma_cut_short(start, *out, done, whole);
        }
        return Err(e);
    }
    let ghost before = *out;
    let r = sink::put_char(out, '"');
    proof {
        sink::lemma_wrote_both(start, before, *out, done, seq![seq!['"']], r);
        done = done + seq![seq!['"']];
        assert(done =~= comma_pieces(i as int) + seq![name@, seq!['='], seq!['"']]);
    }
    if let Err(e) = r {
        proof {
            lemma_cut_short(start, *out, done, whole);
        }
        return Err(e);
    }
    let ghost before = *out;
    let r = escape::write_escaped_label_value(out, value);
    proof {
        sink::lemma_wrote_both(start, before, *out, done, escape::label_pieces(value@), r);
        done = done + escape::label_pieces(value@);
    }
    if let Err(e) = r {
        proof {
            lemma_cut_short(start, *out, done, whole);
        }
        return Err(e);
    }
    let ghost before = *out;
    let r = sink::put_char(out, '"');
    proof {
        sink::lemma_wrote_both(start, before, *out, done, seq![seq!['"']], r);
    }
    r
}

/// Refusing the first of some pieces is refusing them all.
proof fn lemma_cut_short<W: TextSink>(
    before: W,
    after: W,
    done: Seq<Seq<char>>,
    whole: Seq<Seq<char>>,
)
    requires
        sink::wrote(before, after, done, Err(FormatError)),
        done.is_prefix_of(whole),
    ensures
        sink::wrote(before, after, whole, Err(FormatError)),
{
    let rest = whole.skip(done.len() as int);
    sink::lemma_refused_early(before, after, done, rest);
    assert(done + rest =~= whole);
}

/// Render `names[i]="esc(values[i])"` pairs, comma-separated, into a
/// [`LabelBlock`]. Escaping happens once here, not on every render.
///
/// Returns `Err(())` if the rendered block would exceed `V` bytes.
pub fn build_block<const K: usize, const V: usize>(
    names: &'static [&'static str; K],
    values: &[&str; K],
) -> (r: Result<LabelBlock<V>, ()>)
    ensures
        r is Ok <==> text::byte_len(block_text(text::strs_view(names@), text::strs_view(values@)))
            <= V,
        r matches Ok(block) ==> block@ == block_text(
            text::strs_view(names@),
            text::strs_view(values@),
        ),
{
    let ghost n = text::strs_view(names@);
    let ghost v = text::strs_view(values@);
    let mut out: LabelBlock<V> = BoundedString::new();
    let ghost start = out;
    let ghost mut done = Seq::<Seq<char>>::empty();
    proof {
        sink::lemma_wrote_nothing(out);
        assert(block_text(n.take(0), v.take(0)) =~= Seq::<char>::empty());
    }
    let mut i: usize = 0;
    while i < K
        invariant
            i <= K,
            n == text::strs_view(names@),
            v == text::strs_view(values@),
            n.len() == K,
            v.len() == K,
            start@ == Seq::<char>::empty(),
            sink::wrote(start, out, done, Ok(())),
            text::joined(done) == block_text(n.take(i as int), v.take(i as int)),
            done.len() == 0 ==> i == 0,
        decreases K - i,
    {
        let ghost before = out;
        let ghost pair = pair_pieces(i as int, n[i as int], v[i as int]);
        let r = write_pair(&mut out, i, names[i], values[i]);
        proof {
            lemma_block_push(n, v, i as int);
            lemma_pair_pieces(i as int, n[i as int], v[i as int]);
            sink::lemma_wrote_both(start, before, out, done, pair, r);
            text::lemma_joined_concat(done, pair);
            done = done + pair;
            assert(text::joined(done) =~= block_text(n.take(i + 1), v.take(i + 1)));
        }
        if r.is_err() {
            proof {
                let rest = block_from(n, v, i + 1);
                sink::law_bounded_strings_hold_whole_pieces(start, out, done, r);
                lemma_block_take(n, v, 0, i + 1);
                text::lemma_byte_len_concat(text::joined(done), rest);
                assert(Seq::<char>::empty() + text::joined(done) =~= text::joined(done));
            }
            return Err(());
        }
        i = i + 1;
    }
    proof {
        sink::law_bounded_strings_hold_whole_pieces(start, out, done, Ok(()));
        assert(n.take(K as int) =~= n);
        assert(v.take(K as int) =~= v);
        assert(Seq::<char>::empty() + block_text(n, v) =~= block_text(n, v));
    }
    Ok(out)
}

/// A block of no pairs is empty, and one more pair is added behind the others:
/// after exactly one comma if there are others, as its name, `=` and its
/// escaped value in quotes. This holds for any number of pairs.
pub proof fn law_blocks_are_pairs_between_commas(
    names: Seq<Seq<char>>,
    values: Seq<Seq<char>>,
    name: Seq<char>,
    value: Seq<char>,
)
    requires
        names.len() == values.len(),
    ensures
        block_text(Seq::empty(), Seq::empty()) == Seq::<char>::empty(),
        names.len() == 0 ==> block_text(names.push(name), values.push(value)) == name + seq![
            '=',
            '"',
        ] + escape::escaped_label(value) + seq!['"'],
        names.len() > 0 ==> block_text(names.push(name), values.push(value)) == block_text(
            names,
            values,
        ) + seq![','] + name + seq!['=', '"'] + escape::escaped_label(value) + seq!['"'],
{
    let n = names.push(name);
    let v = values.push(value);
    let k = names.len() as int;
    lemma_block_push(n, v, k);
    assert(n.take(k) =~= names && v.take(k) =~= values);
    assert(n.take(k + 1) =~= n && v.take(k + 1) =~= v);
    let tail = seq!['=', '"'] + escape::escaped_label(value) + seq!['"'];
    assert(pair_text(name, value) =~= name + tail);
    if k == 0 {
        assert(block_text(names, values) =~= Seq::<char>::empty());
        assert(block_text(n, v) =~= name + seq!['=', '"'] + escape::escaped_label(value) + seq![
            '"',
        ]);
    } else {
        assert(block_text(n, v) =~= block_text(names, values) + seq![','] + name + seq!['=', '"']
            + escape::escaped_label(value) + seq!['"']);
    }
}

/// A block is built of the names and values in order, and only where it takes
/// at most `V` bytes.
pub proof fn law_blocks_are_built_within_their_budget<const K: usize, const V: usize>()
    ensures
        forall|
            names: &'static [&'static str; K],
            values: &[&str; K],
            r: Result<LabelBlock<V>, ()>,
        | #[trigger]
            call_ensures(build_block::<K, V>, (names, values), r) ==> {
                let n = Seq::new(K as nat, |i: int| names@[i]@);
                let v = Seq::new(K as nat, |i: int| values@[i]@);
                &&& r is Ok <==> text::byte_len(block_text(n, v)) <= V
                &&& r matches Ok(block) ==> block@ == block_text(n, v)
            },
{
    assert forall|
        names: &'static [&'static str; K],
        values: &[&str; K],
        r: Result<LabelBlock<V>, ()>,
    | #[trigger] call_ensures(build_block::<K, V>, (names, values), r) implies {
        let n = Seq::new(K as nat, |i: int| names@[i]@);
        let v = Seq::new(K as nat, |i: int| values@[i]@);
        &&& r is Ok <==> text::byte_len(block_text(n, v)) <= V
        &&& r matches Ok(block) ==> block@ == block_text(n, v)
    } by {
        assert(text::strs_view(names@) =~= Seq::new(K as nat, |i: int| names@[i]@));
        assert(text::strs_view(values@) =~= Seq::new(K as nat, |i: int| values@[i]@));
    }
}

} // verus!
