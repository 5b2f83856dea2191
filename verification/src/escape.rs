//! Prometheus text-exposition-format escaping and legacy name validation.
//!
//! The escaping rules come from the official
//! [Prometheus text exposition format][text-format]. The recommended legacy
//! metric and label name character sets, and the reserved `__` label prefix,
//! come from the [Prometheus data model][data-model].
//!
//! [text-format]: https://prometheus.io/docs/instrumenting/exposition_formats/#prometheus-text-format
//! [data-model]: https://prometheus.io/docs/concepts/data_model/#metric-names-and-labels

use vstd::prelude::*;
use crate::sink;
use crate::sink::FormatError;
use crate::sink::TextSink;
use crate::text;

verus! {

/// How one character of a label value is written.
pub open spec fn escaped_label_char(c: char) -> Seq<char> {
    if c == '\\' {
        seq!['\\', '\\']
    } else if c == '"' {
        seq!['\\', '"']
    } else if c == '\n' {
        seq!['\\', 'n']
    } else {
        seq![c]
    }
}

/// How a label value is written: `\` as `\\`, `"` as `\"`, LF as `\n`.
pub open spec fn escaped_label(s: Seq<char>) -> Seq<char>
    decreases s.len(),
{
    if s.len() == 0 {
        Seq::empty()
    } else {
        escaped_label_char(s[0]) + escaped_label(s.drop_first())
    }
}

/// How one character of a help text is written.
pub open spec fn escaped_help_char(c: char) -> Seq<char> {
    if c == '\\' {
        seq!['\\', '\\']
    } else if c == '\n' {
        seq!['\\', 'n']
    } else {
        seq![c]
    }
}

/// How a help text is written: `\` as `\\`, LF as `\n`.
pub open spec fn escaped_help(s: Seq<char>) -> Seq<char>
    decreases s.len(),
{
    if s.len() == 0 {
        Seq::empty()
    } else {
        escaped_help_char(s[0]) + escaped_help(s.drop_first())
    }
}

/// Escaping a concatenation is escaping its parts.
pub proof fn lemma_escaped_label_concat(a: Seq<char>, b: Seq<char>)
    ensures
        escaped_label(a + b) == escaped_label(a) + escaped_label(b),
    decreases a.len(),
{
    if a.len() == 0 {
        assert(a + b =~= b);
        assert(escaped_label(a) + escaped_label(b) =~= escaped_label(b));
    } else {
        lemma_escaped_label_concat(a.drop_first(), b);
        assert((a + b).drop_first() =~= a.drop_first() + b);
        assert((a + b)[0] == a[0]);
        assert(escaped_label(a + b) =~= escaped_label(a) + escaped_label(b));
    }
}

/// Escaping a concatenation is escaping its parts.
pub proof fn lemma_escaped_help_concat(a: Seq<char>, b: Seq<char>)
    ensures
        escaped_help(a + b) == escaped_help(a) + escaped_help(b),
    decreases a.len(),
{
    if a.len() == 0 {
        assert(a + b =~= b);
        assert(escaped_help(a) + escaped_help(b) =~= escaped_help(b));
    } else {
        lemma_escaped_help_concat(a.drop_first(), b);
        assert((a + b).drop_first() =~= a.drop_first() + b);
        assert((a + b)[0] == a[0]);
        assert(escaped_help(a + b) =~= escaped_help(a) + escaped_help(b));
    }
}

/// The pieces that a label value is written in: one for each character.
pub open spec fn label_pieces(s: Seq<char>) -> Seq<Seq<char>> {
    Seq::new(s.len(), |i: int| escaped_label_char(s[i]))
}

/// The pieces of a label value are its escaped text.
pub proof fn lemma_label_pieces(s: Seq<char>)
    ensures
        text::joined(label_pieces(s)) == escaped_label(s),
    decreases s.len(),
{
    if s.len() > 0 {
        let rest = s.drop_first();
        let first = seq![escaped_label_char(s[0])];
        lemma_label_pieces(rest);
        assert(label_pieces(s) =~= first + label_pieces(rest));
        text::lemma_joined_concat(first, label_pieces(rest));
        text::lemma_joined_one(escaped_label_char(s[0]));
    }
}

/// The pieces that a help text is written in: one for each character.
pub open spec fn help_pieces(s: Seq<char>) -> Seq<Seq<char>> {
    Seq::new(s.len(), |i: int| escaped_help_char(s[i]))
}

/// The pieces of a help text are its escaped text.
pub proof fn lemma_help_pieces(s: Seq<char>)
    ensures
        text::joined(help_pieces(s)) == escaped_help(s),
    decreases s.len(),
{
    if s.len() > 0 {
        let rest = s.drop_first();
        let first = seq![escaped_help_char(s[0])];
        lemma_help_pieces(rest);
        assert(help_pieces(s) =~= first + help_pieces(rest));
        text::lemma_joined_concat(first, help_pieces(rest));
        text::lemma_joined_one(escaped_help_char(s[0]));
    }
}

/// Write one character of a label value.
fn write_escaped_label_char<W: TextSink>(out: &mut W, c: char) -> (r: Result<(), FormatError>)
    requires
        old(out).wf(),
    ensures
        sink::wrote(*old(out), *final(out), seq![escaped_label_char(c)], r),
{
    proof {
        reveal_strlit("\\\\");
        reveal_strlit("\\\"");
        reveal_strlit("\\n");
        assert("\\\\"@ =~= seq!['\\', '\\']);
        assert("\\\""@ =~= seq!['\\', '"']);
        assert("\\n"@ =~= seq!['\\', 'n']);
    }
    match c {
        '\\' => sink::put_str(out, "\\\\"),
        '"' => sink::put_str(out, "\\\""),
        '\n' => sink::put_str(out, "\\n"),
        c => sink::put_char(out, c),
    }
}

/// Escape a label value per the exposition format: `\` -> `\\`, `"` -> `\"`, LF -> `\n`.
pub fn write_escaped_label_value<W: TextSink>(out: &mut W, s: &str) -> (r: Result<
    (),
    FormatError,
>)
    requires
        old(out).wf(),
    ensures
        sink::wrote(*old(out), *final(out), label_pieces(s@), r),
{
    let ghost start = *out;
    let ghost all = label_pieces(s@);
    proof {
        sink::lemma_wrote_nothing(*out);
        assert(all.take(0) =~= Seq::<Seq<char>>::empty());
    }
    for c in it: s.chars()
        invariant
            it.seq() == s@,
            all == label_pieces(s@),
            start == *old(out),
            sink::wrote(start, *out, all.take(it.index() as int), Ok(())),
    {
        let ghost i = it.index() as int;
        let ghost middle = *out;
        let r = write_escaped_label_char(out, c);
        proof {
            let next = seq![escaped_label_char(c)];
            sink::lemma_wrote_both(start, middle, *out, all.take(i), next, r);
            assert(all.take(i) + next =~= all.take(i + 1));
        }
        if let Err(e) = r {
            proof {
                sink::lemma_refused_early(start, *out, all.take(i + 1), all.skip(i + 1));
                assert(all.take(i + 1) + all.skip(i + 1) =~= all);
            }
            return Err(e);
        }
    }
    assert(all.take(s@.len() as int) =~= all);
    Ok(())
}

/// Write one character of a help text.
fn write_escaped_help_char<W: TextSink>(out: &mut W, c: char) -> (r: Result<(), FormatError>)
    requires
        old(out).wf(),
    ensures
        sink::wrote(*old(out), *final(out), seq![escaped_help_char(c)], r),
{
    proof {
        reveal_strlit("\\\\");
        reveal_strlit("\\n");
        assert("\\\\"@ =~= seq!['\\', '\\']);
        assert("\\n"@ =~= seq!['\\', 'n']);
    }
    match c {
        '\\' => sink::put_str(out, "\\\\"),
        '\n' => sink::put_str(out, "\\n"),
        c => sink::put_char(out, c),
    }
}

/// Escape HELP text per the exposition format: `\` -> `\\`, LF -> `\n`. Quotes are
/// not escaped in HELP text.
pub fn write_escaped_help<W: TextSink>(out: &mut W, s: &str) -> (r: Result<(), FormatError>)
    requires
        old(out).wf(),
    ensures
        sink::wrote(*old(out), *final(out), help_pieces(s@), r),
{
    let ghost start = *out;
    let ghost all = help_pieces(s@);
    proof {
        sink::lemma_wrote_nothing(*out);
        assert(all.take(0) =~= Seq::<Seq<char>>::empty());
    }
    for c in it: s.chars()
        invariant
            it.seq() == s@,
            all == help_pieces(s@),
            start == *old(out),
            sink::wrote(start, *out, all.take(it.index() as int), Ok(())),
    {
        let ghost i = it.index() as int;
        let ghost middle = *out;
        let r = write_escaped_help_char(out, c);
        proof {
            let next = seq![escaped_help_char(c)];
            sink::lemma_wrote_both(start, middle, *out, all.take(i), next, r);
            assert(all.take(i) + next =~= all.take(i + 1));
        }
        if let Err(e) = r {
            proof {
                sink::lemma_refused_early(start, *out, all.take(i + 1), all.skip(i + 1));
                assert(all.take(i + 1) + all.skip(i + 1) =~= all);
            }
            return Err(e);
        }
    }
    assert(all.take(s@.len() as int) =~= all);
    Ok(())
}

/// The text that an escaped text stands for: `\n` for LF, and `\` before any
/// other character for that character.
pub open spec fn unescaped(s: Seq<char>) -> Seq<char>
    decreases s.len(),
{
    if s.len() == 0 {
        Seq::empty()
    } else if s[0] == '\\' && s.len() >= 2 {
        seq![if s[1] == 'n' { '\n' } else { s[1] }] + unescaped(s.skip(2))
    } else {
        seq![s[0]] + unescaped(s.skip(1))
    }
}

/// Undoing the escaping of a label value gives the label value.
pub proof fn law_label_escape_reads_back(s: Seq<char>)
    ensures
        unescaped(escaped_label(s)) == s,
    decreases s.len(),
{
    if s.len() > 0 {
        let first = escaped_label_char(s[0]);
        let rest = escaped_label(s.drop_first());
        law_label_escape_reads_back(s.drop_first());
        assert((first + rest)[0] == first[0]);
        assert(first.len() == 2 ==> (first + rest)[1] == first[1]);
        assert((first + rest).skip(first.len() as int) =~= rest);
        assert(seq![s[0]] + s.drop_first() =~= s);
    }
}

/// Undoing the escaping of a help text gives the help text.
pub proof fn law_help_escape_reads_back(s: Seq<char>)
    ensures
        unescaped(escaped_help(s)) == s,
    decreases s.len(),
{
    if s.len() > 0 {
        let first = escaped_help_char(s[0]);
        let rest = escaped_help(s.drop_first());
        law_help_escape_reads_back(s.drop_first());
        assert((first + rest)[0] == first[0]);
        assert(first.len() == 2 ==> (first + rest)[1] == first[1]);
        assert((first + rest).skip(first.len() as int) =~= rest);
        assert(seq![s[0]] + s.drop_first() =~= s);
    }
}

/// An escaped label value never breaks the line that it stands on.
pub proof fn law_escaped_label_is_one_line(s: Seq<char>)
    ensures
        !escaped_label(s).contains('\n'),
    decreases s.len(),
{
    if s.len() > 0 {
        law_escaped_label_is_one_line(s.drop_first());
        let first = escaped_label_char(s[0]);
        let rest = escaped_label(s.drop_first());
        assert forall|i: int| 0 <= i < (first + rest).len() implies (first + rest)[i] != '\n' by {
            if i >= first.len() {
                assert(rest[i - first.len()] != '\n');
            }
        }
    }
}

/// An escaped help text never breaks the line that it stands on.
pub proof fn law_escaped_help_is_one_line(s: Seq<char>)
    ensures
        !escaped_help(s).contains('\n'),
    decreases s.len(),
{
    if s.len() > 0 {
        law_escaped_help_is_one_line(s.drop_first());
        let first = escaped_help_char(s[0]);
        let rest = escaped_help(s.drop_first());
        assert forall|i: int| 0 <= i < (first + rest).len() implies (first + rest)[i] != '\n' by {
            if i >= first.len() {
                assert(rest[i - first.len()] != '\n');
            }
        }
    }
}

/// The quote that closes a label value is found without doubt: where two
/// texts that begin with a quoted label value are equal, the label values are
/// equal and so is what follows them.
pub proof fn law_closing_quote_is_unambiguous(
    a: Seq<char>,
    b: Seq<char>,
    after_a: Seq<char>,
    after_b: Seq<char>,
)
    requires
        escaped_label(a) + seq!['"'] + after_a == escaped_label(b) + seq!['"'] + after_b,
    ensures
        a == b,
        after_a == after_b,
    decreases a.len(),
{
    let whole_a = escaped_label(a) + seq!['"'] + after_a;
    let whole_b = escaped_label(b) + seq!['"'] + after_b;
    if a.len() == 0 {
        assert(whole_a[0] == '"');
        if b.len() > 0 {
            assert(whole_b[0] == escaped_label_char(b[0])[0]);
        }
        assert(whole_a.skip(1) =~= after_a);
        assert(whole_b.skip(1) =~= after_b);
        assert(a =~= b);
    } else if b.len() == 0 {
        assert(whole_b[0] == '"');
        assert(whole_a[0] == escaped_label_char(a[0])[0]);
    } else {
        let first_a = escaped_label_char(a[0]);
        let first_b = escaped_label_char(b[0]);
        assert(whole_a[0] == first_a[0]);
        assert(whole_b[0] == first_b[0]);
        if first_a.len() == 2 {
            assert(whole_a[1] == first_a[1]);
        }
        if first_b.len() == 2 {
            assert(whole_b[1] == first_b[1]);
        }
        assert(a[0] == b[0]);
        let n = first_a.len() as int;
        assert(whole_a.skip(n) =~= escaped_label(a.drop_first()) + seq!['"'] + after_a);
        assert(whole_b.skip(n) =~= escaped_label(b.drop_first()) + seq!['"'] + after_b);
        law_closing_quote_is_unambiguous(a.drop_first(), b.drop_first(), after_a, after_b);
        assert(a =~= seq![a[0]] + a.drop_first());
        assert(b =~= seq![b[0]] + b.drop_first());
    }
}

/// An ASCII letter.
pub open spec fn is_letter(c: char) -> bool {
    ('a' <= c && c <= 'z') || ('A' <= c && c <= 'Z')
}

/// An ASCII digit.
pub open spec fn is_digit(c: char) -> bool {
    '0' <= c && c <= '9'
}

/// A character that a metric name can begin with: `[a-zA-Z_:]`.
pub open spec fn name_start(c: char) -> bool {
    is_letter(c) || c == '_' || c == ':'
}

/// A character that a metric name can go on with: `[a-zA-Z0-9_:]`.
pub open spec fn name_continue(c: char) -> bool {
    name_start(c) || is_digit(c)
}

/// A character that a label name can begin with: `[a-zA-Z_]`.
pub open spec fn label_start(c: char) -> bool {
    is_letter(c) || c == '_'
}

/// A character that a label name can go on with: `[a-zA-Z0-9_]`.
pub open spec fn label_continue(c: char) -> bool {
    label_start(c) || is_digit(c)
}

/// `[a-zA-Z_:][a-zA-Z0-9_:]*`, or nothing at all.
pub open spec fn metric_name_ok(s: Seq<char>) -> bool {
    s.len() > 0 ==> name_start(s[0]) && forall|i: int|
        1 <= i < s.len() ==> name_continue(#[trigger] s[i])
}

/// `[a-zA-Z_][a-zA-Z0-9_]*`, without the prefix `__`.
pub open spec fn label_name_ok(s: Seq<char>) -> bool {
    &&& s.len() > 0
    &&& label_start(s[0])
    &&& forall|i: int| 1 <= i < s.len() ==> label_continue(#[trigger] s[i])
    &&& !(s.len() >= 2 && s[0] == '_' && s[1] == '_')
}

/// Every label name could be a metric name.
pub proof fn law_label_names_are_metric_names(s: Seq<char>)
    requires
        label_name_ok(s),
    ensures
        metric_name_ok(s),
{
}

/// Whether `s` is a valid Prometheus metric name: `[a-zA-Z_:][a-zA-Z0-9_:]*`.
/// An empty string (no namespace) is considered valid.
pub fn valid_metric_name(s: &str) -> (ok: bool)
    ensures
        ok == metric_name_ok(s@),
{
    let mut first: bool = true;
    for c in it: s.chars()
        invariant
            it.seq() == s@,
            first == (it.index() == 0),
            it.index() > 0 ==> name_start(s@[0]),
            forall|i: int| 1 <= i < it.index() ==> name_continue(#[trigger] s@[i]),
    {
        assert(c == s@[it.index() as int]);
        if first {
            if !is_name_start(c) {
                return false;
            }
            first = false;
        } else if !is_name_continue(c) {
            return false;
        }
    }
    true
}

/// Whether `s` is a valid Prometheus label name: `[a-zA-Z_][a-zA-Z0-9_]*`, and not
/// prefixed with `__` (reserved for internal use).
pub fn valid_label_name(s: &str) -> (ok: bool)
    ensures
        ok == label_name_ok(s@),
{
    let mut seen: usize = 0;
    let mut underscores: bool = true;
    let mut reserved: bool = false;
    for c in it: s.chars()
        invariant
            it.seq() == s@,
            seen == (if it.index() < 2 {
                it.index() as int
            } else {
                2
            }),
            it.index() > 0 ==> label_start(s@[0]),
            forall|i: int| 1 <= i < it.index() ==> label_continue(#[trigger] s@[i]),
            it.index() < 2 ==> (underscores == (forall|i: int|
                0 <= i < it.index() ==> s@[i] == '_')),
            reserved == (it.index() >= 2 && s@[0] == '_' && s@[1] == '_'),
    {
        assert(c == s@[it.index() as int]);
        if seen == 0 {
            if !is_label_start(c) {
                return false;
            }
        } else if !is_label_continue(c) {
            return false;
        }
        if seen < 2 {
            seen = seen + 1;
            underscores = underscores && c == '_';
            reserved = seen == 2 && underscores;
        }
    }
    seen > 0 && !reserved
}

/// `[a-zA-Z_:]`.
fn is_name_start(c: char) -> (ok: bool)
    ensures
        ok == name_start(c),
{
    ('a' <= c && c <= 'z') || ('A' <= c && c <= 'Z') || c == '_' || c == ':'
}

/// `[a-zA-Z0-9_:]`.
fn is_name_continue(c: char) -> (ok: bool)
    ensures
        ok == name_continue(c),
{
    is_name_start(c) || ('0' <= c && c <= '9')
}

/// `[a-zA-Z_]`.
fn is_label_start(c: char) -> (ok: bool)
    ensures
        ok == label_start(c),
{
    ('a' <= c && c <= 'z') || ('A' <= c && c <= 'Z') || c == '_'
}

/// `[a-zA-Z0-9_]`.
fn is_label_continue(c: char) -> (ok: bool)
    ensures
        ok == label_continue(c),
{
    is_label_start(c) || ('0' <= c && c <= '9')
}

/// Label values are escaped character by character: a backslash, a quote and a
/// line feed by two characters each, and any other by itself.
pub proof fn law_label_values_are_escaped_by_character(a: Seq<char>, b: Seq<char>, c: char)
    ensures
        escaped_label(Seq::empty()) == Seq::<char>::empty(),
        escaped_label(a + b) == escaped_label(a) + escaped_label(b),
        escaped_label(seq![c]) == if c == '\\' {
            seq!['\\', '\\']
        } else if c == '"' {
            seq!['\\', '"']
        } else if c == '\n' {
            seq!['\\', 'n']
        } else {
            seq![c]
        },
        label_pieces(a).len() == a.len(),
        forall|i: int|
            0 <= i < a.len() ==> #[trigger] label_pieces(a)[i] == escaped_label(seq![a[i]]),
{
    lemma_escaped_label_concat(a, b);
    assert forall|d: char| true implies #[trigger] escaped_label(seq![d]) == escaped_label_char(
        d,
    ) by {
        assert(seq![d].drop_first() =~= Seq::<char>::empty());
        assert(escaped_label(Seq::<char>::empty()) =~= Seq::<char>::empty());
        assert(escaped_label(seq![d]) =~= escaped_label_char(d) + Seq::<char>::empty());
        assert(escaped_label_char(d) + Seq::<char>::empty() =~= escaped_label_char(d));
    }
    assert(escaped_label(seq![c]) == escaped_label_char(c));
}

/// Help texts are escaped character by character: a backslash and a line feed
/// by two characters each, and any other by itself.
pub proof fn law_help_texts_are_escaped_by_character(a: Seq<char>, b: Seq<char>, c: char)
    ensures
        escaped_help(Seq::empty()) == Seq::<char>::empty(),
        escaped_help(a + b) == escaped_help(a) + escaped_help(b),
        escaped_help(seq![c]) == if c == '\\' {
            seq!['\\', '\\']
        } else if c == '\n' {
            seq!['\\', 'n']
        } else {
            seq![c]
        },
        help_pieces(a).len() == a.len(),
        forall|i: int|
            0 <= i < a.len() ==> #[trigger] help_pieces(a)[i] == escaped_help(seq![a[i]]),
{
    lemma_escaped_help_concat(a, b);
    assert forall|d: char| true implies #[trigger] escaped_help(seq![d]) == escaped_help_char(
        d,
    ) by {
        assert(seq![d].drop_first() =~= Seq::<char>::empty());
        assert(escaped_help(Seq::<char>::empty()) =~= Seq::<char>::empty());
        assert(escaped_help(seq![d]) =~= escaped_help_char(d) + Seq::<char>::empty());
        assert(escaped_help_char(d) + Seq::<char>::empty() =~= escaped_help_char(d));
    }
    assert(escaped_help(seq![c]) == escaped_help_char(c));
}

/// Whatever a sink takes of escaped text, it is handed the escaped characters
/// one by one.
pub proof fn law_escaped_text_is_written_by_character<W: TextSink>()
    ensures
        forall|out: &mut W, s: &str, r: Result<(), FormatError>| #[trigger]
            call_ensures(write_escaped_label_value::<W>, (out, s), r) ==> sink::wrote(
                *out,
                *final(out),
                Seq::new(s@.len(), |i: int| escaped_label(seq![s@[i]])),
                r,
            ),
        forall|out: &mut W, s: &str, r: Result<(), FormatError>| #[trigger]
            call_ensures(write_escaped_help::<W>, (out, s), r) ==> sink::wrote(
                *out,
                *final(out),
                Seq::new(s@.len(), |i: int| escaped_help(seq![s@[i]])),
                r,
            ),
{
    assert forall|s: Seq<char>| true implies #[trigger] label_pieces(s) == Seq::new(
        s.len(),
        |i: int| escaped_label(seq![s[i]]),
    ) by {
        law_label_values_are_escaped_by_character(s, s, 'a');
        assert(label_pieces(s) =~= Seq::new(s.len(), |i: int| escaped_label(seq![s[i]])));
    }
    assert forall|s: Seq<char>| true implies #[trigger] help_pieces(s) == Seq::new(
        s.len(),
        |i: int| escaped_help(seq![s[i]]),
    ) by {
        law_help_texts_are_escaped_by_character(s, s, 'a');
        assert(help_pieces(s) =~= Seq::new(s.len(), |i: int| escaped_help(seq![s[i]])));
    }
}

/// A metric name is valid where each of its characters is an ASCII letter, `_`
/// or `:`, or, behind the first, an ASCII digit.
pub proof fn law_metric_names_are_valid_by_character()
    ensures
        forall|s: Seq<char>| #[trigger]
            metric_name_ok(s) <==> forall|i: int|
                0 <= i < s.len() ==> {
                    let c = #[trigger] s[i];
                    'a' <= c <= 'z' || 'A' <= c <= 'Z' || c == '_' || c == ':' || (i > 0 && '0'
                        <= c <= '9')
                },
        forall|s: &str, ok: bool| #[trigger]
            call_ensures(valid_metric_name, (s,), ok) ==> (ok <==> forall|i: int|
                0 <= i < s@.len() ==> {
                    let c = #[trigger] s@[i];
                    'a' <= c <= 'z' || 'A' <= c <= 'Z' || c == '_' || c == ':' || (i > 0 && '0'
                        <= c <= '9')
                }),
{
    assert forall|s: Seq<char>| #[trigger] metric_name_ok(s) implies forall|i: int|
        0 <= i < s.len() ==> {
            let c = #[trigger] s[i];
            'a' <= c <= 'z' || 'A' <= c <= 'Z' || c == '_' || c == ':' || (i > 0 && '0' <= c <= '9')
        } by {
        assert forall|i: int| 0 <= i < s.len() implies {
            let c = #[trigger] s[i];
            'a' <= c <= 'z' || 'A' <= c <= 'Z' || c == '_' || c == ':' || (i > 0 && '0' <= c <= '9')
        } by {
            if i > 0 {
                assert(name_continue(s[i]));
            }
        }
    }
}

/// A label name is valid where it has characters, each of them an ASCII letter
/// or `_`, or, behind the first, an ASCII digit, and does not begin with `__`.
pub proof fn law_label_names_are_valid_by_character()
    ensures
        forall|s: Seq<char>| #[trigger]
            label_name_ok(s) <==> {
                &&& s.len() > 0
                &&& !(s.len() > 1 && s[0] == '_' && s[1] == '_')
                &&& forall|i: int|
                    0 <= i < s.len() ==> {
                        let c = #[trigger] s[i];
                        'a' <= c <= 'z' || 'A' <= c <= 'Z' || c == '_' || (i > 0 && '0' <= c
                            <= '9')
                    }
            },
        forall|s: &str, ok: bool| #[trigger]
            call_ensures(valid_label_name, (s,), ok) ==> (ok <==> {
                &&& s@.len() > 0
                &&& !(s@.len() > 1 && s@[0] == '_' && s@[1] == '_')
                &&& forall|i: int|
                    0 <= i < s@.len() ==> {
                        let c = #[trigger] s@[i];
                        'a' <= c <= 'z' || 'A' <= c <= 'Z' || c == '_' || (i > 0 && '0' <= c
                            <= '9')
                    }
            }),
{
    assert forall|s: Seq<char>| #[trigger] label_name_ok(s) implies forall|i: int|
        0 <= i < s.len() ==> {
            let c = #[trigger] s[i];
            'a' <= c <= 'z' || 'A' <= c <= 'Z' || c == '_' || (i > 0 && '0' <= c <= '9')
        } by {
        assert forall|i: int| 0 <= i < s.len() implies {
            let c = #[trigger] s[i];
            'a' <= c <= 'z' || 'A' <= c <= 'Z' || c == '_' || (i > 0 && '0' <= c <= '9')
        } by {
            if i > 0 {
                assert(label_continue(s[i]));
            }
        }
    }
}

} // verus!
