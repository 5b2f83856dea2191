//! Where text is written to.

use vstd::prelude::*;
use vstd::string::StringExecFns;
use crate::bounded::BoundedString;
use crate::text;

verus! {

/// A sink refused a piece of text.
#[derive(Debug, Clone, Copy, PartialEq, Eq)]
pub struct FormatError;

/// A sink that text is appended to, piece by piece.
///
/// Any writer can be a sink: what it makes of a piece, and which pieces it
/// refuses, is its own affair. A verified implementation says so in `answers`,
/// from which the contracts of this library follow for it.
pub trait TextSink: Sized {
    /// What the sink keeps true of itself.
    open spec fn wf(&self) -> bool {
        true
    }

    /// Whether `before`, on being handed `piece`, may answer `r` and become
    /// `after`.
    open spec fn answers(
        before: Self,
        piece: Seq<char>,
        r: Result<(), FormatError>,
        after: Self,
    ) -> bool {
        true
    }

    /// Append `s`.
    fn write_str(&mut self, s: &str) -> (r: Result<(), FormatError>)
        requires
            old(self).wf(),
        ensures
            final(self).wf(),
            Self::answers(*old(self), s@, r, *final(self)),
    ;

    /// Append `c`.
    fn write_char(&mut self, c: char) -> (r: Result<(), FormatError>)
        requires
            old(self).wf(),
        ensures
            final(self).wf(),
            Self::answers(*old(self), seq![c], r, *final(self)),
    ;
}

/// `after` is what `before` becomes by taking `pieces` one by one.
pub open spec fn took<W: TextSink>(before: W, after: W, pieces: Seq<Seq<char>>) -> bool
    decreases pieces.len(),
{
    if pieces.len() == 0 {
        before == after
    } else {
        exists|middle: W|
            took(before, middle, pieces.drop_last()) && #[trigger] W::answers(
                middle,
                pieces.last(),
                Ok(()),
                after,
            )
    }
}

/// Handing `pieces` one by one to `before` came to an end at piece `k`: those
/// ahead of it were taken, it was refused, and nothing was handed over behind
/// it.
pub open spec fn stopped_at<W: TextSink>(
    before: W,
    after: W,
    pieces: Seq<Seq<char>>,
    k: int,
) -> bool {
    &&& 0 <= k < pieces.len()
    &&& exists|middle: W|
        took(before, middle, pieces.take(k)) && #[trigger] W::answers(
            middle,
            pieces[k],
            Err(FormatError),
            after,
        )
}

/// `after` is what `before` becomes when `pieces` are handed to it one by one
/// with result `r`: it takes them all, or they end at the first that it
/// refuses.
pub open spec fn wrote<W: TextSink>(
    before: W,
    after: W,
    pieces: Seq<Seq<char>>,
    r: Result<(), FormatError>,
) -> bool {
    &&& after.wf()
    &&& match r {
        Ok(_) => took(before, after, pieces),
        Err(_) => exists|k: int| #[trigger] stopped_at(before, after, pieces, k),
    }
}

/// Writing nothing leaves a sink as it is.
pub proof fn lemma_wrote_nothing<W: TextSink>(sink: W)
    requires
        sink.wf(),
    ensures
        wrote(sink, sink, Seq::empty(), Ok(())),
{
}

/// Taking `a` and then `b` is taking `a + b`.
proof fn lemma_took_both<W: TextSink>(
    before: W,
    middle: W,
    after: W,
    a: Seq<Seq<char>>,
    b: Seq<Seq<char>>,
)
    requires
        took(before, middle, a),
        took(middle, after, b),
    ensures
        took(before, after, a + b),
    decreases b.len(),
{
    if b.len() == 0 {
        assert(a + b =~= a);
    } else {
        let last = choose|last: W|
            took(middle, last, b.drop_last()) && #[trigger] W::answers(
                last,
                b.last(),
                Ok(()),
                after,
            );
        lemma_took_both(before, middle, last, a, b.drop_last());
        assert((a + b).drop_last() =~= a + b.drop_last());
        assert((a + b).last() == b.last());
    }
}

/// Writing `a` and then `b` is writing `a + b`.
pub proof fn lemma_wrote_both<W: TextSink>(
    before: W,
    middle: W,
    after: W,
    a: Seq<Seq<char>>,
    b: Seq<Seq<char>>,
    r: Result<(), FormatError>,
)
    requires
        wrote(before, middle, a, Ok(())),
        wrote(middle, after, b, r),
    ensures
        wrote(before, after, a + b, r),
{
    match r {
        Ok(_) => {
            lemma_took_both(before, middle, after, a, b);
        },
        Err(_) => {
            let k = choose|k: int| stopped_at(middle, after, b, k);
            let last = choose|last: W|
                took(middle, last, b.take(k)) && #[trigger] W::answers(
                    last,
                    b[k],
                    Err(FormatError),
                    after,
                );
            lemma_took_both(before, middle, last, a, b.take(k));
            let m = a.len() + k;
            assert((a + b).take(m) =~= a + b.take(k));
            assert((a + b)[m] == b[k]);
            assert(stopped_at(before, after, a + b, m));
        },
    }
}

/// Pieces that are refused are refused whatever pieces would have followed.
pub proof fn lemma_refused_early<W: TextSink>(
    before: W,
    after: W,
    a: Seq<Seq<char>>,
    b: Seq<Seq<char>>,
)
    requires
        wrote(before, after, a, Err(FormatError)),
    ensures
        wrote(before, after, a + b, Err(FormatError)),
{
    let k = choose|k: int| stopped_at(before, after, a, k);
    assert((a + b).take(k) =~= a.take(k));
    assert((a + b)[k] == a[k]);
    assert(stopped_at(before, after, a + b, k));
}

/// Writing a single piece.
proof fn lemma_wrote_one<W: TextSink>(
    before: W,
    after: W,
    s: Seq<char>,
    r: Result<(), FormatError>,
)
    requires
        after.wf(),
        W::answers(before, s, r, after),
    ensures
        wrote(before, after, seq![s], r),
{
    assert(took(before, before, Seq::<Seq<char>>::empty()));
    match r {
        Ok(u) => {
            assert(u == ());
            assert(W::answers(before, seq![s].last(), Ok(()), after));
            assert(seq![s].drop_last() =~= Seq::<Seq<char>>::empty());
        },
        Err(e) => {
            assert(e == FormatError);
            assert(W::answers(before, seq![s][0], Err(FormatError), after));
            assert(seq![s].take(0) =~= Seq::<Seq<char>>::empty());
            assert(stopped_at(before, after, seq![s], 0));
        },
    }
}

/// Whether `s` is within this many bytes, if there is a limit.
pub open spec fn fits(room: Option<nat>, s: Seq<char>) -> bool {
    room matches Some(n) ==> text::byte_len(s) <= n
}

/// What a sink that holds text within `room` makes of `pieces`, handed to it
/// one by one with result `r`: it takes them all where they fit together, and
/// else it holds exactly those ahead of the first that does not fit.
pub open spec fn appended(
    before: Seq<char>,
    after: Seq<char>,
    pieces: Seq<Seq<char>>,
    r: Result<(), FormatError>,
    room: Option<nat>,
) -> bool {
    let all = text::joined(pieces);
    &&& r is Ok <==> pieces.len() == 0 || fits(room, before + all)
    &&& r is Ok ==> after == before + all
    &&& r is Err ==> exists|k: int| #[trigger] full_at(before, after, pieces, room, k)
}

/// The text holds the pieces ahead of piece `k`, and has no room for that one.
pub open spec fn full_at(
    before: Seq<char>,
    after: Seq<char>,
    pieces: Seq<Seq<char>>,
    room: Option<nat>,
    k: int,
) -> bool {
    &&& 0 <= k < pieces.len()
    &&& after == before + text::joined(pieces.take(k))
    &&& k == 0 || fits(room, after)
    &&& !fits(room, after + pieces[k])
}

/// Sinks of this type hold text within `room`: they take a piece whole where
/// it fits behind what they hold, and leave it out otherwise.
pub open spec fn holds_text<W: TextSink>(held: spec_fn(W) -> Seq<char>, room: Option<nat>) -> bool {
    forall|before: W, piece: Seq<char>, r: Result<(), FormatError>, after: W|
        #[trigger] W::answers(before, piece, r, after) ==> {
            &&& r is Ok <==> fits(room, held(before) + piece)
            &&& held(after) == if r is Ok {
                held(before) + piece
            } else {
                held(before)
            }
        }
}

proof fn lemma_fits_before(room: Option<nat>, s: Seq<char>, t: Seq<char>)
    ensures
        fits(room, s + t) ==> fits(room, s),
{
    text::lemma_byte_len_concat(s, t);
}

/// A sink that holds text has appended the pieces that it took.
proof fn lemma_took_text<W: TextSink>(
    before: W,
    after: W,
    pieces: Seq<Seq<char>>,
    held: spec_fn(W) -> Seq<char>,
    room: Option<nat>,
)
    requires
        took(before, after, pieces),
        holds_text(held, room),
    ensures
        held(after) == held(before) + text::joined(pieces),
        pieces.len() > 0 ==> fits(room, held(after)),
    decreases pieces.len(),
{
    if pieces.len() == 0 {
        assert(held(before) + text::joined(pieces) =~= held(before));
    } else {
        let last = choose|last: W|
            took(before, last, pieces.drop_last()) && #[trigger] W::answers(
                last,
                pieces.last(),
                Ok(()),
                after,
            );
        lemma_took_text(before, last, pieces.drop_last(), held, room);
        assert(held(before) + text::joined(pieces.drop_last()) + pieces.last() =~= held(before)
            + text::joined(pieces));
    }
}

/// What was written to a sink that holds text, as text.
pub proof fn lemma_wrote_text<W: TextSink>(
    before: W,
    after: W,
    pieces: Seq<Seq<char>>,
    r: Result<(), FormatError>,
    held: spec_fn(W) -> Seq<char>,
    room: Option<nat>,
)
    requires
        wrote(before, after, pieces, r),
        holds_text(held, room),
    ensures
        appended(held(before), held(after), pieces, r, room),
{
    match r {
        Ok(_) => {
            lemma_took_text(before, after, pieces, held, room);
        },
        Err(_) => {
            let k = choose|k: int| stopped_at(before, after, pieces, k);
            let last = choose|last: W|
                took(before, last, pieces.take(k)) && #[trigger] W::answers(
                    last,
                    pieces[k],
                    Err(FormatError),
                    after,
                );
            lemma_took_text(before, last, pieces.take(k), held, room);
            assert(full_at(held(before), held(after), pieces, room, k));
            let next = text::joined(pieces.take(k + 1));
            let rest = text::joined(pieces.skip(k + 1));
            assert(pieces.take(k + 1).drop_last() =~= pieces.take(k));
            assert(held(after) + pieces[k] =~= held(before) + next);
            assert(pieces.take(k + 1) + pieces.skip(k + 1) =~= pieces);
            text::lemma_joined_concat(pieces.take(k + 1), pieces.skip(k + 1));
            assert((held(before) + next) + rest =~= held(before) + text::joined(pieces));
            lemma_fits_before(room, held(before) + next, rest);
        },
    }
}

/// Write `s` as one piece.
pub fn put_str<W: TextSink>(out: &mut W, s: &str) -> (r: Result<(), FormatError>)
    requires
        old(out).wf(),
    ensures
        wrote(*old(out), *final(out), seq![s@], r),
{
    let ghost start = *out;
    let r = out.write_str(s);
    proof {
        lemma_wrote_one(start, *out, s@, r);
    }
    r
}

/// Write `c` as one piece.
pub fn put_char<W: TextSink>(out: &mut W, c: char) -> (r: Result<(), FormatError>)
    requires
        old(out).wf(),
    ensures
        wrote(*old(out), *final(out), seq![seq![c]], r),
{
    let ghost start = *out;
    let r = out.write_char(c);
    proof {
        lemma_wrote_one(start, *out, seq![c], r);
    }
    r
}

/// Write `pieces` one by one, up to the first that is refused.
pub fn put_all<W: TextSink>(out: &mut W, pieces: &Vec<String>) -> (r: Result<(), FormatError>)
    requires
        old(out).wf(),
    ensures
        wrote(*old(out), *final(out), text::strings_view(pieces@), r),
{
    let ghost start = *out;
    let ghost all = text::strings_view(pieces@);
    proof {
        lemma_wrote_nothing(*out);
        assert(all.take(0) =~= Seq::<Seq<char>>::empty());
    }
    let mut i: usize = 0;
    while i < pieces.len()
        invariant
            i <= pieces@.len(),
            all == text::strings_view(pieces@),
            start == *old(out),
            wrote(start, *out, all.take(i as int), Ok(())),
        decreases pieces@.len() - i,
    {
        let ghost middle = *out;
        let ghost done = all.take(i as int);
        let ghost next = seq![all[i as int]];
        let r = put_str(out, pieces[i].as_str());
        proof {
            lemma_wrote_both(start, middle, *out, done, next, r);
            assert(done + next =~= all.take(i + 1));
        }
        if r.is_err() {
            proof {
                lemma_refused_early(start, *out, all.take(i + 1), all.skip(i + 1));
                assert(all.take(i + 1) + all.skip(i + 1) =~= all);
            }
            return Err(FormatError);
        }
        i = i + 1;
    }
    assert(all.take(all.len() as int) =~= all);
    Ok(())
}

/// A bounded string takes what fits in its capacity, and nothing of a piece
/// that does not.
impl<const N: usize> TextSink for BoundedString<N> {
    open spec fn answers(
        before: Self,
        piece: Seq<char>,
        r: Result<(), FormatError>,
        after: Self,
    ) -> bool {
        &&& r is Ok <==> fits(Some(N as nat), before@ + piece)
        &&& after@ == if r is Ok {
            before@ + piece
        } else {
            before@
        }
    }

    fn write_str(&mut self, s: &str) -> (r: Result<(), FormatError>) {
        proof {
            text::lemma_byte_len_concat(self@, s@);
        }
        match self.push_str(s) {
            Ok(()) => Ok(()),
            Err(()) => Err(FormatError),
        }
    }

    fn write_char(&mut self, c: char) -> (r: Result<(), FormatError>) {
        proof {
            text::lemma_byte_len_concat(self@, seq![c]);
            assert(self@ + seq![c] =~= self@.push(c));
        }
        match self.push(c) {
            Ok(()) => Ok(()),
            Err(()) => Err(FormatError),
        }
    }
}

/// A bounded string holds whole pieces: all of them where they fit, and else
/// those ahead of the first that does not.
pub proof fn law_bounded_strings_hold_whole_pieces<const N: usize>(
    before: BoundedString<N>,
    after: BoundedString<N>,
    pieces: Seq<Seq<char>>,
    r: Result<(), FormatError>,
)
    requires
        wrote(before, after, pieces, r),
    ensures
        appended(before@, after@, pieces, r, Some(N as nat)),
{
    lemma_wrote_text(before, after, pieces, r, |s: BoundedString<N>| s@, Some(N as nat));
}

/// `String::push` of the standard library: appends `c`.
pub assume_specification[ String::push ](s: &mut String, c: char)
    ensures
        final(s)@ == old(s)@.push(c),
;

/// A growable string takes every text.
impl TextSink for String {
    open spec fn answers(
        before: Self,
        piece: Seq<char>,
        r: Result<(), FormatError>,
        after: Self,
    ) -> bool {
        r is Ok && after@ == before@ + piece
    }

    fn write_str(&mut self, s: &str) -> (r: Result<(), FormatError>) {
        self.append(s);
        Ok(())
    }

    fn write_char(&mut self, c: char) -> (r: Result<(), FormatError>) {
        assert(self@ + seq![c] =~= self@.push(c));
        self.push(c);
        Ok(())
    }
}

/// A growable string takes all pieces.
pub proof fn law_strings_take_everything(
    before: String,
    after: String,
    pieces: Seq<Seq<char>>,
    r: Result<(), FormatError>,
)
    requires
        wrote(before, after, pieces, r),
    ensures
        r is Ok,
        after@ == before@ + text::joined(pieces),
{
    lemma_wrote_text(before, after, pieces, r, |s: String| s@, None);
}

/// A sink that keeps the number of bytes written to it and nothing else. It
/// refuses what would take that number past `usize::MAX`.
pub struct ByteCount {
    bytes: usize,
    seen: Ghost<Seq<char>>,
}

impl ByteCount {
    /// Everything that was counted.
    pub closed spec fn counted(&self) -> Seq<char> {
        self.seen@
    }

    /// A count of zero.
    pub fn new() -> (c: Self)
        ensures
            c.wf(),
            c.counted() == Seq::<char>::empty(),
    {
        ByteCount { bytes: 0, seen: Ghost(Seq::empty()) }
    }

    /// The number of bytes written so far.
    pub fn get(&self) -> (n: usize)
        requires
            self.wf(),
        ensures
            n == text::byte_len(self.counted()),
    {
        self.bytes
    }
}

impl TextSink for ByteCount {
    closed spec fn wf(&self) -> bool {
        self.bytes == text::byte_len(self.seen@)
    }

    open spec fn answers(
        before: Self,
        piece: Seq<char>,
        r: Result<(), FormatError>,
        after: Self,
    ) -> bool {
        &&& r is Ok <==> fits(Some(usize::MAX as nat), before.counted() + piece)
        &&& after.counted() == if r is Ok {
            before.counted() + piece
        } else {
            before.counted()
        }
    }

    fn write_str(&mut self, s: &str) -> (r: Result<(), FormatError>) {
        proof {
            text::lemma_byte_len_concat(self.seen@, s@);
        }
        let n: usize = s.as_bytes().len();
        match self.bytes.checked_add(n) {
            Some(bytes) => {
                self.bytes = bytes;
                self.seen = Ghost(self.seen@ + s@);
                Ok(())
            },
            None => Err(FormatError),
        }
    }

    fn write_char(&mut self, c: char) -> (r: Result<(), FormatError>) {
        proof {
            text::lemma_byte_len_concat(self.seen@, seq![c]);
        }
        let n: usize = text::char_width(c);
        match self.bytes.checked_add(n) {
            Some(bytes) => {
                self.bytes = bytes;
                self.seen = Ghost(self.seen@ + seq![c]);
                Ok(())
            },
            None => Err(FormatError),
        }
    }
}

/// A byte count counts all pieces, as long as a `usize` holds their length.
pub proof fn law_byte_counts_count_all_pieces(
    before: ByteCount,
    after: ByteCount,
    pieces: Seq<Seq<char>>,
    r: Result<(), FormatError>,
)
    requires
        wrote(before, after, pieces, r),
    ensures
        appended(before.counted(), after.counted(), pieces, r, Some(usize::MAX as nat)),
{
    lemma_wrote_text(
        before,
        after,
        pieces,
        r,
        |s: ByteCount| s.counted(),
        Some(usize::MAX as nat),
    );
}

/// Append the decimal digits of `n` to a buffer that has room for them.
fn push_digits(digits: &mut BoundedString<20>, n: u64)
    requires
        old(digits)@.len() == 0,
    ensures
        final(digits)@ == text::decimal(n as nat),
    decreases n,
{
    let digit: char = (48u8 + (n % 10) as u8) as char;
    if n >= 10 {
        push_digits(digits, n / 10);
    }
    proof {
        text::lemma_u64_decimal_len(n);
        text::lemma_byte_len_concat(digits@, seq![digit]);
        assert(digits@ + seq![digit] =~= text::decimal(n as nat));
    }
    let _r = digits.push(digit);
}

/// The pieces that a number is written in: a `-` when it is negative, and its
/// digits.
pub open spec fn number_pieces(n: int) -> Seq<Seq<char>> {
    if n < 0 {
        seq![seq!['-'], text::decimal((-n) as nat)]
    } else {
        seq![text::decimal(n as nat)]
    }
}

/// The pieces of a number are its decimal text.
pub proof fn lemma_number_pieces(n: int)
    ensures
        text::joined(number_pieces(n)) == text::signed_decimal(n),
{
    if n < 0 {
        let digits = text::decimal((-n) as nat);
        assert(number_pieces(n) =~= seq![seq!['-']] + seq![digits]);
        text::lemma_joined_concat(seq![seq!['-']], seq![digits]);
        text::lemma_joined_one(seq!['-']);
        text::lemma_joined_one(digits);
    } else {
        text::lemma_joined_one(text::decimal(n as nat));
    }
}

/// Write `n` in decimal.
pub fn write_u64<W: TextSink>(out: &mut W, n: u64) -> (r: Result<(), FormatError>)
    requires
        old(out).wf(),
    ensures
        wrote(*old(out), *final(out), number_pieces(n as int), r),
{
    let mut digits: BoundedString<20> = BoundedString::new();
    push_digits(&mut digits, n);
    put_str(out, digits.as_str())
}

/// Write `n` in decimal, after a `-` when it is negative.
pub fn write_i64<W: TextSink>(out: &mut W, n: i64) -> (r: Result<(), FormatError>)
    requires
        old(out).wf(),
    ensures
        wrote(*old(out), *final(out), number_pieces(n as int), r),
{
    if n >= 0 {
        return write_u64(out, n as u64);
    }
    let magnitude: u64 = if n == i64::MIN {
        0x8000_0000_0000_0000
    } else {
        (-n) as u64
    };
    let ghost start = *out;
    let ghost sign = seq![seq!['-']];
    let ghost digits = seq![text::decimal(magnitude as nat)];
    assert(number_pieces(n as int) =~= sign + digits);
    match put_char(out, '-') {
        Ok(()) => {
            let ghost middle = *out;
            let r = write_u64(out, magnitude);
            proof {
                lemma_wrote_both(start, middle, *out, sign, digits, r);
            }
            r
        },
        Err(e) => {
            proof {
                lemma_refused_early(start, *out, sign, digits);
            }
            Err(e)
        },
    }
}

/// What is written as one piece is answered once, and what is written as two
/// runs of pieces is written as the one and then, if that was taken, as the
/// other.
pub proof fn law_pieces_are_handed_over_in_order<W: TextSink>(
    before: W,
    after: W,
    piece: Seq<char>,
    a: Seq<Seq<char>>,
    b: Seq<Seq<char>>,
    r: Result<(), FormatError>,
)
    ensures
        wrote(before, after, Seq::empty(), r) ==> r is Ok && before == after,
        wrote(before, after, seq![piece], r) ==> W::answers(before, piece, r, after),
        wrote(before, after, a.push(piece), Ok(())) ==> exists|middle: W|
            took(before, middle, a) && #[trigger] W::answers(middle, piece, Ok(()), after),
        wrote(before, after, a.push(piece), Err(FormatError)) ==> {
            ||| wrote(before, after, a, Err(FormatError))
            ||| exists|middle: W|
                took(before, middle, a) && #[trigger] W::answers(
                    middle,
                    piece,
                    Err(FormatError),
                    after,
                )
        },
{
    let one = seq![piece];
    let all = a.push(piece);
    assert(one.drop_last() =~= Seq::<Seq<char>>::empty());
    assert(one.take(0) =~= Seq::<Seq<char>>::empty());
    assert(all.drop_last() =~= a);
    assert(all.last() == piece);
    if wrote(before, after, one, r) {
        match r {
            Ok(u) => {
                assert(u == ());
                let middle = choose|middle: W|
                    took(before, middle, one.drop_last()) && #[trigger] W::answers(
                        middle,
                        one.last(),
                        Ok(()),
                        after,
                    );
                assert(took(before, middle, Seq::<Seq<char>>::empty()));
            },
            Err(e) => {
                assert(e == FormatError);
                let k = choose|k: int| stopped_at(before, after, one, k);
                assert(k == 0);
                let middle = choose|middle: W|
                    took(before, middle, one.take(k)) && #[trigger] W::answers(
                        middle,
                        one[k],
                        Err(FormatError),
                        after,
                    );
                assert(took(before, middle, Seq::<Seq<char>>::empty()));
            },
        }
    }
    if wrote(before, after, all, Err(FormatError)) {
        let k = choose|k: int| stopped_at(before, after, all, k);
        if k < a.len() {
            assert(all.take(k) =~= a.take(k));
            assert(stopped_at(before, after, a, k));
            assert(after.wf());
        } else {
            assert(all.take(k) =~= a);
        }
    }
}

/// A bounded string takes pieces exactly where all of them fit in its capacity
/// together. Else it holds those ahead of the first that does not fit, whole,
/// and nothing else.
pub proof fn law_bounded_strings_take_what_fits<const N: usize>(
    before: BoundedString<N>,
    after: BoundedString<N>,
    pieces: Seq<Seq<char>>,
    r: Result<(), FormatError>,
)
    requires
        wrote(before, after, pieces, r),
    ensures
        r is Ok <==> pieces.len() == 0 || text::byte_len(before@ + text::joined(pieces)) <= N,
        r is Ok ==> after@ == before@ + text::joined(pieces),
        r is Err ==> exists|k: int|
            {
                &&& 0 <= k < pieces.len()
                &&& after@ == before@ + text::joined(#[trigger] pieces.take(k))
                &&& k > 0 ==> text::byte_len(after@) <= N
                &&& text::byte_len(after@ + pieces[k]) > N
            },
{
    law_bounded_strings_hold_whole_pieces(before, after, pieces, r);
    if r is Err {
        let room = Some(N as nat);
        let k = choose|k: int| #[trigger] full_at(before@, after@, pieces, room, k);
        assert(after@ == before@ + text::joined(pieces.take(k)));
    }
}

/// Writing to a bounded string, to a growable one or to a byte count answers
/// for the one piece: it is appended whole, or, where it does not fit, not at
/// all.
pub proof fn law_sinks_answer_for_one_piece<const N: usize>()
    ensures
        forall|out: &mut BoundedString<N>, s: &str, r: Result<(), FormatError>| #[trigger]
            call_ensures(<BoundedString<N> as TextSink>::write_str, (out, s), r) ==> {
                &&& r is Ok <==> text::byte_len(out@ + s@) <= N
                &&& (*final(out))@ == if r is Ok {
                    out@ + s@
                } else {
                    out@
                }
            },
        forall|out: &mut BoundedString<N>, c: char, r: Result<(), FormatError>| #[trigger]
            call_ensures(<BoundedString<N> as TextSink>::write_char, (out, c), r) ==> {
                &&& r is Ok <==> text::byte_len(out@ + seq![c]) <= N
                &&& (*final(out))@ == if r is Ok {
                    out@ + seq![c]
                } else {
                    out@
                }
            },
        forall|out: &mut String, s: &str, r: Result<(), FormatError>| #[trigger]
            call_ensures(<String as TextSink>::write_str, (out, s), r) ==> r is Ok && (*final(
                out))@ == out@ + s@,
        forall|out: &mut String, c: char, r: Result<(), FormatError>| #[trigger]
            call_ensures(<String as TextSink>::write_char, (out, c), r) ==> r is Ok && (*final(
                out))@ == out@.push(c),
        forall|out: &mut ByteCount, s: &str, r: Result<(), FormatError>| #[trigger]
            call_ensures(<ByteCount as TextSink>::write_str, (out, s), r) ==> {
                &&& r is Ok <==> text::byte_len(out.counted() + s@) <= usize::MAX
                &&& r is Ok ==> (*final(out)).counted() == out.counted() + s@
            },
        forall|out: &ByteCount, n: usize|
            out.wf() && #[trigger] call_ensures(ByteCount::get, (out,), n) ==> n
                == text::byte_len(out.counted()),
        forall|out: ByteCount| #[trigger]
            call_ensures(ByteCount::new, (), out) ==> out.counted().len() == 0,
{
}

/// Integers are written as one run of digits, after a `-` where negative.
pub proof fn law_integers_are_written_in_digits<W: TextSink>()
    ensures
        forall|out: &mut W, n: u64, r: Result<(), FormatError>| #[trigger]
            call_ensures(write_u64::<W>, (out, n), r) ==> wrote(
                *out,
                *final(out),
                seq![text::decimal(n as nat)],
                r,
            ),
        forall|out: &mut W, n: i64, r: Result<(), FormatError>| #[trigger]
            call_ensures(write_i64::<W>, (out, n), r) ==> wrote(
                *out,
                *final(out),
                if n < 0 {
                    seq![seq!['-'], text::decimal((-n) as nat)]
                } else {
                    seq![text::decimal(n as nat)]
                },
                r,
            ),
{
}

/// A piece is handed to the sink once, whole and as it is, and a string is
/// continued by a list of pieces one behind the other.
pub proof fn law_pieces_are_put_as_they_are<'a, W: TextSink>()
    ensures
        forall|w: &'a mut W, s: &'a str, r: Result<(), FormatError>| #[trigger]
            call_ensures(put_str::<W>, (w, s), r) ==> W::answers(*w, s@, r, *final(w)),
        forall|w: &'a mut W, c: char, r: Result<(), FormatError>| #[trigger]
            call_ensures(put_char::<W>, (w, c), r) ==> W::answers(*w, seq![c], r, *final(w)),
        forall|w: &'a mut String, pieces: &'a Vec<String>, r: Result<(), FormatError>| #[trigger]
            call_ensures(put_all::<String>, (w, pieces), r) ==> r is Ok && (*final(w))@ == (*w)@
                + Seq::new(pieces@.len(), |i: int| pieces@[i]@).flatten(),
{
    let none = Seq::<Seq<char>>::empty();
    assert forall|w: &'a mut W, s: &'a str, r: Result<(), FormatError>| #[trigger]
        call_ensures(put_str::<W>, (w, s), r) implies W::answers(*w, s@, r, *final(w)) by {
        law_pieces_are_handed_over_in_order(*w, *final(w), s@, none, none, r);
    }
    assert forall|w: &'a mut W, c: char, r: Result<(), FormatError>| #[trigger]
        call_ensures(put_char::<W>, (w, c), r) implies W::answers(*w, seq![c], r, *final(w)) by {
        law_pieces_are_handed_over_in_order(*w, *final(w), seq![c], none, none, r);
    }
    assert forall|w: &'a mut String, pieces: &'a Vec<String>, r: Result<(), FormatError>| #[trigger]
        call_ensures(put_all::<String>, (w, pieces), r) implies r is Ok && (*final(w))@ == (*w)@
        + Seq::new(pieces@.len(), |i: int| pieces@[i]@).flatten() by {
        let all = text::strings_view(pieces@);
        law_strings_take_everything(*w, *final(w), all, r);
        text::law_pieces_are_joined_in_order(all);
        assert(all =~= Seq::new(pieces@.len(), |i: int| pieces@[i]@));
    }
}

} // verus!
