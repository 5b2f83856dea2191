//! The buffer that one output line is rendered into.

use vstd::prelude::*;
use crate::bounded::BoundedString;
use crate::escape;
use crate::sink;
use crate::sink::FormatError;
use crate::sink::TextSink;
use crate::text;
use crate::value;
use crate::value::Value;

verus! {

/// The largest number up to `n` that a `usize` holds.
pub open spec fn saturated(n: nat) -> usize {
    if n <= usize::MAX {
        n as usize
    } else {
        usize::MAX
    }
}

/// A fixed-capacity line buffer that continues counting after it fills. This
/// lets an overflow report the exact required capacity without rendering the
/// metric a second time (when its live value may already have changed).
pub struct LineBuffer<const N: usize> {
    text: BoundedString<N>,
    required: usize,
    overflowed: bool,
    given: Ghost<Seq<char>>,
}

/// A line buffer takes every text.
impl<const N: usize> TextSink for LineBuffer<N> {
    closed spec fn wf(&self) -> bool {
        &&& self.required == saturated(text::byte_len(self.given@))
        &&& self.overflowed == (text::byte_len(self.given@) > N)
        &&& !self.overflowed ==> self.text@ == self.given@
    }

    open spec fn answers(
        before: Self,
        piece: Seq<char>,
        r: Result<(), FormatError>,
        after: Self,
    ) -> bool {
        r is Ok && after.written() == before.written() + piece
    }

    fn write_str(&mut self, s: &str) -> (r: Result<(), FormatError>) {
        proof {
            text::lemma_byte_len_concat(self.given@, s@);
        }
        self.required = self.required.saturating_add(s.as_bytes().len());
        if !self.overflowed && self.text.push_str(s).is_err() {
            self.overflowed = true;
        }
        self.given = Ghost(self.given@ + s@);
        Ok(())
    }

    fn write_char(&mut self, c: char) -> (r: Result<(), FormatError>) {
        proof {
            text::lemma_byte_len_concat(self.given@, seq![c]);
            assert(self.given@ + seq![c] =~= self.given@.push(c));
        }
        self.required = self.required.saturating_add(text::char_width(c));
        if !self.overflowed && self.text.push(c).is_err() {
            self.overflowed = true;
        }
        self.given = Ghost(self.given@ + seq![c]);
        Ok(())
    }
}

impl<const N: usize> LineBuffer<N> {
    /// Everything that was written since the line was cleared.
    pub closed spec fn written(&self) -> Seq<char> {
        self.given@
    }

    /// A line buffer has taken all pieces that were written to it.
    proof fn lemma_wrote(before: Self, after: Self, pieces: Seq<Seq<char>>)
        requires
            exists|r: Result<(), FormatError>| #[trigger] sink::wrote(before, after, pieces, r),
        ensures
            after.written() == before.written() + text::joined(pieces),
    {
        let r = choose|r: Result<(), FormatError>| #[trigger]
            sink::wrote(before, after, pieces, r);
        sink::lemma_wrote_text(before, after, pieces, r, |s: Self| s.written(), None);
    }

    /// An empty line.
    pub fn new() -> (line: Self)
        ensures
            line.wf(),
            line.written() == Seq::<char>::empty(),
    {
        LineBuffer {
            text: BoundedString::new(),
            required: 0,
            overflowed: false,
            given: Ghost(Seq::empty()),
        }
    }

    /// Drop what was written.
    pub fn clear(&mut self)
        ensures
            final(self).wf(),
            final(self).written() == Seq::<char>::empty(),
    {
        self.text.clear();
        self.required = 0;
        self.overflowed = false;
        self.given = Ghost(Seq::empty());
    }

    /// Whether more was written than the buffer holds.
    pub fn is_overflowed(&self) -> (b: bool)
        requires
            self.wf(),
        ensures
            b == (text::byte_len(self.written()) > N),
    {
        self.overflowed
    }

    /// The number of bytes that were written, held or not.
    pub fn required(&self) -> (n: usize)
        requires
            self.wf(),
        ensures
            n == saturated(text::byte_len(self.written())),
    {
        self.required
    }

    /// The line, if it has not overflowed.
    pub fn as_str(&self) -> (s: &str)
        requires
            self.wf(),
            text::byte_len(self.written()) <= N,
        ensures
            s@ == self.written(),
    {
        self.text.as_str()
    }

    /// Append `s`.
    pub fn put_str(&mut self, s: &str)
        requires
            old(self).wf(),
        ensures
            final(self).wf(),
            final(self).written() == old(self).written() + s@,
    {
        let _r = self.write_str(s);
    }

    /// Append `c`.
    pub fn put_char(&mut self, c: char)
        requires
            old(self).wf(),
        ensures
            final(self).wf(),
            final(self).written() == old(self).written() + seq![c],
    {
        let _r = self.write_char(c);
    }

    /// Append `n` in decimal.
    pub fn put_u64(&mut self, n: u64)
        requires
            old(self).wf(),
        ensures
            final(self).wf(),
            final(self).written() == old(self).written() + text::decimal(n as nat),
    {
        let ghost before = *self;
        let _r = sink::write_u64(self, n);
        proof {
            sink::lemma_number_pieces(n as int);
            Self::lemma_wrote(before, *self, sink::number_pieces(n as int));
        }
    }

    /// Append a sample value.
    pub fn put_value(&mut self, v: &Value)
        requires
            old(self).wf(),
        ensures
            final(self).wf(),
            final(self).written() == old(self).written() + value::value_text(*v),
    {
        let ghost before = *self;
        let _r = v.write_prom(self);
        proof {
            value::lemma_value_pieces(*v);
            Self::lemma_wrote(before, *self, value::value_pieces(*v));
        }
    }

    /// Append HELP text, escaped.
    pub fn put_help(&mut self, s: &str)
        requires
            old(self).wf(),
        ensures
            final(self).wf(),
            final(self).written() == old(self).written() + escape::escaped_help(s@),
    {
        let ghost before = *self;
        let _r = escape::write_escaped_help(self, s);
        proof {
            escape::lemma_help_pieces(s@);
            Self::lemma_wrote(before, *self, escape::help_pieces(s@));
        }
    }
}

/// A line buffer continues its line by what is put, and knows its length in
/// bytes even where the line is longer than it can hold.
pub proof fn law_line_buffers_continue_their_line<'a, const N: usize>()
    ensures
        forall|r: LineBuffer<N>| #[trigger]
            call_ensures(LineBuffer::<N>::new, (), r) ==> r.written().len() == 0,
        forall|l: &'a mut LineBuffer<N>| #[trigger]
            call_ensures(LineBuffer::<N>::clear, (l,), ()) ==> (*final(l)).written().len() == 0,
        forall|l: &'a LineBuffer<N>, b: bool| #[trigger]
            call_ensures(LineBuffer::<N>::is_overflowed, (l,), b) ==> (b <==> text::byte_len(
                l.written(),
            ) > N),
        forall|l: &'a LineBuffer<N>, n: usize| #[trigger]
            call_ensures(LineBuffer::<N>::required, (l,), n) ==> {
                &&& text::byte_len(l.written()) <= usize::MAX ==> n == text::byte_len(l.written())
                &&& text::byte_len(l.written()) > usize::MAX ==> n == usize::MAX
            },
        forall|l: &'a LineBuffer<N>, s: &'a str| #[trigger]
            call_ensures(LineBuffer::<N>::as_str, (l,), s) ==> s@ == l.written(),
        forall|l: &'a mut LineBuffer<N>, s: &'a str| #[trigger]
            call_ensures(LineBuffer::<N>::put_str, (l, s), ()) ==> (*final(l)).written()
                == (*l).written() + s@,
        forall|l: &'a mut LineBuffer<N>, c: char| #[trigger]
            call_ensures(LineBuffer::<N>::put_char, (l, c), ()) ==> (*final(l)).written()
                == (*l).written().push(c),
        forall|l: &'a mut LineBuffer<N>, n: u64| #[trigger]
            call_ensures(LineBuffer::<N>::put_u64, (l, n), ()) ==> (*final(l)).written()
                == (*l).written() + text::decimal(n as nat),
        forall|l: &'a mut LineBuffer<N>, v: &'a Value| #[trigger]
            call_ensures(LineBuffer::<N>::put_value, (l, v), ()) ==> (*final(l)).written()
                == (*l).written() + value::value_text(*v),
        forall|l: &'a mut LineBuffer<N>, s: &'a str| #[trigger]
            call_ensures(LineBuffer::<N>::put_help, (l, s), ()) ==> (*final(l)).written()
                == (*l).written() + escape::escaped_help(s@),
{
    assert forall|l: &'a mut LineBuffer<N>, c: char| #[trigger]
        call_ensures(LineBuffer::<N>::put_char, (l, c), ()) implies (*final(l)).written()
        == (*l).written().push(c) by {
        assert((*l).written() + seq![c] =~= (*l).written().push(c));
    }
}

} // verus!
