//! Text and lists of fixed capacity, held without allocation by the
//! collections of `heapless`.
//!
//! Each type pairs the outside collection with a ghost copy of what it holds.
//! Both fields are private and change together, in the functions of this file
//! alone, so the ghost copy is what the contracts speak of.

use vstd::prelude::*;
use crate::text;

verus! {

/// The fixed-capacity string of `heapless`.
#[verifier::external_type_specification]
#[verifier::external_body]
pub struct ExHeaplessString<const N: usize>(heapless::String<N>);

/// The fixed-capacity vector of `heapless`.
#[verifier::external_type_specification]
#[verifier::external_body]
#[verifier::reject_recursive_types(T)]
pub struct ExHeaplessVec<T, const N: usize>(heapless::Vec<T, N>);

/// A string of at most `N` bytes.
pub struct BoundedString<const N: usize> {
    text: heapless::String<N>,
    held: Ghost<Seq<char>>,
}

impl<const N: usize> View for BoundedString<N> {
    type V = Seq<char>;

    closed spec fn view(&self) -> Seq<char> {
        self.held@
    }
}

impl<const N: usize> BoundedString<N> {
    /// `heapless::String::new`: the new string holds no characters.
    #[verifier::external_body]
    pub(crate) fn empty() -> (s: Self)
        ensures
            s@ == Seq::<char>::empty(),
    {
        BoundedString { text: heapless::String::new(), held: Ghost(Seq::empty()) }
    }

    /// `heapless::String::push_str`: appends all of `s`, or, where the bytes
    /// held and those of `s` together exceed `N`, fails and changes nothing.
    #[verifier::external_body]
    pub(crate) fn push_str(&mut self, s: &str) -> (r: Result<(), ()>)
        ensures
            r is Ok <==> text::byte_len(old(self)@) + text::byte_len(s@) <= N,
            r is Ok ==> final(self)@ == old(self)@ + s@,
            r is Err ==> final(self)@ == old(self)@,
    {
        self.text.push_str(s)
    }

    /// `heapless::String::push`: appends `c`, or, where its bytes do not fit
    /// beside those held, fails and changes nothing.
    #[verifier::external_body]
    pub(crate) fn push(&mut self, c: char) -> (r: Result<(), ()>)
        ensures
            r is Ok <==> text::byte_len(old(self)@) + text::byte_len(seq![c]) <= N,
            r is Ok ==> final(self)@ == old(self)@.push(c),
            r is Err ==> final(self)@ == old(self)@,
    {
        self.text.push(c)
    }

    /// `heapless::String::clear`: nothing is held afterwards.
    #[verifier::external_body]
    pub(crate) fn clear(&mut self)
        ensures
            final(self)@ == Seq::<char>::empty(),
    {
        self.text.clear()
    }

    /// `heapless::String::as_str`: the characters held, in order.
    #[verifier::external_body]
    pub(crate) fn chars_held(&self) -> (s: &str)
        ensures
            s@ == self@,
    {
        self.text.as_str()
    }

    /// A string that holds nothing yet.
    pub fn new() -> (s: Self)
        ensures
            s@ == Seq::<char>::empty(),
    {
        BoundedString::empty()
    }

    /// The text held.
    pub fn as_str(&self) -> (s: &str)
        ensures
            s@ == self@,
    {
        self.chars_held()
    }
}

/// A list of at most `N` items.
#[verifier::reject_recursive_types(T)]
pub struct BoundedVec<T, const N: usize> {
    items: heapless::Vec<T, N>,
    held: Ghost<Seq<T>>,
}

impl<T, const N: usize> View for BoundedVec<T, N> {
    type V = Seq<T>;

    closed spec fn view(&self) -> Seq<T> {
        self.held@
    }
}

impl<T, const N: usize> BoundedVec<T, N> {
    /// `heapless::Vec::new`: the new list holds no items.
    #[verifier::external_body]
    pub(crate) fn new() -> (v: Self)
        ensures
            v@ == Seq::<T>::empty(),
    {
        BoundedVec { items: heapless::Vec::new(), held: Ghost(Seq::empty()) }
    }

    /// `heapless::Vec::push`: appends `item`, or, where `N` items are held
    /// already, hands it back and changes nothing.
    #[verifier::external_body]
    pub(crate) fn push(&mut self, item: T) -> (r: Result<(), T>)
        ensures
            r is Ok <==> old(self)@.len() < N,
            r is Ok ==> final(self)@ == old(self)@.push(item),
            r matches Err(back) ==> back == item && final(self)@ == old(self)@,
    {
        self.items.push(item)
    }

    /// `heapless::Vec::as_slice`: the items held, in the order of their
    /// insertion. There are never more than `N`.
    #[verifier::external_body]
    pub(crate) fn as_slice(&self) -> (s: &[T])
        ensures
            s@ == self@,
            s@.len() <= N,
    {
        self.items.as_slice()
    }

    /// Indexing of `heapless::Vec` as a mutable slice: the item at `i`, to be
    /// changed in place. The other items stay as they are.
    #[verifier::external_body]
    pub(crate) fn item_mut(&mut self, i: usize) -> (item: &mut T)
        requires
            i < old(self)@.len(),
        ensures
            *item == old(self)@[i as int],
            final(self)@ == old(self)@.update(i as int, *final(item)),
    {
        &mut self.items[i]
    }
}

} // verus!
