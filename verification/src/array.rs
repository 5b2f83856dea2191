//! Arrays filled by a function.

use vstd::prelude::*;

verus! {

/// `core::array::from_fn`: an array each of whose items is the result of a
/// call of `make`.
#[verifier::external_body]
pub(crate) fn filled<T, const B: usize, F: Fn() -> T>(make: F) -> (items: [T; B])
    requires
        make.requires(()),
    ensures
        forall|i: int| 0 <= i < B ==> make.ensures((), #[trigger] items@[i]),
{
    core::array::from_fn(|_index| make())
}

} // verus!
