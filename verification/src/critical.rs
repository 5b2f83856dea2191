//! Running a step in a critical section.

use vstd::prelude::*;

verus! {

/// `critical_section::with`: calls `step` on `arg` exactly once, inside a
/// critical section, and hands back what it returns. That nothing else runs
/// meanwhile is what the critical section adds; it is not stated here.
#[verifier::external_body]
pub(crate) fn in_critical_section<A, R, F: FnOnce(A) -> R>(step: F, arg: A) -> (r: R)
    requires
        step.requires((arg,)),
    ensures
        step.ensures((arg,), r),
{
    critical_section::with(|_cs| step(arg))
}

} // verus!
