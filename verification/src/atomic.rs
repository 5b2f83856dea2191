//! The atomic integers of `portable_atomic` that hold metric values.
//!
//! Every update takes its atomic by `&mut`. No other thread can reach it
//! meanwhile, so the value that it holds is known before and after.

use vstd::prelude::*;
use portable_atomic::AtomicI64;
use portable_atomic::AtomicU64;

verus! {

/// An unsigned 64-bit atomic.
#[verifier::external_type_specification]
#[verifier::external_body]
pub struct ExAtomicU64(portable_atomic::AtomicU64);

/// A signed 64-bit atomic.
#[verifier::external_type_specification]
#[verifier::external_body]
pub struct ExAtomicI64(portable_atomic::AtomicI64);

/// The value that an unsigned atomic holds.
pub uninterp spec fn u64_held(a: AtomicU64) -> u64;

/// The value that a signed atomic holds.
pub uninterp spec fn i64_held(a: AtomicI64) -> i64;

/// `n` reduced to 64 bits without sign.
pub open spec fn wrap_u64(n: int) -> u64 {
    (n % 0x1_0000_0000_0000_0000) as u64
}

/// `n` reduced to 64 bits in two's complement.
pub open spec fn wrap_i64(n: int) -> i64 {
    ((n + 0x8000_0000_0000_0000) % 0x1_0000_0000_0000_0000 - 0x8000_0000_0000_0000) as i64
}

/// `AtomicU64::new`: the atomic holds `n`.
#[verifier::external_body]
pub(crate) fn new_u64(n: u64) -> (a: AtomicU64)
    ensures
        u64_held(a) == n,
{
    AtomicU64::new(n)
}

/// `AtomicU64::load`: the value held.
#[verifier::external_body]
pub(crate) fn load_u64(a: &AtomicU64) -> (n: u64)
    ensures
        n == u64_held(*a),
{
    a.load(portable_atomic::Ordering::Relaxed)
}

/// `AtomicU64::store`: replaces the value held.
#[verifier::external_body]
pub(crate) fn store_u64(a: &mut AtomicU64, n: u64)
    ensures
        u64_held(*final(a)) == n,
{
    a.store(n, portable_atomic::Ordering::Relaxed)
}

/// `AtomicU64::fetch_add`: adds to the value held, wrapping around on
/// overflow, and returns what was held before.
#[verifier::external_body]
pub(crate) fn fetch_add_u64(a: &mut AtomicU64, n: u64) -> (before: u64)
    ensures
        before == u64_held(*old(a)),
        u64_held(*final(a)) == wrap_u64(u64_held(*old(a)) + n),
{
    a.fetch_add(n, portable_atomic::Ordering::Relaxed)
}

/// `AtomicI64::new`: the atomic holds `n`.
#[verifier::external_body]
pub(crate) fn new_i64(n: i64) -> (a: AtomicI64)
    ensures
        i64_held(a) == n,
{
    AtomicI64::new(n)
}

/// `AtomicI64::load`: the value held.
#[verifier::external_body]
pub(crate) fn load_i64(a: &AtomicI64) -> (n: i64)
    ensures
        n == i64_held(*a),
{
    a.load(portable_atomic::Ordering::Relaxed)
}

/// `AtomicI64::store`: replaces the value held.
#[verifier::external_body]
pub(crate) fn store_i64(a: &mut AtomicI64, n: i64)
    ensures
        i64_held(*final(a)) == n,
{
    a.store(n, portable_atomic::Ordering::Relaxed)
}

/// `AtomicI64::fetch_add`: adds to the value held, wrapping around on
/// overflow, and returns what was held before.
#[verifier::external_body]
pub(crate) fn fetch_add_i64(a: &mut AtomicI64, n: i64) -> (before: i64)
    ensures
        before == i64_held(*old(a)),
        i64_held(*final(a)) == wrap_i64(i64_held(*old(a)) + n),
{
    a.fetch_add(n, portable_atomic::Ordering::Relaxed)
}

/// `AtomicI64::fetch_sub`: subtracts from the value held, wrapping around on
/// overflow, and returns what was held before.
#[verifier::external_body]
pub(crate) fn fetch_sub_i64(a: &mut AtomicI64, n: i64) -> (before: i64)
    ensures
        before == i64_held(*old(a)),
        i64_held(*final(a)) == wrap_i64(i64_held(*old(a)) - n),
{
    a.fetch_sub(n, portable_atomic::Ordering::Relaxed)
}

/// A number that fits in 64 bits stays as it is.
pub proof fn lemma_wrap_u64_fits(n: int)
    requires
        0 <= n <= u64::MAX,
    ensures
        wrap_u64(n) == n,
{
}

/// Wrapping around once at the end is the same as wrapping around in between.
pub proof fn lemma_wrap_u64_again(a: int, b: int)
    ensures
        wrap_u64(wrap_u64(a) + b) == wrap_u64(a + b),
{
}

/// Wrapping around once at the end is the same as wrapping around in between.
pub proof fn lemma_wrap_i64_again(a: int, b: int)
    ensures
        wrap_i64(wrap_i64(a) + b) == wrap_i64(a + b),
{
}

/// Reducing a number to 64 bits leaves one that differs from it by a multiple
/// of 2 to the 64th.
pub proof fn law_wrapping_keeps_the_remainder(n: int)
    ensures
        (wrap_u64(n) - n) % 0x1_0000_0000_0000_0000 == 0,
        (wrap_i64(n) - n) % 0x1_0000_0000_0000_0000 == 0,
        0 <= n <= u64::MAX ==> wrap_u64(n) == n,
        i64::MIN <= n <= i64::MAX ==> wrap_i64(n) == n,
{
}

} // verus!
