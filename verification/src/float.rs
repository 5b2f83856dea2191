//! Order and bounds of floating-point readings, on their IEEE 754 bits.

use vstd::prelude::*;
use crate::value;
use crate::value::INFINITY_BITS;
use crate::value::SIGN_BIT;

verus! {

/// Where the double with these bits stands among the others: numbers in the
/// order of their values, zero at zero whatever its sign, infinities at either
/// end. A NaN stands outside of them.
pub open spec fn order(bits: u64) -> int {
    if bits < SIGN_BIT {
        bits as int
    } else {
        SIGN_BIT - bits
    }
}

/// Whether the double with these bits is a number and not an infinity.
pub open spec fn is_finite_bits(bits: u64) -> bool {
    -INFINITY_BITS < order(bits) < INFINITY_BITS
}

/// Whether the double `a` is less than or equal to the double `b`. Nothing is
/// to a NaN.
pub open spec fn at_most(a: u64, b: u64) -> bool {
    !value::is_nan_bits(a) && !value::is_nan_bits(b) && order(a) <= order(b)
}

/// Whether these doubles are finite and each is above the one before it.
pub open spec fn bounds_ok(bounds: Seq<u64>) -> bool {
    &&& forall|i: int| 0 <= i < bounds.len() ==> is_finite_bits(#[trigger] bounds[i])
    &&& forall|i: int, j: int|
        0 <= i < j < bounds.len() ==> order(#[trigger] bounds[i]) < order(#[trigger] bounds[j])
}

/// The first index from `i` on whose bound is at least `v`, or the number of
/// bounds where there is none: the implicit `+Inf` bucket, which also takes
/// every NaN.
pub open spec fn bucket_from(bounds: Seq<u64>, v: u64, i: int) -> int
    decreases bounds.len() - i,
{
    if i >= bounds.len() {
        bounds.len() as int
    } else if at_most(v, bounds[i]) {
        i
    } else {
        bucket_from(bounds, v, i + 1)
    }
}

/// Why a list of floating-point bucket bounds is refused.
#[derive(Debug, Clone, Copy, PartialEq, Eq)]
pub enum FloatBoundsError {
    /// The list does not have one bound for each bucket.
    WrongLength,
    /// A bound is an infinity or a NaN.
    NotFinite,
    /// A bound is not above the one before it.
    NotIncreasing,
}

/// The first thing wrong with the bounds from index `i` on, if anything.
pub open spec fn bounds_fault_from(bounds: Seq<u64>, i: int) -> Option<FloatBoundsError>
    decreases bounds.len() - i,
{
    if i >= bounds.len() {
        None
    } else if !is_finite_bits(bounds[i]) {
        Some(FloatBoundsError::NotFinite)
    } else if i > 0 && order(bounds[i - 1]) >= order(bounds[i]) {
        Some(FloatBoundsError::NotIncreasing)
    } else {
        bounds_fault_from(bounds, i + 1)
    }
}

/// Bounds without a fault are finite and strictly increasing, and others are
/// not.
pub proof fn law_bounds_without_fault(bounds: Seq<u64>)
    ensures
        bounds_fault_from(bounds, 0) is None <==> bounds_ok(bounds),
{
    lemma_bounds_without_fault_from(bounds, 0);
}

proof fn lemma_bounds_without_fault_from(bounds: Seq<u64>, k: int)
    requires
        0 <= k <= bounds.len(),
        forall|i: int| 0 <= i < k ==> is_finite_bits(#[trigger] bounds[i]),
        forall|i: int, j: int|
            0 <= i < j < k ==> order(#[trigger] bounds[i]) < order(#[trigger] bounds[j]),
    ensures
        bounds_fault_from(bounds, k) is None <==> bounds_ok(bounds),
    decreases bounds.len() - k,
{
    if k < bounds.len() && is_finite_bits(bounds[k]) && (k == 0 || order(bounds[k - 1]) < order(
        bounds[k],
    )) {
        assert forall|i: int, j: int| 0 <= i < j < k + 1 implies order(#[trigger] bounds[i])
            < order(#[trigger] bounds[j]) by {
            if j == k && i < k - 1 {
                assert(order(bounds[i]) < order(bounds[k - 1]));
            }
        }
        lemma_bounds_without_fault_from(bounds, k + 1);
    }
}

/// Where the double with these bits stands among the others.
fn order_of(bits: u64) -> (key: i64)
    ensures
        key == order(bits),
{
    if bits < SIGN_BIT {
        bits as i64
    } else if bits == SIGN_BIT {
        0
    } else {
        -((bits - SIGN_BIT) as i64)
    }
}

/// Check that there are `B` bounds, that all are finite and that they are
/// strictly increasing. The bounds are given by their bits.
pub fn validate_f64_bounds<const B: usize>(bounds: &[u64]) -> (r: Result<(), FloatBoundsError>)
    ensures
        r == (if bounds@.len() != B {
            Err::<(), _>(FloatBoundsError::WrongLength)
        } else {
            match bounds_fault_from(bounds@, 0) {
                Some(fault) => Err(fault),
                None => Ok(()),
            }
        }),
{
    if bounds.len() != B {
        return Err(FloatBoundsError::WrongLength);
    }
    let limit: i64 = INFINITY_BITS as i64;
    let mut i: usize = 0;
    while i < B
        invariant
            i <= B,
            B == bounds@.len(),
            limit == INFINITY_BITS,
            bounds_fault_from(bounds@, 0) == bounds_fault_from(bounds@, i as int),
        decreases B - i,
    {
        let key: i64 = order_of(bounds[i]);
        if key <= -limit || key >= limit {
            return Err(FloatBoundsError::NotFinite);
        }
        if i > 0 && order_of(bounds[i - 1]) >= key {
            return Err(FloatBoundsError::NotIncreasing);
        }
        i = i + 1;
    }
    Ok(())
}

/// The bucket that an observation of the double `v` falls into, among buckets
/// with these upper bounds: an index, or the number of bounds for the implicit
/// `+Inf` bucket. All doubles are given by their bits.
pub fn float_bucket(bounds: &[u64], v: u64) -> (i: usize)
    ensures
        i == bucket_from(bounds@, v, 0),
{
    let v_nan: bool = v % SIGN_BIT > INFINITY_BITS;
    let mut i: usize = 0;
    while i < bounds.len()
        invariant
            i <= bounds@.len(),
            v_nan == value::is_nan_bits(v),
            bucket_from(bounds@, v, 0) == bucket_from(bounds@, v, i as int),
        decreases bounds@.len() - i,
    {
        let bound: u64 = bounds[i];
        let bound_nan: bool = bound % SIGN_BIT > INFINITY_BITS;
        if !v_nan && !bound_nan && order_of(v) <= order_of(bound) {
            return i;
        }
        i = i + 1;
    }
    i
}

/// A NaN is counted in the implicit `+Inf` bucket and in no other.
pub proof fn law_nan_falls_in_no_finite_bucket(bounds: Seq<u64>, v: u64, k: int)
    requires
        value::is_nan_bits(v),
        0 <= k <= bounds.len(),
    ensures
        bucket_from(bounds, v, k) == bounds.len(),
    decreases bounds.len() - k,
{
    if k < bounds.len() {
        law_nan_falls_in_no_finite_bucket(bounds, v, k + 1);
    }
}

/// A double falls into the first bucket whose bound it does not exceed as a
/// number, and a NaN into none: doubles are ordered by their bits, the negative
/// ones the other way round, with both zeros in the same place.
pub proof fn law_doubles_fall_into_the_first_bucket()
    ensures
        forall|bounds: &[u64], v: u64, i: usize| #[trigger]
            call_ensures(float_bucket, (bounds, v), i) ==> {
                let key = |x: u64|
                    if x < 0x8000_0000_0000_0000 {
                        x as int
                    } else {
                        0x8000_0000_0000_0000 - x
                    };
                let nan = |x: u64| x % 0x8000_0000_0000_0000 > 0x7ff0_0000_0000_0000;
                &&& i <= bounds@.len()
                &&& i < bounds@.len() ==> !nan(v) && !nan(bounds@[i as int]) && key(v) <= key(
                    bounds@[i as int],
                )
                &&& forall|j: int|
                    0 <= j < i ==> nan(v) || nan(#[trigger] bounds@[j]) || key(v) > key(bounds@[j])
            },
{
    assert forall|bounds: &[u64], v: u64, i: usize| #[trigger]
        call_ensures(float_bucket, (bounds, v), i) implies {
        let key = |x: u64|
            if x < 0x8000_0000_0000_0000 {
                x as int
            } else {
                0x8000_0000_0000_0000 - x
            };
        let nan = |x: u64| x % 0x8000_0000_0000_0000 > 0x7ff0_0000_0000_0000;
        &&& i <= bounds@.len()
        &&& i < bounds@.len() ==> !nan(v) && !nan(bounds@[i as int]) && key(v) <= key(
            bounds@[i as int],
        )
        &&& forall|j: int|
            0 <= j < i ==> nan(v) || nan(#[trigger] bounds@[j]) || key(v) > key(bounds@[j])
    } by {
        lemma_first_bucket(bounds@, v, 0);
    }
}

/// The bucket found is the first that takes the double.
proof fn lemma_first_bucket(bounds: Seq<u64>, v: u64, k: int)
    requires
        0 <= k <= bounds.len(),
    ensures
        ({
            let i = bucket_from(bounds, v, k);
            &&& k <= i <= bounds.len()
            &&& i < bounds.len() ==> at_most(v, bounds[i])
            &&& forall|j: int| k <= j < i ==> !at_most(v, #[trigger] bounds[j])
        }),
    decreases bounds.len() - k,
{
    if k < bounds.len() && !at_most(v, bounds[k]) {
        lemma_first_bucket(bounds, v, k + 1);
    }
}

/// Bounds of doubles are accepted exactly where there is one for each bucket,
/// all are finite and each is above the one before it; else the first fault is
/// reported.
pub proof fn law_float_bounds_are_checked<const B: usize>()
    ensures
        forall|bounds: &[u64], r: Result<(), FloatBoundsError>| #[trigger]
            call_ensures(validate_f64_bounds::<B>, (bounds,), r) ==> {
                let key = |x: u64|
                    if x < 0x8000_0000_0000_0000 {
                        x as int
                    } else {
                        0x8000_0000_0000_0000 - x
                    };
                let finite = |x: u64| x % 0x8000_0000_0000_0000 < 0x7ff0_0000_0000_0000;
                let good = |i: int|
                    finite(bounds@[i]) && (i > 0 ==> key(bounds@[i - 1]) < key(bounds@[i]));
                &&& r == Err::<(), _>(FloatBoundsError::WrongLength) <==> bounds@.len() != B
                &&& r is Ok <==> bounds@.len() == B && forall|i: int|
                    0 <= i < B ==> #[trigger] good(i)
                &&& r == Err::<(), _>(FloatBoundsError::NotFinite) ==> exists|i: int|
                    0 <= i < B && !finite(bounds@[i]) && !#[trigger] good(i) && forall|j: int|
                        0 <= j < i ==> #[trigger] good(j)
                &&& r == Err::<(), _>(FloatBoundsError::NotIncreasing) ==> exists|i: int|
                    0 <= i < B && finite(bounds@[i]) && !#[trigger] good(i) && forall|j: int|
                        0 <= j < i ==> #[trigger] good(j)
            },
{
    assert forall|bounds: &[u64], r: Result<(), FloatBoundsError>| #[trigger]
        call_ensures(validate_f64_bounds::<B>, (bounds,), r) implies {
        let key = |x: u64|
            if x < 0x8000_0000_0000_0000 {
                x as int
            } else {
                0x8000_0000_0000_0000 - x
            };
        let finite = |x: u64| x % 0x8000_0000_0000_0000 < 0x7ff0_0000_0000_0000;
        let good = |i: int|
            finite(bounds@[i]) && (i > 0 ==> key(bounds@[i - 1]) < key(bounds@[i]));
        &&& r == Err::<(), _>(FloatBoundsError::WrongLength) <==> bounds@.len() != B
        &&& r is Ok <==> bounds@.len() == B && forall|i: int| 0 <= i < B ==> #[trigger] good(i)
        &&& r == Err::<(), _>(FloatBoundsError::NotFinite) ==> exists|i: int|
            0 <= i < B && !finite(bounds@[i]) && !#[trigger] good(i) && forall|j: int|
                0 <= j < i ==> #[trigger] good(j)
        &&& r == Err::<(), _>(FloatBoundsError::NotIncreasing) ==> exists|i: int|
            0 <= i < B && finite(bounds@[i]) && !#[trigger] good(i) && forall|j: int|
                0 <= j < i ==> #[trigger] good(j)
    } by {
        let key = |x: u64|
            if x < 0x8000_0000_0000_0000 {
                x as int
            } else {
                0x8000_0000_0000_0000 - x
            };
        let finite = |x: u64| x % 0x8000_0000_0000_0000 < 0x7ff0_0000_0000_0000;
        let good = |i: int|
            finite(bounds@[i]) && (i > 0 ==> key(bounds@[i - 1]) < key(bounds@[i]));
        lemma_first_fault(bounds@, 0, good);
    }
}

/// The fault of bounds is that of the first that has one.
proof fn lemma_first_fault(bounds: Seq<u64>, k: int, good: spec_fn(int) -> bool)
    requires
        0 <= k <= bounds.len(),
        forall|i: int|
            0 <= i < bounds.len() ==> #[trigger] good(i) == (is_finite_bits(bounds[i]) && (i > 0
                ==> order(bounds[i - 1]) < order(bounds[i]))),
        forall|i: int| 0 <= i < k ==> #[trigger] good(i),
    ensures
        bounds_fault_from(bounds, k) != Some(FloatBoundsError::WrongLength),
        bounds_fault_from(bounds, k) is None <==> forall|i: int|
            0 <= i < bounds.len() ==> #[trigger] good(i),
        bounds_fault_from(bounds, k) matches Some(e) ==> exists|i: int|
            {
                &&& 0 <= i < bounds.len()
                &&& !#[trigger] good(i)
                &&& e == FloatBoundsError::NotFinite <==> !is_finite_bits(bounds[i])
                &&& forall|j: int| 0 <= j < i ==> #[trigger] good(j)
            },
    decreases bounds.len() - k,
{
    if k < bounds.len() {
        if good(k) {
            lemma_first_fault(bounds, k + 1, good);
        }
    }
}

} // verus!
