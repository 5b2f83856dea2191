//! Capacity knobs.
//!
//! Per-metric const-generic arguments (e.g. `CounterVec<4, 1, 96>`) are always
//! available and are the recommended way to deviate from these defaults for a
//! single metric.

use vstd::prelude::*;

verus! {

/// Default byte budget for a metric's *rendered* label block (e.g. `k1="v1",k2="v2"`,
/// no surrounding braces) — not a per-value length.
pub const LABEL_VALUE_LEN: usize = 48;

/// Default maximum number of metric groups that a registry can hold.
pub const MAX_GROUPS: usize = 16;

/// Default maximum length in bytes of a single rendered output line. A line
/// exceeding this returns [`crate::render::RenderError::LineTooLong`].
pub const MAX_LINE: usize = 256;

/// Default number of finite histogram buckets that a renderer can snapshot.
/// This scratch capacity is reused for each scalar histogram or
/// histogram-vector series.
pub const MAX_HISTOGRAM_BUCKETS: usize = 16;

/// The label-block budget for a build that asks for the given budgets. Requests
/// are additive: if several are made, the largest wins.
pub fn label_value_len(want_64: bool, want_128: bool) -> (n: usize)
    ensures
        n == (if want_128 {
            128
        } else if want_64 {
            64
        } else {
            LABEL_VALUE_LEN as int
        }),
{
    if want_128 {
        128
    } else if want_64 {
        64
    } else {
        LABEL_VALUE_LEN
    }
}

/// The group capacity for a build that asks for the given capacities. Requests
/// are additive: if several are made, the largest wins.
pub fn max_groups(
    want_32: bool,
    want_64: bool,
    want_128: bool,
    want_256: bool,
    want_512: bool,
) -> (n: usize)
    ensures
        n >= MAX_GROUPS,
        want_32 ==> n >= 32,
        want_64 ==> n >= 64,
        want_128 ==> n >= 128,
        want_256 ==> n >= 256,
        want_512 ==> n >= 512,
        n == MAX_GROUPS || want_32 && n == 32 || want_64 && n == 64 || want_128 && n == 128
            || want_256 && n == 256 || want_512 && n == 512,
{
    if want_512 {
        512
    } else if want_256 {
        256
    } else if want_128 {
        128
    } else if want_64 {
        64
    } else if want_32 {
        32
    } else {
        MAX_GROUPS
    }
}

/// The largest of the budgets and capacities asked for is chosen, and the
/// default where none is.
pub proof fn law_the_largest_request_wins()
    ensures
        LABEL_VALUE_LEN == 48,
        MAX_GROUPS == 16,
        MAX_LINE == 256,
        MAX_HISTOGRAM_BUCKETS == 16,
        forall|a: bool, b: bool, n: usize| #[trigger]
            call_ensures(label_value_len, (a, b), n) ==> {
                &&& b ==> n == 128
                &&& a && !b ==> n == 64
                &&& !a && !b ==> n == 48
            },
        forall|a: bool, b: bool, c: bool, d: bool, e: bool, n: usize| #[trigger]
            call_ensures(max_groups, (a, b, c, d, e), n) ==> {
                &&& e ==> n == 512
                &&& d && !e ==> n == 256
                &&& c && !d && !e ==> n == 128
                &&& b && !c && !d && !e ==> n == 64
                &&& a && !b && !c && !d && !e ==> n == 32
                &&& !a && !b && !c && !d && !e ==> n == 16
            },
{
}

} // verus!
