//! A monotonically-increasing counter.

use vstd::prelude::*;
use crate::atomic;
use portable_atomic::AtomicU64;

verus! {

/// A Prometheus counter: a cumulative value that only increases (or resets to
/// zero, e.g. on restart).
#[derive(Debug)]
pub struct Counter {
    v: AtomicU64,
}

impl View for Counter {
    type V = u64;

    closed spec fn view(&self) -> u64 {
        atomic::u64_held(self.v)
    }
}

impl Counter {
    /// Create a new counter starting at zero.
    pub fn new() -> (c: Self)
        ensures
            c@ == 0,
    {
        Counter { v: atomic::new_u64(0) }
    }

    /// Increment by 1.
    pub fn inc(&mut self)
        ensures
            final(self)@ == atomic::wrap_u64(old(self)@ + 1),
    {
        self.inc_by(1)
    }

    /// Increment by `n`.
    pub fn inc_by(&mut self, n: u64)
        ensures
            final(self)@ == atomic::wrap_u64(old(self)@ + n),
    {
        atomic::fetch_add_u64(&mut self.v, n);
    }

    /// The current value.
    pub fn get(&self) -> (n: u64)
        ensures
            n == self@,
    {
        atomic::load_u64(&self.v)
    }

    /// Reset to zero. Intended for tests/bring-up: a counter that decreases
    /// in a live scrape target violates Prometheus counter semantics.
    pub fn reset(&mut self)
        ensures
            final(self)@ == 0,
    {
        atomic::store_u64(&mut self.v, 0);
    }
}

impl Default for Counter {
    fn default() -> (c: Self)
        ensures
            c@ == 0,
    {
        Counter::new()
    }
}

/// Increments add up: a run of them leaves a counter where one increment by
/// their sum would.
pub proof fn law_increments_add_up(start: u64, first: u64, second: u64)
    ensures
        atomic::wrap_u64(atomic::wrap_u64(start + first) + second) == atomic::wrap_u64(
            start + first + second,
        ),
{
    atomic::lemma_wrap_u64_again(start + first, second as int);
}

/// A counter never decreases by an increment, short of wrapping around.
pub proof fn law_counters_only_increase(start: u64, n: u64)
    requires
        start + n <= u64::MAX,
    ensures
        atomic::wrap_u64(start + n) == start + n,
        atomic::wrap_u64(start + n) >= start,
{
}

/// A counter begins at zero, is read as it stands, goes up by exactly what it
/// is incremented by, modulo 2 to the 64th, and goes back to zero on a reset.
pub proof fn law_counters_count()
    ensures
        forall|c: Counter| #[trigger] call_ensures(Counter::default, (), c) ==> c@ == 0,
        forall|c: Counter| #[trigger] call_ensures(Counter::new, (), c) ==> c@ == 0,
        forall|c: &Counter, n: u64| #[trigger] call_ensures(Counter::get, (c,), n) ==> n == c@,
        forall|c: &mut Counter| #[trigger]
            call_ensures(Counter::inc, (c,), ()) ==> ((*final(c))@ - (*c)@ - 1)
                % 0x1_0000_0000_0000_0000 == 0,
        forall|c: &mut Counter, n: u64| #[trigger]
            call_ensures(Counter::inc_by, (c, n), ()) ==> ((*final(c))@ - (*c)@ - n)
                % 0x1_0000_0000_0000_0000 == 0,
        forall|c: &mut Counter| #[trigger]
            call_ensures(Counter::reset, (c,), ()) ==> (*final(c))@ == 0,
{
}

} // verus!
