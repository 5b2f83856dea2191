//! A value that can go up or down.

use vstd::prelude::*;
use crate::atomic;
use portable_atomic::AtomicI64;

verus! {

/// A Prometheus gauge holding a signed integer value.
#[derive(Debug)]
pub struct Gauge {
    v: AtomicI64,
}

impl View for Gauge {
    type V = i64;

    closed spec fn view(&self) -> i64 {
        atomic::i64_held(self.v)
    }
}

impl Gauge {
    /// Create a new gauge with the given initial value.
    pub fn new(initial: i64) -> (g: Self)
        ensures
            g@ == initial,
    {
        Gauge { v: atomic::new_i64(initial) }
    }

    /// Set the value.
    pub fn set(&mut self, v: i64)
        ensures
            final(self)@ == v,
    {
        atomic::store_i64(&mut self.v, v);
    }

    /// Add `d` to the value (`d` may be negative).
    pub fn add(&mut self, d: i64)
        ensures
            final(self)@ == atomic::wrap_i64(old(self)@ + d),
    {
        atomic::fetch_add_i64(&mut self.v, d);
    }

    /// Subtract `d` from the value.
    pub fn sub(&mut self, d: i64)
        ensures
            final(self)@ == atomic::wrap_i64(old(self)@ - d),
    {
        atomic::fetch_sub_i64(&mut self.v, d);
    }

    /// Increment by 1.
    pub fn inc(&mut self)
        ensures
            final(self)@ == atomic::wrap_i64(old(self)@ + 1),
    {
        self.add(1);
    }

    /// Decrement by 1.
    pub fn dec(&mut self)
        ensures
            final(self)@ == atomic::wrap_i64(old(self)@ - 1),
    {
        self.sub(1);
    }

    /// The current value.
    pub fn get(&self) -> (n: i64)
        ensures
            n == self@,
    {
        atomic::load_i64(&self.v)
    }
}

impl Default for Gauge {
    fn default() -> (g: Self)
        ensures
            g@ == 0,
    {
        Gauge::new(0)
    }
}

/// Subtracting undoes adding, even where the sum wrapped around.
pub proof fn law_sub_undoes_add(start: i64, d: i64)
    ensures
        atomic::wrap_i64(atomic::wrap_i64(start + d) - d) == start,
{
    atomic::lemma_wrap_i64_again(start + d, -(d as int));
}

/// A gauge holds what it is created with or set to, is read as it stands, and
/// goes up and down by exactly what is added and subtracted, modulo 2 to the
/// 64th.
pub proof fn law_gauges_hold_and_move()
    ensures
        forall|g: Gauge| #[trigger] call_ensures(Gauge::default, (), g) ==> g@ == 0,
        forall|v: i64, g: Gauge| #[trigger] call_ensures(Gauge::new, (v,), g) ==> g@ == v,
        forall|g: &Gauge, n: i64| #[trigger] call_ensures(Gauge::get, (g,), n) ==> n == g@,
        forall|g: &mut Gauge, v: i64| #[trigger]
            call_ensures(Gauge::set, (g, v), ()) ==> (*final(g))@ == v,
        forall|g: &mut Gauge, d: i64| #[trigger]
            call_ensures(Gauge::add, (g, d), ()) ==> ((*final(g))@ - (*g)@ - d)
                % 0x1_0000_0000_0000_0000 == 0,
        forall|g: &mut Gauge, d: i64| #[trigger]
            call_ensures(Gauge::sub, (g, d), ()) ==> ((*final(g))@ - (*g)@ + d)
                % 0x1_0000_0000_0000_0000 == 0,
        forall|g: &mut Gauge| #[trigger]
            call_ensures(Gauge::inc, (g,), ()) ==> ((*final(g))@ - (*g)@ - 1)
                % 0x1_0000_0000_0000_0000 == 0,
        forall|g: &mut Gauge| #[trigger]
            call_ensures(Gauge::dec, (g,), ()) ==> ((*final(g))@ - (*g)@ + 1)
                % 0x1_0000_0000_0000_0000 == 0,
{
}

} // verus!
