use embeprom::counter::Counter;

#[test]
fn increments() {
    let mut c = Counter::new();
    assert_eq!(c.get(), 0);
    c.inc();
    c.inc_by(41);
    assert_eq!(c.get(), 42);
}

#[test]
fn resets() {
    let mut c = Counter::new();
    c.inc_by(10);
    c.reset();
    assert_eq!(c.get(), 0);
}

#[test]
fn counters_start_at_zero_by_default() {
    assert_eq!(Counter::default().get(), 0);
}

#[test]
fn increments_add_up_to_one_increment_by_their_sum() {
    let mut one = Counter::new();
    let mut two = Counter::new();
    one.inc_by(5);
    one.inc_by(u64::MAX - 2);
    two.inc_by(5u64.wrapping_add(u64::MAX - 2));
    assert_eq!(one.get(), two.get());
}

#[test]
fn a_counter_wraps_around_at_its_largest_value() {
    let mut c = Counter::new();
    c.inc_by(u64::MAX);
    assert_eq!(c.get(), u64::MAX);
    c.inc();
    assert_eq!(c.get(), 0);
}
