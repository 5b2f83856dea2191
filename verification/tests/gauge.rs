use embeprom::gauge::Gauge;

#[test]
fn gauge_moves_up_and_down() {
    let mut g = Gauge::new(0);
    g.set(10);
    assert_eq!(g.get(), 10);
    g.inc();
    g.add(5);
    g.dec();
    g.sub(2);
    assert_eq!(g.get(), 13);
}

#[test]
fn gauge_can_be_negative() {
    let g = Gauge::new(-5);
    assert_eq!(g.get(), -5);
}

#[test]
fn gauges_start_at_zero_by_default() {
    assert_eq!(Gauge::default().get(), 0);
}

#[test]
fn sub_undoes_add_even_past_the_largest_value() {
    let mut g = Gauge::new(i64::MAX - 1);
    g.add(7);
    assert_eq!(g.get(), i64::MIN + 5);
    g.sub(7);
    assert_eq!(g.get(), i64::MAX - 1);
}
