use embeprom::bounded::BoundedString;
use embeprom::value::FloatSample;
use embeprom::value::Value;

fn rendered(v: Value) -> String {
    let mut out = BoundedString::<32>::new();
    v.write_prom(&mut out).unwrap();
    out.as_str().to_string()
}

fn float(v: f64) -> Value {
    Value::F64(FloatSample {
        bits: v.to_bits(),
        shown: format!("{v}"),
    })
}

#[test]
fn integers_render_plainly() {
    assert_eq!(rendered(Value::U64(1843)), "1843");
    assert_eq!(rendered(Value::I64(-67)), "-67");
}

#[test]
fn floats_render_prometheus_correctly() {
    assert_eq!(rendered(float(1.5)), "1.5");
    assert_eq!(rendered(float(f64::INFINITY)), "+Inf");
    assert_eq!(rendered(float(f64::NEG_INFINITY)), "-Inf");
    assert_eq!(rendered(float(f64::NAN)), "NaN");
}

#[test]
fn extreme_integers_render_in_full() {
    assert_eq!(rendered(Value::U64(0)), "0");
    assert_eq!(rendered(Value::U64(u64::MAX)), "18446744073709551615");
    assert_eq!(rendered(Value::I64(i64::MIN)), "-9223372036854775808");
    assert_eq!(rendered(Value::I64(i64::MAX)), "9223372036854775807");
}

#[test]
fn finite_floats_keep_their_own_text() {
    assert_eq!(rendered(float(-0.0)), "-0");
    assert_eq!(rendered(float(-f64::NAN)), "NaN");
    assert_eq!(rendered(float(f64::MAX / f64::MAX)), "1");
}

#[test]
fn a_value_that_does_not_fit_is_refused() {
    let mut out = BoundedString::<3>::new();
    assert!(Value::U64(1843).write_prom(&mut out).is_err());
    let mut out = BoundedString::<4>::new();
    assert!(Value::U64(1843).write_prom(&mut out).is_ok());
}

#[test]
fn decimal_text_reads_back() {
    for n in [0u64, 9, 10, 99, 100, 18446744073709551615] {
        assert_eq!(rendered(Value::U64(n)).parse::<u64>(), Ok(n));
    }
    for n in [0i64, -1, -10, 42, i64::MIN] {
        assert_eq!(rendered(Value::I64(n)).parse::<i64>(), Ok(n));
    }
}

#[test]
fn values_are_equal_as_numbers() {
    assert_ne!(float(f64::NAN), float(f64::NAN));
    assert_ne!(float(f64::NAN), float(1.0));
    assert_eq!(float(0.0), float(-0.0));
    assert_eq!(float(1.5), float(1.5));
    assert_ne!(float(1.5), float(-1.5));
    assert_eq!(float(f64::INFINITY), float(f64::INFINITY));
    assert_ne!(float(f64::INFINITY), float(f64::NEG_INFINITY));
    assert_eq!(Value::U64(1), Value::U64(1));
    assert_ne!(Value::U64(1), Value::U64(2));
    assert_eq!(Value::I64(-1), Value::I64(-1));
    assert_ne!(Value::U64(1), Value::I64(1));
    assert_ne!(Value::U64(1), float(1.0));
}

#[test]
fn digits_are_taken_whole_or_not_at_all() {
    let mut out = BoundedString::<3>::new();
    assert!(Value::U64(1843).write_prom(&mut out).is_err());
    assert_eq!(out.as_str(), "");
    let mut out = BoundedString::<2>::new();
    assert!(Value::I64(-67).write_prom(&mut out).is_err());
    assert_eq!(out.as_str(), "-");
}

#[test]
fn a_clone_is_the_same_value() {
    for v in [Value::U64(7), Value::I64(-7), float(1.5)] {
        assert_eq!(v.clone(), v);
        assert_eq!(rendered(v.clone()), rendered(v));
    }
}
