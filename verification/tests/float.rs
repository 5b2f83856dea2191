use embeprom::float::float_bucket;
use embeprom::float::validate_f64_bounds;
use embeprom::float::FloatBoundsError;
use embeprom::series::BucketCells;

fn bits<const B: usize>(values: [f64; B]) -> [u64; B] {
    values.map(f64::to_bits)
}

#[test]
fn nan_bounds_are_refused() {
    assert_eq!(
        validate_f64_bounds::<2>(&bits([0.5, f64::NAN])),
        Err(FloatBoundsError::NotFinite)
    );
}

#[test]
fn infinite_bounds_are_refused() {
    assert_eq!(
        validate_f64_bounds::<2>(&bits([0.5, f64::INFINITY])),
        Err(FloatBoundsError::NotFinite)
    );
    assert_eq!(
        validate_f64_bounds::<2>(&bits([f64::NEG_INFINITY, 0.5])),
        Err(FloatBoundsError::NotFinite)
    );
}

#[test]
fn float_bounds_must_increase() {
    assert_eq!(
        validate_f64_bounds::<2>(&bits([0.0, -0.0])),
        Err(FloatBoundsError::NotIncreasing)
    );
    assert_eq!(
        validate_f64_bounds::<3>(&bits([-1.0, -2.0, 3.0])),
        Err(FloatBoundsError::NotIncreasing)
    );
    assert_eq!(
        validate_f64_bounds::<3>(&bits([-2.0, -1.0])),
        Err(FloatBoundsError::WrongLength)
    );
    assert_eq!(
        validate_f64_bounds::<5>(&bits([f64::MIN, -1.0, -0.0, 0.05, f64::MAX])),
        Ok(())
    );
    assert_eq!(validate_f64_bounds::<0>(&[]), Ok(()));
}

#[test]
fn float_buckets_agree_with_float_comparison() {
    let samples = [
        f64::NEG_INFINITY,
        f64::MIN,
        -1.5,
        -f64::MIN_POSITIVE,
        -5e-324,
        -0.0,
        0.0,
        5e-324,
        f64::MIN_POSITIVE,
        0.5,
        1.0,
        1.5,
        f64::MAX,
        f64::INFINITY,
        f64::NAN,
        -f64::NAN,
    ];
    for a in samples {
        for b in samples {
            let expected = if a <= b { 0 } else { 1 };
            assert_eq!(float_bucket(&[b.to_bits()], a.to_bits()), expected);
        }
    }
}

#[test]
fn observations_fall_into_the_first_bucket_that_holds_them() {
    let bounds = bits([0.5, 1.0]);
    let mut cells: BucketCells<2> = BucketCells::new();
    for v in [0.25, 0.75, 2.0] {
        cells.record(float_bucket(&bounds, f64::to_bits(v)));
    }
    assert_eq!(cells.bucket(0), 1);
    assert_eq!(cells.bucket(1), 1);
    assert_eq!(cells.count(), 3);
    let mut copy = [9u64; 2];
    cells.read_into(&mut copy);
    assert_eq!(copy, [1, 1]);
}

#[test]
fn a_nan_falls_into_no_finite_bucket() {
    let bounds = bits([0.5, 5.0]);
    let mut cells: BucketCells<2> = BucketCells::new();
    cells.record(float_bucket(&bounds, f64::NAN.to_bits()));
    assert_eq!(cells.bucket(0), 0);
    assert_eq!(cells.bucket(1), 0);
    assert_eq!(cells.count(), 1);
}
