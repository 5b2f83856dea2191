use embeprom::erased::ErasedHistogram;
use embeprom::erased::HistogramSnapshotError;
use embeprom::histogram::validate_u64_bounds;
use embeprom::histogram::BoundsError;
use embeprom::histogram::IntHistogram;
use embeprom::value::Value;

#[test]
fn buckets_and_sum_and_count() {
    let mut h: IntHistogram<4> = IntHistogram::new(&[100, 500, 1000, 5000]);
    for v in [12, 480, 480, 999, 4999, 4999, 10_000] {
        h.observe(v);
    }
    assert_eq!(h.bucket(0), 1); // <= 100
    assert_eq!(h.bucket(1), 2); // (100, 500]
    assert_eq!(h.bucket(2), 1); // (500, 1000]
    assert_eq!(h.bucket(3), 2); // (1000, 5000]
    assert_eq!(h.count(), 7); // includes the 10_000 +Inf observation
    assert_eq!(h.sum(), 12 + 480 + 480 + 999 + 4999 + 4999 + 10_000);
}

#[test]
fn duplicate_bounds_are_refused() {
    assert_eq!(
        validate_u64_bounds::<3>(&[10, 10, 20]),
        Err(BoundsError::NotIncreasing)
    );
}

#[test]
fn descending_bounds_are_refused() {
    assert_eq!(
        validate_u64_bounds::<3>(&[10, 30, 20]),
        Err(BoundsError::NotIncreasing)
    );
    assert_eq!(
        validate_u64_bounds::<2>(&[1000, 100]),
        Err(BoundsError::NotIncreasing)
    );
}

#[test]
fn bounds_must_be_as_many_as_the_buckets() {
    assert_eq!(
        validate_u64_bounds::<3>(&[10, 20]),
        Err(BoundsError::WrongLength)
    );
    assert_eq!(
        validate_u64_bounds::<1>(&[20, 10]),
        Err(BoundsError::WrongLength)
    );
}

#[test]
fn increasing_bounds_are_accepted() {
    assert_eq!(validate_u64_bounds::<3>(&[10, 20, 21]), Ok(()));
    assert_eq!(validate_u64_bounds::<1>(&[0]), Ok(()));
    assert_eq!(validate_u64_bounds::<0>(&[]), Ok(()));
}

#[test]
fn a_bound_belongs_to_its_own_bucket() {
    let mut h: IntHistogram<2> = IntHistogram::new(&[10, 20]);
    h.observe(0);
    h.observe(10);
    h.observe(11);
    h.observe(20);
    h.observe(21);
    assert_eq!(h.bounds(), &[10, 20]);
    assert_eq!(h.bucket(0), 2);
    assert_eq!(h.bucket(1), 2);
    assert_eq!(h.count(), 5);
}

#[test]
fn rolling_totals_count_what_is_at_most_a_bound() {
    let observations: [u64; 6] = [7, 3, 15, 15, 40, 9];
    let mut h: IntHistogram<3> = IntHistogram::new(&[8, 15, 30]);
    for v in observations {
        h.observe(v);
    }
    let mut total = 0;
    for b in 0..3 {
        total += h.bucket(b);
        let bound = h.bounds()[b];
        assert_eq!(total, observations.iter().filter(|v| **v <= bound).count() as u64);
    }
    assert!(total <= h.count());
}

#[test]
fn the_sum_wraps_around() {
    let mut h: IntHistogram<0> = IntHistogram::new(&[]);
    h.observe(u64::MAX);
    h.observe(3);
    assert_eq!(h.sum(), 2);
    assert_eq!(h.count(), 2);
}

#[test]
fn a_snapshot_fills_the_prefix_and_nothing_else() {
    let mut h: IntHistogram<2> = IntHistogram::new(&[10, 20]);
    h.observe(5);
    h.observe(15);
    h.observe(16);
    let mut buffer = [9u64; 4];
    let e: &dyn ErasedHistogram = &h;
    let snapshot = e.snapshot(&mut buffer).unwrap();
    assert_eq!(snapshot.buckets, &[1, 2]);
    assert_eq!(snapshot.sum, Value::U64(36));
    assert_eq!(snapshot.count, 3);
    assert_eq!(buffer, [1, 2, 9, 9]);
}

#[test]
fn a_snapshot_buffer_that_is_too_small_is_refused() {
    let h: IntHistogram<3> = IntHistogram::new(&[1, 2, 3]);
    let mut buffer = [0u64; 2];
    let e: &dyn ErasedHistogram = &h;
    let refused = match e.snapshot(&mut buffer) {
        Ok(_) => None,
        Err(error) => Some(error),
    };
    assert_eq!(
        refused,
        Some(HistogramSnapshotError {
            required: 3,
            capacity: 2,
        })
    );
}

#[test]
fn the_erased_view_reads_what_the_histogram_holds() {
    let mut h: IntHistogram<2> = IntHistogram::new(&[10, 20]);
    h.observe(15);
    let e: &dyn ErasedHistogram = &h;
    assert_eq!(e.bucket_count(), 2);
    assert_eq!(e.bound(0), Value::U64(10));
    assert_eq!(e.bound(1), Value::U64(20));
    assert_eq!(e.bucket(0), 0);
    assert_eq!(e.bucket(1), 1);
    assert_eq!(e.total_count(), 1);
    assert_eq!(e.sum(), Value::U64(15));
}
