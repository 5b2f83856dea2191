use embeprom::erased::ErasedCounterVec;
use embeprom::erased::ErasedGaugeVec;
use embeprom::erased::ErasedHistogramVec;
use embeprom::histogram::IntHistogram;
use embeprom::names::validate_label_names;
use embeprom::names::LabelNamesError;
use embeprom::series::IntHistSeries;
use embeprom::value::Value;
use embeprom::vec::CounterVec;
use embeprom::vec::GaugeVec;
use embeprom::vec::IntHistogramVec;

static REASON: [&str; 1] = ["reason"];
static PEER: [&str; 1] = ["peer"];

fn labels_of<E: ErasedCounterVec>(v: &E, s: usize) -> String {
    let mut out = String::new();
    v.write_labels(s, &mut out).unwrap();
    out
}

#[test]
fn counter_vec_creates_and_increments_series() {
    let mut cv: CounterVec<4, 1, 48> = CounterVec::new(&REASON);
    cv.inc(&["timeout"]);
    cv.inc_by(&["timeout"], 2);
    cv.inc(&["auth_fail"]);

    assert_eq!(cv.series_count(), 2);
    assert_eq!(cv.with(&["timeout"]).get(), 3);
    assert_eq!(cv.with(&["auth_fail"]).get(), 1);
    assert_eq!(labels_of(&cv, 0), "reason=\"timeout\"");
}

#[test]
fn invalid_label_names_are_refused() {
    assert_eq!(
        validate_label_names(&["not-valid"], false),
        Err(LabelNamesError::InvalidName)
    );
}

#[test]
fn duplicate_label_names_are_refused() {
    assert_eq!(
        validate_label_names(&["kind", "kind"], false),
        Err(LabelNamesError::Duplicate)
    );
}

#[test]
fn the_generated_bucket_label_name_is_refused_for_histograms_only() {
    assert_eq!(
        validate_label_names(&["le"], true),
        Err(LabelNamesError::Reserved)
    );
    assert_eq!(validate_label_names(&["le"], false), Ok(()));
}

#[test]
fn histogram_vectors_need_a_label() {
    assert_eq!(
        validate_label_names(&[], true),
        Err(LabelNamesError::NoLabels)
    );
    assert_eq!(validate_label_names(&[], false), Ok(()));
}

#[test]
fn the_first_fault_is_reported() {
    assert_eq!(
        validate_label_names(&["kind", "kind", "not-valid"], false),
        Err(LabelNamesError::Duplicate)
    );
    assert_eq!(
        validate_label_names(&["le", "not-valid"], true),
        Err(LabelNamesError::Reserved)
    );
    assert_eq!(validate_label_names(&["peer", "code"], true), Ok(()));
}

#[test]
fn cached_counter_series_can_be_reused_for_hot_path_updates() {
    let mut cv: CounterVec<4, 1, 48> = CounterVec::new(&REASON);
    let mut timeout = cv.with(&["timeout"]);

    timeout.inc();
    timeout.inc_by(4);

    assert_eq!(timeout.get(), 5);
    assert_eq!(cv.series_count(), 1);
}

#[test]
fn counter_vec_drops_excess_series_but_keeps_existing_ones_updating() {
    let mut cv: CounterVec<2, 1, 48> = CounterVec::new(&REASON);
    cv.inc(&["a"]);
    cv.inc(&["b"]);
    let mut sink = cv.with(&["c"]); // capacity exhausted
    sink.inc_by(100);
    assert_eq!(sink.get(), 0);
    cv.inc(&["a"]); // existing series keeps updating
    assert_eq!(cv.series_count(), 2);
    assert_eq!(cv.with(&["a"]).get(), 2);
}

#[test]
fn counter_vec_drops_oversized_label_values_without_affecting_existing_series() {
    let mut cv: CounterVec<4, 1, 20> = CounterVec::new(&REASON);
    cv.inc(&["ok"]);
    let mut sink = cv.with(&["this value is far too long to fit"]);
    sink.inc();
    assert_eq!(sink.get(), 0);
    assert_eq!(cv.series_count(), 1);
    assert_eq!(cv.with(&["ok"]).get(), 1);
}

#[test]
fn counter_series_can_be_reset() {
    let mut cv: CounterVec<2, 1, 48> = CounterVec::new(&REASON);
    cv.inc_by(&["a"], 5);
    cv.inc_by(&["b"], 6);
    cv.with(&["a"]).reset();
    assert_eq!(cv.with(&["a"]).get(), 0);
    assert_eq!(cv.with(&["b"]).get(), 6);
}

#[test]
fn values_that_differ_only_by_quoting_have_series_of_their_own() {
    let mut cv: CounterVec<4, 1, 48> = CounterVec::new(&REASON);
    cv.inc(&["a\"b"]);
    cv.inc_by(&["a\\\"b"], 2);
    cv.inc_by(&["a\nb"], 3);
    cv.inc_by(&["a\\nb"], 4);
    assert_eq!(cv.series_count(), 4);
    assert_eq!(cv.with(&["a\"b"]).get(), 1);
    assert_eq!(cv.with(&["a\\\"b"]).get(), 2);
    assert_eq!(cv.with(&["a\nb"]).get(), 3);
    assert_eq!(cv.with(&["a\\nb"]).get(), 4);
}

#[test]
fn series_keep_their_index_and_their_labels() {
    let mut cv: CounterVec<3, 1, 48> = CounterVec::new(&REASON);
    cv.inc(&["a"]);
    cv.inc(&["b"]);
    cv.inc(&["a"]);
    cv.inc(&["c"]);
    assert_eq!(labels_of(&cv, 0), "reason=\"a\"");
    assert_eq!(labels_of(&cv, 1), "reason=\"b\"");
    assert_eq!(labels_of(&cv, 2), "reason=\"c\"");
    let erased: &dyn ErasedCounterVec = &cv;
    assert_eq!(erased.value(0), 2);
    assert_eq!(erased.value(1), 1);
    assert_eq!(erased.series_count(), 3);
}

#[test]
fn a_label_block_of_exactly_the_budget_is_taken() {
    let mut cv: CounterVec<1, 1, 10> = CounterVec::new(&REASON);
    cv.inc(&["x"]); // reason="x"
    assert_eq!(cv.series_count(), 1);
    let mut cv: CounterVec<1, 1, 9> = CounterVec::new(&REASON);
    cv.inc(&["x"]);
    assert_eq!(cv.series_count(), 0);
}

#[test]
fn gauge_vec_creates_and_sets_series() {
    let mut gv: GaugeVec<4, 1, 48> = GaugeVec::new(&PEER);
    gv.set(&["ap-1"], 10);
    gv.add(&["ap-1"], -3);
    gv.set(&["ap-2"], 5);
    assert_eq!(gv.with(&["ap-1"]).get(), 7);
    assert_eq!(gv.with(&["ap-2"]).get(), 5);
    assert_eq!(gv.series_count(), 2);
}

#[test]
fn gauge_vec_returns_zero_reading_sink_when_full() {
    let mut gv: GaugeVec<1, 1, 48> = GaugeVec::new(&PEER);
    gv.set(&["ap-1"], 7);

    let mut sink = gv.with(&["ap-2"]);
    sink.set(99);
    sink.inc();

    assert_eq!(sink.get(), 0);
    assert_eq!(gv.with(&["ap-1"]).get(), 7);
    assert_eq!(gv.series_count(), 1);
}

#[test]
fn gauge_series_move_up_and_down() {
    let mut gv: GaugeVec<1, 1, 48> = GaugeVec::new(&PEER);
    let mut ap = gv.with(&["ap-1"]);
    ap.set(5);
    ap.add(10);
    ap.sub(2);
    ap.inc();
    ap.dec();
    ap.dec();
    assert_eq!(ap.get(), 12);
    let erased: &dyn ErasedGaugeVec = &gv;
    assert_eq!(erased.series_count(), 1);
    assert_eq!(erased.value(0), Value::I64(12));
    let mut labels = String::from("before ");
    erased.write_labels(0, &mut labels).unwrap();
    assert_eq!(labels, "before peer=\"ap-1\"");
}

#[test]
fn int_histogram_vec_tracks_independent_series() {
    let mut hv: IntHistogramVec<4, 2, 1, 48> = IntHistogramVec::new(&PEER, &[100, 1000]);
    hv.observe(&["ap-1"], 50);
    hv.observe(&["ap-1"], 500);
    hv.observe(&["ap-2"], 2000);

    assert_eq!(hv.series_count(), 2);
    assert_eq!(hv.bounds(), &[100, 1000]);
    let ap1 = hv.with(&["ap-1"]);
    assert_eq!(ap1.bounds(), &[100, 1000]);
    assert_eq!(ap1.bucket(0), 1);
    assert_eq!(ap1.bucket(1), 1);
    assert_eq!(ap1.count(), 2);
    assert_eq!(ap1.sum(), 550);

    let ap2 = hv.with(&["ap-2"]);
    assert_eq!(ap2.bucket(0), 0);
    assert_eq!(ap2.bucket(1), 0);
    assert_eq!(ap2.count(), 1); // +Inf only
    assert_eq!(ap2.sum(), 2000);
}

fn observe_us<const B: usize>(mut metric: IntHistSeries<'_, B>, v: u64) {
    metric.observe(v);
}

#[test]
fn scalar_histogram_series_is_the_same_handle_as_a_bound_vec_series() {
    let mut scalar = IntHistogram::<2>::new(&[100, 1000]);
    let mut labeled: IntHistogramVec<4, 2, 1, 48> = IntHistogramVec::new(&PEER, &[100, 1000]);

    observe_us(scalar.series(), 50);
    observe_us(scalar.series(), 500);
    observe_us(labeled.with(&["ap-1"]), 50);

    assert_eq!(scalar.bucket(0), 1);
    assert_eq!(scalar.bucket(1), 1);
    assert_eq!(scalar.count(), 2);
    assert_eq!(scalar.sum(), 550);
    assert_eq!(scalar.series().sum(), 550);
    assert_eq!(labeled.with(&["ap-1"]).count(), 1);
    assert_eq!(labeled.with(&["ap-1"]).sum(), 50);
}

#[test]
fn cached_histogram_series_can_be_reused_for_hot_path_observations() {
    let mut hv: IntHistogramVec<4, 2, 1, 48> = IntHistogramVec::new(&PEER, &[100, 1000]);
    let mut ap = hv.with(&["ap-1"]);

    ap.observe(50);
    ap.observe(500);

    assert_eq!(ap.bucket(0), 1);
    assert_eq!(ap.bucket(1), 1);
    assert_eq!(ap.count(), 2);
    assert_eq!(ap.sum(), 550);
    assert_eq!(hv.series_count(), 1);
}

#[test]
fn int_histogram_vec_sink_discards_observations_when_full() {
    let mut hv: IntHistogramVec<1, 2, 1, 48> = IntHistogramVec::new(&PEER, &[100, 1000]);
    hv.observe(&["ap-1"], 50);

    let mut sink = hv.with(&["ap-2"]);
    sink.observe(500);

    assert_eq!(sink.bounds(), &[100, 1000]);
    assert_eq!(sink.bucket(0), 0);
    assert_eq!(sink.bucket(1), 0);
    assert_eq!(sink.count(), 0);
    assert_eq!(sink.sum(), 0);
    assert_eq!(hv.series_count(), 1);
    assert_eq!(hv.with(&["ap-1"]).count(), 1);
    assert_eq!(hv.with(&["ap-1"]).sum(), 50);
}

#[test]
fn the_erased_view_of_a_histogram_vec_reads_each_series() {
    let mut hv: IntHistogramVec<2, 2, 1, 48> = IntHistogramVec::new(&PEER, &[10, 20]);
    hv.observe(&["a"], 5);
    hv.observe(&["b"], 15);
    hv.observe(&["b"], 25);
    let erased: &dyn ErasedHistogramVec = &hv;
    assert_eq!(erased.bucket_count(), 2);
    assert_eq!(erased.bound(1), Value::U64(20));
    assert_eq!(erased.series_count(), 2);
    assert_eq!(erased.bucket(0, 0), 1);
    assert_eq!(erased.bucket(1, 1), 1);
    assert_eq!(erased.total_count(1), 2);
    assert_eq!(erased.sum(1), Value::U64(40));
    let mut labels = String::new();
    erased.write_labels(1, &mut labels).unwrap();
    assert_eq!(labels, "peer=\"b\"");
    let mut buffer = [7u64; 3];
    let snapshot = erased.snapshot(1, &mut buffer).unwrap();
    assert_eq!(snapshot.buckets, &[0, 1]);
    assert_eq!(snapshot.sum, Value::U64(40));
    assert_eq!(snapshot.count, 2);
    assert_eq!(buffer, [0, 1, 7]);
    let mut small = [0u64; 1];
    assert!(erased.snapshot(0, &mut small).is_err());
}

#[test]
fn an_index_reaches_a_series_without_its_labels() {
    let mut cv: CounterVec<2, 1, 48> = CounterVec::new(&REASON);
    let timeout = cv.index_of(&["timeout"]).unwrap();
    let refused = cv.index_of(&["refused"]).unwrap();
    assert_ne!(timeout, refused);
    assert_eq!(cv.index_of(&["timeout"]), Some(timeout));
    assert_eq!(cv.index_of(&["other"]), None);
    assert_eq!(cv.series_count(), 2);
    cv.at(timeout).inc_by(5);
    cv.at(refused).inc();
    cv.inc(&["timeout"]);
    assert_eq!(cv.at(timeout).get(), 6);
    assert_eq!(cv.with(&["refused"]).get(), 1);

    let mut gv: GaugeVec<2, 1, 48> = GaugeVec::new(&PEER);
    let a = gv.index_of(&["a"]).unwrap();
    gv.at(a).set(-3);
    assert_eq!(gv.with(&["a"]).get(), -3);

    let mut hv: IntHistogramVec<2, 2, 1, 48> = IntHistogramVec::new(&PEER, &[10, 20]);
    let a = hv.index_of(&["a"]).unwrap();
    hv.at(a).observe(15);
    hv.at(a).observe(25);
    assert_eq!(hv.with(&["a"]).bucket(1), 1);
    assert_eq!(hv.at(a).count(), 2);
    assert_eq!(hv.at(a).bounds(), &[10, 20]);
}

#[test]
fn series_go_by_their_values() {
    let mut cv: CounterVec<3, 1, 48> = CounterVec::new(&REASON);
    cv.inc_by(&["a"], 1);
    cv.inc_by(&["b"], 10);
    cv.inc_by(&["a"], 1);
    cv.inc_by(&["c"], 100);
    cv.inc_by(&["d"], 1000);
    assert_eq!(cv.series_count(), 3);
    assert_eq!(cv.with(&["a"]).get(), 2);
    assert_eq!(cv.with(&["b"]).get(), 10);
    assert_eq!(cv.with(&["c"]).get(), 100);
    assert_eq!(cv.with(&["d"]).get(), 0);
    assert_eq!(cv.series_count(), 3);
}
