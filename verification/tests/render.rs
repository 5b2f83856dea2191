use embeprom::bounded::BoundedString;
use embeprom::counter::Counter;
use embeprom::erased::snapshot_bucket_prefix;
use embeprom::erased::ErasedCounterVec;
use embeprom::erased::ErasedHistogram;
use embeprom::erased::ErasedHistogramVec;
use embeprom::erased::HistogramSnapshot;
use embeprom::erased::HistogramSnapshotError;
use embeprom::erased::MetricDesc;
use embeprom::erased::MetricGroup;
use embeprom::erased::MetricRef;
use embeprom::gauge::Gauge;
use embeprom::histogram::IntHistogram;
use embeprom::registry::listing_of;
use embeprom::registry::GroupRef;
use embeprom::registry::Listing;
use embeprom::registry::Registry;
use embeprom::registry::RegistryFull;
use embeprom::render::rendered_len;
use embeprom::render::rendered_len_from;
use embeprom::render::write_all;
use embeprom::render::RenderError;
use embeprom::render::Renderer;
use embeprom::render::CONTENT_TYPE;
use embeprom::sink::FormatError;
use embeprom::sink::TextSink;
use embeprom::value::Value;
use embeprom::vec::IntHistogramVec;

struct FixtureCounterVec {
    labels: [&'static str; 2],
    values: [Counter; 2],
}

impl ErasedCounterVec for FixtureCounterVec {
    fn series_count(&self) -> usize {
        2
    }
    fn write_labels(&self, s: usize, out: &mut String) -> Result<(), FormatError> {
        out.push_str("reason=\"");
        out.push_str(self.labels[s]);
        out.push('"');
        Ok(())
    }
    fn value(&self, s: usize) -> u64 {
        self.values[s].get()
    }
}

struct FixtureHistVec {
    bounds: &'static [u64],
    label: &'static str,
    buckets: [u64; 2],
    total_count: u64,
    total_sum: u64,
}

impl ErasedHistogramVec for FixtureHistVec {
    fn bucket_count(&self) -> usize {
        self.bounds.len()
    }
    fn bound(&self, b: usize) -> Value {
        Value::U64(self.bounds[b])
    }
    fn series_count(&self) -> usize {
        1
    }
    fn write_labels(&self, _s: usize, out: &mut String) -> Result<(), FormatError> {
        out.push_str("peer=\"");
        out.push_str(self.label);
        out.push('"');
        Ok(())
    }
    fn bucket(&self, _s: usize, b: usize) -> u64 {
        self.buckets[b]
    }
    fn total_count(&self, _s: usize) -> u64 {
        self.total_count
    }
    fn sum(&self, _s: usize) -> Value {
        Value::U64(self.total_sum)
    }
    fn snapshot<'a>(
        &self,
        _s: usize,
        buckets: &'a mut [u64],
    ) -> Result<HistogramSnapshot<'a>, HistogramSnapshotError> {
        let buckets = snapshot_bucket_prefix(buckets, self.buckets.len())?;
        buckets.copy_from_slice(&self.buckets);
        Ok(HistogramSnapshot {
            buckets,
            sum: Value::U64(self.total_sum),
            count: self.total_count,
        })
    }
}

struct Fixture {
    requests: Counter,
    rssi: Gauge,
    disconnects: FixtureCounterVec,
    latency: IntHistogram<4>,
    peer_latency: FixtureHistVec,
}

impl MetricGroup for Fixture {
    fn group_name(&self) -> &'static str {
        "wifi"
    }

    fn len(&self) -> usize {
        5
    }

    fn get(&self, index: usize) -> Option<MetricDesc<'_>> {
        Some(match index {
            0 => MetricDesc {
                namespace: "wifi",
                name: "packets_sent",
                help: "Total Wi-Fi frames transmitted.",
                metric: MetricRef::Counter(&self.requests),
            },
            1 => MetricDesc {
                namespace: "wifi",
                name: "rssi_dbm",
                help: "Last measured RSSI in dBm.",
                metric: MetricRef::Gauge(Value::I64(self.rssi.get())),
            },
            2 => MetricDesc {
                namespace: "wifi",
                name: "disconnects_total",
                help: "Disconnects, by reason.",
                metric: MetricRef::CounterVec(&self.disconnects),
            },
            3 => MetricDesc {
                namespace: "wifi",
                name: "tx_latency_us",
                help: "TX completion latency in microseconds.",
                metric: MetricRef::Histogram { h: &self.latency },
            },
            4 => MetricDesc {
                namespace: "wifi",
                name: "peer_latency_us",
                help: "Per-peer latency.",
                metric: MetricRef::HistogramVec {
                    h: &self.peer_latency,
                },
            },
            _ => return None,
        })
    }
}

fn fixture() -> Fixture {
    Fixture {
        requests: Counter::new(),
        rssi: Gauge::new(0),
        disconnects: FixtureCounterVec {
            labels: ["beacon_timeout", "auth_fail"],
            values: [Counter::new(), Counter::new()],
        },
        latency: IntHistogram::new(&[100, 500, 1000, 5000]),
        peer_latency: FixtureHistVec {
            bounds: &[10, 50],
            label: "ap-1",
            buckets: [2, 3],
            total_count: 6,
            total_sum: 123,
        },
    }
}

const EXPECTED: &str = "\
# HELP wifi_packets_sent Total Wi-Fi frames transmitted.
# TYPE wifi_packets_sent counter
wifi_packets_sent 1843
# HELP wifi_rssi_dbm Last measured RSSI in dBm.
# TYPE wifi_rssi_dbm gauge
wifi_rssi_dbm -67
# HELP wifi_disconnects_total Disconnects, by reason.
# TYPE wifi_disconnects_total counter
wifi_disconnects_total{reason=\"beacon_timeout\"} 3
wifi_disconnects_total{reason=\"auth_fail\"} 1
# HELP wifi_tx_latency_us TX completion latency in microseconds.
# TYPE wifi_tx_latency_us histogram
wifi_tx_latency_us_bucket{le=\"100\"} 1
wifi_tx_latency_us_bucket{le=\"500\"} 3
wifi_tx_latency_us_bucket{le=\"1000\"} 4
wifi_tx_latency_us_bucket{le=\"5000\"} 6
wifi_tx_latency_us_bucket{le=\"+Inf\"} 7
wifi_tx_latency_us_sum 21969
wifi_tx_latency_us_count 7
# HELP wifi_peer_latency_us Per-peer latency.
# TYPE wifi_peer_latency_us histogram
wifi_peer_latency_us_bucket{peer=\"ap-1\",le=\"10\"} 2
wifi_peer_latency_us_bucket{peer=\"ap-1\",le=\"50\"} 5
wifi_peer_latency_us_bucket{peer=\"ap-1\",le=\"+Inf\"} 6
wifi_peer_latency_us_sum{peer=\"ap-1\"} 123
wifi_peer_latency_us_count{peer=\"ap-1\"} 6
";

fn seed_golden_fixture(f: &mut Fixture) {
    f.requests.inc_by(1843);
    f.rssi.set(-67);
    f.disconnects.values[0].inc_by(3);
    f.disconnects.values[1].inc_by(1);
    for v in [12, 480, 480, 999, 4999, 4999, 10_000] {
        f.latency.observe(v);
    }
}

fn registry_of<'a, G: MetricGroup>(group: &'a G) -> Registry<'a, 1> {
    let mut registry = Registry::<1>::new();
    registry.register(GroupRef { id: 1, group }).unwrap();
    registry
}

#[test]
fn golden_output_covers_every_metric_kind() {
    let mut f = fixture();
    seed_golden_fixture(&mut f);

    let registry = registry_of(&f);
    let mut out = BoundedString::<4096>::new();
    Renderer::<4, 256, 16, false>::from_registry(&registry)
        .render_to(&registry, &mut out)
        .unwrap();

    assert_eq!(out.as_str(), EXPECTED);
}

#[test]
fn golden_output_is_the_same_by_snapshots() {
    let mut f = fixture();
    seed_golden_fixture(&mut f);

    let registry = registry_of(&f);
    let mut out = BoundedString::<4096>::new();
    Renderer::<4, 256, 16, true>::from_registry(&registry)
        .render_to(&registry, &mut out)
        .unwrap();

    assert_eq!(out.as_str(), EXPECTED);
}

#[test]
fn line_cursor_reassembles_the_golden_output() {
    let mut f = fixture();
    seed_golden_fixture(&mut f);

    let registry = registry_of(&f);
    let mut renderer = Renderer::<4, 256, 16, false>::from_registry(&registry);
    let mut assembled = String::new();
    while let Some(line) = renderer.next_line(&registry).unwrap() {
        assert!(line.ends_with('\n'));
        assembled.push_str(line);
    }
    assert!(renderer.is_done());
    assert_eq!(assembled.as_str(), EXPECTED);
}

#[test]
fn empty_registry_renders_nothing() {
    let registry = Registry::<1>::new();
    let mut r: Renderer<4, 256, 16, false> = Renderer::from_registry(&registry);
    assert!(r.is_done());
    assert_eq!(r.next_line(&registry), Ok(None));
}

#[test]
fn from_registry_accepts_a_smaller_registry_capacity() {
    let a = fixture();
    let b = fixture();
    let mut registry = Registry::<2>::new();
    registry.register(GroupRef { id: 1, group: &a }).unwrap();
    registry.register(GroupRef { id: 2, group: &b }).unwrap();

    let renderer = Renderer::<4, 256, 16, false>::from_registry(&registry);
    assert_eq!(renderer.group_count(), 2);
    assert!(core::ptr::addr_eq(registry.snapshot()[0].group, &a));
    assert!(core::ptr::addr_eq(registry.snapshot()[1].group, &b));
}

#[test]
fn a_full_registry_takes_no_group() {
    let a = fixture();
    let b = fixture();
    let mut registry = Registry::<1>::new();
    assert!(registry.is_empty());
    assert_eq!(registry.register(GroupRef { id: 1, group: &a }), Ok(()));
    assert_eq!(registry.register(GroupRef { id: 2, group: &b }), Err(RegistryFull));
    assert_eq!(registry.len(), 1);
    assert!(!registry.is_empty());
    assert!(core::ptr::addr_eq(registry.snapshot()[0].group, &a));
}

#[test]
fn a_group_is_listed_once() {
    let a = fixture();
    let b = fixture();
    let mut registry = Registry::<2>::new();
    assert_eq!(registry.register(GroupRef { id: 7, group: &a }), Ok(()));
    assert_eq!(registry.register(GroupRef { id: 7, group: &a }), Ok(()));
    assert_eq!(registry.len(), 1);
    assert_eq!(registry.register(GroupRef { id: 8, group: &b }), Ok(()));
    assert_eq!(registry.register(GroupRef { id: 7, group: &a }), Ok(()));
    assert_eq!(
        registry.register(GroupRef { id: 9, group: &a }),
        Err(RegistryFull)
    );
    assert_eq!(registry.len(), 2);
    assert_eq!(registry.snapshot()[0].id, 7);
    assert_eq!(registry.snapshot()[1].id, 8);
    assert_eq!(registry.snapshot()[1].group.group_name(), "wifi");
}

#[test]
fn listed_groups_come_before_the_capacity() {
    assert_eq!(listing_of(&[], 3, 0), Listing::Full);
    assert_eq!(listing_of(&[], 3, 1), Listing::Added);
    assert_eq!(listing_of(&[3], 3, 1), Listing::Listed);
    assert_eq!(listing_of(&[4], 3, 1), Listing::Full);
    assert_eq!(listing_of(&[4, 5], 3, 3), Listing::Added);
}

#[test]
fn groups_registered_after_the_snapshot_are_not_rendered() {
    let a = ZeroSeriesVecGroup { v: FixtureCounterVecEmpty };
    let b = fixture();
    let mut registry = Registry::<2>::new();
    registry.register(GroupRef { id: 1, group: &a }).unwrap();
    let mut renderer = Renderer::<2, 256, 16, false>::from_registry(&registry);
    registry.register(GroupRef { id: 2, group: &b }).unwrap();
    let mut lines = 0;
    while renderer.next_line(&registry).unwrap().is_some() {
        lines += 1;
    }
    assert_eq!(lines, 2);
    assert!(renderer.is_done());
}

#[test]
fn line_overflow_is_exact_explicit_and_terminal() {
    const FIRST_LINE: &str = "# HELP wifi_packets_sent Total Wi-Fi frames transmitted.\n";
    let f = fixture();
    let registry = registry_of(&f);
    let mut renderer = Renderer::<1, 16, 16, false>::from_registry(&registry);
    let expected = RenderError::LineTooLong {
        required: FIRST_LINE.len(),
        capacity: 16,
        namespace: "wifi",
        metric: "packets_sent",
    };

    assert_eq!(renderer.next_line(&registry), Err(expected));
    assert_eq!(renderer.next_line(&registry), Err(expected));
    assert!(!renderer.is_done());
}

#[test]
fn exact_line_capacity_succeeds() {
    const FIRST_LINE: &str = "# HELP wifi_packets_sent Total Wi-Fi frames transmitted.\n";
    let f = fixture();
    let registry = registry_of(&f);
    let mut renderer = Renderer::<1, { FIRST_LINE.len() }, 16, false>::from_registry(&registry);
    assert_eq!(renderer.next_line(&registry), Ok(Some(FIRST_LINE)));
}

struct Reject;

impl TextSink for Reject {
    fn write_str(&mut self, _s: &str) -> Result<(), FormatError> {
        Err(FormatError)
    }
    fn write_char(&mut self, _c: char) -> Result<(), FormatError> {
        Err(FormatError)
    }
}

#[test]
fn sink_failure_is_terminal() {
    let f = fixture();
    let registry = registry_of(&f);
    let mut renderer = Renderer::<1, 256, 16, false>::from_registry(&registry);
    assert_eq!(
        renderer.render_to(&registry, &mut Reject),
        Err(RenderError::Sink)
    );
    assert_eq!(renderer.next_line(&registry), Err(RenderError::Sink));
    assert!(!renderer.is_done());
}

#[test]
fn a_sink_that_fills_up_ends_the_rendering() {
    let f = fixture();
    let registry = registry_of(&f);
    let mut renderer = Renderer::<1, 256, 16, false>::from_registry(&registry);
    let mut out = BoundedString::<80>::new();
    assert_eq!(
        renderer.render_to(&registry, &mut out),
        Err(RenderError::Sink)
    );
    assert_eq!(
        out.as_str(),
        "# HELP wifi_packets_sent Total Wi-Fi frames transmitted.\n"
    );
}

struct CountingHistogram {
    bucket_reads: portable_atomic::AtomicU64,
}

impl ErasedHistogram for CountingHistogram {
    fn bucket_count(&self) -> usize {
        3
    }

    fn bound(&self, b: usize) -> Value {
        Value::U64((b as u64 + 1) * 10)
    }

    fn bucket(&self, b: usize) -> u64 {
        self.bucket_reads
            .fetch_add(1, portable_atomic::Ordering::Relaxed);
        b as u64 + 1
    }

    fn total_count(&self) -> u64 {
        6
    }

    fn sum(&self) -> Value {
        Value::U64(0)
    }

    fn snapshot<'a>(
        &self,
        buckets: &'a mut [u64],
    ) -> Result<HistogramSnapshot<'a>, HistogramSnapshotError> {
        let buckets = snapshot_bucket_prefix(buckets, 3)?;
        for (b, bucket) in buckets.iter_mut().enumerate() {
            *bucket = self.bucket(b);
        }
        Ok(HistogramSnapshot {
            buckets,
            sum: Value::U64(0),
            count: 6,
        })
    }
}

struct CountingHistogramGroup {
    histogram: CountingHistogram,
}

impl MetricGroup for CountingHistogramGroup {
    fn group_name(&self) -> &'static str {
        "linear"
    }

    fn len(&self) -> usize {
        1
    }

    fn get(&self, index: usize) -> Option<MetricDesc<'_>> {
        (index == 0).then_some(MetricDesc {
            namespace: "linear",
            name: "latency",
            help: "A bucket-read counting fixture.",
            metric: MetricRef::Histogram { h: &self.histogram },
        })
    }
}

fn counting_histogram_group() -> CountingHistogramGroup {
    CountingHistogramGroup {
        histogram: CountingHistogram {
            bucket_reads: portable_atomic::AtomicU64::new(0),
        },
    }
}

#[test]
fn histogram_render_reads_each_finite_bucket_once() {
    let group = counting_histogram_group();
    let registry = registry_of(&group);
    let mut out = BoundedString::<512>::new();
    Renderer::<1, 256, 16, false>::from_registry(&registry)
        .render_to(&registry, &mut out)
        .unwrap();
    let reads = group
        .histogram
        .bucket_reads
        .load(portable_atomic::Ordering::Relaxed);

    assert_eq!(reads, 3);
    assert!(out.as_str().contains("linear_latency_bucket{le=\"10\"} 1\n"));
    assert!(out.as_str().contains("linear_latency_bucket{le=\"20\"} 3\n"));
    assert!(out.as_str().contains("linear_latency_bucket{le=\"30\"} 6\n"));
}

#[test]
fn histogram_snapshots_read_each_finite_bucket_once() {
    let group = counting_histogram_group();
    let registry = registry_of(&group);
    let mut out = String::new();
    Renderer::<1, 256, 3, true>::from_registry(&registry)
        .render_to(&registry, &mut out)
        .unwrap();
    let reads = group
        .histogram
        .bucket_reads
        .load(portable_atomic::Ordering::Relaxed);

    assert_eq!(reads, 3);
    assert!(out.contains("linear_latency_bucket{le=\"30\"} 6\n"));
}

struct ConsistentScalarGroup {
    histogram: IntHistogram<1>,
}

impl MetricGroup for ConsistentScalarGroup {
    fn group_name(&self) -> &'static str {
        "consistent_scalar"
    }
    fn len(&self) -> usize {
        1
    }
    fn get(&self, index: usize) -> Option<MetricDesc<'_>> {
        (index == 0).then_some(MetricDesc {
            namespace: "consistent",
            name: "scalar",
            help: "A scalar histogram snapshot fixture.",
            metric: MetricRef::Histogram { h: &self.histogram },
        })
    }
}

fn next<const L: usize, const H: usize, const C: bool, G: MetricGroup>(
    renderer: &mut Renderer<1, L, H, C>,
    group: &G,
) -> String {
    let registry = registry_of(group);
    renderer.next_line(&registry).unwrap().unwrap().to_string()
}

#[test]
fn scalar_histogram_snapshot_survives_updates_between_lines() {
    let mut group = ConsistentScalarGroup {
        histogram: IntHistogram::new(&[10]),
    };
    group.histogram.observe(1);
    let mut renderer = Renderer::<1, 256, 1, true>::from_registry(&registry_of(&group));

    assert!(next(&mut renderer, &group).starts_with("# HELP"));
    assert!(next(&mut renderer, &group).starts_with("# TYPE"));
    assert_eq!(
        next(&mut renderer, &group),
        "consistent_scalar_bucket{le=\"10\"} 1\n"
    );

    group.histogram.observe(2);
    assert_eq!(
        next(&mut renderer, &group),
        "consistent_scalar_bucket{le=\"+Inf\"} 1\n"
    );
    assert_eq!(next(&mut renderer, &group), "consistent_scalar_sum 1\n");
    assert_eq!(next(&mut renderer, &group), "consistent_scalar_count 1\n");
}

#[test]
fn without_snapshots_each_line_shows_what_the_histogram_holds() {
    let mut group = ConsistentScalarGroup {
        histogram: IntHistogram::new(&[10]),
    };
    group.histogram.observe(1);
    let mut renderer = Renderer::<1, 256, 0, false>::from_registry(&registry_of(&group));

    assert!(next(&mut renderer, &group).starts_with("# HELP"));
    assert!(next(&mut renderer, &group).starts_with("# TYPE"));
    assert_eq!(
        next(&mut renderer, &group),
        "consistent_scalar_bucket{le=\"10\"} 1\n"
    );
    group.histogram.observe(2);
    assert_eq!(
        next(&mut renderer, &group),
        "consistent_scalar_bucket{le=\"+Inf\"} 2\n"
    );
    assert_eq!(next(&mut renderer, &group), "consistent_scalar_sum 3\n");
    group.histogram.observe(4);
    assert_eq!(next(&mut renderer, &group), "consistent_scalar_count 3\n");
}

struct ZeroBucketSnapshotGroup {
    histogram: IntHistogram<0>,
}

impl MetricGroup for ZeroBucketSnapshotGroup {
    fn group_name(&self) -> &'static str {
        "zero_bucket_snapshot"
    }
    fn len(&self) -> usize {
        1
    }
    fn get(&self, index: usize) -> Option<MetricDesc<'_>> {
        (index == 0).then_some(MetricDesc {
            namespace: "consistent",
            name: "zero_bucket",
            help: "A zero-bucket snapshot fixture.",
            metric: MetricRef::Histogram { h: &self.histogram },
        })
    }
}

#[test]
fn zero_bucket_histogram_is_snapshotted_before_the_infinite_bucket() {
    let mut group = ZeroBucketSnapshotGroup {
        histogram: IntHistogram::new(&[]),
    };
    group.histogram.observe(5);
    let mut renderer = Renderer::<1, 256, 0, true>::from_registry(&registry_of(&group));

    assert!(next(&mut renderer, &group).starts_with("# HELP"));
    assert!(next(&mut renderer, &group).starts_with("# TYPE"));
    assert_eq!(
        next(&mut renderer, &group),
        "consistent_zero_bucket_bucket{le=\"+Inf\"} 1\n"
    );

    group.histogram.observe(7);
    assert_eq!(next(&mut renderer, &group), "consistent_zero_bucket_sum 5\n");
    assert_eq!(
        next(&mut renderer, &group),
        "consistent_zero_bucket_count 1\n"
    );
}

struct ConsistentVecGroup {
    histogram: IntHistogramVec<1, 1, 1, 48>,
}

impl MetricGroup for ConsistentVecGroup {
    fn group_name(&self) -> &'static str {
        "consistent_vec"
    }
    fn len(&self) -> usize {
        1
    }
    fn get(&self, index: usize) -> Option<MetricDesc<'_>> {
        (index == 0).then_some(MetricDesc {
            namespace: "consistent",
            name: "vector",
            help: "A histogram-vector snapshot fixture.",
            metric: MetricRef::HistogramVec { h: &self.histogram },
        })
    }
}

#[test]
fn histogram_vec_snapshot_survives_updates_between_lines() {
    let mut group = ConsistentVecGroup {
        histogram: IntHistogramVec::new(&["kind"], &[10]),
    };
    group.histogram.observe(&["a"], 1);
    let mut renderer = Renderer::<1, 256, 1, true>::from_registry(&registry_of(&group));

    assert!(next(&mut renderer, &group).starts_with("# HELP"));
    assert!(next(&mut renderer, &group).starts_with("# TYPE"));
    assert_eq!(
        next(&mut renderer, &group),
        "consistent_vector_bucket{kind=\"a\",le=\"10\"} 1\n"
    );

    group.histogram.observe(&["a"], 2);
    assert_eq!(
        next(&mut renderer, &group),
        "consistent_vector_bucket{kind=\"a\",le=\"+Inf\"} 1\n"
    );
    assert_eq!(
        next(&mut renderer, &group),
        "consistent_vector_sum{kind=\"a\"} 1\n"
    );
    assert_eq!(
        next(&mut renderer, &group),
        "consistent_vector_count{kind=\"a\"} 1\n"
    );
}

struct SnapshotCapacityGroup {
    histogram: IntHistogram<3>,
}

impl MetricGroup for SnapshotCapacityGroup {
    fn group_name(&self) -> &'static str {
        "snapshot_capacity"
    }
    fn len(&self) -> usize {
        1
    }
    fn get(&self, index: usize) -> Option<MetricDesc<'_>> {
        (index == 0).then_some(MetricDesc {
            namespace: "consistent",
            name: "capacity",
            help: "A snapshot-capacity fixture.",
            metric: MetricRef::Histogram { h: &self.histogram },
        })
    }
}

#[test]
fn histogram_snapshot_capacity_error_is_explicit_and_terminal() {
    let group = SnapshotCapacityGroup {
        histogram: IntHistogram::new(&[1, 2, 3]),
    };
    let registry = registry_of(&group);
    let mut renderer = Renderer::<1, 256, 2, true>::from_registry(&registry);
    let expected = RenderError::HistogramCapacityExceeded {
        required: 3,
        capacity: 2,
        namespace: "consistent",
        metric: "capacity",
    };

    assert_eq!(renderer.next_line(&registry), Err(expected));
    assert_eq!(renderer.next_line(&registry), Err(expected));
    assert!(!renderer.is_done());
}

#[test]
fn snapshot_capacity_does_not_matter_without_snapshots() {
    let group = SnapshotCapacityGroup {
        histogram: IntHistogram::new(&[1, 2, 3]),
    };
    let registry = registry_of(&group);
    let mut out = String::new();
    Renderer::<1, 256, 2, false>::from_registry(&registry)
        .render_to(&registry, &mut out)
        .unwrap();
    assert!(out.contains("consistent_capacity_bucket{le=\"3\"} 0\n"));
}

struct EmptyGroup;

impl MetricGroup for EmptyGroup {
    fn group_name(&self) -> &'static str {
        "empty"
    }
    fn len(&self) -> usize {
        0
    }
    fn get(&self, _index: usize) -> Option<MetricDesc<'_>> {
        None
    }
}

#[test]
fn groups_with_no_metrics_are_skipped() {
    let group = EmptyGroup;
    let registry = registry_of(&group);
    let mut out = BoundedString::<64>::new();
    Renderer::<4, 256, 16, false>::from_registry(&registry)
        .render_to(&registry, &mut out)
        .unwrap();
    assert_eq!(out.as_str(), "");
}

struct ZeroSeriesVecGroup {
    v: FixtureCounterVecEmpty,
}

struct FixtureCounterVecEmpty;

impl ErasedCounterVec for FixtureCounterVecEmpty {
    fn series_count(&self) -> usize {
        0
    }
    fn write_labels(&self, _s: usize, _out: &mut String) -> Result<(), FormatError> {
        unreachable!()
    }
    fn value(&self, _s: usize) -> u64 {
        unreachable!()
    }
}

impl MetricGroup for ZeroSeriesVecGroup {
    fn group_name(&self) -> &'static str {
        "zero"
    }
    fn len(&self) -> usize {
        1
    }
    fn get(&self, index: usize) -> Option<MetricDesc<'_>> {
        (index == 0).then_some(MetricDesc {
            namespace: "zero",
            name: "requests_by_code",
            help: "Requests by status code.",
            metric: MetricRef::CounterVec(&self.v),
        })
    }
}

#[test]
fn zero_series_vec_still_emits_help_and_type() {
    let group = ZeroSeriesVecGroup { v: FixtureCounterVecEmpty };
    let registry = registry_of(&group);
    let mut out = BoundedString::<256>::new();
    Renderer::<4, 256, 16, false>::from_registry(&registry)
        .render_to(&registry, &mut out)
        .unwrap();
    assert_eq!(
        out.as_str(),
        "# HELP zero_requests_by_code Requests by status code.\n\
         # TYPE zero_requests_by_code counter\n"
    );
}

struct RequestsGroup {
    requests: Counter,
}

impl MetricGroup for RequestsGroup {
    fn group_name(&self) -> &'static str {
        "rendered_len_test"
    }
    fn len(&self) -> usize {
        1
    }
    fn get(&self, index: usize) -> Option<MetricDesc<'_>> {
        (index == 0).then_some(MetricDesc {
            namespace: "rendered_len_test",
            name: "requests",
            help: "Total test requests.",
            metric: MetricRef::Counter(&self.requests),
        })
    }
}

#[test]
fn rendered_len_matches_render_for_an_isolated_registry() {
    let mut group = RequestsGroup {
        requests: Counter::new(),
    };
    group.requests.inc_by(9_999);
    let registry = registry_of(&group);

    let mut out = BoundedString::<256>::new();
    Renderer::<1, 256, 16, false>::from_registry(&registry)
        .render_to(&registry, &mut out)
        .unwrap();
    let len = rendered_len_from(
        Renderer::<1, 256, 16, false>::from_registry(&registry),
        &registry,
    )
    .unwrap();

    assert_eq!(len, out.as_str().len());
}

#[test]
fn write_all_and_rendered_len_agree() {
    let mut f = fixture();
    seed_golden_fixture(&mut f);
    let registry = registry_of(&f);
    let mut out = String::new();
    write_all::<1, false, String>(&registry, &mut out).unwrap();
    assert_eq!(out, EXPECTED);
    assert_eq!(rendered_len::<1, false>(&registry), Ok(EXPECTED.len()));
    assert_eq!(rendered_len::<1, true>(&registry), Ok(EXPECTED.len()));
}

struct LiteralBucketGroup {
    payload_bytes: IntHistogram<2>,
}

impl MetricGroup for LiteralBucketGroup {
    fn group_name(&self) -> &'static str {
        ""
    }
    fn len(&self) -> usize {
        1
    }
    fn get(&self, index: usize) -> Option<MetricDesc<'_>> {
        (index == 0).then_some(MetricDesc {
            namespace: "",
            name: "payload_bytes",
            help: "Payload size in bytes.",
            metric: MetricRef::Histogram {
                h: &self.payload_bytes,
            },
        })
    }
}

#[test]
fn histogram_bounds_render_values_instead_of_rust_literal_spelling() {
    let group = LiteralBucketGroup {
        payload_bytes: IntHistogram::new(&[1_000u64, 0x7d0u64]),
    };
    let registry = registry_of(&group);
    let mut out = BoundedString::<512>::new();
    Renderer::<1, 256, 16, false>::from_registry(&registry)
        .render_to(&registry, &mut out)
        .unwrap();

    assert!(out.as_str().contains("payload_bytes_bucket{le=\"1000\"}"));
    assert!(out.as_str().contains("payload_bytes_bucket{le=\"2000\"}"));
    assert!(!out.as_str().contains("1_000u64"));
    assert!(!out.as_str().contains("0x7d0u64"));
}

struct BrokenVec;

impl ErasedCounterVec for BrokenVec {
    fn series_count(&self) -> usize {
        1
    }
    fn write_labels(&self, _s: usize, _out: &mut String) -> Result<(), FormatError> {
        Err(FormatError)
    }
    fn value(&self, _s: usize) -> u64 {
        1
    }
}

struct BrokenGroup {
    v: BrokenVec,
}

impl MetricGroup for BrokenGroup {
    fn group_name(&self) -> &'static str {
        "broken"
    }
    fn len(&self) -> usize {
        2
    }
    fn get(&self, index: usize) -> Option<MetricDesc<'_>> {
        (index == 1).then_some(MetricDesc {
            namespace: "",
            name: "labels",
            help: "line one\nline two \\ \"quoted\"",
            metric: MetricRef::CounterVec(&self.v),
        })
    }
}

#[test]
fn labels_that_cannot_be_formatted_end_the_rendering() {
    let group = BrokenGroup { v: BrokenVec };
    let registry = registry_of(&group);
    let mut renderer = Renderer::<1, 256, 16, false>::from_registry(&registry);
    assert_eq!(
        renderer.next_line(&registry),
        Ok(Some("# HELP labels line one\\nline two \\\\ \"quoted\"\n"))
    );
    assert_eq!(
        renderer.next_line(&registry),
        Ok(Some("# TYPE labels counter\n"))
    );
    assert_eq!(renderer.next_line(&registry), Err(RenderError::Formatting));
    assert_eq!(renderer.next_line(&registry), Err(RenderError::Formatting));
    assert!(!renderer.is_done());
    let mut out = String::new();
    assert_eq!(
        renderer.render_to(&registry, &mut out),
        Err(RenderError::Formatting)
    );
    assert_eq!(out, "");
}

#[test]
fn line_overflow_counts_bytes_and_not_characters() {
    struct Accented;
    impl MetricGroup for Accented {
        fn group_name(&self) -> &'static str {
            ""
        }
        fn len(&self) -> usize {
            1
        }
        fn get(&self, index: usize) -> Option<MetricDesc<'_>> {
            (index == 0).then_some(MetricDesc {
                namespace: "",
                name: "n",
                help: "\u{e9}\u{20ac}\u{1f600}",
                metric: MetricRef::Gauge(Value::I64(0)),
            })
        }
    }
    let line = "# HELP n \u{e9}\u{20ac}\u{1f600}\n";
    assert_eq!(line.len(), 19);
    let group = Accented;
    let registry = registry_of(&group);
    let mut narrow = Renderer::<1, 18, 16, false>::from_registry(&registry);
    assert_eq!(
        narrow.next_line(&registry),
        Err(RenderError::LineTooLong {
            required: 19,
            capacity: 18,
            namespace: "",
            metric: "n",
        })
    );
    let mut wide = Renderer::<1, 19, 16, false>::from_registry(&registry);
    assert_eq!(wide.next_line(&registry), Ok(Some(line)));
}

#[test]
fn failures_say_what_they_are() {
    let too_long = RenderError::LineTooLong {
        required: 300,
        capacity: 256,
        namespace: "wifi",
        metric: "rssi",
    };
    assert_eq!(
        too_long.message(),
        "metric \"wifi_rssi\" requires a 300-byte render line, but the renderer capacity is 256 bytes"
    );
    let bare = RenderError::LineTooLong {
        required: 300,
        capacity: 256,
        namespace: "",
        metric: "rssi",
    };
    assert_eq!(
        bare.message(),
        "metric \"rssi\" requires a 300-byte render line, but the renderer capacity is 256 bytes"
    );
    let buckets = RenderError::HistogramCapacityExceeded {
        required: 20,
        capacity: 16,
        namespace: "wifi",
        metric: "latency",
    };
    assert_eq!(
        buckets.message(),
        "histogram \"wifi_latency\" has 20 finite buckets, but the renderer snapshot capacity is 16"
    );
    let bare = RenderError::HistogramCapacityExceeded {
        required: 20,
        capacity: 16,
        namespace: "",
        metric: "latency",
    };
    assert_eq!(
        bare.message(),
        "histogram \"latency\" has 20 finite buckets, but the renderer snapshot capacity is 16"
    );
    assert_eq!(
        RenderError::Formatting.message(),
        "a metric failed while formatting its render line"
    );
    let mut out = BoundedString::<64>::new();
    RenderError::Sink.fmt(&mut out).unwrap();
    assert_eq!(out.as_str(), "the render output sink rejected a line");
    let mut small = BoundedString::<8>::new();
    assert_eq!(RenderError::Sink.fmt(&mut small), Err(FormatError));
}

#[test]
fn the_content_type_names_the_format_version() {
    assert_eq!(CONTENT_TYPE, "text/plain; version=0.0.4; charset=utf-8");
}

#[test]
fn renderers_with_default_and_chosen_capacities() {
    let mut f = fixture();
    seed_golden_fixture(&mut f);
    let registry = registry_of(&f);
    let mut first = Renderer::<16, 256, 16, false>::new(&registry);
    let mut second = Renderer::<16, 256, 16, true>::with_line_capacity::<512, 1>(&registry);
    let mut third = Renderer::<16, 256, 16, true>::with_capacities::<512, 4, 1>(&registry);
    let mut out = String::new();
    first.render_to(&registry, &mut out).unwrap();
    assert_eq!(out, EXPECTED);
    let mut out = String::new();
    second.render_to(&registry, &mut out).unwrap();
    assert_eq!(out, EXPECTED);
    let mut out = String::new();
    third.render_to(&registry, &mut out).unwrap();
    assert_eq!(out, EXPECTED);
    let mut small = Renderer::<16, 256, 16, true>::with_capacities::<512, 3, 1>(&registry);
    let mut out = String::new();
    assert_eq!(
        small.render_to(&registry, &mut out),
        Err(RenderError::HistogramCapacityExceeded {
            required: 4,
            capacity: 3,
            namespace: "wifi",
            metric: "tx_latency_us",
        })
    );
    assert!(out.ends_with("wifi_disconnects_total{reason=\"auth_fail\"} 1\n"));
}

#[test]
fn rendering_goes_on_after_series_were_added() {
    let mut group = ConsistentVecGroup2 {
        histogram: IntHistogramVec::new(&["kind"], &[10]),
    };
    group.histogram.observe(&["a"], 1);
    let mut renderer = Renderer::<1, 256, 1, true>::from_registry(&registry_of(&group));
    let mut lines = Vec::new();
    for _ in 0..3 {
        lines.push(next(&mut renderer, &group));
    }
    group.histogram.observe(&["b"], 20);
    loop {
        let registry = registry_of(&group);
        match renderer.next_line(&registry).unwrap() {
            Some(line) => lines.push(line.to_string()),
            None => break,
        }
    }
    assert_eq!(
        lines,
        [
            "# HELP n_v h\n",
            "# TYPE n_v histogram\n",
            "n_v_bucket{kind=\"a\",le=\"10\"} 1\n",
            "n_v_bucket{kind=\"a\",le=\"+Inf\"} 1\n",
            "n_v_sum{kind=\"a\"} 1\n",
            "n_v_count{kind=\"a\"} 1\n",
            "n_v_bucket{kind=\"b\",le=\"10\"} 0\n",
            "n_v_bucket{kind=\"b\",le=\"+Inf\"} 1\n",
            "n_v_sum{kind=\"b\"} 20\n",
            "n_v_count{kind=\"b\"} 1\n",
        ]
    );
}

struct ConsistentVecGroup2 {
    histogram: IntHistogramVec<2, 1, 1, 48>,
}

impl MetricGroup for ConsistentVecGroup2 {
    fn group_name(&self) -> &'static str {
        "n"
    }
    fn len(&self) -> usize {
        1
    }
    fn get(&self, index: usize) -> Option<MetricDesc<'_>> {
        (index == 0).then_some(MetricDesc {
            namespace: "n",
            name: "v",
            help: "h",
            metric: MetricRef::HistogramVec { h: &self.histogram },
        })
    }
}

#[test]
fn a_done_renderer_stays_done() {
    let f = fixture();
    let registry = registry_of(&f);
    let mut renderer = Renderer::<1, 256, 16, false>::from_registry(&registry);
    let mut out = String::new();
    assert_eq!(renderer.render_to(&registry, &mut out), Ok(()));
    assert!(renderer.is_done());
    assert_eq!(renderer.next_line(&registry), Ok(None));
    assert_eq!(renderer.next_line(&registry), Ok(None));
    assert!(renderer.is_done());
    assert_eq!(renderer.render_to(&registry, &mut String::new()), Ok(()));
}

#[test]
fn a_sink_of_the_rendered_length_takes_the_whole_render() {
    let mut group = RequestsGroup {
        requests: Counter::new(),
    };
    group.requests.inc();
    let registry = registry_of(&group);
    assert_eq!(rendered_len::<1, false>(&registry), Ok(126));
    let mut out = BoundedString::<126>::new();
    assert_eq!(
        write_all::<1, false, BoundedString<126>>(&registry, &mut out),
        Ok(())
    );
    let mut small = BoundedString::<125>::new();
    assert_eq!(
        write_all::<1, false, BoundedString<125>>(&registry, &mut small),
        Err(RenderError::Sink)
    );
}

#[test]
fn the_length_of_a_render_that_fails_is_its_failure() {
    let group = BrokenGroup { v: BrokenVec };
    let registry = registry_of(&group);
    assert_eq!(
        rendered_len::<1, false>(&registry),
        Err(RenderError::Formatting)
    );
}

#[test]
fn every_line_has_one_break_at_its_end() {
    let mut f = fixture();
    seed_golden_fixture(&mut f);
    let registry = registry_of(&f);
    let mut renderer = Renderer::<1, 256, 16, true>::from_registry(&registry);
    while let Some(line) = renderer.next_line(&registry).unwrap() {
        assert_eq!(line.find('\n'), Some(line.len() - 1));
    }
}

#[test]
fn failures_are_written_piece_by_piece() {
    let too_long = RenderError::LineTooLong {
        required: 300,
        capacity: 256,
        namespace: "wifi",
        metric: "rssi",
    };
    let mut out = BoundedString::<15>::new();
    assert_eq!(too_long.fmt(&mut out), Err(FormatError));
    assert_eq!(out.as_str(), "metric \"wifi_");
}

struct PieceLog {
    pieces: Vec<String>,
    room: usize,
}

impl TextSink for PieceLog {
    fn write_str(&mut self, s: &str) -> Result<(), FormatError> {
        self.pieces.push(s.to_string());
        if self.pieces.len() > self.room {
            return Err(FormatError);
        }
        Ok(())
    }
    fn write_char(&mut self, c: char) -> Result<(), FormatError> {
        self.write_str(&c.to_string())
    }
}

#[test]
fn each_line_is_handed_over_in_one_piece() {
    let f = fixture();
    let registry = registry_of(&f);
    let mut lines = Vec::new();
    let mut renderer = Renderer::<1, 256, 16, false>::from_registry(&registry);
    while let Some(line) = renderer.next_line(&registry).unwrap() {
        lines.push(line.to_string());
    }
    let mut renderer = Renderer::<1, 256, 16, false>::from_registry(&registry);
    let mut log = PieceLog {
        pieces: Vec::new(),
        room: 1000,
    };
    assert_eq!(renderer.render_to(&registry, &mut log), Ok(()));
    assert_eq!(log.pieces, lines);
    assert!(renderer.is_done());
    assert_eq!(renderer.render_to(&registry, &mut log), Ok(()));
    assert_eq!(log.pieces.len(), lines.len());

    let mut renderer = Renderer::<1, 256, 16, false>::from_registry(&registry);
    let mut short = PieceLog {
        pieces: Vec::new(),
        room: 3,
    };
    assert_eq!(
        renderer.render_to(&registry, &mut short),
        Err(RenderError::Sink)
    );
    assert_eq!(
        renderer.render_to(&registry, &mut short),
        Err(RenderError::Sink)
    );
    assert_eq!(short.pieces, lines[..4]);
}

#[test]
fn lines_before_an_oversized_histogram_are_rendered() {
    let f = fixture();
    let registry = registry_of(&f);
    let mut renderer = Renderer::<1, 256, 2, true>::from_registry(&registry);
    let mut all = String::new();
    let error = renderer.render_to(&registry, &mut all).unwrap_err();
    assert!(matches!(
        error,
        RenderError::HistogramCapacityExceeded {
            required: 4,
            capacity: 2,
            ..
        }
    ));
    let mut renderer = Renderer::<1, 256, 16, true>::from_registry(&registry);
    let mut expected = String::new();
    renderer.render_to(&registry, &mut expected).unwrap();
    assert!(expected.starts_with(&all));
    assert_eq!(all.lines().count(), 10);
    assert!(!all.contains("latency"));
}

#[test]
fn a_refusing_sink_is_not_asked_where_nothing_is_rendered() {
    let registry = Registry::<1>::new();
    let mut renderer = Renderer::<1, 256, 16, false>::from_registry(&registry);
    assert_eq!(renderer.render_to(&registry, &mut Reject), Ok(()));
    assert!(renderer.is_done());
    assert_eq!(write_all::<1, false, _>(&registry, &mut Reject), Ok(()));
}

struct LabeledHistogramGroup<const B: usize> {
    latency: IntHistogramVec<2, B, 1, 48>,
}

impl<const B: usize> MetricGroup for LabeledHistogramGroup<B> {
    fn group_name(&self) -> &'static str {
        "app"
    }
    fn len(&self) -> usize {
        1
    }
    fn get(&self, _index: usize) -> Option<MetricDesc<'_>> {
        Some(MetricDesc {
            namespace: "app",
            name: "latency",
            help: "Latency.",
            metric: MetricRef::HistogramVec { h: &self.latency },
        })
    }
}

static PEER_LABEL: [&str; 1] = ["peer"];

#[test]
fn labeled_histogram_lines_count_the_observations_of_their_series() {
    let mut group = LabeledHistogramGroup::<2> {
        latency: IntHistogramVec::new(&PEER_LABEL, &[10, 20]),
    };
    for v in [5, 10, 15, 99] {
        group.latency.observe(&["a"], v);
    }
    group.latency.observe(&["b"], 20);
    let registry = registry_of(&group);
    let mut out = String::new();
    write_all::<1, true, _>(&registry, &mut out).unwrap();
    assert_eq!(
        out,
        "# HELP app_latency Latency.\n\
         # TYPE app_latency histogram\n\
         app_latency_bucket{peer=\"a\",le=\"10\"} 2\n\
         app_latency_bucket{peer=\"a\",le=\"20\"} 3\n\
         app_latency_bucket{peer=\"a\",le=\"+Inf\"} 4\n\
         app_latency_sum{peer=\"a\"} 129\n\
         app_latency_count{peer=\"a\"} 4\n\
         app_latency_bucket{peer=\"b\",le=\"10\"} 0\n\
         app_latency_bucket{peer=\"b\",le=\"20\"} 1\n\
         app_latency_bucket{peer=\"b\",le=\"+Inf\"} 1\n\
         app_latency_sum{peer=\"b\"} 20\n\
         app_latency_count{peer=\"b\"} 1\n"
    );
}

#[test]
fn a_renderer_notices_that_its_metric_was_replaced() {
    let mut group = LabeledHistogramGroup::<1> {
        latency: IntHistogramVec::new(&PEER_LABEL, &[10]),
    };
    group.latency.observe(&["a"], 5);
    let mut renderer = {
        let registry = registry_of(&group);
        let mut renderer = Renderer::<1, 256, 16, false>::from_registry(&registry);
        for _ in 0..3 {
            assert!(renderer.is_ready_for(&registry));
            assert!(renderer.next_line(&registry).unwrap().is_some());
        }
        renderer
    };
    group.latency.observe(&["a"], 15);
    {
        let registry = registry_of(&group);
        assert!(renderer.is_ready_for(&registry));
        assert!(renderer.next_line(&registry).unwrap().is_some());
    }
    group.latency = IntHistogramVec::new(&PEER_LABEL, &[10]);
    assert!(!renderer.is_ready_for(&registry_of(&group)));
    assert!(!renderer.is_ready_for(&Registry::<1>::new()));
}

#[test]
fn updates_between_lines_leave_their_order() {
    let mut f = fixture();
    let mut order = Vec::new();
    let mut renderer = Renderer::<1, 256, 16, false>::from_registry(&registry_of(&f));
    loop {
        f.requests.inc();
        f.latency.observe(1);
        let registry = registry_of(&f);
        match renderer.next_line(&registry).unwrap() {
            Some(line) => order.push(line.rsplit_once(' ').unwrap().0.to_string()),
            None => break,
        }
    }
    let registry = registry_of(&f);
    let mut all = String::new();
    write_all::<1, false, _>(&registry, &mut all).unwrap();
    let still: Vec<String> = all
        .lines()
        .map(|line| line.rsplit_once(' ').unwrap().0.to_string())
        .collect();
    assert_eq!(order, still);
}
