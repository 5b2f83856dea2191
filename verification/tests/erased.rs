use embeprom::counter::Counter;
use embeprom::erased::snapshot_bucket_prefix;
use embeprom::erased::HistogramSnapshotError;
use embeprom::erased::MetricDesc;
use embeprom::erased::MetricGroup;
use embeprom::erased::MetricRef;
use embeprom::gauge::Gauge;
use embeprom::value::Value;

struct Fixture {
    requests: Counter,
    temperature: Gauge,
}

impl MetricGroup for Fixture {
    fn group_name(&self) -> &'static str {
        "fixture"
    }
    fn len(&self) -> usize {
        2
    }
    fn get(&self, index: usize) -> Option<MetricDesc<'_>> {
        match index {
            0 => Some(MetricDesc {
                namespace: "fixture",
                name: "requests",
                help: "Total requests.",
                metric: MetricRef::Counter(&self.requests),
            }),
            1 => Some(MetricDesc {
                namespace: "fixture",
                name: "temperature",
                help: "Current temperature.",
                metric: MetricRef::Gauge(Value::I64(self.temperature.get())),
            }),
            _ => None,
        }
    }
}

#[test]
fn dynamic_dispatch_over_metric_group() {
    let mut g = Fixture {
        requests: Counter::new(),
        temperature: Gauge::new(0),
    };
    g.temperature.set(21);
    g.requests.inc_by(3);

    let group: &dyn MetricGroup = &g;
    assert_eq!(group.len(), 2);
    assert!(!group.is_empty());

    let d0 = group.get(0).unwrap();
    assert_eq!(d0.name, "requests");
    match d0.metric {
        MetricRef::Counter(c) => assert_eq!(c.get(), 3),
        _ => panic!("expected Counter"),
    }

    let d1 = group.get(1).unwrap();
    match d1.metric {
        MetricRef::Gauge(Value::I64(v)) => assert_eq!(v, 21),
        _ => panic!("expected Gauge(I64)"),
    }

    assert!(group.get(2).is_none());
}

#[test]
fn a_bucket_prefix_is_the_beginning_of_the_buffer() {
    let mut buffer = [1u64, 2, 3];
    let prefix = snapshot_bucket_prefix(&mut buffer, 2).unwrap();
    assert_eq!(prefix, &[1, 2]);
    prefix[0] = 9;
    assert_eq!(buffer, [9, 2, 3]);
    assert_eq!(
        snapshot_bucket_prefix(&mut buffer, 4),
        Err(HistogramSnapshotError {
            required: 4,
            capacity: 3,
        })
    );
}
