use embeprom::demo::Metrics;
use embeprom::GroupRef;
use embeprom::MetricGroup;
use embeprom::Registry;
use embeprom::Renderer;

#[test]
fn the_demo_renders_what_it_recorded() {
    let mut metrics = Metrics::new();
    metrics.packets_sent.inc();
    metrics.rssi_dbm.set(-42);
    metrics.disconnects_total.inc(&["timeout"]);
    metrics.tx_latency_us.observe(120);
    assert_eq!(metrics.group_name(), "demo");
    assert_eq!(metrics.len(), 4);
    assert!(metrics.get(4).is_none());

    let mut registry = Registry::<1>::new();
    registry.register(GroupRef { id: 1, group: &metrics }).unwrap();
    let mut renderer = Renderer::<16, 256, 16, true>::new(&registry);
    let mut total = 0usize;
    let mut text = String::new();
    while let Some(line) = renderer.next_line(&registry).expect("increase Renderer capacities") {
        total += line.len();
        text.push_str(line);
    }
    assert_eq!(total, text.len());
    assert_eq!(
        text,
        "# HELP demo_packets_sent Total packets transmitted.\n\
         # TYPE demo_packets_sent counter\n\
         demo_packets_sent 1\n\
         # HELP demo_rssi_dbm Last measured RSSI in dBm.\n\
         # TYPE demo_rssi_dbm gauge\n\
         demo_rssi_dbm -42\n\
         # HELP demo_disconnects_total Disconnects, by reason.\n\
         # TYPE demo_disconnects_total counter\n\
         demo_disconnects_total{reason=\"timeout\"} 1\n\
         # HELP demo_tx_latency_us TX completion latency in microseconds.\n\
         # TYPE demo_tx_latency_us histogram\n\
         demo_tx_latency_us_bucket{le=\"100\"} 0\n\
         demo_tx_latency_us_bucket{le=\"500\"} 1\n\
         demo_tx_latency_us_bucket{le=\"1000\"} 1\n\
         demo_tx_latency_us_bucket{le=\"5000\"} 1\n\
         demo_tx_latency_us_bucket{le=\"+Inf\"} 1\n\
         demo_tx_latency_us_sum 120\n\
         demo_tx_latency_us_count 1\n"
    );
    assert!(Metrics::default().disconnects_total.series_count() == 0);
}

#[test]
fn a_group_can_be_registered_with_several_registries() {
    let mut metrics = Metrics::new();
    metrics.packets_sent.inc();
    let mut a = Registry::<1>::new();
    let mut b = Registry::<1>::new();
    assert!(a.is_empty());
    assert!(b.is_empty());
    a.register(GroupRef { id: 1, group: &metrics }).unwrap();
    b.register(GroupRef { id: 1, group: &metrics }).unwrap();
    assert_eq!(a.len(), 1);
    assert_eq!(b.len(), 1);
    assert_eq!(metrics.packets_sent.get(), 1);
}
