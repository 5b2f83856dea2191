//! The metric group of a small demo firmware.

use vstd::prelude::*;
use crate::config::LABEL_VALUE_LEN;
use crate::config::MAX_HISTOGRAM_BUCKETS;
use crate::counter::Counter;
use crate::erased::DescModel;
use crate::erased::ErasedCounterVec;
use crate::erased::ErasedHistogram;
use crate::erased::GroupModel;
use crate::erased::MetricDesc;
use crate::erased::MetricGroup;
use crate::erased::MetricModel;
use crate::erased::MetricRef;
use crate::escape;
use crate::exposition;
use crate::exposition::Limits;
use crate::gauge::Gauge;
use crate::histogram::IntHistogram;
use crate::names;
use crate::series;
use crate::step;
use crate::text;
use crate::transcript;
use crate::value::Value;
use crate::vec::CounterVec;

verus! {

/// The metrics of the demo.
pub struct Metrics {
    /// Total packets transmitted.
    pub packets_sent: Counter,
    /// Last measured RSSI in dBm.
    pub rssi_dbm: Gauge,
    /// Disconnects, by reason.
    pub disconnects_total: CounterVec<4, 1, LABEL_VALUE_LEN>,
    /// TX completion latency in microseconds.
    pub tx_latency_us: IntHistogram<4>,
}

impl Metrics {
    /// The labels and the bounds are valid.
    pub open spec fn wf(&self) -> bool {
        &&& self.disconnects_total.wf()
        &&& self.tx_latency_us.wf()
    }

    /// Create a new, empty metrics group.
    pub fn new() -> (m: Self)
        ensures
            m.wf(),
            m.packets_sent@ == 0,
            m.rssi_dbm@ == 0,
            m.disconnects_total.names_held() == seq!["reason"@],
            m.disconnects_total@.len() == 0,
            m.tx_latency_us.bounds_held() == seq![100u64, 500, 1000, 5000],
            m.tx_latency_us@ == series::IntReading::zero(4),
    {
        let labels: &'static [&'static str; 1] = &["reason"];
        let bounds: &'static [u64; 4] = &[100, 500, 1000, 5000];
        proof {
            let held = text::strs_view(labels@);
            reveal_strlit("reason");
            assert(held =~= seq!["reason"@]);
            assert(escape::label_name_ok("reason"@));
            assert(held.take(0) =~= Seq::<Seq<char>>::empty());
            assert(names::name_fault(held, false, 0) is None);
            assert(names::names_fault_from(held, false, 1) is None);
            assert(bounds@ =~= seq![100u64, 500, 1000, 5000]);
        }
        Metrics {
            packets_sent: Counter::new(),
            rssi_dbm: Gauge::new(0),
            disconnects_total: CounterVec::new(labels),
            tx_latency_us: IntHistogram::new(bounds),
        }
    }
}

/// The exposition of the demo's metrics is what rendering it gives, as long as
/// its lines fit: its metrics are valid, and none of its histograms has more
/// buckets than the default capacity.
pub proof fn law_demo_renders(m: Metrics, line: nat, coherent: bool)
    requires
        m.wf(),
    ensures
        ({
            let groups = seq![m.group_model()];
            let limits = Limits { line, buckets: MAX_HISTOGRAM_BUCKETS as nat, coherent };
            let lines = transcript::exposition_lines(groups, limits);
            let all = exposition::drained(groups, exposition::start(limits.buckets), limits);
            &&& all.lines == transcript::printed(lines)
            &&& all.end is Ok <==> transcript::printable_lines(lines) == lines.len()
            &&& all.end matches Err(failure) ==> failure is LineTooLong || failure is Formatting
        }),
{
    let groups = seq![m.group_model()];
    let limits = Limits { line, buckets: MAX_HISTOGRAM_BUCKETS as nat, coherent };
    m.disconnects_total.law_model_is_valid();
    m.tx_latency_us.law_model_is_valid();
    assert forall|g: nat, i: nat|
        (#[trigger] exposition::desc_at(groups, g, i)) is Some implies {
        let metric = exposition::desc_at(groups, g, i)->Some_0.metric;
        &&& transcript::metric_valid(metric)
        &&& step::bucket_total(metric) matches Some(n) ==> n <= limits.buckets
    } by {
        assert(g == 0);
        assert(i == 0 || i == 1 || i == 2 || i == 3);
    }
    transcript::law_rendering_gives_the_exposition(groups, limits);
    transcript::law_small_histograms_are_not_refused(
        groups,
        exposition::start(limits.buckets),
        limits,
    );
}

impl MetricGroup for Metrics {
    open spec fn name_model(&self) -> Seq<char> {
        "demo"@
    }

    open spec fn group_model(&self) -> GroupModel {
        seq![
            Some(
                DescModel {
                    namespace: "demo"@,
                    name: "packets_sent"@,
                    help: "Total packets transmitted."@,
                    metric: MetricModel::Counter(self.packets_sent@),
                },
            ),
            Some(
                DescModel {
                    namespace: "demo"@,
                    name: "rssi_dbm"@,
                    help: "Last measured RSSI in dBm."@,
                    metric: MetricModel::Gauge(Value::I64(self.rssi_dbm@)),
                },
            ),
            Some(
                DescModel {
                    namespace: "demo"@,
                    name: "disconnects_total"@,
                    help: "Disconnects, by reason."@,
                    metric: MetricModel::CounterVec(self.disconnects_total.series_model()),
                },
            ),
            Some(
                DescModel {
                    namespace: "demo"@,
                    name: "tx_latency_us"@,
                    help: "TX completion latency in microseconds."@,
                    metric: MetricModel::Histogram(self.tx_latency_us.hist_model()),
                },
            ),
        ]
    }

    fn group_name(&self) -> (s: &'static str) {
        "demo"
    }

    fn len(&self) -> (n: usize) {
        4
    }

    fn get(&self, index: usize) -> (d: Option<MetricDesc<'_>>) {
        if index == 0 {
            Some(
                MetricDesc {
                    namespace: "demo",
                    name: "packets_sent",
                    help: "Total packets transmitted.",
                    metric: MetricRef::Counter(&self.packets_sent),
                },
            )
        } else if index == 1 {
            Some(
                MetricDesc {
                    namespace: "demo",
                    name: "rssi_dbm",
                    help: "Last measured RSSI in dBm.",
                    metric: MetricRef::Gauge(Value::I64(self.rssi_dbm.get())),
                },
            )
        } else if index == 2 {
            Some(
                MetricDesc {
                    namespace: "demo",
                    name: "disconnects_total",
                    help: "Disconnects, by reason.",
                    metric: MetricRef::CounterVec(&self.disconnects_total),
                },
            )
        } else if index == 3 {
            Some(
                MetricDesc {
                    namespace: "demo",
                    name: "tx_latency_us",
                    help: "TX completion latency in microseconds.",
                    metric: MetricRef::Histogram { h: &self.tx_latency_us },
                },
            )
        } else {
            None
        }
    }
}

impl Default for Metrics {
    fn default() -> (m: Self)
        ensures
            m.wf(),
            m.packets_sent@ == 0,
            m.rssi_dbm@ == 0,
            m.disconnects_total.names_held() == seq!["reason"@],
            m.disconnects_total@.len() == 0,
            m.tx_latency_us.bounds_held() == seq![100u64, 500, 1000, 5000],
            m.tx_latency_us@ == series::IntReading::zero(4),
    {
        Metrics::new()
    }
}

/// A new demo has counted and measured nothing, and hands out four metrics under
/// the name of their group, each with its own help and its own state.
pub proof fn law_demo_describes_its_metrics<'a>(m: &'a Metrics)
    ensures
        forall|new: Metrics| #[trigger]
            call_ensures(Metrics::new, (), new) ==> {
                &&& new.packets_sent@ == 0
                &&& new.rssi_dbm@ == 0
                &&& new.disconnects_total@.len() == 0
                &&& new.disconnects_total.names_held() == seq!["reason"@]
                &&& new.tx_latency_us.bounds_held() == seq![100u64, 500, 1000, 5000]
                &&& new.tx_latency_us@.count == 0
                &&& new.tx_latency_us@.sum == 0
            },
        forall|n: usize| #[trigger] call_ensures(Metrics::len, (m,), n) ==> n == 4,
        forall|s: &'static str| #[trigger]
            call_ensures(Metrics::group_name, (m,), s) ==> s@ == "demo"@,
        forall|i: usize, d: Option<MetricDesc<'a>>| #[trigger]
            call_ensures(Metrics::get, (m, i), d) ==> {
                &&& d is Some <==> i < 4
                &&& d is Some ==> d->Some_0.namespace@ == "demo"@
                &&& i == 0 ==> {
                    &&& d->Some_0.name@ == "packets_sent"@
                    &&& d->Some_0.help@ == "Total packets transmitted."@
                    &&& d->Some_0.metric.model() == MetricModel::Counter(m.packets_sent@)
                }
                &&& i == 1 ==> {
                    &&& d->Some_0.name@ == "rssi_dbm"@
                    &&& d->Some_0.help@ == "Last measured RSSI in dBm."@
                    &&& d->Some_0.metric.model() == MetricModel::Gauge(Value::I64(m.rssi_dbm@))
                }
                &&& i == 2 ==> {
                    &&& d->Some_0.name@ == "disconnects_total"@
                    &&& d->Some_0.help@ == "Disconnects, by reason."@
                    &&& d->Some_0.metric.model() == MetricModel::CounterVec(
                        m.disconnects_total.series_model(),
                    )
                }
                &&& i == 3 ==> {
                    &&& d->Some_0.name@ == "tx_latency_us"@
                    &&& d->Some_0.help@ == "TX completion latency in microseconds."@
                    &&& d->Some_0.metric.model() == MetricModel::Histogram(
                        m.tx_latency_us.hist_model(),
                    )
                }
            },
{
}

} // verus!
