//! Prometheus metrics for small devices, with storage of fixed capacity.
//!
//! Metrics are plain values that their owner updates: [`Counter`], [`Gauge`]
//! and [`IntHistogram`], and the labeled collections [`CounterVec`],
//! [`GaugeVec`] and [`IntHistogramVec`], which track at most a declared number
//! of label-value combinations. A [`MetricGroup`] names the metrics of one
//! part of a program, a [`Registry`] lists groups, and a [`Renderer`] turns
//! them into the Prometheus text exposition format one line at a time.
//!
//! The modules are laid out from the ground up:
//!
//! - `text`, `bounded`, `sink`: text, storage of fixed capacity, and sinks;
//! - `escape`, `labels`, `names`: names and label blocks;
//! - `atomic`, `array`, `critical`: the outside functions that hold values;
//! - `counter`, `gauge`, `series`, `histogram`, `slots`, `vec`, `float`: the
//!   metrics;
//! - `value`, `erased`, `registry`: metrics as a renderer sees them;
//! - `step`, `exposition`, `line`, `scratch`, `render`: rendering;
//! - `transcript`, `format_laws`, `line_laws`, `order_laws`, `render_laws`: what
//!   holds of lines, of their order and of rendering as a whole;
//! - `collection_laws`: what holds of collections and their handles;
//! - `config`, `demo`: default capacities, and an example.

pub mod array;
pub mod atomic;
pub mod bounded;
pub mod collection_laws;
pub mod config;
pub mod counter;
pub mod critical;
pub mod demo;
pub mod erased;
pub mod escape;
pub mod exposition;
pub mod float;
pub mod format_laws;
pub mod gauge;
pub mod histogram;
pub mod labels;
pub mod line;
pub mod line_laws;
pub mod names;
pub mod order_laws;
pub mod registry;
pub mod render;
pub mod render_laws;
pub mod scratch;
pub mod series;
pub mod sink;
pub mod slots;
pub mod step;
pub mod text;
pub mod transcript;
pub mod value;
pub mod vec;

pub use crate::config::LABEL_VALUE_LEN;
pub use crate::config::MAX_GROUPS;
pub use crate::config::MAX_HISTOGRAM_BUCKETS;
pub use crate::config::MAX_LINE;
pub use crate::counter::Counter;
pub use crate::erased::ErasedCounterVec;
pub use crate::erased::ErasedGaugeVec;
pub use crate::erased::ErasedHistogram;
pub use crate::erased::ErasedHistogramVec;
pub use crate::erased::HistogramSnapshot;
pub use crate::erased::HistogramSnapshotError;
pub use crate::erased::MetricDesc;
pub use crate::erased::MetricGroup;
pub use crate::erased::MetricRef;
pub use crate::escape::valid_label_name;
pub use crate::escape::valid_metric_name;
pub use crate::gauge::Gauge;
pub use crate::histogram::IntHistogram;
pub use crate::registry::GroupRef;
pub use crate::registry::Registry;
pub use crate::render::rendered_len;
pub use crate::render::write_all;
pub use crate::render::RenderError;
pub use crate::render::Renderer;
pub use crate::render::CONTENT_TYPE;
pub use crate::series::IntHistSeries;
pub use crate::value::Value;
pub use crate::vec::CounterSeries;
pub use crate::vec::CounterVec;
pub use crate::vec::GaugeSeries;
pub use crate::vec::GaugeVec;
pub use crate::vec::IntHistogramVec;
