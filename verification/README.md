# embeprom

Prometheus metrics for small devices, written in Verus: counters, gauges and
integer histograms, labeled collections of them with a declared maximum
cardinality, and a renderer that turns registered metric groups into the
Prometheus text exposition format one line at a time. Lines, histogram
snapshots, label blocks and series are held in storage of fixed size; the
renderer takes memory from the allocator only for the label block of a labeled
line and for the text of a failure.

## Layout

- `src/` is the library. Every function has a contract that Verus proves; the
  few that call `heapless`, `portable-atomic`, `critical-section` or the
  standard library behind a trusted contract say so in their documentation.
- `tests/` runs the library with the real outside crates.
- `app/` is ordinary Rust around the library: metric groups in statics, their
  registration, the `metrics!` macro, floating-point metrics and `core::fmt`
  sinks.

## How it is used

A metric is a value that its owner updates through `&mut`, so that what it
holds is known before and after. A group implements `MetricGroup`, which hands
out its metrics by index:

```rust
let mut metrics = embeprom::demo::Metrics::new();
metrics.packets_sent.inc();
metrics.disconnects_total.inc(&["timeout"]);

let mut registry = embeprom::Registry::<1>::new();
registry.register(embeprom::GroupRef { id: 1, group: &metrics }).unwrap();
let mut renderer = embeprom::Renderer::<16, 256, 16, true>::new(&registry);
while let Some(line) = renderer.next_line(&registry).unwrap() {
    print!("{line}");
}
```

The number beside a group tells it from others, so that a group is listed once;
for groups in statics `app/` takes their addresses. The registry is handed to
the renderer for each line, so metrics can change between one line and the next.
The last argument of `Renderer` chooses whether each histogram is shown by one
coherent snapshot.

A handle to a labeled series borrows its collection. To update a series often,
keep its index, which never changes, and ask for a handle by index:

```rust
let mut lost = embeprom::CounterVec::<4, 1, 32>::new(&["reason"]);
if let Some(timeout) = lost.index_of(&["timeout"]) {
    lost.at(timeout).inc();
}
```

## What is proved

The contract of `Renderer::next_line` says exactly which line, which failure or
which end comes next. `transcript::law_rendering_gives_the_exposition` says that
rendering groups that stay as they are gives all lines of all metrics in order,
up to the first line that cannot be rendered, and
`transcript::law_lines_come_in_order` that the order is the same while metrics
are updated between lines. The contract of `Renderer::render_to` holds for any
sink: it is handed the lines one by one up to the first that it refuses. The
laws in `sink` say what that makes of a bounded string. The laws in `escape`,
`labels`, `slots`, `series` and `format_laws` say that label values can be read
back from what is rendered, that series stay apart and in place, that histogram
lines count observations, and that every line is one line.
