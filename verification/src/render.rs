//! Rendering registered metrics into Prometheus text-exposition format.
//!
//! [`Renderer`] is a pull-based cursor: nothing here calls into an async
//! writer, and the caller drives it with [`Renderer::next_line`], awaiting
//! between lines as needed to bridge to an async sink such as a chunked
//! response.

use vstd::prelude::*;
use vstd::string::StringExecFns;
use crate::config::MAX_GROUPS;
use crate::config::MAX_HISTOGRAM_BUCKETS;
use crate::config::MAX_LINE;
use crate::erased::GroupModel;
use crate::erased::HistogramSnapshotError;
use crate::erased::MetricDesc;
use crate::erased::MetricRef;
use crate::exposition;
use crate::exposition::Cursor;
use crate::exposition::Drained;
use crate::exposition::Failure;
use crate::exposition::Limits;
use crate::exposition::Outcome;
use crate::line::LineBuffer;
use crate::registry::Registry;
use crate::scratch::HistogramScratch;
use crate::sink;
use crate::sink::ByteCount;
use crate::sink::FormatError;
use crate::sink::TextSink;
use crate::step;
use crate::step::Step;
use crate::text;

verus! {

/// The `Content-Type` value for Prometheus text exposition format.
pub const CONTENT_TYPE: &'static str = "text/plain; version=0.0.4; charset=utf-8";

/// A failure while producing or writing Prometheus exposition text.
#[derive(Debug, Clone, Copy, PartialEq, Eq)]
pub enum RenderError {
    /// One complete line did not fit in the renderer's line buffer.
    LineTooLong {
        /// Exact number of bytes required for the line.
        required: usize,
        /// Configured line-buffer capacity.
        capacity: usize,
        /// Namespace of the metric whose line did not fit.
        namespace: &'static str,
        /// Name of the metric whose line did not fit.
        metric: &'static str,
    },
    /// A histogram has more finite buckets than the renderer can snapshot
    /// while it shows histograms by coherent snapshots.
    HistogramCapacityExceeded {
        /// Number of finite buckets declared by the histogram.
        required: usize,
        /// Configured histogram snapshot capacity.
        capacity: usize,
        /// Namespace of the histogram.
        namespace: &'static str,
        /// Name of the histogram.
        metric: &'static str,
    },
    /// A type-erased metric implementation failed while formatting its data.
    Formatting,
    /// The sink passed to [`Renderer::render_to`] failed.
    Sink,
}

impl View for RenderError {
    type V = Failure;

    open spec fn view(&self) -> Failure {
        match *self {
            RenderError::LineTooLong { required, capacity, namespace, metric } =>
                Failure::LineTooLong {
                    required,
                    capacity,
                    namespace: namespace@,
                    metric: metric@,
                },
            RenderError::HistogramCapacityExceeded { required, capacity, namespace, metric } =>
                Failure::HistogramCapacityExceeded {
                    required,
                    capacity,
                    namespace: namespace@,
                    metric: metric@,
                },
            RenderError::Formatting => Failure::Formatting,
            RenderError::Sink => Failure::Sink,
        }
    }
}

/// The pieces of a metric's name, with its namespace if there is one.
pub open spec fn name_pieces(namespace: Seq<char>, metric: Seq<char>) -> Seq<Seq<char>> {
    if namespace.len() > 0 {
        seq![namespace, "_"@, metric]
    } else {
        seq![metric]
    }
}

/// What a failure is called, piece by piece.
pub open spec fn failure_pieces(failure: Failure) -> Seq<Seq<char>> {
    match failure {
        Failure::LineTooLong { required, capacity, namespace, metric } => seq!["metric \""@]
            + name_pieces(namespace, metric) + seq![
            "\" requires a "@,
            text::decimal(required as nat),
            "-byte render line, but the renderer capacity is "@,
            text::decimal(capacity as nat),
            " bytes"@,
        ],
        Failure::HistogramCapacityExceeded { required, capacity, namespace, metric } => seq![
            "histogram \""@,
        ] + name_pieces(namespace, metric) + seq![
            "\" has "@,
            text::decimal(required as nat),
            " finite buckets, but the renderer snapshot capacity is "@,
            text::decimal(capacity as nat),
        ],
        Failure::Formatting => seq!["a metric failed while formatting its render line"@],
        Failure::Sink => seq!["the render output sink rejected a line"@],
    }
}

/// What a failure is called.
pub open spec fn failure_text(failure: Failure) -> Seq<char> {
    text::joined(failure_pieces(failure))
}

/// Add `s` behind the pieces.
fn push_piece(pieces: &mut Vec<String>, s: &str)
    ensures
        text::strings_view(final(pieces)@) == text::strings_view(old(pieces)@).push(s@),
{
    let mut piece = String::new();
    piece.append(s);
    assert(piece@ =~= s@);
    pieces.push(piece);
    assert(text::strings_view(pieces@) =~= text::strings_view(old(pieces)@).push(s@));
}

/// Add a metric's name behind the pieces, with its namespace if there is one.
fn push_name(pieces: &mut Vec<String>, namespace: &str, metric: &str)
    ensures
        text::strings_view(final(pieces)@) == text::strings_view(old(pieces)@) + name_pieces(
            namespace@,
            metric@,
        ),
{
    if !namespace.is_empty() {
        push_piece(pieces, namespace);
        push_piece(pieces, "_");
    }
    push_piece(pieces, metric);
    assert(text::strings_view(pieces@) =~= text::strings_view(old(pieces)@) + name_pieces(
        namespace@,
        metric@,
    ));
}

/// Add `n` in decimal behind the pieces.
fn push_decimal(pieces: &mut Vec<String>, n: usize)
    ensures
        text::strings_view(final(pieces)@) == text::strings_view(old(pieces)@).push(
            text::decimal(n as nat),
        ),
{
    let mut digits = String::new();
    let ghost empty = digits;
    let r = sink::write_u64(&mut digits, n as u64);
    proof {
        sink::lemma_number_pieces(n as int);
        sink::law_strings_take_everything(empty, digits, sink::number_pieces(n as int), r);
        assert(digits@ =~= text::decimal(n as nat));
    }
    push_piece(pieces, digits.as_str());
}

impl RenderError {
    /// What the failure is called, piece by piece.
    fn pieces(&self) -> (pieces: Vec<String>)
        ensures
            text::strings_view(pieces@) == failure_pieces(self@),
    {
        let mut pieces: Vec<String> = Vec::new();
        assert(text::strings_view(pieces@) =~= Seq::<Seq<char>>::empty());
        match self {
            RenderError::LineTooLong { required, capacity, namespace, metric } => {
                push_piece(&mut pieces, "metric \"");
                push_name(&mut pieces, namespace, metric);
                push_piece(&mut pieces, "\" requires a ");
                push_decimal(&mut pieces, *required);
                push_piece(&mut pieces, "-byte render line, but the renderer capacity is ");
                push_decimal(&mut pieces, *capacity);
                push_piece(&mut pieces, " bytes");
            },
            RenderError::HistogramCapacityExceeded { required, capacity, namespace, metric } => {
                push_piece(&mut pieces, "histogram \"");
                push_name(&mut pieces, namespace, metric);
                push_piece(&mut pieces, "\" has ");
                push_decimal(&mut pieces, *required);
                push_piece(&mut pieces, " finite buckets, but the renderer snapshot capacity is ");
                push_decimal(&mut pieces, *capacity);
            },
            RenderError::Formatting => {
                push_piece(&mut pieces, "a metric failed while formatting its render line");
            },
            RenderError::Sink => {
                push_piece(&mut pieces, "the render output sink rejected a line");
            },
        }
        assert(text::strings_view(pieces@) =~= failure_pieces(self@));
        pieces
    }

    /// What the failure is called.
    pub fn message(&self) -> (s: String)
        ensures
            s@ == failure_text(self@),
    {
        let mut out = String::new();
        let ghost empty = out;
        let r = self.fmt(&mut out);
        proof {
            sink::law_strings_take_everything(empty, out, failure_pieces(self@), r);
        }
        assert(out@ =~= failure_text(self@));
        out
    }

    /// Write what the failure is called.
    pub fn fmt<W: TextSink>(&self, f: &mut W) -> (r: Result<(), FormatError>)
        requires
            old(f).wf(),
        ensures
            sink::wrote(*old(f), *final(f), failure_pieces(self@), r),
    {
        let pieces = self.pieces();
        sink::put_all(f, &pieces)
    }
}

/// The word for a metric's type.
fn type_word(m: &MetricRef<'_>) -> (word: &'static str)
    ensures
        word@ == exposition::type_word(m.model()),
{
    match m {
        MetricRef::Counter(_) => "counter",
        MetricRef::CounterVec(_) => "counter",
        MetricRef::Gauge(_) => "gauge",
        MetricRef::GaugeVec(_) => "gauge",
        MetricRef::Histogram { h: _ } => "histogram",
        MetricRef::HistogramVec { h: _ } => "histogram",
    }
}

/// Write a metric's name with its namespace before it and `suffix` behind it.
fn write_full_name<const L: usize>(
    line: &mut LineBuffer<L>,
    desc: &MetricDesc<'_>,
    suffix: &str,
)
    requires
        old(line).wf(),
    ensures
        final(line).wf(),
        final(line).written() == old(line).written() + exposition::full_name(
            desc.model(),
            suffix@,
        ),
{
    let ghost start = line.written();
    if !desc.namespace.is_empty() {
        line.put_str(desc.namespace);
        line.put_char('_');
    }
    line.put_str(desc.name);
    line.put_str(suffix);
    assert(line.written() =~= start + exposition::full_name(desc.model(), suffix@));
}

/// Write the label block of series `i` of a labeled metric.
fn write_labels<const L: usize>(
    line: &mut LineBuffer<L>,
    metric: &MetricRef<'_>,
    i: usize,
) -> (r: Result<(), FormatError>)
    requires
        old(line).wf(),
        i < step::series_total(metric.model()) || step::hist_part(metric.model(), Some(i)),
    ensures
        final(line).wf(),
        r is Ok <==> exposition::series_labels(metric.model(), i as int) is Some,
        r is Ok ==> final(line).written() == old(line).written() + exposition::series_labels(
            metric.model(),
            i as int,
        )->Some_0,
{
    let mut block = String::new();
    let ghost empty = block@;
    let r = match metric {
        MetricRef::CounterVec(cv) => cv.write_labels(i, &mut block),
        MetricRef::GaugeVec(gv) => gv.write_labels(i, &mut block),
        MetricRef::HistogramVec { h } => h.write_labels(i, &mut block),
        _ => Err(FormatError),
    };
    if r.is_ok() {
        proof {
            let labels = exposition::series_labels(metric.model(), i as int)->Some_0;
            assert(empty + labels =~= labels);
        }
        line.put_str(block.as_str());
    }
    r
}

/// Write what stands before the `le` label of a bucket of a histogram, or of
/// its series `s`.
fn write_bucket_head<const L: usize>(
    line: &mut LineBuffer<L>,
    desc: &MetricDesc<'_>,
    s: Option<usize>,
) -> (r: Result<(), FormatError>)
    requires
        old(line).wf(),
        old(line).written() == Seq::<char>::empty(),
        step::hist_part(desc.model().metric, s),
    ensures
        final(line).wf(),
        r is Ok <==> exposition::hist_printable(desc.model().metric, s),
        r is Ok ==> final(line).written() == exposition::bucket_head(
            desc.model(),
            exposition::hist_labels(desc.model().metric, s),
        ),
{
    write_full_name(line, desc, "_bucket");
    line.put_char('{');
    if let Some(i) = s {
        write_labels(line, &desc.metric, i)?;
        line.put_char(',');
    }
    proof {
        let name = exposition::full_name(desc.model(), "_bucket"@);
        assert(Seq::<char>::empty() + name =~= name);
    }
    Ok(())
}

/// Render finite bucket `b` of a histogram, or of its series `s`, and add its
/// count to the rolling total.
fn render_bucket<const L: usize, const H: usize, const C: bool>(
    line: &mut LineBuffer<L>,
    desc: &MetricDesc<'_>,
    snapshot: &HistogramScratch<H, C>,
    histogram_cumulative: &mut u64,
    s: Option<usize>,
    b: usize,
) -> (r: Result<(), FormatError>)
    requires
        old(line).wf(),
        old(line).written() == Seq::<char>::empty(),
        step::fits(Step::Bucket { s, b }, desc.model().metric),
        C ==> b < H,
    ensures
        final(line).wf(),
        ({
            let at = Step::Bucket { s, b };
            let reading = snapshot.shows(desc.metric, s);
            let n = exposition::cumulative_at(at, *old(histogram_cumulative), reading);
            let shown = exposition::step_text(at, desc.model(), reading, n);
            &&& r is Ok <==> shown is Some
            &&& r is Ok ==> final(line).written() == shown->Some_0
            &&& r is Ok ==> *final(histogram_cumulative) == n
        }),
{
    write_bucket_head(line, desc, s)?;
    let bucket_delta: u64 = snapshot.bucket(&desc.metric, s, b);
    *histogram_cumulative = if b == 0 {
        bucket_delta
    } else {
        (*histogram_cumulative).wrapping_add(bucket_delta)
    };
    line.put_str("le=\"");
    match &desc.metric {
        MetricRef::Histogram { h } => line.put_value(&h.bound(b)),
        MetricRef::HistogramVec { h } => line.put_value(&h.bound(b)),
        _ => {},
    }
    line.put_str("\"} ");
    line.put_u64(*histogram_cumulative);
    line.put_char('\n');
    Ok(())
}

/// Render the implicit `+Inf` bucket of a histogram, or of its series `s`.
fn render_infinite_bucket<const L: usize, const H: usize, const C: bool>(
    line: &mut LineBuffer<L>,
    desc: &MetricDesc<'_>,
    snapshot: &HistogramScratch<H, C>,
    s: Option<usize>,
) -> (r: Result<(), FormatError>)
    requires
        old(line).wf(),
        old(line).written() == Seq::<char>::empty(),
        step::hist_part(desc.model().metric, s),
    ensures
        final(line).wf(),
        ({
            let reading = snapshot.shows(desc.metric, s);
            let shown = exposition::step_text(Step::BucketInf { s }, desc.model(), reading, 0);
            &&& r is Ok <==> shown is Some
            &&& r is Ok ==> final(line).written() == shown->Some_0
        }),
{
    write_bucket_head(line, desc, s)?;
    line.put_str("le=\"+Inf\"} ");
    line.put_u64(snapshot.count(&desc.metric, s));
    line.put_char('\n');
    Ok(())
}

/// Write the name of a histogram with `suffix`, and its labels if any.
fn write_total_head<const L: usize>(
    line: &mut LineBuffer<L>,
    desc: &MetricDesc<'_>,
    suffix: &str,
    s: Option<usize>,
) -> (r: Result<(), FormatError>)
    requires
        old(line).wf(),
        old(line).written() == Seq::<char>::empty(),
        step::hist_part(desc.model().metric, s),
    ensures
        final(line).wf(),
        r is Ok <==> exposition::hist_printable(desc.model().metric, s),
        r is Ok ==> final(line).written() == exposition::total_head(
            desc.model(),
            suffix@,
            exposition::hist_labels(desc.model().metric, s),
        ),
{
    write_full_name(line, desc, suffix);
    proof {
        let name = exposition::full_name(desc.model(), suffix@);
        assert(Seq::<char>::empty() + name =~= name);
    }
    if let Some(i) = s {
        line.put_char('{');
        write_labels(line, &desc.metric, i)?;
        line.put_char('}');
    }
    Ok(())
}

/// Render the sum of a histogram, or of its series `s`.
fn render_histogram_sum<const L: usize, const H: usize, const C: bool>(
    line: &mut LineBuffer<L>,
    desc: &MetricDesc<'_>,
    snapshot: &HistogramScratch<H, C>,
    s: Option<usize>,
) -> (r: Result<(), FormatError>)
    requires
        old(line).wf(),
        old(line).written() == Seq::<char>::empty(),
        step::hist_part(desc.model().metric, s),
    ensures
        final(line).wf(),
        ({
            let reading = snapshot.shows(desc.metric, s);
            let shown = exposition::step_text(Step::Sum { s }, desc.model(), reading, 0);
            &&& r is Ok <==> shown is Some
            &&& r is Ok ==> final(line).written() == shown->Some_0
        }),
{
    write_total_head(line, desc, "_sum", s)?;
    line.put_char(' ');
    snapshot.put_sum(line, &desc.metric, s);
    line.put_char('\n');
    Ok(())
}

/// Render the count of a histogram, or of its series `s`.
fn render_histogram_count<const L: usize, const H: usize, const C: bool>(
    line: &mut LineBuffer<L>,
    desc: &MetricDesc<'_>,
    snapshot: &HistogramScratch<H, C>,
    s: Option<usize>,
) -> (r: Result<(), FormatError>)
    requires
        old(line).wf(),
        old(line).written() == Seq::<char>::empty(),
        step::hist_part(desc.model().metric, s),
    ensures
        final(line).wf(),
        ({
            let reading = snapshot.shows(desc.metric, s);
            let shown = exposition::step_text(Step::Count { s }, desc.model(), reading, 0);
            &&& r is Ok <==> shown is Some
            &&& r is Ok ==> final(line).written() == shown->Some_0
        }),
{
    write_total_head(line, desc, "_count", s)?;
    line.put_char(' ');
    line.put_u64(snapshot.count(&desc.metric, s));
    line.put_char('\n');
    Ok(())
}

/// Render the `# HELP` line.
fn render_help<const L: usize>(line: &mut LineBuffer<L>, desc: &MetricDesc<'_>)
    requires
        old(line).wf(),
        old(line).written() == Seq::<char>::empty(),
    ensures
        final(line).wf(),
        final(line).written() == exposition::help_line(desc.model()),
{
    line.put_str("# HELP ");
    assert(line.written() =~= "# HELP "@);
    write_full_name(line, desc, "");
    line.put_char(' ');
    line.put_help(desc.help);
    line.put_char('\n');
}

/// Render the `# TYPE` line.
fn render_type<const L: usize>(line: &mut LineBuffer<L>, desc: &MetricDesc<'_>)
    requires
        old(line).wf(),
        old(line).written() == Seq::<char>::empty(),
    ensures
        final(line).wf(),
        final(line).written() == exposition::type_line(desc.model()),
{
    line.put_str("# TYPE ");
    assert(line.written() =~= "# TYPE "@);
    write_full_name(line, desc, "");
    line.put_char(' ');
    line.put_str(type_word(&desc.metric));
    line.put_char('\n');
}

/// Render the sample of a counter or gauge.
fn render_sample<const L: usize>(line: &mut LineBuffer<L>, desc: &MetricDesc<'_>)
    requires
        old(line).wf(),
        old(line).written() == Seq::<char>::empty(),
        step::fits(Step::Sample, desc.model().metric),
    ensures
        final(line).wf(),
        final(line).written() == exposition::sample_line(
            desc.model(),
            exposition::scalar_shown(desc.model().metric),
        ),
{
    write_full_name(line, desc, "");
    proof {
        let name = exposition::full_name(desc.model(), ""@);
        assert(Seq::<char>::empty() + name =~= name);
    }
    line.put_char(' ');
    match &desc.metric {
        MetricRef::Counter(c) => line.put_u64(c.get()),
        MetricRef::Gauge(v) => line.put_value(v),
        _ => {},
    }
    line.put_char('\n');
}

/// Render series `i` of a labeled counter or gauge.
fn render_series<const L: usize>(
    line: &mut LineBuffer<L>,
    desc: &MetricDesc<'_>,
    i: usize,
) -> (r: Result<(), FormatError>)
    requires
        old(line).wf(),
        old(line).written() == Seq::<char>::empty(),
        step::fits(Step::Series(i), desc.model().metric),
    ensures
        final(line).wf(),
        ({
            let labels = exposition::series_labels(desc.model().metric, i as int);
            &&& r is Ok <==> labels is Some
            &&& r is Ok ==> final(line).written() == exposition::series_line(
                desc.model(),
                labels->Some_0,
                exposition::series_shown(desc.model().metric, i as int),
            )
        }),
{
    write_full_name(line, desc, "");
    proof {
        let name = exposition::full_name(desc.model(), ""@);
        assert(Seq::<char>::empty() + name =~= name);
    }
    line.put_char('{');
    write_labels(line, &desc.metric, i)?;
    line.put_str("} ");
    match &desc.metric {
        MetricRef::CounterVec(cv) => line.put_u64(cv.value(i)),
        MetricRef::GaugeVec(gv) => line.put_value(&gv.value(i)),
        _ => {},
    }
    line.put_char('\n');
    Ok(())
}

/// Render `at` for `desc` into `line`. `line` is not cleared here; the
/// caller clears it before calling.
fn render_step<const L: usize, const H: usize, const C: bool>(
    line: &mut LineBuffer<L>,
    at: Step,
    desc: &MetricDesc<'_>,
    snapshot: &HistogramScratch<H, C>,
    histogram_cumulative: &mut u64,
) -> (r: Result<(), FormatError>)
    requires
        old(line).wf(),
        old(line).written() == Seq::<char>::empty(),
        at !is Advance,
        step::fits(at, desc.model().metric),
        C ==> (at matches Step::Bucket { s, b } ==> b < H),
    ensures
        final(line).wf(),
        ({
            let reading = snapshot.shows(desc.metric, exposition::part_of(at));
            let n = exposition::cumulative_at(at, *old(histogram_cumulative), reading);
            let shown = exposition::step_text(at, desc.model(), reading, n);
            &&& r is Ok <==> shown is Some
            &&& r is Ok ==> final(line).written() == shown->Some_0
            &&& r is Ok ==> *final(histogram_cumulative) == n
        }),
{
    match at {
        Step::Help => {
            render_help(line, desc);
            Ok(())
        },
        Step::Type => {
            render_type(line, desc);
            Ok(())
        },
        Step::Sample => {
            render_sample(line, desc);
            Ok(())
        },
        Step::Series(i) => render_series(line, desc, i),
        Step::Bucket { s, b } => render_bucket(line, desc, snapshot, histogram_cumulative, s, b),
        Step::BucketInf { s } => render_infinite_bucket(line, desc, snapshot, s),
        Step::Sum { s } => render_histogram_sum(line, desc, snapshot, s),
        Step::Count { s } => render_histogram_count(line, desc, snapshot, s),
        Step::Advance => Err(FormatError),
    }
}

/// A pull-based cursor over a snapshot of registered metric groups, producing
/// Prometheus text-exposition-format output one complete line at a time,
/// without requiring the whole output to fit in memory at once.
///
/// `N` is the group snapshot capacity, `L` is the maximum rendered line
/// length, and `H` is the finite-bucket scratch capacity used where `C` is
/// set: each histogram is then shown by one coherent snapshot. Callers can
/// tune each independently. Capacity failures are explicit and terminal.
///
/// The groups are handed in for each line, so metrics can change between one
/// line and the next.
pub struct Renderer<const N: usize, const L: usize, const H: usize, const C: bool> {
    groups: usize,
    g: usize,
    m: usize,
    at: Step,
    line: LineBuffer<L>,
    histogram: HistogramScratch<H, C>,
    histogram_cumulative: u64,
    failed: Option<RenderError>,
}

impl<const N: usize, const L: usize, const H: usize, const C: bool> Renderer<N, L, H, C> {
    /// The snapshot is within its capacity, and the line buffer holds together.
    pub closed spec fn wf(&self) -> bool {
        &&& self.groups <= N
        &&& self.line.wf()
    }

    /// How many groups are rendered.
    pub closed spec fn group_total(&self) -> nat {
        self.groups as nat
    }

    /// Where the renderer stands.
    pub closed spec fn cursor(&self) -> Cursor {
        Cursor {
            g: self.g as nat,
            m: self.m as nat,
            step: self.at,
            scratch: self.histogram@,
            cumulative: self.histogram_cumulative,
        }
    }

    /// The failure that ended the rendering, if any.
    pub closed spec fn failure(&self) -> Option<Failure> {
        match self.failed {
            Some(e) => Some(e@),
            None => None,
        }
    }

    /// How much the renderer can hold.
    pub open spec fn limits(&self) -> Limits {
        Limits { line: L as nat, buckets: H as nat, coherent: C }
    }

    /// The groups that are rendered, of those registered.
    pub open spec fn seen(&self, groups: Seq<GroupModel>) -> Seq<GroupModel> {
        groups.take(self.group_total() as int)
    }

    /// Whether a line of these groups can be rendered next.
    pub open spec fn ready_for(&self, groups: Seq<GroupModel>) -> bool {
        &&& self.wf()
        &&& self.group_total() <= groups.len()
        &&& self.failure() is None ==> exposition::cursor_fits(
            self.seen(groups),
            self.cursor(),
            self.limits(),
        )
    }

    /// Build a renderer over a snapshot of the given [`Registry`], whose
    /// capacity may be smaller than the renderer's but not larger.
    pub fn from_registry<const M: usize>(registry: &Registry<'_, M>) -> (r: Self)
        requires
            M <= N,
        ensures
            r.ready_for(registry@),
            r.group_total() == registry@.len(),
            r.failure() is None,
            r.cursor() == exposition::start(H as nat),
    {
        let r = Renderer {
            groups: registry.len(),
            g: 0,
            m: 0,
            at: Step::Help,
            line: LineBuffer::new(),
            histogram: HistogramScratch::new(),
            histogram_cumulative: 0,
            failed: None,
        };
        r
    }

    /// Whether every group has been rendered successfully. A renderer in a
    /// terminal error state is not considered done.
    pub fn is_done(&self) -> (done: bool)
        ensures
            done == (self.failure() is None && self.cursor().g >= self.group_total()),
    {
        self.failed.is_none() && self.g >= self.groups
    }

    /// Number of groups in the snapshot.
    pub fn group_count(&self) -> (n: usize)
        ensures
            n == self.group_total(),
    {
        self.groups
    }

    /// Whether a line of the metrics of `registry` can be rendered next: all
    /// groups of the snapshot are there, and the metric at hand still has what
    /// is to be shown of it. Updates of metrics keep a renderer ready; this is
    /// to be tested where metrics may have been replaced since the last line.
    pub fn is_ready_for<const M: usize>(&self, registry: &Registry<'_, M>) -> (b: bool)
        requires
            self.wf(),
        ensures
            b == self.ready_for(registry@),
    {
        let groups = registry.snapshot();
        if self.groups > groups.len() {
            return false;
        }
        if self.failed.is_some() || self.g >= self.groups {
            return true;
        }
        let ghost models = self.seen(registry@);
        let group = groups[self.g].group;
        assert(group.group_model() == models[self.g as int]);
        if self.m >= group.len() {
            return true;
        }
        match group.get(self.m) {
            None => true,
            Some(desc) => {
                if !step::is_fitting(self.at, &desc.metric) {
                    return false;
                }
                match self.at {
                    Step::Bucket { s: _, b } => !C || b == 0 || match step::bucket_count_of(
                        &desc.metric,
                    ) {
                        Some(n) => n <= H,
                        None => false,
                    },
                    _ => true,
                }
            },
        }
    }

    /// Move on to the next step that renders a line, and look up its metric.
    fn locate<'a, const M: usize>(&mut self, registry: &Registry<'a, M>) -> (r: Option<
        MetricDesc<'a>,
    >)
        requires
            old(self).ready_for(registry@),
            old(self).failure() is None,
        ensures
            final(self).ready_for(registry@),
            final(self).failure() is None,
            final(self).group_total() == old(self).group_total(),
            ({
                let groups = old(self).seen(registry@);
                let at = exposition::located(groups, old(self).cursor());
                &&& final(self).cursor() == at
                &&& r is Some <==> exposition::desc_at(groups, at.g, at.m) is Some
                &&& r matches Some(d) ==> d.model() == exposition::desc_at(
                    groups,
                    at.g,
                    at.m,
                )->Some_0
                &&& r is Some ==> at.step !is Advance
            }),
    {
        let groups = registry.snapshot();
        let ghost models = self.seen(registry@);
        let ghost first = self.cursor();
        while self.g < self.groups
            invariant
                self.ready_for(registry@),
                self.failure() is None,
                self.group_total() == old(self).group_total(),
                models == old(self).seen(registry@),
                first == old(self).cursor(),
                groups@.len() == registry@.len(),
                forall|i: int|
                    0 <= i < groups@.len() ==> (#[trigger] groups@[i]).group.group_model()
                        == registry@[i],
                exposition::located(models, self.cursor()) == exposition::located(models, first),
            decreases
                self.groups - self.g,
                (if self.g < models.len() {
                    models[self.g as int].len() - self.m
                } else {
                    0
                }),
        {
            let group = groups[self.g].group;
            assert(group.group_model() == models[self.g as int]);
            if self.m >= group.len() {
                self.g = self.g + 1;
                self.m = 0;
                self.at = Step::Help;
            } else {
                match group.get(self.m) {
                    None => {
                        self.m = self.m + 1;
                        self.at = Step::Help;
                    },
                    Some(desc) => {
                        if let Step::Advance = self.at {
                            self.m = self.m + 1;
                            self.at = Step::Help;
                        } else {
                            return Some(desc);
                        }
                    },
                }
            }
        }
        None
    }

    /// The text of the line that was rendered last.
    closed spec fn line_text(&self) -> Seq<char> {
        self.line.written()
    }

    /// Remember `error` and return it.
    fn fail(&mut self, error: RenderError) -> (r: RenderError)
        ensures
            r == error,
            final(self).failure() == Some(error@),
            final(self).group_total() == old(self).group_total(),
            final(self).wf() == old(self).wf(),
    {
        self.failed = Some(error);
        error
    }

    /// Take a coherent snapshot where this step needs one of the metric.
    fn prepare(&mut self, desc: &MetricDesc<'_>) -> (r: Result<(), RenderError>)
        requires
            old(self).wf(),
            old(self).failure() is None,
            step::fits(old(self).cursor().step, desc.model().metric),
        ensures
            final(self).wf(),
            final(self).failure() is None,
            final(self).group_total() == old(self).group_total(),
            final(self).line_text() == old(self).line_text(),
            ({
                let c = old(self).cursor();
                let d = desc.model();
                &&& r is Err <==> exposition::over_capacity(c.step, d.metric, old(self).limits())
                &&& r matches Err(e) ==> exposition::emitted(c, d, old(self).limits())
                    == Outcome::Failed(e@)
                &&& r is Ok ==> final(self).cursor() == (Cursor {
                    scratch: exposition::scratch_at(
                        c.step,
                        d.metric,
                        c.scratch,
                        old(self).limits(),
                    ),
                    ..c
                })
            }),
    {
        if !C {
            return Ok(());
        }
        let bucket_count = step::bucket_count_of(&desc.metric);
        let capture = match self.at {
            Step::Help => match bucket_count {
                Some(required) => if required > H {
                    Err(HistogramSnapshotError { required, capacity: H })
                } else {
                    Ok(())
                },
                None => Ok(()),
            },
            Step::Bucket { s, b } => if b == 0 {
                self.histogram.capture(&desc.metric, s)
            } else {
                Ok(())
            },
            Step::BucketInf { s } => match bucket_count {
                Some(n) => if n == 0 {
                    self.histogram.capture(&desc.metric, s)
                } else {
                    Ok(())
                },
                None => Ok(()),
            },
            _ => Ok(()),
        };
        match capture {
            Ok(()) => Ok(()),
            Err(buffer) => Err(
                RenderError::HistogramCapacityExceeded {
                    required: buffer.required,
                    capacity: buffer.capacity,
                    namespace: desc.namespace,
                    metric: desc.name,
                },
            ),
        }
    }

    /// Render the current step of `desc` into the line buffer and move on to
    /// the next step.
    fn emit(&mut self, desc: &MetricDesc<'_>) -> (r: Result<(), RenderError>)
        requires
            old(self).wf(),
            old(self).failure() is None,
            old(self).cursor().step !is Advance,
            exposition::step_fits(
                old(self).cursor().step,
                desc.model().metric,
                old(self).limits(),
            ),
        ensures
            final(self).wf(),
            final(self).group_total() == old(self).group_total(),
            match exposition::emitted(old(self).cursor(), desc.model(), old(self).limits()) {
                Outcome::Line(shown, next) => {
                    &&& r is Ok
                    &&& final(self).cursor() == next
                    &&& final(self).failure() is None
                    &&& final(self).line_text() == shown
                    &&& text::byte_len(shown) <= L
                    &&& exposition::step_fits(next.step, desc.model().metric, final(self).limits())
                },
                Outcome::Failed(failure) => {
                    &&& r matches Err(e)
                    &&& e@ == failure
                    &&& final(self).failure() == Some(failure)
                },
                Outcome::Done(end) => false,
            },
    {
        if let Err(error) = self.prepare(desc) {
            return Err(self.fail(error));
        }
        let at = self.at;
        self.line.clear();
        let drawn = render_step(
            &mut self.line,
            at,
            desc,
            &self.histogram,
            &mut self.histogram_cumulative,
        );
        if drawn.is_err() {
            return Err(self.fail(RenderError::Formatting));
        }
        if self.line.is_overflowed() {
            let error = RenderError::LineTooLong {
                required: self.line.required(),
                capacity: L,
                namespace: desc.namespace,
                metric: desc.name,
            };
            return Err(self.fail(error));
        }
        self.at = step::next_step(at, desc);
        Ok(())
    }

    /// The next complete output line, including its trailing `\n`, or
    /// `Ok(None)` once every group of the snapshot has been fully rendered.
    ///
    /// An error is terminal and is returned again by every later call. In
    /// particular, a line that exceeds capacity `L`, or a histogram that
    /// exceeds snapshot capacity `H`, is never silently skipped and rendering
    /// cannot continue with a partial metric family.
    ///
    /// Fails with [`RenderError::LineTooLong`] or
    /// [`RenderError::HistogramCapacityExceeded`] when a configured capacity
    /// is insufficient, and with [`RenderError::Formatting`] if a type-erased
    /// metric cannot format its value.
    pub fn next_line<const M: usize>(&mut self, registry: &Registry<'_, M>) -> (r: Result<
        Option<&str>,
        RenderError,
    >)
        requires
            old(self).ready_for(registry@),
        ensures
            final(self).ready_for(registry@),
            final(self).group_total() == old(self).group_total(),
            old(self).failure() matches Some(failure) ==> {
                &&& r matches Err(e)
                &&& e@ == failure
                &&& final(self).failure() == Some(failure)
            },
            old(self).failure() is None ==> match exposition::advanced(
                old(self).seen(registry@),
                old(self).cursor(),
                old(self).limits(),
            ) {
                Outcome::Done(end) => {
                    &&& r matches Ok(None)
                    &&& final(self).cursor() == end
                    &&& final(self).failure() is None
                },
                Outcome::Line(shown, next) => {
                    &&& r matches Ok(Some(line))
                    &&& line@ == shown
                    &&& final(self).cursor() == next
                    &&& final(self).failure() is None
                },
                Outcome::Failed(failure) => {
                    &&& r matches Err(e)
                    &&& e@ == failure
                    &&& final(self).failure() == Some(failure)
                },
            },
    {
        if let Some(error) = self.failed {
            return Err(error);
        }
        proof {
            exposition::lemma_located(self.seen(registry@), self.cursor());
        }
        let desc = match self.locate(registry) {
            Some(desc) => desc,
            None => return Ok(None),
        };
        match self.emit(&desc) {
            Ok(()) => Ok(Some(self.line.as_str())),
            Err(error) => Err(error),
        }
    }

    /// Drain this renderer into `w`. A render-capacity, metric-formatting, or
    /// sink failure is terminal and leaves the renderer in its error state.
    /// Each line is handed to `w` as one piece, and nothing behind one that it
    /// refuses.
    ///
    /// Fails as documented by [`Self::next_line`], or with
    /// [`RenderError::Sink`] if `w` rejects a rendered line.
    pub fn render_to<const M: usize, W: TextSink>(
        &mut self,
        registry: &Registry<'_, M>,
        w: &mut W,
    ) -> (r: Result<(), RenderError>)
        requires
            old(self).ready_for(registry@),
            old(w).wf(),
        ensures
            final(self).ready_for(registry@),
            final(self).group_total() == old(self).group_total(),
            final(w).wf(),
            old(self).failure() matches Some(failure) ==> {
                &&& r matches Err(e)
                &&& e@ == failure
                &&& final(self).failure() == Some(failure)
                &&& *final(w) == *old(w)
            },
            old(self).failure() is None ==> {
                let all = exposition::drained(
                    old(self).seen(registry@),
                    old(self).cursor(),
                    old(self).limits(),
                );
                if final(self).failure() == Some(Failure::Sink) {
                    &&& sink::wrote(*old(w), *final(w), all.lines, Err(FormatError))
                    &&& r matches Err(e)
                    &&& e@ == Failure::Sink
                } else {
                    &&& sink::wrote(*old(w), *final(w), all.lines, Ok(()))
                    &&& match all.end {
                        Ok(end) => {
                            &&& r is Ok
                            &&& final(self).cursor() == end
                            &&& final(self).failure() is None
                        },
                        Err(failure) => {
                            &&& r matches Err(e)
                            &&& e@ == failure
                            &&& final(self).failure() == Some(failure)
                        },
                    }
                }
            },
    {
        let ghost groups = self.seen(registry@);
        let ghost limits = self.limits();
        let ghost all = exposition::drained(groups, self.cursor(), limits);
        let ghost sink_before = *w;
        let ghost mut done = Seq::<Seq<char>>::empty();
        proof {
            sink::lemma_wrote_nothing(*w);
            assert(done + all.lines =~= all.lines);
        }
        loop
            invariant
                self.ready_for(registry@),
                self.group_total() == old(self).group_total(),
                groups == old(self).seen(registry@),
                limits == old(self).limits(),
                all == exposition::drained(groups, old(self).cursor(), limits),
                sink_before == *old(w),
                self.failure() == old(self).failure(),
                old(self).failure() is Some ==> *w == *old(w),
                old(self).failure() is None ==> {
                    let rest = exposition::drained(groups, self.cursor(), limits);
                    &&& sink::wrote(sink_before, *w, done, Ok(()))
                    &&& all.lines == done + rest.lines
                    &&& all.end == rest.end
                },
                w.wf(),
            decreases
                exposition::groups_left(groups, self.cursor()),
                exposition::metrics_left(groups, self.cursor()),
                step::phase(self.cursor().step),
                step::series_left(
                    self.cursor().step,
                    exposition::metric_at(groups, self.cursor()),
                ),
                step::lines_left(self.cursor().step, exposition::metric_at(groups, self.cursor())),
        {
            let ghost c = self.cursor();
            let ghost rest = exposition::drained(groups, c, limits);
            proof {
                exposition::lemma_advanced_descends(groups, c, limits);
                assert(done + Seq::empty() =~= done);
            }
            let line = match self.next_line(registry) {
                Ok(Some(line)) => line,
                Ok(None) => {
                    return Ok(());
                },
                Err(error) => {
                    return Err(error);
                },
            };
            let ghost shown = line@;
            let ghost middle = *w;
            let written = sink::put_str(w, line);
            proof {
                sink::lemma_wrote_both(sink_before, middle, *w, done, seq![shown], written);
                let tail = exposition::drained(groups, self.cursor(), limits).lines;
                assert(done + rest.lines =~= (done + seq![shown]) + tail);
                if written is Err {
                    sink::lemma_refused_early(sink_before, *w, done + seq![shown], tail);
                }
                done = done + seq![shown];
            }
            if written.is_err() {
                return Err(self.fail(RenderError::Sink));
            }
        }
    }
}

/// Renderers with the default group capacity.
impl<const C: bool> Renderer<MAX_GROUPS, MAX_LINE, MAX_HISTOGRAM_BUCKETS, C> {
    /// Build a renderer with the default capacities over a snapshot of
    /// `registry`.
    pub fn new<const M: usize>(registry: &Registry<'_, M>) -> (r: Self)
        requires
            M <= MAX_GROUPS,
        ensures
            r.ready_for(registry@),
            r.group_total() == registry@.len(),
            r.failure() is None,
            r.cursor() == exposition::start(MAX_HISTOGRAM_BUCKETS as nat),
    {
        Renderer::from_registry(registry)
    }

    /// Build a renderer with caller-selected line capacity `L` over a snapshot
    /// of `registry`.
    pub fn with_line_capacity<const L: usize, const M: usize>(
        registry: &Registry<'_, M>,
    ) -> (r: Renderer<MAX_GROUPS, L, MAX_HISTOGRAM_BUCKETS, C>)
        requires
            M <= MAX_GROUPS,
        ensures
            r.ready_for(registry@),
            r.group_total() == registry@.len(),
            r.failure() is None,
            r.cursor() == exposition::start(MAX_HISTOGRAM_BUCKETS as nat),
    {
        Renderer::from_registry(registry)
    }

    /// Build a renderer with caller-selected line capacity `L` and coherent
    /// histogram snapshot capacity `H` over a snapshot of `registry`.
    pub fn with_capacities<const L: usize, const H: usize, const M: usize>(
        registry: &Registry<'_, M>,
    ) -> (r: Renderer<MAX_GROUPS, L, H, C>)
        requires
            M <= MAX_GROUPS,
        ensures
            r.ready_for(registry@),
            r.group_total() == registry@.len(),
            r.failure() is None,
            r.cursor() == exposition::start(H as nat),
    {
        Renderer::from_registry(registry)
    }
}

/// What a renderer with the default capacities renders of these groups.
pub open spec fn default_render(groups: Seq<GroupModel>, coherent: bool) -> Drained {
    exposition::drained(
        groups,
        exposition::start(MAX_HISTOGRAM_BUCKETS as nat),
        Limits { line: MAX_LINE as nat, buckets: MAX_HISTOGRAM_BUCKETS as nat, coherent },
    )
}

/// Render the metrics of `registry` into `w`. This is a convenience for
/// synchronous sinks; asynchronous sinks can await between
/// [`Renderer::next_line`] calls.
///
/// Fails if rendering exceeds a default capacity, a metric cannot format its
/// value, or `w` rejects a rendered line.
pub fn write_all<const M: usize, const C: bool, W: TextSink>(
    registry: &Registry<'_, M>,
    w: &mut W,
) -> (r: Result<(), RenderError>)
    requires
        M <= MAX_GROUPS,
        old(w).wf(),
    ensures
        final(w).wf(),
        ({
            let all = default_render(registry@, C);
            if r matches Err(e) && e@ == Failure::Sink {
                sink::wrote(*old(w), *final(w), all.lines, Err(FormatError))
            } else {
                &&& sink::wrote(*old(w), *final(w), all.lines, Ok(()))
                &&& r is Ok <==> all.end is Ok
                &&& r matches Err(e) ==> all.end == Err::<Cursor, _>(e@)
            }
        }),
{
    let mut renderer = Renderer::<MAX_GROUPS, MAX_LINE, MAX_HISTOGRAM_BUCKETS, C>::new(registry);
    assert(renderer.seen(registry@) =~= registry@);
    renderer.render_to(registry, w)
}

/// The byte length of a full render pass over `registry`.
///
/// This does a complete, discarded render, so it costs as much as an actual
/// scrape and the returned value can go stale immediately if a metric
/// changes afterwards. It exists only for integrations that need
/// `Content-Length` up front; prefer a chunked/streaming response
/// driven by [`Renderer::next_line`] wherever possible.
///
/// Fails if the discarded render exceeds a default capacity or a metric
/// cannot format its value, or with [`RenderError::Sink`] if the length
/// exceeds what a `usize` holds.
pub fn rendered_len<const M: usize, const C: bool>(registry: &Registry<'_, M>) -> (r: Result<
    usize,
    RenderError,
>)
    requires
        M <= MAX_GROUPS,
    ensures
        counted(default_render(registry@, C), r),
{
    let renderer = Renderer::<MAX_GROUPS, MAX_LINE, MAX_HISTOGRAM_BUCKETS, C>::new(registry);
    assert(renderer.seen(registry@) =~= registry@);
    rendered_len_from(renderer, registry)
}

/// `r` is the byte length of a render, or the failure that ended it.
pub open spec fn counted(all: Drained, r: Result<usize, RenderError>) -> bool {
    if text::byte_len(all.text()) <= usize::MAX {
        match all.end {
            Ok(end) => r matches Ok(n) && n == text::byte_len(all.text()),
            Err(failure) => r matches Err(e) && e@ == failure,
        }
    } else {
        r matches Err(e) && e@ == Failure::Sink
    }
}

/// The byte length of what is left to render of `renderer`.
pub fn rendered_len_from<
    const N: usize,
    const L: usize,
    const H: usize,
    const C: bool,
    const M: usize,
>(renderer: Renderer<N, L, H, C>, registry: &Registry<'_, M>) -> (r: Result<usize, RenderError>)
    requires
        renderer.ready_for(registry@),
    ensures
        renderer.failure() matches Some(failure) ==> r matches Err(e) && e@ == failure,
        renderer.failure() is None ==> counted(
            exposition::drained(renderer.seen(registry@), renderer.cursor(), renderer.limits()),
            r,
        ),
{
    let mut renderer = renderer;
    let mut counter = ByteCount::new();
    let ghost all = exposition::drained(
        renderer.seen(registry@),
        renderer.cursor(),
        renderer.limits(),
    );
    let ghost zero = counter;
    let ghost began = renderer.failure() is None;
    let r = renderer.render_to(registry, &mut counter);
    proof {
        assert(Seq::<char>::empty() + all.text() =~= all.text());
        assert(text::byte_len(Seq::<char>::empty()) == 0);
        if began && renderer.failure() == Some(Failure::Sink) {
            sink::law_byte_counts_count_all_pieces(zero, counter, all.lines, Err(FormatError));
        } else if began {
            sink::law_byte_counts_count_all_pieces(zero, counter, all.lines, Ok(()));
        }
    }
    match r {
        Ok(()) => Ok(counter.get()),
        Err(error) => Err(error),
    }
}

} // verus!
