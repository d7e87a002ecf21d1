//! Sinks: where matching lines go.
//!
//! A sink accumulates lines up to a limit. It never sends anything itself:
//! when its buffer must be emptied it says which delivery it needs, and it is
//! told when that delivery was made.

pub mod buffer;
pub mod cloudwatch_logs;
pub mod cloudwatch_metric;
pub mod stdout;
pub mod void;

pub use crate::output::cloudwatch_logs::CloudwatchLogOutput;
pub use crate::output::cloudwatch_metric::{CloudwatchDimension, CloudwatchMetricOutput};
pub use crate::output::stdout::StdoutOutput;
pub use crate::output::void::VoidOutput;

use crate::error::DeliveryError;
use crate::types::{LineView, RequestLogLine};
use vstd::prelude::*;

verus! {

/// One event for a log stream: a line, and its time in milliseconds since
/// 1970.
#[derive(Debug, Clone, PartialEq, Eq)]
pub struct LogEvent {
    pub line: RequestLogLine,
    pub timestamp: i64,
}

/// A name and a value that a metric is filed under.
#[derive(Debug, Clone, PartialEq, Eq)]
pub struct Dimension {
    pub name: String,
    pub value: String,
}

/// One data point of a metric.
#[derive(Debug, Clone, PartialEq, Eq)]
pub struct MetricDatum {
    pub dimensions: Vec<Dimension>,
    pub metric_name: String,
    /// The time of the data point, as an RFC 3339 date.
    pub timestamp: String,
    pub unit: String,
    pub value: u64,
}

/// A delivery that a sink asks for.
#[derive(Debug, Clone, PartialEq, Eq)]
pub enum DeliveryRequest {
    /// Create the stream that the events will go to.
    CreateLogStream { log_group_name: String, log_stream_name: String },
    /// Append the events to a stream.
    PutLogEvents {
        log_events: Vec<LogEvent>,
        log_group_name: String,
        log_stream_name: String,
        sequence_token: Option<String>,
    },
    /// Record the data points.
    PutMetricData { namespace: String, metric_data: Vec<MetricDatum> },
    /// Write the lines to the console.
    WriteLines { lines: Vec<RequestLogLine> },
}

/// What a destination hands back with a delivery that it took.
#[derive(Debug, Clone, PartialEq, Eq)]
pub struct Receipt {
    /// The token to send with the next batch of events, where the
    /// destination issues one.
    pub next_sequence_token: Option<String>,
}

/// What a sink answers when it is offered a line or asked to flush.
#[derive(Debug, Clone, PartialEq, Eq)]
pub enum Progress {
    /// Nothing is left to do.
    Done,
    /// This delivery has to be made first.
    Deliver(DeliveryRequest),
    /// The batch cannot be made ready for delivery.
    Failed(DeliveryError),
}

/// A sink as a mathematical value.
pub struct SinkView {
    /// The number of lines at which the sink is full; 0 for a sink that
    /// keeps nothing.
    pub capacity: nat,
    /// The lines held, oldest first.
    pub lines: Seq<LineView>,
    /// Whether the destination has yet to be set up.
    pub unprepared: bool,
    /// Whether the destination issues a token with every delivery that it
    /// takes, to be sent back with the next.
    pub sequenced: bool,
    /// The token that goes out with the next delivery, if there is one.
    pub sequence_token: Option<Seq<char>>,
}

/// The text that an optional token holds.
pub open spec fn option_text(token: Option<String>) -> Option<Seq<char>> {
    match token {
        Some(text) => Some(text@),
        None => None,
    }
}

/// The sink after it took `line`; `None` if it is full and has to be
/// flushed first.
pub open spec fn offered(sink: SinkView, line: LineView) -> Option<SinkView> {
    if sink.capacity == 0 {
        Some(sink)
    } else if sink.lines.len() < sink.capacity {
        Some(SinkView { lines: sink.lines.push(line), ..sink })
    } else {
        None
    }
}

/// The sink after the delivery that it asked for was made and `token` came
/// back: a destination that had to be set up is set up; else the buffer is
/// empty, and the token is kept where the destination issues tokens.
pub open spec fn confirmed(sink: SinkView, token: Option<Seq<char>>) -> SinkView {
    if sink.lines.len() == 0 {
        sink
    } else if sink.unprepared {
        SinkView { unprepared: false, ..sink }
    } else if sink.sequenced {
        SinkView { lines: Seq::empty(), sequence_token: token, ..sink }
    } else {
        SinkView { lines: Seq::empty(), ..sink }
    }
}

/// A sink of one of the four kinds.
#[derive(Debug)]
pub enum OutputType {
    CloudwatchMetric(CloudwatchMetricOutput),
    CloudwatchLog(CloudwatchLogOutput),
    Stdout(StdoutOutput),
    Void(VoidOutput),
}

impl View for OutputType {
    type V = SinkView;

    open spec fn view(&self) -> SinkView {
        match self {
            OutputType::CloudwatchMetric(sink) => sink@,
            OutputType::CloudwatchLog(sink) => sink@,
            OutputType::Stdout(sink) => sink@,
            OutputType::Void(sink) => sink@,
        }
    }
}

impl OutputType {
    /// The lines held, oldest first.
    pub open spec fn lines(&self) -> Seq<RequestLogLine> {
        match self {
            OutputType::CloudwatchMetric(sink) => sink.lines(),
            OutputType::CloudwatchLog(sink) => sink.lines(),
            OutputType::Stdout(sink) => sink.lines(),
            OutputType::Void(_) => Seq::empty(),
        }
    }

    /// What [`OutputType::flush`] answers in this state.
    pub open spec fn flushes_with(&self, progress: Progress) -> bool {
        match self {
            OutputType::CloudwatchMetric(sink) => sink.flushes_with(progress),
            OutputType::CloudwatchLog(sink) => sink.flushes_with(progress),
            OutputType::Stdout(sink) => sink.flushes_with(progress),
            OutputType::Void(_) => progress is Done,
        }
    }

    /// The error that keeps the lines held from being made ready for
    /// delivery, if there is one.
    pub open spec fn flush_failure(&self) -> Option<DeliveryError> {
        match self {
            OutputType::CloudwatchMetric(sink) => crate::output::cloudwatch_metric::first_failure(
                sink.lines(),
                0,
            ),
            _ => None,
        }
    }

    /// Whether `other` is a sink of the same kind for the same destination.
    pub open spec fn same_destination(&self, other: &OutputType) -> bool {
        match (self, other) {
            (OutputType::CloudwatchMetric(a), OutputType::CloudwatchMetric(b)) => a.namespace
                == b.namespace && a.metric_name == b.metric_name,
            (OutputType::CloudwatchLog(a), OutputType::CloudwatchLog(b)) => a.same_stream(b),
            (OutputType::Stdout(_), OutputType::Stdout(_)) => true,
            (OutputType::Void(_), OutputType::Void(_)) => true,
            _ => false,
        }
    }

    /// Offers a line to the sink. The sink takes it, or, if it is full, asks
    /// for the delivery that has to be made first and stays as it is: once
    /// told of the delivery, it is to be offered the line again.
    pub fn process_line(&mut self, line: &RequestLogLine) -> (progress: Progress)
        ensures
            final(self).same_destination(old(self)),
            match offered(old(self)@, line@) {
                Some(after) => progress is Done && final(self)@ == after,
                None => *final(self) == *old(self) && old(self).flushes_with(progress) && !(progress is Done),
            },
    {
        match self {
            OutputType::CloudwatchMetric(sink) => sink.process_line(line),
            OutputType::CloudwatchLog(sink) => sink.process_line(line),
            OutputType::Stdout(sink) => sink.process_line(line),
            OutputType::Void(sink) => sink.process_line(line),
        }
    }

    /// The delivery that has to be made next to empty the sink's buffer;
    /// `Done` if the buffer is empty.
    pub fn flush(&self) -> (progress: Progress)
        ensures
            self.flushes_with(progress),
            progress is Done <==> self@.lines.len() == 0,
            progress is Deliver <==> self@.lines.len() > 0 && self.flush_failure() is None,
            progress matches Progress::Failed(error) ==> self.flush_failure() == Some(error),
    {
        match self {
            OutputType::CloudwatchMetric(sink) => sink.flush(),
            OutputType::CloudwatchLog(sink) => sink.flush(),
            OutputType::Stdout(sink) => sink.flush(),
            OutputType::Void(sink) => sink.flush(),
        }
    }

    /// Tells the sink that the delivery which it last asked for was made.
    pub fn delivered(&mut self, receipt: Receipt)
        ensures
            final(self).same_destination(old(self)),
            final(self)@ == confirmed(old(self)@, option_text(receipt.next_sequence_token)),
    {
        match self {
            OutputType::CloudwatchMetric(sink) => sink.delivered(),
            OutputType::CloudwatchLog(sink) => sink.delivered(receipt),
            OutputType::Stdout(sink) => sink.delivered(),
            OutputType::Void(_) => {},
        }
    }

    /// The last flush of a sink, at the end of its life: as
    /// [`OutputType::flush`], to be asked again after each delivery until
    /// the answer is `Done`.
    pub fn finalize(&self) -> (progress: Progress)
        ensures
            self.flushes_with(progress),
            progress is Done <==> self@.lines.len() == 0,
            progress is Deliver <==> self@.lines.len() > 0 && self.flush_failure() is None,
            progress matches Progress::Failed(error) ==> self.flush_failure() == Some(error),
    {
        self.flush()
    }
}

/// The sink once every delivery was made that it asks for to empty its
/// buffer, `token` having come back with the lines: the destination is set
/// up and the buffer is empty.
pub open spec fn flushed(sink: SinkView, token: Option<Seq<char>>) -> SinkView {
    if sink.lines.len() == 0 {
        sink
    } else {
        confirmed(SinkView { unprepared: false, ..sink }, token)
    }
}

/// The sink once `line` is in its buffer: it takes the line at once if it
/// has room, and after a flush if it is full.
pub open spec fn pushed(sink: SinkView, token: Option<Seq<char>>, line: LineView) -> SinkView {
    match offered(sink, line) {
        Some(after) => after,
        None => offered(flushed(sink, token), line).unwrap(),
    }
}

/// The number of lines that a delivery carries.
pub open spec fn carried(request: DeliveryRequest) -> nat {
    match request {
        DeliveryRequest::CreateLogStream { .. } => 0,
        DeliveryRequest::PutLogEvents { log_events, .. } => log_events@.len(),
        DeliveryRequest::PutMetricData { metric_data, .. } => metric_data@.len(),
        DeliveryRequest::WriteLines { lines } => lines@.len(),
    }
}

/// A flush takes one delivery of lines, after the one that sets up the
/// destination where that is still to be done.
pub proof fn lemma_flush_is_one_batch(
    sink: SinkView,
    first: Option<Seq<char>>,
    token: Option<Seq<char>>,
)
    requires
        sink.lines.len() > 0,
    ensures
        !sink.unprepared ==> confirmed(sink, token) == flushed(sink, token),
        sink.unprepared ==> confirmed(sink, first).lines == sink.lines && confirmed(
            confirmed(sink, first),
            token,
        ) == flushed(sink, token),
        flushed(sink, token).lines.len() == 0,
{
}

/// A full sink takes no line before it is flushed; flushed, it holds the
/// new line alone. Whether it was full or not, a sink that held `n` lines
/// holds `n mod capacity + 1` once it has taken one more.
pub proof fn lemma_push(sink: SinkView, token: Option<Seq<char>>, line: LineView)
    requires
        sink.capacity >= 1,
        sink.lines.len() <= sink.capacity,
    ensures
        sink.lines.len() == sink.capacity ==> offered(sink, line) is None && pushed(
            sink,
            token,
            line,
        ) == (SinkView { lines: seq![line], ..flushed(sink, token) }),
        sink.lines.len() < sink.capacity ==> pushed(sink, token, line) == (SinkView {
            lines: sink.lines.push(line),
            ..sink
        }),
        pushed(sink, token, line).lines.len() == sink.lines.len() % sink.capacity + 1,
        pushed(sink, token, line).lines.last() == line,
{
    if sink.lines.len() == sink.capacity {
        vstd::arithmetic::div_mod::lemma_mod_self_0(sink.capacity as int);
        assert(Seq::<LineView>::empty().push(line) =~= seq![line]);
    } else {
        vstd::arithmetic::div_mod::lemma_small_mod(sink.lines.len(), sink.capacity);
    }
}

/// The last flush of a sink. With an empty buffer it asks for nothing.
/// With lines in the buffer and the destination set up, it asks for one
/// delivery, which carries every line held; that delivery made, the buffer
/// is empty, and a further flush asks for nothing.
pub proof fn lemma_final_flush(
    sink: OutputType,
    progress: Progress,
    token: Option<Seq<char>>,
    after: OutputType,
    next: Progress,
)
    requires
        sink.flushes_with(progress),
        after@ == confirmed(sink@, token),
        after.flushes_with(next),
    ensures
        sink@.lines.len() == sink.lines().len(),
        sink.lines().len() == 0 ==> progress is Done,
        sink.lines().len() > 0 ==> !(progress is Done),
        sink.lines().len() > 0 && !sink@.unprepared ==> after@.lines.len() == 0 && next is Done,
        progress matches Progress::Deliver(request) ==> !sink@.unprepared ==> carried(request)
            == sink.lines().len(),
{
    crate::output::buffer::lemma_views_empty(sink.lines());
    crate::output::buffer::lemma_views_empty(after.lines());
}

/// A destination is set up once: the delivery that a sink with lines asks
/// for first sets it up, and neither a line nor a delivery undoes that.
pub proof fn lemma_set_up_once(sink: SinkView, token: Option<Seq<char>>, line: LineView)
    ensures
        sink.lines.len() > 0 ==> !confirmed(sink, token).unprepared,
        !sink.unprepared ==> !confirmed(sink, token).unprepared,
        offered(sink, line) matches Some(after) ==> after.unprepared == sink.unprepared,
{
}

} // verus!
