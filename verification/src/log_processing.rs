//! Reading an access log and routing its lines.
//!
//! A run goes through one input. For every line that can be decoded it
//! evaluates the predicate of every pipeline, in order, and offers the line
//! to the sink of each pipeline whose predicate holds. The run makes no
//! delivery itself: when a sink is full, [`process_log`] returns with the
//! delivery that the sink asks for, and goes on from that very point when it
//! is called again with the outcome of the delivery.

use crate::decode::{decode_row, decoded, first_defect, is_well_formed, texts};
use crate::error::{DecodeError, DeliveryError, ProcessError};
use crate::output::{
    confirmed, offered, option_text, DeliveryRequest, OutputType, Progress, Receipt, SinkView,
};
use crate::pipelines::{filter_holds, Pipeline, Predicate};
use crate::types::{LineView, RequestLogLine};
use vstd::prelude::*;

verus! {

/// The byte that separates the fields of a line: a space.
pub const LOG_DELIMITER: u8 = 0x20;

/// What a run has counted.
#[derive(Debug, Clone, Copy, PartialEq, Eq)]
pub struct ProcessLogOutput {
    /// The lines that were decoded.
    pub total_lines: u64,
    /// The matches: one for every line and every pipeline whose predicate
    /// holds of the line and whose sink took it.
    pub matched_lines: u64,
}

/// The sum of two counts, or the greatest count if the sum is beyond it.
pub open spec fn capped_sum(a: u64, b: u64) -> u64 {
    if a + b <= u64::MAX {
        (a + b) as u64
    } else {
        u64::MAX
    }
}

/// The count after one more.
pub open spec fn bump(count: u64) -> u64 {
    capped_sum(count, 1)
}

fn add_capped(a: u64, b: u64) -> (sum: u64)
    ensures
        sum == capped_sum(a, b),
{
    if a <= u64::MAX - b {
        a + b
    } else {
        u64::MAX
    }
}

impl ProcessLogOutput {
    /// The counts of two runs together.
    pub fn merge(&self, other: &ProcessLogOutput) -> (sum: ProcessLogOutput)
        ensures
            sum.total_lines == capped_sum(self.total_lines, other.total_lines),
            sum.matched_lines == capped_sum(self.matched_lines, other.matched_lines),
    {
        ProcessLogOutput {
            total_lines: add_capped(self.total_lines, other.total_lines),
            matched_lines: add_capped(self.matched_lines, other.matched_lines),
        }
    }
}

/// csv's `Reader`, of which nothing is known but what the functions below
/// say of it.
#[verifier::external_type_specification]
#[verifier::external_body]
#[verifier::reject_recursive_types(R)]
pub struct ExReader<R>(csv::Reader<R>);

/// A row of the input: its fields, or `None` where the reader reports an
/// error in place of a row.
pub type Row = Option<Seq<Seq<char>>>;

/// The rows that a reader without a header row finds in `bytes`, the fields
/// of a row separated by `delimiter`.
pub uninterp spec fn csv_rows(bytes: Seq<u8>, delimiter: u8) -> Seq<Row>;

/// The rows that a reader has yet to hand out.
pub uninterp spec fn unread_rows(reader: csv::Reader<&[u8]>) -> Seq<Row>;

/// csv's `ReaderBuilder` with the given delimiter and without a header row,
/// and its `from_reader` on a slice of bytes: a reader that has the rows of
/// the slice before it.
#[verifier::external_body]
fn csv_reader_builder<'a>(bytes: &'a [u8], delimiter: u8) -> (reader: csv::Reader<&'a [u8]>)
    ensures
        unread_rows(reader) == csv_rows(bytes@, delimiter),
{
    csv::ReaderBuilder::new().delimiter(delimiter).has_headers(false).from_reader(bytes)
}

/// The next item of csv's `Reader::records`: the next row as its fields, or
/// the error that the reader reports in its place, as text; `None` once
/// every row was handed out. A slice cannot fail to be read, so an error is
/// always an error in one row, and the reader goes on behind it.
#[verifier::external_body]
fn read_row(reader: &mut csv::Reader<&[u8]>) -> (row: Option<Result<Vec<String>, String>>)
    ensures
        unread_rows(*old(reader)).len() == 0 ==> row is None && unread_rows(*final(reader)).len()
            == 0,
        unread_rows(*old(reader)).len() > 0 ==> row is Some && unread_rows(*final(reader))
            == unread_rows(*old(reader)).skip(1),
        row matches Some(Ok(fields)) ==> unread_rows(*old(reader))[0] == Some(texts(fields@)),
        row matches Some(Err(_)) ==> unread_rows(*old(reader))[0] is None,
{
    reader.records().next().map(
        |row|
            row.map(|record| record.iter().map(String::from).collect()).map_err(
                |error| error.to_string(),
            ),
    )
}

/// Whether a row can be decoded.
pub open spec fn row_is_well_formed(row: Row) -> bool {
    row matches Some(fields) && is_well_formed(fields)
}

/// Whether `item` is what decoding makes of `row`: the record that the row
/// denotes, or the error that says why it denotes none.
pub open spec fn is_outcome(item: Result<RequestLogLine, DecodeError>, row: Row) -> bool {
    match row {
        None => item matches Err(DecodeError::Unreadable { .. }),
        Some(fields) => match first_defect(fields, 0) {
            Some(error) => item == Err::<RequestLogLine, DecodeError>(error),
            None => item matches Ok(line) && line@ == decoded(fields),
        },
    }
}

/// The decoder: it hands out the lines of an input one by one, each decoded
/// on its own.
pub struct LogReader<'a> {
    reader: csv::Reader<&'a [u8]>,
}

impl<'a> LogReader<'a> {
    /// The rows that are yet to be decoded.
    pub closed spec fn unread(&self) -> Seq<Row> {
        unread_rows(self.reader)
    }

    /// A decoder at the start of `bytes`.
    pub fn new(bytes: &'a [u8]) -> (reader: LogReader<'a>)
        ensures
            reader.unread() == csv_rows(bytes@, LOG_DELIMITER),
    {
        LogReader { reader: csv_reader_builder(bytes, LOG_DELIMITER) }
    }

    /// Decodes the next line: `None` at the end of the input; else the
    /// record or the error of the next row, which is then behind the decoder
    /// whatever it was.
    pub fn next_line(&mut self) -> (item: Option<Result<RequestLogLine, DecodeError>>)
        ensures
            old(self).unread().len() == 0 ==> item is None && final(self).unread().len() == 0,
            old(self).unread().len() > 0 ==> final(self).unread() == old(self).unread().skip(1),
            old(self).unread().len() > 0 ==> (item matches Some(outcome) && is_outcome(
                outcome,
                old(self).unread()[0],
            )),
    {
        match read_row(&mut self.reader) {
            None => None,
            Some(Err(reason)) => Some(Err(DecodeError::Unreadable { reason })),
            Some(Ok(fields)) => Some(decode_row(&fields)),
        }
    }
}

/// Whether `items` holds the outcome of every row, in order.
pub open spec fn is_decoding(items: Seq<Result<RequestLogLine, DecodeError>>, rows: Seq<Row>) -> bool {
    &&& items.len() == rows.len()
    &&& forall|i: int| 0 <= i < items.len() ==> is_outcome(#[trigger] items[i], rows[i])
}

/// Decodes every line of `file`: one item for each row, in the order of the
/// rows, a record where the row is well formed and an error where it is not.
pub fn parse_log_stream(file: &[u8]) -> (items: Vec<Result<RequestLogLine, DecodeError>>)
    ensures
        is_decoding(items@, csv_rows(file@, LOG_DELIMITER)),
{
    let ghost rows = csv_rows(file@, LOG_DELIMITER);
    let mut reader = LogReader::new(file);
    let mut items: Vec<Result<RequestLogLine, DecodeError>> = Vec::new();
    loop
        invariant
            rows == csv_rows(file@, LOG_DELIMITER),
            items@.len() + reader.unread().len() == rows.len(),
            reader.unread() == rows.skip(items@.len() as int),
            forall|i: int| 0 <= i < items@.len() ==> is_outcome(#[trigger] items@[i], rows[i]),
        decreases reader.unread().len(),
    {
        match reader.next_line() {
            None => {
                return items;
            },
            Some(item) => {
                assert(rows.skip(items@.len() as int)[0] == rows[items@.len() as int]);
                assert(rows.skip(items@.len() as int).skip(1) == rows.skip(items@.len() as int + 1));
                items.push(item);
            },
        }
    }
}

/// A pipeline as a mathematical value: the text of its filter, and its
/// sink.
pub struct PipelineView {
    pub filter: Seq<char>,
    pub sink: SinkView,
}

pub open spec fn pipelines_view(pipelines: Seq<(Pipeline, Predicate<'_>)>) -> Seq<PipelineView> {
    Seq::new(
        pipelines.len(),
        |i: int| PipelineView { filter: pipelines[i].1@, sink: pipelines[i].0.output@ },
    )
}

/// What offering one line to the pipelines comes to.
pub struct Routed {
    pub pipelines: Seq<PipelineView>,
    pub matched_lines: u64,
    /// The pipeline whose sink is full and has to be flushed before it can
    /// take the line, if there is one.
    pub blocked: Option<int>,
}

/// Offers `line` to the pipelines from the one at `from` on, in order. A
/// pipeline whose filter holds of the line has its sink take the line, which
/// counts as one match; the first whose sink is full ends the round, and
/// neither that sink nor a later one has taken the line then.
pub open spec fn route(
    pipelines: Seq<PipelineView>,
    matched_lines: u64,
    line: LineView,
    from: int,
) -> Routed
    decreases pipelines.len() - from,
{
    if from < 0 || from >= pipelines.len() {
        Routed { pipelines, matched_lines, blocked: None }
    } else if !filter_holds(pipelines[from].filter, line) {
        route(pipelines, matched_lines, line, from + 1)
    } else {
        match offered(pipelines[from].sink, line) {
            None => Routed { pipelines, matched_lines, blocked: Some(from) },
            Some(sink) => route(
                pipelines.update(from, PipelineView { sink, ..pipelines[from] }),
                bump(matched_lines),
                line,
                from + 1,
            ),
        }
    }
}

/// A run as a mathematical value.
pub struct RunView {
    /// The rows that are yet to be decoded.
    pub unread: Seq<Row>,
    pub total_lines: u64,
    pub matched_lines: u64,
    /// The line that a full sink has yet to take, and the position of that
    /// sink's pipeline.
    pub waiting: Option<(LineView, int)>,
}

/// Where a run halts: it is finished if no line is waiting.
pub struct Outcome {
    pub pipelines: Seq<PipelineView>,
    pub run: RunView,
}

/// Goes through the unread rows: every well-formed row counts as a line and
/// is offered to all pipelines; the others are passed over. The run halts at
/// the end of the input, or with the first sink that is full.
pub open spec fn drain(pipelines: Seq<PipelineView>, run: RunView) -> Outcome
    decreases run.unread.len(), 0int,
{
    if run.unread.len() == 0 {
        Outcome { pipelines, run }
    } else if !row_is_well_formed(run.unread[0]) {
        drain(pipelines, RunView { unread: run.unread.skip(1), ..run })
    } else {
        follow(
            pipelines,
            RunView { unread: run.unread.skip(1), total_lines: bump(run.total_lines), ..run },
            decoded(run.unread[0].unwrap()),
            0,
        )
    }
}

/// Offers `line` to the pipelines from the one at `from` on, and goes on
/// with the unread rows unless a sink is full.
pub open spec fn follow(pipelines: Seq<PipelineView>, run: RunView, line: LineView, from: int) -> Outcome
    decreases run.unread.len(), 1int,
{
    let routed = route(pipelines, run.matched_lines, line, from);
    match routed.blocked {
        Some(pipeline) => Outcome {
            pipelines: routed.pipelines,
            run: RunView {
                matched_lines: routed.matched_lines,
                waiting: Some((line, pipeline)),
                ..run
            },
        },
        None => drain(
            routed.pipelines,
            RunView { matched_lines: routed.matched_lines, waiting: None, ..run },
        ),
    }
}

/// The pipelines once the sink at `pipeline` was told of its delivery,
/// with which `token` came back.
pub open spec fn acknowledge(
    pipelines: Seq<PipelineView>,
    pipeline: int,
    token: Option<Seq<char>>,
) -> Seq<PipelineView> {
    if 0 <= pipeline < pipelines.len() {
        pipelines.update(
            pipeline,
            PipelineView {
                sink: confirmed(pipelines[pipeline].sink, token),
                ..pipelines[pipeline]
            },
        )
    } else {
        pipelines
    }
}

/// What a run is told when it is called again: nothing, or that the
/// delivery was made and which token came back with it.
pub open spec fn acknowledgement(reply: Option<Result<Receipt, DeliveryError>>) -> Option<
    Option<Seq<char>>,
> {
    match reply {
        Some(Ok(receipt)) => Some(option_text(receipt.next_sequence_token)),
        _ => None,
    }
}

/// Takes a run up where it halted. A line that is waiting is offered again
/// to the pipeline that it waits for, whose sink is first told of its
/// delivery if there is an acknowledgement, and then to the pipelines behind
/// it.
pub open spec fn resume(
    pipelines: Seq<PipelineView>,
    run: RunView,
    acknowledged: Option<Option<Seq<char>>>,
) -> Outcome {
    match run.waiting {
        None => drain(pipelines, run),
        Some((line, pipeline)) => follow(
            match acknowledged {
                Some(token) => acknowledge(pipelines, pipeline, token),
                None => pipelines,
            },
            RunView { waiting: None, ..run },
            line,
            pipeline,
        ),
    }
}

/// A line that a full sink has yet to take.
#[derive(Debug, PartialEq, Eq)]
pub struct Waiting {
    pub line: RequestLogLine,
    /// The position of the sink's pipeline.
    pub pipeline: usize,
}

/// A run through one input.
pub struct LogRun<'a> {
    pub reader: LogReader<'a>,
    pub total_lines: u64,
    pub matched_lines: u64,
    pub waiting: Option<Waiting>,
}

impl<'a> View for LogRun<'a> {
    type V = RunView;

    open spec fn view(&self) -> RunView {
        RunView {
            unread: self.reader.unread(),
            total_lines: self.total_lines,
            matched_lines: self.matched_lines,
            waiting: match self.waiting {
                Some(waiting) => Some((waiting.line@, waiting.pipeline as int)),
                None => None,
            },
        }
    }
}

impl<'a> LogRun<'a> {
    /// A run at the start of `bytes`.
    pub fn new(bytes: &'a [u8]) -> (run: LogRun<'a>)
        ensures
            run@ == (RunView {
                unread: csv_rows(bytes@, LOG_DELIMITER),
                total_lines: 0,
                matched_lines: 0,
                waiting: None,
            }),
    {
        LogRun { reader: LogReader::new(bytes), total_lines: 0, matched_lines: 0, waiting: None }
    }

    /// What the run has counted so far.
    pub fn output(&self) -> (output: ProcessLogOutput)
        ensures
            output.total_lines == self.total_lines,
            output.matched_lines == self.matched_lines,
    {
        ProcessLogOutput { total_lines: self.total_lines, matched_lines: self.matched_lines }
    }
}

/// What a run answers when it halts.
#[derive(Debug, PartialEq, Eq)]
pub enum Step {
    /// The input is exhausted.
    Finished(ProcessLogOutput),
    /// The sink of the pipeline at this position is full: the delivery has
    /// to be made, and the run called again with its outcome.
    Deliver { pipeline: usize, request: DeliveryRequest },
    /// The run is abandoned.
    Failed(ProcessError),
}

/// Whether the pipelines are those of `before`, but for the lines in their
/// sinks and what their sinks know of their destinations.
pub open spec fn same_configuration(
    after: Seq<(Pipeline, Predicate<'_>)>,
    before: Seq<(Pipeline, Predicate<'_>)>,
) -> bool {
    &&& after.len() == before.len()
    &&& forall|i: int|
        0 <= i < after.len() ==> (#[trigger] after[i]).1 == before[i].1 && after[i].0.filter
            == before[i].0.filter && after[i].0.output.same_destination(&before[i].0.output)
}

/// Whether `step` is the answer of a run that halted in the given state:
/// the counts at the end of the input; else what the sink that is full
/// answers when asked to flush.
pub open spec fn answers(step: Step, run: RunView, pipelines: Seq<(Pipeline, Predicate<'_>)>) -> bool {
    match run.waiting {
        None => step == Step::Finished(
            ProcessLogOutput { total_lines: run.total_lines, matched_lines: run.matched_lines },
        ),
        Some((_, position)) => 0 <= position < pipelines.len() && match step {
            Step::Deliver { pipeline, request } => pipeline == position
                && pipelines[position].0.output.flushes_with(Progress::Deliver(request)),
            Step::Failed(ProcessError::Delivery { pipeline, error }) => pipeline == position
                && pipelines[position].0.output.flushes_with(Progress::Failed(error)),
            Step::Finished(_) => false,
        },
    }
}

proof fn lemma_same_destination(a: OutputType, b: OutputType, c: OutputType)
    requires
        a.same_destination(&b),
        b.same_destination(&c),
    ensures
        a.same_destination(&c),
        a.same_destination(&a),
{
}

/// Offers one line to the pipelines from `from` on; answers with the step
/// of the run if a sink is full.
fn dispatch(
    run: &mut LogRun<'_>,
    pipelines: &mut Vec<(Pipeline, Predicate<'_>)>,
    line: RequestLogLine,
    from: usize,
) -> (res: Option<Step>)
    requires
        old(run).waiting is None,
    ensures
        same_configuration(final(pipelines)@, old(pipelines)@),
        ({
            let routed = route(
                pipelines_view(old(pipelines)@),
                old(run).matched_lines,
                line@,
                from as int,
            );
            &&& pipelines_view(final(pipelines)@) == routed.pipelines
            &&& final(run)@ == (RunView {
                matched_lines: routed.matched_lines,
                waiting: match routed.blocked {
                    Some(pipeline) => Some((line@, pipeline)),
                    None => None,
                },
                ..old(run)@
            })
            &&& routed.blocked is None <==> res is None
            &&& res matches Some(step) ==> answers(step, final(run)@, final(pipelines)@)
        }),
{
    let ghost target = route(
        pipelines_view(old(pipelines)@),
        old(run).matched_lines,
        line@,
        from as int,
    );
    let mut i: usize = from;
    while i < pipelines.len()
        invariant
            from <= i,
            same_configuration(pipelines@, old(pipelines)@),
            run.waiting is None,
            run.reader == old(run).reader,
            run.total_lines == old(run).total_lines,
            target == route(
                pipelines_view(old(pipelines)@),
                old(run).matched_lines,
                line@,
                from as int,
            ),
            target == route(pipelines_view(pipelines@), run.matched_lines, line@, i as int),
        decreases pipelines.len() - i,
    {
        let ghost before = pipelines@;
        if pipelines[i].1.matches(&line) {
            match pipelines[i].0.output.process_line(&line) {
                Progress::Done => {
                    run.matched_lines = add_capped(run.matched_lines, 1);
                    proof {
                        let sink = offered(before[i as int].0.output@, line@).unwrap();
                        assert(pipelines_view(pipelines@) == pipelines_view(before).update(
                            i as int,
                            PipelineView { sink, ..pipelines_view(before)[i as int] },
                        ));
                    }
                },
                Progress::Deliver(request) => {
                    assert(pipelines@ =~= before);
                    run.waiting = Some(Waiting { line, pipeline: i });
                    return Some(Step::Deliver { pipeline: i, request });
                },
                Progress::Failed(error) => {
                    assert(pipelines@ =~= before);
                    run.waiting = Some(Waiting { line, pipeline: i });
                    return Some(Step::Failed(ProcessError::Delivery { pipeline: i, error }));
                },
            }
        }
        proof {
            assert forall|j: int| 0 <= j < pipelines@.len() implies (#[trigger] pipelines@[j]).1
                == old(pipelines)@[j].1 && pipelines@[j].0.filter == old(pipelines)@[j].0.filter
                && pipelines@[j].0.output.same_destination(&old(pipelines)@[j].0.output) by {
                lemma_same_destination(
                    pipelines@[j].0.output,
                    before[j].0.output,
                    old(pipelines)@[j].0.output,
                );
            }
        }
        i = i + 1;
    }
    None
}

/// Runs through the input until it is exhausted or a sink has to be
/// flushed, and answers with the step to take.
///
/// A run that halted with [`Step::Deliver`] is called again with the outcome
/// of the delivery as `reply`. If the delivery was made, the sink is told
/// so and the run goes on with the line that waited; if it failed, the run
/// answers with the failure and stays as it is. Called without a reply, a
/// run that halted asks for its delivery again; a run that did not halt pays
/// no heed to a reply.
///
/// A line in a row that cannot be decoded is passed over and not counted.
pub fn process_log(
    run: &mut LogRun<'_>,
    pipelines: &mut Vec<(Pipeline, Predicate<'_>)>,
    reply: Option<Result<Receipt, DeliveryError>>,
) -> (step: Step)
    ensures
        match (old(run)@.waiting, reply) {
            (Some((_, position)), Some(Err(error))) => {
                &&& *final(run) == *old(run)
                &&& *final(pipelines) == *old(pipelines)
                &&& step == Step::Failed(
                    ProcessError::Delivery { pipeline: position as usize, error },
                )
            },
            _ => {
                let outcome = resume(
                    pipelines_view(old(pipelines)@),
                    old(run)@,
                    acknowledgement(reply),
                );
                &&& final(run)@ == outcome.run
                &&& pipelines_view(final(pipelines)@) == outcome.pipelines
                &&& same_configuration(final(pipelines)@, old(pipelines)@)
                &&& answers(step, outcome.run, final(pipelines)@)
            },
        },
{
    let ghost given = reply;
    let ghost target = resume(pipelines_view(old(pipelines)@), old(run)@, acknowledgement(given));
    match run.waiting.take() {
        Some(waiting) => {
            match reply {
                Some(Err(error)) => {
                    let pipeline = waiting.pipeline;
                    run.waiting = Some(waiting);
                    return Step::Failed(ProcessError::Delivery { pipeline, error });
                },
                Some(Ok(receipt)) => {
                    if waiting.pipeline < pipelines.len() {
                        let ghost token = option_text(receipt.next_sequence_token);
                        pipelines[waiting.pipeline].0.output.delivered(receipt);
                        assert(pipelines_view(pipelines@) == acknowledge(
                            pipelines_view(old(pipelines)@),
                            waiting.pipeline as int,
                            token,
                        ));
                    }
                },
                None => {},
            }
            if let Some(step) = dispatch(run, pipelines, waiting.line, waiting.pipeline) {
                return step;
            }
        },
        None => {},
    }
    loop
        invariant
            run.waiting is None,
            same_configuration(pipelines@, old(pipelines)@),
            !(old(run).waiting is Some && given matches Some(Err(_))),
            given == reply,
            target == resume(pipelines_view(old(pipelines)@), old(run)@, acknowledgement(given)),
            target == drain(pipelines_view(pipelines@), run@),
        decreases run.reader.unread().len(),
    {
        let ghost before = pipelines@;
        let ghost start = run@;
        match run.reader.next_line() {
            None => {
                assert(run@.unread =~= start.unread);
                return Step::Finished(run.output());
            },
            Some(Err(_)) => {
                assert(!row_is_well_formed(start.unread[0]));
                assert(run@ == (RunView { unread: start.unread.skip(1), ..start }));
            },
            Some(Ok(line)) => {
                run.total_lines = add_capped(run.total_lines, 1);
                proof {
                    assert(row_is_well_formed(start.unread[0]));
                    assert(line@ == decoded(start.unread[0].unwrap()));
                    assert(run@ == (RunView {
                        unread: start.unread.skip(1),
                        total_lines: bump(start.total_lines),
                        ..start
                    }));
                    assert(target == follow(pipelines_view(before), run@, line@, 0));
                }
                if let Some(step) = dispatch(run, pipelines, line, 0) {
                    return step;
                }
                proof {
                    assert forall|j: int| 0 <= j < pipelines@.len() implies (
                    #[trigger] pipelines@[j]).1 == old(pipelines)@[j].1 && pipelines@[j].0.filter
                        == old(pipelines)@[j].0.filter && pipelines@[j].0.output.same_destination(
                        &old(pipelines)@[j].0.output,
                    ) by {
                        lemma_same_destination(
                            pipelines@[j].0.output,
                            before[j].0.output,
                            old(pipelines)@[j].0.output,
                        );
                    }
                }
            },
        }
    }
}

/// The positions of the well-formed rows, in ascending order.
pub open spec fn well_formed_positions(rows: Seq<Row>) -> Seq<int>
    decreases rows.len(),
{
    if rows.len() == 0 {
        Seq::empty()
    } else if row_is_well_formed(rows.last()) {
        well_formed_positions(rows.drop_last()).push(rows.len() - 1)
    } else {
        well_formed_positions(rows.drop_last())
    }
}

/// The records among the items, in order.
pub open spec fn records(items: Seq<Result<RequestLogLine, DecodeError>>) -> Seq<LineView>
    decreases items.len(),
{
    if items.len() == 0 {
        Seq::empty()
    } else if items.last() is Ok {
        records(items.drop_last()).push(items.last()->Ok_0@)
    } else {
        records(items.drop_last())
    }
}

/// The errors among the items, in order.
pub open spec fn errors(items: Seq<Result<RequestLogLine, DecodeError>>) -> Seq<DecodeError>
    decreases items.len(),
{
    if items.len() == 0 {
        Seq::empty()
    } else if items.last() is Err {
        errors(items.drop_last()).push(items.last()->Err_0)
    } else {
        errors(items.drop_last())
    }
}

/// Of `n` rows of which `k` are not well formed, decoding yields `n - k`
/// records and `k` errors, and the records are those of the well-formed
/// rows in the order of the rows.
pub proof fn lemma_decoded_in_order(items: Seq<Result<RequestLogLine, DecodeError>>, rows: Seq<Row>)
    requires
        is_decoding(items, rows),
    ensures
        records(items).len() == well_formed_positions(rows).len(),
        records(items).len() + errors(items).len() == rows.len(),
        forall|k: int|
            0 <= k < records(items).len() ==> {
                let position = #[trigger] well_formed_positions(rows)[k];
                &&& 0 <= position < rows.len()
                &&& row_is_well_formed(rows[position])
                &&& records(items)[k] == decoded(rows[position].unwrap())
            },
        forall|j: int, k: int|
            0 <= j < k < well_formed_positions(rows).len() ==> well_formed_positions(rows)[j]
                < well_formed_positions(rows)[k],
        forall|k: int|
            0 <= k < well_formed_positions(rows).len() ==> 0 <= #[trigger] well_formed_positions(
                rows,
            )[k] < rows.len(),
    decreases rows.len(),
{
    if rows.len() > 0 {
        let front_items = items.drop_last();
        let front_rows = rows.drop_last();
        assert forall|i: int| 0 <= i < front_items.len() implies is_outcome(
            #[trigger] front_items[i],
            front_rows[i],
        ) by {
            assert(front_items[i] == items[i]);
        }
        lemma_decoded_in_order(front_items, front_rows);
        assert(is_outcome(items[items.len() - 1], rows[rows.len() - 1]));
        assert forall|k: int| 0 <= k < records(items).len() implies {
            let position = #[trigger] well_formed_positions(rows)[k];
            &&& 0 <= position < rows.len()
            &&& row_is_well_formed(rows[position])
            &&& records(items)[k] == decoded(rows[position].unwrap())
        } by {
            if k < records(front_items).len() {
                let position = well_formed_positions(front_rows)[k];
                assert(front_rows[position] == rows[position]);
            }
        }
    }
}

/// Of `n` rows that are all well formed, decoding yields `n` records, the
/// record of each row at the position of the row.
pub proof fn lemma_all_decoded(items: Seq<Result<RequestLogLine, DecodeError>>, rows: Seq<Row>)
    requires
        is_decoding(items, rows),
        forall|i: int| 0 <= i < rows.len() ==> row_is_well_formed(#[trigger] rows[i]),
    ensures
        records(items).len() == rows.len(),
        errors(items).len() == 0,
        forall|i: int|
            0 <= i < rows.len() ==> #[trigger] records(items)[i] == decoded(rows[i].unwrap()),
    decreases rows.len(),
{
    if rows.len() > 0 {
        let front_items = items.drop_last();
        let front_rows = rows.drop_last();
        assert forall|i: int| 0 <= i < front_items.len() implies is_outcome(
            #[trigger] front_items[i],
            front_rows[i],
        ) by {
            assert(front_items[i] == items[i]);
        }
        assert forall|i: int| 0 <= i < front_rows.len() implies row_is_well_formed(
            #[trigger] front_rows[i],
        ) by {
            assert(front_rows[i] == rows[i]);
        }
        lemma_all_decoded(front_items, front_rows);
        assert(is_outcome(items[items.len() - 1], rows[rows.len() - 1]));
        assert(row_is_well_formed(rows[rows.len() - 1]));
        assert forall|i: int| 0 <= i < rows.len() implies #[trigger] records(items)[i] == decoded(
            rows[i].unwrap(),
        ) by {
            if i < front_rows.len() {
                assert(front_rows[i] == rows[i]);
            }
        }
    }
}

/// The pipelines once the sink at `position` has taken `line`.
pub open spec fn with_line(pipelines: Seq<PipelineView>, position: int, line: LineView) -> Seq<
    PipelineView,
> {
    pipelines.update(
        position,
        PipelineView {
            sink: offered(pipelines[position].sink, line).unwrap(),
            ..pipelines[position]
        },
    )
}

/// Pipelines whose filters do not hold of a line are passed over.
pub proof fn lemma_route_passes_over(
    pipelines: Seq<PipelineView>,
    matched_lines: u64,
    line: LineView,
    from: int,
    to: int,
)
    requires
        0 <= from <= to <= pipelines.len(),
        forall|i: int| from <= i < to ==> !filter_holds(#[trigger] pipelines[i].filter, line),
    ensures
        route(pipelines, matched_lines, line, from) == route(pipelines, matched_lines, line, to),
    decreases to - from,
{
    if from < to {
        lemma_route_passes_over(pipelines, matched_lines, line, from + 1, to);
    }
}

/// A line of which the filter of one pipeline holds, and of no other, goes
/// to the sink of that pipeline once and to no other sink, and counts as
/// one match.
pub proof fn lemma_single_match(
    pipelines: Seq<PipelineView>,
    matched_lines: u64,
    line: LineView,
    position: int,
)
    requires
        0 <= position < pipelines.len(),
        filter_holds(pipelines[position].filter, line),
        forall|i: int|
            0 <= i < pipelines.len() && i != position ==> !filter_holds(
                #[trigger] pipelines[i].filter,
                line,
            ),
        offered(pipelines[position].sink, line) is Some,
    ensures
        route(pipelines, matched_lines, line, 0) == (Routed {
            pipelines: with_line(pipelines, position, line),
            matched_lines: bump(matched_lines),
            blocked: None,
        }),
        forall|i: int|
            0 <= i < pipelines.len() && i != position ==> with_line(pipelines, position, line)[i]
                == pipelines[i],
        with_line(pipelines, position, line)[position].sink == offered(
            pipelines[position].sink,
            line,
        ).unwrap(),
{
    let after = with_line(pipelines, position, line);
    lemma_route_passes_over(pipelines, matched_lines, line, 0, position);
    lemma_route_passes_over(after, bump(matched_lines), line, position + 1, after.len() as int);
}

/// A line of which the filters of two pipelines hold, and of no other,
/// goes to the sinks of both and counts as two matches.
pub proof fn lemma_double_match(
    pipelines: Seq<PipelineView>,
    matched_lines: u64,
    line: LineView,
    first: int,
    second: int,
)
    requires
        0 <= first < second < pipelines.len(),
        filter_holds(pipelines[first].filter, line),
        filter_holds(pipelines[second].filter, line),
        forall|i: int|
            0 <= i < pipelines.len() && i != first && i != second ==> !filter_holds(
                #[trigger] pipelines[i].filter,
                line,
            ),
        offered(pipelines[first].sink, line) is Some,
        offered(pipelines[second].sink, line) is Some,
    ensures
        route(pipelines, matched_lines, line, 0) == (Routed {
            pipelines: with_line(with_line(pipelines, first, line), second, line),
            matched_lines: bump(bump(matched_lines)),
            blocked: None,
        }),
        matched_lines + 2 <= u64::MAX ==> bump(bump(matched_lines)) == matched_lines + 2,
{
    let once = with_line(pipelines, first, line);
    let twice = with_line(once, second, line);
    lemma_route_passes_over(pipelines, matched_lines, line, 0, first);
    lemma_route_passes_over(once, bump(matched_lines), line, first + 1, second);
    lemma_route_passes_over(twice, bump(bump(matched_lines)), line, second + 1, twice.len() as int);
}

/// A run that halts with no line waiting has read all of its input.
pub proof fn lemma_finished_run_is_read(pipelines: Seq<PipelineView>, run: RunView)
    requires
        run.waiting is None,
    ensures
        drain(pipelines, run).run.waiting is None ==> drain(pipelines, run).run.unread.len() == 0,
    decreases run.unread.len(),
{
    if run.unread.len() > 0 {
        let rest = RunView { unread: run.unread.skip(1), ..run };
        if !row_is_well_formed(run.unread[0]) {
            lemma_finished_run_is_read(pipelines, rest);
        } else {
            let counted = RunView { total_lines: bump(run.total_lines), ..rest };
            let line = decoded(run.unread[0].unwrap());
            let routed = route(pipelines, counted.matched_lines, line, 0);
            assert(drain(pipelines, run) == follow(pipelines, counted, line, 0));
            if routed.blocked is None {
                let next = RunView { matched_lines: routed.matched_lines, waiting: None, ..counted };
                assert(follow(pipelines, counted, line, 0) == drain(routed.pipelines, next));
                lemma_finished_run_is_read(routed.pipelines, next);
            }
        }
    }
}

/// The count after `times` more.
pub open spec fn bumped(count: u64, times: nat) -> u64 {
    if count + times <= u64::MAX {
        (count + times) as u64
    } else {
        u64::MAX
    }
}

/// The number of rows that can be decoded.
pub open spec fn decodable(rows: Seq<Row>) -> nat
    decreases rows.len(),
{
    if rows.len() == 0 {
        0
    } else if row_is_well_formed(rows[0]) {
        1 + decodable(rows.skip(1))
    } else {
        decodable(rows.skip(1))
    }
}

/// The number of pipelines, from the one at `from` on, whose filters hold
/// of the line.
pub open spec fn accepting(pipelines: Seq<PipelineView>, line: LineView, from: int) -> nat
    decreases pipelines.len() - from,
{
    if from < 0 || from >= pipelines.len() {
        0
    } else if filter_holds(pipelines[from].filter, line) {
        1 + accepting(pipelines, line, from + 1)
    } else {
        accepting(pipelines, line, from + 1)
    }
}

/// The number of matches in the rows: for every row that can be decoded,
/// the number of pipelines whose filters hold of its line.
pub open spec fn matches_in(pipelines: Seq<PipelineView>, rows: Seq<Row>) -> nat
    decreases rows.len(),
{
    if rows.len() == 0 {
        0
    } else if row_is_well_formed(rows[0]) {
        accepting(pipelines, decoded(rows[0].unwrap()), 0) + matches_in(pipelines, rows.skip(1))
    } else {
        matches_in(pipelines, rows.skip(1))
    }
}

/// Whether every sink is one that keeps nothing.
pub open spec fn keep_nothing(pipelines: Seq<PipelineView>) -> bool {
    forall|i: int| 0 <= i < pipelines.len() ==> (#[trigger] pipelines[i]).sink.capacity == 0
}

/// Sinks that keep nothing never halt a line: it counts once for every
/// pipeline whose filter holds of it.
pub proof fn lemma_route_keeps_nothing(
    pipelines: Seq<PipelineView>,
    matched_lines: u64,
    line: LineView,
    from: int,
)
    requires
        keep_nothing(pipelines),
        0 <= from,
    ensures
        route(pipelines, matched_lines, line, from) == (Routed {
            pipelines,
            matched_lines: bumped(matched_lines, accepting(pipelines, line, from)),
            blocked: None,
        }),
    decreases pipelines.len() - from,
{
    if from < pipelines.len() {
        if filter_holds(pipelines[from].filter, line) {
            assert(pipelines.update(from, pipelines[from]) =~= pipelines);
            lemma_route_keeps_nothing(pipelines, bump(matched_lines), line, from + 1);
        } else {
            lemma_route_keeps_nothing(pipelines, matched_lines, line, from + 1);
        }
    }
}

/// With sinks that keep nothing, a run goes through all of its input at
/// once: it counts the rows that can be decoded as lines, and the matches
/// in them.
pub proof fn lemma_run_keeps_nothing(pipelines: Seq<PipelineView>, run: RunView)
    requires
        keep_nothing(pipelines),
        run.waiting is None,
    ensures
        drain(pipelines, run) == (Outcome {
            pipelines,
            run: RunView {
                unread: Seq::empty(),
                total_lines: bumped(run.total_lines, decodable(run.unread)),
                matched_lines: bumped(run.matched_lines, matches_in(pipelines, run.unread)),
                waiting: None,
            },
        }),
    decreases run.unread.len(),
{
    if run.unread.len() == 0 {
        assert(run.unread =~= Seq::empty());
    } else {
        let rest = RunView { unread: run.unread.skip(1), ..run };
        if !row_is_well_formed(run.unread[0]) {
            lemma_run_keeps_nothing(pipelines, rest);
        } else {
            let counted = RunView { total_lines: bump(run.total_lines), ..rest };
            let line = decoded(run.unread[0].unwrap());
            lemma_route_keeps_nothing(pipelines, counted.matched_lines, line, 0);
            let next = RunView {
                matched_lines: bumped(counted.matched_lines, accepting(pipelines, line, 0)),
                waiting: None,
                ..counted
            };
            assert(drain(pipelines, run) == follow(pipelines, counted, line, 0));
            assert(follow(pipelines, counted, line, 0) == drain(pipelines, next));
            lemma_run_keeps_nothing(pipelines, next);
        }
    }
}

/// The rows that can be decoded are as many as their positions.
pub proof fn lemma_decodable_positions(rows: Seq<Row>)
    ensures
        decodable(rows) == well_formed_positions(rows).len(),
    decreases rows.len(),
{
    if rows.len() > 0 {
        lemma_decodable_positions(rows.drop_last());
        lemma_decodable_last(rows);
    }
}

proof fn lemma_decodable_last(rows: Seq<Row>)
    requires
        rows.len() > 0,
    ensures
        row_is_well_formed(rows.last()) ==> decodable(rows) == decodable(rows.drop_last()) + 1,
        !row_is_well_formed(rows.last()) ==> decodable(rows) == decodable(rows.drop_last()),
    decreases rows.len(),
{
    let front = rows.drop_last();
    let rest = rows.skip(1);
    if rows.len() == 1 {
        assert(decodable(rest) == 0);
        assert(decodable(front) == 0);
    } else {
        lemma_decodable_last(rest);
        assert(rest.drop_last() == front.skip(1));
        assert(rest.last() == rows.last());
        assert(front[0] == rows[0]);
        assert(front.len() > 0);
    }
}

} // verus!
