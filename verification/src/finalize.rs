//! The last flush of every sink, at the end of the sinks' life.
//!
//! The sinks are flushed in the order of their pipelines. A sink that fails
//! does not keep the sinks behind it from being flushed: its failure is
//! noted, its lines stay where they are, and the flushing goes on. As with a
//! run, no delivery is made here: [`finalize`] returns with the delivery that
//! a sink asks for, and goes on when it is called again with the outcome.

use crate::error::{DeliveryError, ProcessError};
use crate::log_processing::{acknowledge, pipelines_view, same_configuration};
use crate::output::{option_text, DeliveryRequest, Progress, Receipt};
use crate::pipelines::{Pipeline, Predicate};
use vstd::prelude::*;

verus! {

/// How far the flushing has come.
#[derive(Debug, PartialEq, Eq)]
pub struct Closing {
    /// The position of the pipeline whose sink is being flushed.
    pub position: usize,
    /// The failure that was met first, if any was.
    pub failure: Option<ProcessError>,
}

/// What the flushing answers when it halts.
#[derive(Debug, PartialEq, Eq)]
pub enum FinalStep {
    /// Every sink was flushed or has failed; the failure to report is in
    /// the [`Closing`].
    Finished,
    /// The sink of the pipeline at this position asks for the delivery.
    Deliver { pipeline: usize, request: DeliveryRequest },
}

/// The failure to report once the sink at `pipeline` has failed: the one
/// that was noted before, if there is one.
pub open spec fn noted(failure: Option<ProcessError>, pipeline: int, error: DeliveryError) -> Option<
    ProcessError,
> {
    match failure {
        Some(_) => failure,
        None => Some(ProcessError::Delivery { pipeline: pipeline as usize, error }),
    }
}

/// Where the flushing halts when it goes on from the sink at `position`,
/// and the failure to report then. A sink without lines is passed; a sink
/// whose lines cannot be made ready is passed and its failure noted; the
/// first sink that asks for a delivery halts the flushing.
pub open spec fn halt(
    pipelines: Seq<(Pipeline, Predicate<'_>)>,
    position: int,
    failure: Option<ProcessError>,
) -> (int, Option<ProcessError>)
    decreases pipelines.len() - position,
{
    if position < 0 || position >= pipelines.len() {
        (pipelines.len() as int, failure)
    } else if pipelines[position].0.output@.lines.len() == 0 {
        halt(pipelines, position + 1, failure)
    } else {
        match pipelines[position].0.output.flush_failure() {
            Some(error) => halt(pipelines, position + 1, noted(failure, position, error)),
            None => (position, failure),
        }
    }
}

/// Where the flushing stands once the reply is taken in: a delivery that
/// failed is noted, and the sink that asked for it is left behind.
pub open spec fn settled(
    closing: Closing,
    pipelines: nat,
    reply: Option<Result<Receipt, DeliveryError>>,
) -> (int, Option<ProcessError>) {
    match reply {
        Some(Err(error)) => if closing.position < pipelines {
            (closing.position + 1, noted(closing.failure, closing.position as int, error))
        } else {
            (closing.position as int, closing.failure)
        },
        _ => (closing.position as int, closing.failure),
    }
}

fn note(failure: &mut Option<ProcessError>, pipeline: usize, error: DeliveryError)
    ensures
        *final(failure) == noted(*old(failure), pipeline as int, error),
{
    if failure.is_none() {
        *failure = Some(ProcessError::Delivery { pipeline, error });
    }
}

impl Closing {
    /// The flushing before it has begun.
    pub fn new() -> (closing: Closing)
        ensures
            closing.position == 0,
            closing.failure is None,
    {
        Closing { position: 0, failure: None }
    }
}

/// Flushes the sinks until one asks for a delivery or all are done, and
/// answers with the step to take.
///
/// Flushing that halted with [`FinalStep::Deliver`] is called again with the
/// outcome of the delivery as `reply`. If the delivery was made, the sink is
/// told so and asked again; if it failed, the failure is noted and the sink
/// is left as it is. Called without a reply, the flushing asks for its
/// delivery again.
pub fn finalize(
    closing: &mut Closing,
    pipelines: &mut Vec<(Pipeline, Predicate<'_>)>,
    reply: Option<Result<Receipt, DeliveryError>>,
) -> (step: FinalStep)
    ensures
        same_configuration(final(pipelines)@, old(pipelines)@),
        pipelines_view(final(pipelines)@) == match reply {
            Some(Ok(receipt)) => acknowledge(
                pipelines_view(old(pipelines)@),
                old(closing).position as int,
                option_text(receipt.next_sequence_token),
            ),
            _ => pipelines_view(old(pipelines)@),
        },
        ({
            let start = settled(*old(closing), old(pipelines)@.len(), reply);
            let end = halt(final(pipelines)@, start.0, start.1);
            &&& final(closing).position == end.0
            &&& final(closing).failure == end.1
            &&& match step {
                FinalStep::Finished => end.0 == final(pipelines)@.len(),
                FinalStep::Deliver { pipeline, request } => {
                    &&& pipeline == end.0
                    &&& end.0 < final(pipelines)@.len()
                    &&& final(pipelines)@[end.0].0.output.flushes_with(Progress::Deliver(request))
                },
            }
        }),
{
    let ghost given = reply;
    if closing.position < pipelines.len() {
        match reply {
            Some(Ok(receipt)) => {
                let ghost token = option_text(receipt.next_sequence_token);
                pipelines[closing.position].0.output.delivered(receipt);
                assert(pipelines_view(pipelines@) == acknowledge(
                    pipelines_view(old(pipelines)@),
                    closing.position as int,
                    token,
                ));
            },
            Some(Err(error)) => {
                note(&mut closing.failure, closing.position, error);
                closing.position = closing.position + 1;
            },
            None => {},
        }
    } else {
        assert(pipelines_view(old(pipelines)@) == acknowledge(
            pipelines_view(old(pipelines)@),
            closing.position as int,
            None,
        ));
    }
    let ghost after = pipelines@;
    let ghost start = settled(*old(closing), old(pipelines)@.len(), given);
    assert(start == (closing.position as int, closing.failure));
    while closing.position < pipelines.len()
        invariant
            pipelines@ == after,
            given == reply,
            same_configuration(after, old(pipelines)@),
            pipelines_view(after) == match given {
                Some(Ok(receipt)) => acknowledge(
                    pipelines_view(old(pipelines)@),
                    old(closing).position as int,
                    option_text(receipt.next_sequence_token),
                ),
                _ => pipelines_view(old(pipelines)@),
            },
            start == settled(*old(closing), old(pipelines)@.len(), given),
            halt(after, start.0, start.1) == halt(after, closing.position as int, closing.failure),
        decreases pipelines.len() - closing.position,
    {
        match pipelines[closing.position].0.output.finalize() {
            Progress::Done => {},
            Progress::Deliver(request) => {
                return FinalStep::Deliver { pipeline: closing.position, request };
            },
            Progress::Failed(error) => {
                note(&mut closing.failure, closing.position, error);
            },
        }
        closing.position = closing.position + 1;
    }
    if closing.position > pipelines.len() {
        closing.position = pipelines.len();
    }
    FinalStep::Finished
}

} // verus!
