//! The sink that writes lines to the console.

use crate::output::buffer::{lemma_views_empty, lemma_views_push, views, Batch};
use crate::output::{DeliveryRequest, Progress, SinkView};
use crate::types::RequestLogLine;
use vstd::prelude::*;

verus! {

/// The number of lines that the console sink holds back.
pub const STDOUT_BATCH_SIZE: usize = 1;

/// A sink whose batches are written to the console, one line each.
#[derive(Debug)]
pub struct StdoutOutput {
    /// The lines that wait for delivery.
    pub batch: Batch,
}

impl View for StdoutOutput {
    type V = SinkView;

    open spec fn view(&self) -> SinkView {
        SinkView {
            capacity: self.batch.capacity(),
            lines: views(self.batch.lines()),
            unprepared: false,
            sequenced: false,
            sequence_token: None,
        }
    }
}

impl StdoutOutput {
    /// The lines held, oldest first.
    pub open spec fn lines(&self) -> Seq<RequestLogLine> {
        self.batch.lines()
    }

    /// What [`StdoutOutput::flush`] answers in this state.
    pub open spec fn flushes_with(&self, progress: Progress) -> bool {
        if self.lines().len() == 0 {
            progress is Done
        } else {
            progress matches Progress::Deliver(DeliveryRequest::WriteLines { lines }) && lines@
                == self.lines()
        }
    }

    pub fn new() -> (sink: StdoutOutput)
        ensures
            sink@ == (SinkView {
                capacity: STDOUT_BATCH_SIZE as nat,
                lines: Seq::empty(),
                unprepared: false,
                sequenced: false,
                sequence_token: None,
            }),
            sink.lines().len() == 0,
    {
        let batch = Batch::new(STDOUT_BATCH_SIZE).unwrap();
        proof {
            lemma_views_empty(batch.lines());
        }
        StdoutOutput { batch }
    }

    /// The write that empties the buffer, if it holds anything.
    pub fn flush(&self) -> (progress: Progress)
        ensures
            self.flushes_with(progress),
            self@.lines == views(self.lines()),
            progress is Done <==> self@.lines.len() == 0,
    {
        if self.batch.buffer_is_empty() {
            Progress::Done
        } else {
            Progress::Deliver(DeliveryRequest::WriteLines { lines: self.batch.to_vec() })
        }
    }

    /// Takes the line if there is room; else asks for the write that makes
    /// room, and takes nothing.
    pub fn process_line(&mut self, line: &RequestLogLine) -> (progress: Progress)
        ensures
            match crate::output::offered(old(self)@, line@) {
                Some(after) => progress is Done && final(self)@ == after && final(self).lines()
                    == old(self).lines().push(*line),
                None => *final(self) == *old(self) && old(self).flushes_with(progress) && !(progress is Done),
            },
    {
        if self.batch.add_to_queue(line) {
            proof {
                lemma_views_push(old(self).lines(), *line);
            }
            Progress::Done
        } else {
            self.flush()
        }
    }

    /// Takes note that the write which [`StdoutOutput::flush`] asks for was
    /// made.
    pub fn delivered(&mut self)
        ensures
            final(self)@ == crate::output::confirmed(old(self)@, None),
            final(self).lines().len() == 0,
    {
        self.batch.buffer_clear();
        proof {
            lemma_views_empty(old(self).lines());
            lemma_views_empty(self.lines());
        }
    }
}

} // verus!
