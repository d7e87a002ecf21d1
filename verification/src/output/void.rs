//! The sink that drops every line.

use crate::output::{Progress, SinkView};
use crate::types::RequestLogLine;
use vstd::prelude::*;

verus! {

/// A sink without a destination: it takes every line and keeps none.
#[derive(Debug, Clone, Copy, PartialEq, Eq)]
pub struct VoidOutput;

impl View for VoidOutput {
    type V = SinkView;

    open spec fn view(&self) -> SinkView {
        SinkView {
            capacity: 0,
            lines: Seq::empty(),
            unprepared: false,
            sequenced: false,
            sequence_token: None,
        }
    }
}

impl VoidOutput {
    /// Takes the line and forgets it.
    pub fn process_line(&self, line: &RequestLogLine) -> (progress: Progress)
        ensures
            progress is Done,
    {
        Progress::Done
    }

    /// There is never anything to deliver.
    pub fn flush(&self) -> (progress: Progress)
        ensures
            progress is Done,
    {
        Progress::Done
    }
}

} // verus!
