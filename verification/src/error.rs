//! The errors of the engine, one type per stage.

use vstd::prelude::*;
use vstd::string::StringExecFns;

verus! {

/// Why one line of the input could not be decoded. The line is skipped; the
/// rest of the input is still read.
#[derive(Debug, Clone, PartialEq, Eq)]
pub enum DecodeError {
    /// The line could not be split into fields; `reason` is the reader's own
    /// description.
    Unreadable { reason: String },
    /// The line has fewer fields than a record needs.
    WrongArity { found: usize },
    /// The field at this position is no valid value of its type.
    MalformedField { field: usize },
    /// The field at this position is no valid date and time.
    BadTimestamp { field: usize },
}

/// Why a filter expression was refused.
#[derive(Debug, Clone, PartialEq, Eq)]
pub struct CompileError {
    /// The expression as it was configured.
    pub filter: String,
    /// The parser's description of the fault.
    pub reason: String,
}

/// Why a batch did not reach its destination.
#[derive(Debug, Clone, PartialEq, Eq)]
pub enum DeliveryError {
    /// A buffered line names no target group, so no metric can be made of it.
    InvalidTargetGroup,
    /// A buffered line's time cannot be written as a date.
    TimestampOutOfRange,
    /// The destination refused the batch or could not be reached.
    Rejected { reason: String },
}

/// Why a run over one input was abandoned.
#[derive(Debug, Clone, PartialEq, Eq)]
pub enum ProcessError {
    /// The sink of the pipeline at this position failed to deliver.
    Delivery { pipeline: usize, error: DeliveryError },
}

/// What the hosting entry point reports when a unit of work fails.
#[derive(Debug, Clone, PartialEq, Eq)]
pub enum HandlerError {
    /// The input was read but could not be processed.
    Unknown(String),
    /// The input could not be downloaded.
    S3Error(String),
}

impl HandlerError {
    pub open spec fn message_text(&self) -> Seq<char> {
        match self {
            HandlerError::Unknown(cause) => "generic error "@ + cause@,
            HandlerError::S3Error(cause) => "error downloading log file "@ + cause@,
        }
    }

    /// The name under which the host files every error of this type.
    pub fn error_type(&self) -> (name: &'static str)
        ensures
            name@ == "HandlerError"@,
    {
        "HandlerError"
    }

    /// The error as one line of text.
    pub fn message(&self) -> (text: String)
        ensures
            text@ == self.message_text(),
    {
        match self {
            HandlerError::Unknown(cause) => String::from_str("generic error ").concat(
                cause.as_str(),
            ),
            HandlerError::S3Error(cause) => String::from_str("error downloading log file ").concat(
                cause.as_str(),
            ),
        }
    }
}

} // verus!
