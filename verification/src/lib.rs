//! Filtering of load-balancer access logs: decoding of log lines, evaluation
//! of filter expressions, and routing of matching lines to batching sinks.

pub mod decode;
pub mod error;
pub mod finalize;
pub mod log_processing;
pub mod output;
pub mod pipelines;
pub mod text;
pub mod types;

pub use crate::log_processing::process_log;
pub use crate::pipelines::{compile_pipelines, Pipeline, Pipelines};
