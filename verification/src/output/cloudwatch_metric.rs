//! The sink that counts matching lines as a metric.

use crate::error::DeliveryError;
use crate::output::buffer::{lemma_views_empty, lemma_views_push, views, Batch};
use crate::output::{confirmed, offered, DeliveryRequest, Dimension, MetricDatum, Progress, SinkView};
use crate::text::{is_single, last_segment, last_segment_start};
use crate::types::{rfc3339_of, LineView, RequestLogLine};
use vstd::prelude::*;

verus! {

/// The number of data points that one delivery takes.
pub const CLOUDWATCH_BATCH_SIZE: usize = 20;

/// A sink that records one data point of a metric for every line.
#[derive(Debug)]
pub struct CloudwatchMetricOutput {
    pub namespace: String,
    pub metric_name: String,
    /// The lines that wait for delivery.
    pub batch: Batch,
}

/// The dimensions that a line's data point is filed under.
#[derive(Debug, Clone, PartialEq, Eq)]
pub struct CloudwatchDimension {
    pub load_balancer: String,
    pub target_group: String,
}

/// Whether the line names a target group. A request that reached no target
/// has `-` in that field.
pub open spec fn has_target_group(line: LineView) -> bool {
    !(line.target_group_arn =~= seq!['-'])
}

/// The last of the parts of a resource name that `:` separates.
pub open spec fn target_group_of(arn: Seq<char>) -> Seq<char> {
    arn.skip(last_segment_start(arn, ':'))
}

/// Whether a data point can be made of the line.
pub open spec fn converts(line: LineView) -> bool {
    has_target_group(line) && rfc3339_of(
        line.request_creation_time.0,
        line.request_creation_time.1,
    ) is Some
}

/// Why no data point can be made of a line of which none can be made.
pub open spec fn conversion_error(line: LineView) -> DeliveryError {
    if !has_target_group(line) {
        DeliveryError::InvalidTargetGroup
    } else {
        DeliveryError::TimestampOutOfRange
    }
}

/// The error of the first line, from `from` on, of which no data point can
/// be made.
pub open spec fn first_failure(lines: Seq<RequestLogLine>, from: int) -> Option<DeliveryError>
    decreases lines.len() - from,
{
    if from < 0 || from >= lines.len() {
        None
    } else if !converts(lines[from]@) {
        Some(conversion_error(lines[from]@))
    } else {
        first_failure(lines, from + 1)
    }
}

/// Whether `datum` is the data point of the line: the count 1 at the time
/// the request was made, filed under the line's target group and load
/// balancer.
pub open spec fn is_metric_of(datum: MetricDatum, line: LineView, metric_name: Seq<char>) -> bool {
    &&& datum.dimensions@.len() == 2
    &&& datum.dimensions@[0].name@ == "TargetGroup"@
    &&& datum.dimensions@[0].value@ == target_group_of(line.target_group_arn)
    &&& datum.dimensions@[1].name@ == "LoadBalancer"@
    &&& datum.dimensions@[1].value@ == line.elb_name
    &&& datum.metric_name@ == metric_name
    &&& datum.value == 1
    &&& datum.unit@ == "Count"@
    &&& rfc3339_of(line.request_creation_time.0, line.request_creation_time.1) == Some(
        datum.timestamp@,
    )
}

impl View for CloudwatchMetricOutput {
    type V = SinkView;

    open spec fn view(&self) -> SinkView {
        SinkView {
            capacity: self.batch.capacity(),
            lines: views(self.batch.lines()),
            unprepared: false,
            sequenced: false,
            sequence_token: None,
        }
    }
}

impl CloudwatchMetricOutput {
    /// The lines held, oldest first.
    pub open spec fn lines(&self) -> Seq<RequestLogLine> {
        self.batch.lines()
    }

    /// Whether `data` holds the data point of every line held, in order.
    pub open spec fn is_batch(&self, data: Seq<MetricDatum>) -> bool {
        &&& data.len() == self.lines().len()
        &&& forall|i: int|
            0 <= i < data.len() ==> is_metric_of(#[trigger] data[i], self.lines()[i]@, self.metric_name@)
    }

    /// What [`CloudwatchMetricOutput::process_log_lines`] returns in this
    /// state.
    pub open spec fn prepares(&self, res: Result<DeliveryRequest, DeliveryError>) -> bool {
        match res {
            Ok(request) => {
                &&& first_failure(self.lines(), 0) is None
                &&& request matches DeliveryRequest::PutMetricData { namespace, metric_data }
                &&& namespace@ == self.namespace@
                &&& self.is_batch(metric_data@)
            },
            Err(error) => first_failure(self.lines(), 0) == Some(error),
        }
    }

    /// What [`CloudwatchMetricOutput::flush`] answers in this state.
    pub open spec fn flushes_with(&self, progress: Progress) -> bool {
        if self.lines().len() == 0 {
            progress is Done
        } else {
            match progress {
                Progress::Done => false,
                Progress::Deliver(request) => self.prepares(Ok(request)),
                Progress::Failed(error) => self.prepares(Err(error)),
            }
        }
    }

    pub fn new(namespace: String, metric_name: String) -> (sink: CloudwatchMetricOutput)
        ensures
            sink.namespace == namespace,
            sink.metric_name == metric_name,
            sink@ == (SinkView {
                capacity: CLOUDWATCH_BATCH_SIZE as nat,
                lines: Seq::empty(),
                unprepared: false,
                sequenced: false,
                sequence_token: None,
            }),
            sink.lines().len() == 0,
    {
        let batch = Batch::new(CLOUDWATCH_BATCH_SIZE).unwrap();
        proof {
            lemma_views_empty(batch.lines());
        }
        CloudwatchMetricOutput { namespace, metric_name, batch }
    }

    /// The dimensions of a line: its load balancer, and the last part of its
    /// target group's name.
    pub fn cloudwatch_dimension(&self, line: &RequestLogLine) -> (res: Result<
        CloudwatchDimension,
        DeliveryError,
    >)
        ensures
            match res {
                Ok(dimension) => has_target_group(line@) && dimension.load_balancer@
                    == line.elb_name@ && dimension.target_group@ == target_group_of(
                    line.target_group_arn@,
                ),
                Err(error) => !has_target_group(line@) && error == conversion_error(line@),
            },
    {
        if is_single(line.target_group_arn.as_str(), '-') {
            return Err(DeliveryError::InvalidTargetGroup);
        }
        Ok(
            CloudwatchDimension {
                load_balancer: line.elb_name.clone(),
                target_group: last_segment(line.target_group_arn.as_str(), ':'),
            },
        )
    }

    /// The data point of a line.
    pub fn log_line_to_metric(&self, line: &RequestLogLine) -> (res: Result<
        MetricDatum,
        DeliveryError,
    >)
        ensures
            match res {
                Ok(datum) => converts(line@) && is_metric_of(datum, line@, self.metric_name@),
                Err(error) => !converts(line@) && error == conversion_error(line@),
            },
    {
        let dimension = self.cloudwatch_dimension(line)?;
        let timestamp = match line.request_creation_time.to_rfc3339() {
            Some(timestamp) => timestamp,
            None => {
                return Err(DeliveryError::TimestampOutOfRange);
            },
        };
        let dimensions = vec![
            Dimension { name: "TargetGroup".to_owned(), value: dimension.target_group },
            Dimension { name: "LoadBalancer".to_owned(), value: dimension.load_balancer },
        ];
        Ok(
            MetricDatum {
                dimensions,
                metric_name: self.metric_name.clone(),
                timestamp,
                unit: "Count".to_owned(),
                value: 1,
            },
        )
    }

    /// The delivery of every line held, as data points in the order of the
    /// lines; the error of the first line of which none can be made.
    pub fn process_log_lines(&self) -> (res: Result<DeliveryRequest, DeliveryError>)
        ensures
            self.prepares(res),
    {
        let mut metric_data: Vec<MetricDatum> = Vec::new();
        let len = self.batch.buffer_len();
        let mut i: usize = 0;
        while i < len
            invariant
                i <= len,
                len == self.lines().len(),
                metric_data@.len() == i,
                first_failure(self.lines(), 0) == first_failure(self.lines(), i as int),
                forall|j: int|
                    0 <= j < i ==> is_metric_of(
                        #[trigger] metric_data@[j],
                        self.lines()[j]@,
                        self.metric_name@,
                    ),
            decreases len - i,
        {
            match self.log_line_to_metric(self.batch.get(i)) {
                Ok(datum) => {
                    metric_data.push(datum);
                },
                Err(error) => {
                    return Err(error);
                },
            }
            i = i + 1;
        }
        Ok(DeliveryRequest::PutMetricData { namespace: self.namespace.clone(), metric_data })
    }

    /// The delivery that empties the buffer, if it holds anything.
    pub fn flush(&self) -> (progress: Progress)
        ensures
            self.flushes_with(progress),
            self@.lines == views(self.lines()),
            progress is Done <==> self@.lines.len() == 0,
    {
        proof {
            lemma_views_empty(self.lines());
        }
        if self.batch.buffer_is_empty() {
            return Progress::Done;
        }
        match self.process_log_lines() {
            Ok(request) => Progress::Deliver(request),
            Err(error) => Progress::Failed(error),
        }
    }

    /// Takes the line if there is room; else asks for the delivery that
    /// makes room, and takes nothing.
    pub fn process_line(&mut self, line: &RequestLogLine) -> (progress: Progress)
        ensures
            final(self).namespace == old(self).namespace,
            final(self).metric_name == old(self).metric_name,
            match offered(old(self)@, line@) {
                Some(after) => progress is Done && final(self)@ == after && final(self).lines()
                    == old(self).lines().push(*line),
                None => *final(self) == *old(self) && old(self).flushes_with(progress) && !(progress is Done),
            },
    {
        if self.batch.add_to_queue(line) {
            proof {
                lemma_views_push(old(self).lines(), *line);
            }
            Progress::Done
        } else {
            self.flush()
        }
    }

    /// Takes note that the delivery which [`CloudwatchMetricOutput::flush`]
    /// asks for was made.
    pub fn delivered(&mut self)
        ensures
            final(self).namespace == old(self).namespace,
            final(self).metric_name == old(self).metric_name,
            final(self)@ == confirmed(old(self)@, None),
            final(self).lines().len() == 0,
    {
        self.batch.buffer_clear();
        proof {
            lemma_views_empty(old(self).lines());
            lemma_views_empty(self.lines());
        }
    }
}

} // verus!
