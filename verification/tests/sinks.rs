use elb_logs_to_cloudwatch::decode::decode_row;
use elb_logs_to_cloudwatch::error::DeliveryError;
use elb_logs_to_cloudwatch::output::buffer::{Batch, INLINE_LINES};
use elb_logs_to_cloudwatch::output::cloudwatch_logs::BUFFER_SIZE;
use elb_logs_to_cloudwatch::output::cloudwatch_metric::CLOUDWATCH_BATCH_SIZE;
use elb_logs_to_cloudwatch::output::stdout::STDOUT_BATCH_SIZE;
use elb_logs_to_cloudwatch::output::{
    CloudwatchDimension, CloudwatchLogOutput, CloudwatchMetricOutput, DeliveryRequest, Dimension,
    LogEvent, MetricDatum, OutputType, Progress, Receipt, StdoutOutput, VoidOutput,
};
use elb_logs_to_cloudwatch::types::{RequestLogLine, Timestamp, MAX_SECONDS};

fn line_at(time: &str, client: &str) -> RequestLogLine {
    let text = format!(
        "http {} app/front {} 10.0.0.1:80 0.000 0.001 0.000 200 200 34 366 request agent - - arn:aws:elasticloadbalancing:us-east-2:123456789012:targetgroup/my-targets/73e2d6bc24d8a067 trace - - 0 2020-02-10T10:00:00.099000Z forward -",
        time, client
    );
    let fields: Vec<String> = text.split(' ').map(String::from).collect();
    decode_row(&fields).unwrap()
}

fn numbered(n: usize) -> RequestLogLine {
    line_at(&format!("2020-02-10T10:00:{:02}.000000Z", n % 60), &format!("client-{}", n))
}

fn without_target_group(n: usize) -> RequestLogLine {
    let mut line = numbered(n);
    line.target_group_arn = "-".to_string();
    line
}

fn receipt(token: Option<&str>) -> Receipt {
    Receipt { next_sequence_token: token.map(String::from) }
}

fn clients(lines: &[RequestLogLine]) -> Vec<String> {
    lines.iter().map(|line| line.client.clone()).collect()
}

#[test]
fn a_batch_has_a_limit_within_bounds() {
    assert!(Batch::new(0).is_none());
    assert!(Batch::new(INLINE_LINES + 1).is_none());
    let batch = Batch::new(INLINE_LINES).unwrap();
    assert_eq!(batch.maximum_buffer_size(), 20);
    assert_eq!(batch.buffer_len(), 0);
    assert!(batch.buffer_is_empty());
    assert!(!batch.is_full());
    assert_eq!(Batch::new(1).unwrap().maximum_buffer_size(), 1);
}

#[test]
fn a_batch_takes_lines_up_to_its_limit() {
    let mut batch = Batch::new(3).unwrap();
    assert!(batch.add_to_queue(&numbered(1)));
    assert!(!batch.buffer_is_empty());
    assert!(batch.add_to_queue(&numbered(2)));
    assert!(!batch.is_full());
    assert!(batch.add_to_queue(&numbered(3)));
    assert!(batch.is_full());
    assert_eq!(batch.buffer_len(), 3);
    assert!(!batch.add_to_queue(&numbered(4)));
    assert_eq!(batch.buffer_len(), 3);
    assert_eq!(clients(&batch.to_vec()), vec!["client-1", "client-2", "client-3"]);
    assert_eq!(batch.get(0), &numbered(1));
    assert_eq!(batch.get(2), &numbered(3));
    batch.buffer_clear();
    assert_eq!(batch.buffer_len(), 0);
    assert!(batch.buffer_is_empty());
    assert_eq!(batch.maximum_buffer_size(), 3);
    assert!(batch.to_vec().is_empty());
    assert!(batch.add_to_queue(&numbered(5)));
    assert_eq!(clients(&batch.to_vec()), vec!["client-5"]);
}

#[test]
fn a_batch_holds_twenty_lines() {
    let mut batch = Batch::new(CLOUDWATCH_BATCH_SIZE).unwrap();
    for n in 0..20 {
        assert!(batch.add_to_queue(&numbered(n)));
    }
    assert!(batch.is_full());
    assert!(!batch.add_to_queue(&numbered(20)));
    let held = batch.to_vec();
    assert_eq!(held.len(), 20);
    for n in 0..20 {
        assert_eq!(held[n], numbered(n));
    }
}

#[test]
fn the_void_sink_takes_everything_and_keeps_nothing() {
    let sink = VoidOutput;
    for n in 0..50 {
        assert_eq!(sink.process_line(&numbered(n)), Progress::Done);
    }
    assert_eq!(sink.flush(), Progress::Done);
    let mut output = OutputType::Void(VoidOutput);
    assert_eq!(output.process_line(&numbered(1)), Progress::Done);
    assert_eq!(output.flush(), Progress::Done);
    assert_eq!(output.finalize(), Progress::Done);
    output.delivered(receipt(None));
    assert_eq!(output.finalize(), Progress::Done);
}

#[test]
fn the_console_sink_writes_the_line_it_held_back() {
    assert_eq!(STDOUT_BATCH_SIZE, 1);
    let mut sink = StdoutOutput::new();
    assert_eq!(sink.flush(), Progress::Done);
    assert_eq!(sink.process_line(&numbered(1)), Progress::Done);
    let blocked = sink.process_line(&numbered(2));
    assert_eq!(
        blocked,
        Progress::Deliver(DeliveryRequest::WriteLines { lines: vec![numbered(1)] })
    );
    assert_eq!(sink.flush(), blocked);
    sink.delivered();
    assert_eq!(sink.flush(), Progress::Done);
    assert_eq!(sink.process_line(&numbered(2)), Progress::Done);
    assert_eq!(
        sink.flush(),
        Progress::Deliver(DeliveryRequest::WriteLines { lines: vec![numbered(2)] })
    );
}

#[test]
fn push_at_capacity_asks_for_one_flush_before_the_line_is_taken() {
    let mut sink = CloudwatchMetricOutput::new("ns".to_string(), "hits".to_string());
    for n in 0..CLOUDWATCH_BATCH_SIZE {
        assert_eq!(sink.process_line(&numbered(n)), Progress::Done);
        assert_eq!(sink.batch.buffer_len(), n % CLOUDWATCH_BATCH_SIZE + 1);
    }
    assert_eq!(sink.batch.buffer_len(), 20);
    let blocked = sink.process_line(&numbered(20));
    match &blocked {
        Progress::Deliver(DeliveryRequest::PutMetricData { namespace, metric_data }) => {
            assert_eq!(namespace, "ns");
            assert_eq!(metric_data.len(), 20);
        }
        other => panic!("no delivery: {:?}", other),
    }
    assert_eq!(sink.batch.buffer_len(), 20);
    assert_eq!(sink.process_line(&numbered(20)), blocked);
    sink.delivered();
    assert_eq!(sink.batch.buffer_len(), 0);
    assert_eq!(sink.process_line(&numbered(20)), Progress::Done);
    assert_eq!(sink.batch.buffer_len(), 20 % CLOUDWATCH_BATCH_SIZE + 1);
    assert_eq!(clients(&sink.batch.to_vec()), vec!["client-20"]);
}

#[test]
fn finalize_on_an_empty_sink_asks_for_nothing() {
    let metric = OutputType::CloudwatchMetric(CloudwatchMetricOutput::new(
        "ns".to_string(),
        "hits".to_string(),
    ));
    assert_eq!(metric.finalize(), Progress::Done);
    let log = OutputType::CloudwatchLog(CloudwatchLogOutput::with_suffix(
        "group".to_string(),
        "stream".to_string(),
        "suffix".to_string(),
    ));
    assert_eq!(log.finalize(), Progress::Done);
    assert_eq!(OutputType::Stdout(StdoutOutput::new()).finalize(), Progress::Done);
    assert_eq!(OutputType::Void(VoidOutput).finalize(), Progress::Done);
}

#[test]
fn finalize_delivers_every_line_left_in_one_batch() {
    let mut sink = OutputType::CloudwatchMetric(CloudwatchMetricOutput::new(
        "ns".to_string(),
        "hits".to_string(),
    ));
    for n in 0..7 {
        assert_eq!(sink.process_line(&numbered(n)), Progress::Done);
    }
    match sink.finalize() {
        Progress::Deliver(DeliveryRequest::PutMetricData { metric_data, .. }) => {
            assert_eq!(metric_data.len(), 7);
        }
        other => panic!("no delivery: {:?}", other),
    }
    sink.delivered(receipt(None));
    assert_eq!(sink.finalize(), Progress::Done);
    match sink {
        OutputType::CloudwatchMetric(inner) => assert!(inner.batch.buffer_is_empty()),
        _ => panic!("another kind of sink"),
    }
}

#[test]
fn a_metric_is_made_of_a_line() {
    let sink = CloudwatchMetricOutput::new("ns".to_string(), "hits".to_string());
    let datum = sink.log_line_to_metric(&numbered(3)).unwrap();
    assert_eq!(
        datum,
        MetricDatum {
            dimensions: vec![
                Dimension {
                    name: "TargetGroup".to_string(),
                    value: "targetgroup/my-targets/73e2d6bc24d8a067".to_string(),
                },
                Dimension { name: "LoadBalancer".to_string(), value: "app/front".to_string() },
            ],
            metric_name: "hits".to_string(),
            timestamp: "2020-02-10T10:00:00.099+00:00".to_string(),
            unit: "Count".to_string(),
            value: 1,
        }
    );
}

#[test]
fn the_dimension_is_the_last_part_of_the_target_group() {
    let sink = CloudwatchMetricOutput::new("ns".to_string(), "hits".to_string());
    assert_eq!(
        sink.cloudwatch_dimension(&numbered(1)),
        Ok(CloudwatchDimension {
            load_balancer: "app/front".to_string(),
            target_group: "targetgroup/my-targets/73e2d6bc24d8a067".to_string(),
        })
    );
    let mut plain = numbered(1);
    plain.target_group_arn = "no-colon".to_string();
    assert_eq!(sink.cloudwatch_dimension(&plain).unwrap().target_group, "no-colon");
    plain.target_group_arn = "ends:".to_string();
    assert_eq!(sink.cloudwatch_dimension(&plain).unwrap().target_group, "");
    plain.target_group_arn = String::new();
    assert_eq!(sink.cloudwatch_dimension(&plain).unwrap().target_group, "");
    plain.target_group_arn = "--".to_string();
    assert_eq!(sink.cloudwatch_dimension(&plain).unwrap().target_group, "--");
    assert_eq!(
        sink.cloudwatch_dimension(&without_target_group(1)),
        Err(DeliveryError::InvalidTargetGroup)
    );
    assert_eq!(
        sink.log_line_to_metric(&without_target_group(1)),
        Err(DeliveryError::InvalidTargetGroup)
    );
}

#[test]
fn a_line_without_target_group_fails_the_batch_and_leaves_it_intact() {
    let mut sink = CloudwatchMetricOutput::new("ns".to_string(), "hits".to_string());
    assert_eq!(sink.process_line(&numbered(1)), Progress::Done);
    assert_eq!(sink.process_line(&without_target_group(2)), Progress::Done);
    assert_eq!(sink.process_line(&numbered(3)), Progress::Done);
    let failure =
        Progress::Failed(DeliveryError::InvalidTargetGroup);
    assert_eq!(sink.flush(), failure);
    assert_eq!(
        sink.process_log_lines(),
        Err(DeliveryError::InvalidTargetGroup)
    );
    assert_eq!(sink.batch.buffer_len(), 3);
    assert_eq!(sink.flush(), failure);
}

#[test]
fn a_time_beyond_the_calendar_fails_the_batch() {
    let mut sink = CloudwatchMetricOutput::new("ns".to_string(), "hits".to_string());
    let mut late = numbered(1);
    late.request_creation_time = Timestamp::new(MAX_SECONDS, 0).unwrap();
    assert_eq!(sink.log_line_to_metric(&late), Err(DeliveryError::TimestampOutOfRange));
    assert!(sink.cloudwatch_dimension(&late).is_ok());
    sink.process_line(&numbered(2));
    sink.process_line(&late);
    assert_eq!(sink.flush(), Progress::Failed(DeliveryError::TimestampOutOfRange));
    let mut both = late.clone();
    both.target_group_arn = "-".to_string();
    assert_eq!(sink.log_line_to_metric(&both), Err(DeliveryError::InvalidTargetGroup));
}

#[test]
fn metrics_keep_the_order_of_the_lines() {
    let mut sink = CloudwatchMetricOutput::new("ns".to_string(), "hits".to_string());
    let mut first = numbered(1);
    first.elb_name = "app/one".to_string();
    let mut second = numbered(2);
    second.elb_name = "app/two".to_string();
    sink.process_line(&first);
    sink.process_line(&second);
    match sink.process_log_lines().unwrap() {
        DeliveryRequest::PutMetricData { namespace, metric_data } => {
            assert_eq!(namespace, "ns");
            assert_eq!(metric_data.len(), 2);
            assert_eq!(metric_data[0].dimensions[1].value, "app/one");
            assert_eq!(metric_data[1].dimensions[1].value, "app/two");
            assert_eq!(metric_data[0], sink.log_line_to_metric(&first).unwrap());
        }
        other => panic!("another request: {:?}", other),
    }
}

#[test]
fn a_log_sink_names_its_stream() {
    let sink = CloudwatchLogOutput::with_suffix(
        "group".to_string(),
        "elb".to_string(),
        "0123".to_string(),
    );
    assert_eq!(sink.get_full_stream_name(), "elb-0123");
    assert_eq!(sink.group_name, "group");
    assert_eq!(sink.sequence_token, None);
    assert!(!sink.stream_created);
    assert_eq!(BUFFER_SIZE, 10);
    assert_eq!(sink.batch.maximum_buffer_size(), 10);
}

#[test]
fn a_fresh_log_sink_draws_its_own_suffix() {
    let one = CloudwatchLogOutput::new("group".to_string(), "elb".to_string());
    let other = CloudwatchLogOutput::new("group".to_string(), "elb".to_string());
    assert_eq!(one.stream_name_suffix.len(), 36);
    assert_ne!(one.stream_name_suffix, other.stream_name_suffix);
    assert_eq!(one.get_full_stream_name(), format!("elb-{}", one.stream_name_suffix));
    assert_ne!(one.stream_name_suffix, "elb");
}

#[test]
fn the_stream_is_created_before_the_first_batch() {
    let mut sink = CloudwatchLogOutput::with_suffix(
        "group".to_string(),
        "elb".to_string(),
        "0123".to_string(),
    );
    assert_eq!(sink.flush(), Progress::Done);
    let create = DeliveryRequest::CreateLogStream {
        log_group_name: "group".to_string(),
        log_stream_name: "elb-0123".to_string(),
    };
    assert_eq!(sink.ensure_stream_exists(), Some(create.clone()));
    assert_eq!(sink.process_line(&numbered(1)), Progress::Done);
    assert_eq!(sink.flush(), Progress::Deliver(create.clone()));
    assert_eq!(sink.flush(), Progress::Deliver(create));
    sink.delivered(receipt(Some("ignored")));
    assert!(sink.stream_created);
    assert_eq!(sink.sequence_token, None);
    assert_eq!(sink.batch.buffer_len(), 1);
    assert_eq!(sink.ensure_stream_exists(), None);
    match sink.flush() {
        Progress::Deliver(DeliveryRequest::PutLogEvents {
            log_events,
            log_group_name,
            log_stream_name,
            sequence_token,
        }) => {
            assert_eq!(log_group_name, "group");
            assert_eq!(log_stream_name, "elb-0123");
            assert_eq!(sequence_token, None);
            assert_eq!(log_events, vec![LogEvent { line: numbered(1), timestamp: 1581328801000 }]);
        }
        other => panic!("no events: {:?}", other),
    }
    sink.delivered(receipt(Some("token-1")));
    assert_eq!(sink.batch.buffer_len(), 0);
    assert_eq!(sink.sequence_token, Some("token-1".to_string()));
    assert_eq!(sink.flush(), Progress::Done);
    sink.delivered(receipt(Some("stray")));
    assert_eq!(sink.sequence_token, Some("token-1".to_string()));
}

#[test]
fn the_token_of_one_batch_goes_out_with_the_next() {
    let mut sink = CloudwatchLogOutput::with_suffix(
        "group".to_string(),
        "elb".to_string(),
        "0123".to_string(),
    );
    sink.process_line(&numbered(1));
    sink.delivered(receipt(None));
    sink.delivered(receipt(Some("first")));
    sink.process_line(&numbered(2));
    match sink.process_log_lines() {
        DeliveryRequest::PutLogEvents { sequence_token, .. } => {
            assert_eq!(sequence_token, Some("first".to_string()));
        }
        other => panic!("another request: {:?}", other),
    }
    sink.delivered(receipt(None));
    assert_eq!(sink.sequence_token, None);
}

#[test]
fn events_are_sorted_by_time_and_equal_times_keep_their_order() {
    let mut sink = CloudwatchLogOutput::with_suffix(
        "group".to_string(),
        "elb".to_string(),
        "0123".to_string(),
    );
    let lines = vec![
        line_at("2020-02-10T10:00:05.000000Z", "e"),
        line_at("2020-02-10T10:00:01.000000Z", "a1"),
        line_at("2020-02-10T10:00:03.500000Z", "c"),
        line_at("2020-02-10T10:00:01.000000Z", "a2"),
        line_at("2020-02-10T10:00:03.499999Z", "b"),
        line_at("2020-02-10T09:59:59.999999Z", "first"),
        line_at("2020-02-10T10:00:01.000000Z", "a3"),
        line_at("2020-02-10T10:00:04.000000Z", "d"),
    ];
    for line in &lines {
        assert_eq!(sink.process_line(line), Progress::Done);
    }
    match sink.process_log_lines() {
        DeliveryRequest::PutLogEvents { log_events, .. } => {
            let order: Vec<&str> = log_events.iter().map(|e| e.line.client.as_str()).collect();
            assert_eq!(order, vec!["first", "a1", "a2", "a3", "b", "c", "d", "e"]);
            let times: Vec<i64> = log_events.iter().map(|e| e.timestamp).collect();
            assert_eq!(
                times,
                vec![
                    1581328799999,
                    1581328801000,
                    1581328801000,
                    1581328801000,
                    1581328803499,
                    1581328803500,
                    1581328804000,
                    1581328805000
                ]
            );
            assert_eq!(log_events[4].line, lines[4]);
        }
        other => panic!("another request: {:?}", other),
    }
    assert_eq!(clients(&sink.batch.to_vec()), vec!["e", "a1", "c", "a2", "b", "first", "a3", "d"]);
}

#[test]
fn an_event_holds_the_line_and_its_milliseconds() {
    let sink = CloudwatchLogOutput::with_suffix(
        "group".to_string(),
        "elb".to_string(),
        "0123".to_string(),
    );
    let line = line_at("2020-02-10T10:00:03.396999Z", "client");
    let event = sink.process_log_line(&line);
    assert_eq!(event.timestamp, 1581328803396);
    assert_eq!(event.line, line);
}

#[test]
fn a_full_log_sink_blocks_until_both_deliveries_are_made() {
    let mut sink = OutputType::CloudwatchLog(CloudwatchLogOutput::with_suffix(
        "group".to_string(),
        "elb".to_string(),
        "0123".to_string(),
    ));
    for n in 0..BUFFER_SIZE {
        assert_eq!(sink.process_line(&numbered(n)), Progress::Done);
    }
    assert!(matches!(
        sink.process_line(&numbered(10)),
        Progress::Deliver(DeliveryRequest::CreateLogStream { .. })
    ));
    sink.delivered(receipt(None));
    match sink.process_line(&numbered(10)) {
        Progress::Deliver(DeliveryRequest::PutLogEvents { log_events, .. }) => {
            assert_eq!(log_events.len(), 10);
        }
        other => panic!("no events: {:?}", other),
    }
    sink.delivered(receipt(Some("t")));
    assert_eq!(sink.process_line(&numbered(10)), Progress::Done);
    match sink.flush() {
        Progress::Deliver(DeliveryRequest::PutLogEvents { log_events, sequence_token, .. }) => {
            assert_eq!(log_events.len(), 1);
            assert_eq!(log_events[0].line, numbered(10));
            assert_eq!(sequence_token, Some("t".to_string()));
        }
        other => panic!("no events: {:?}", other),
    }
}
