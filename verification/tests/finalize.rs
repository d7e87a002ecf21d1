use elb_logs_to_cloudwatch::decode::decode_row;
use elb_logs_to_cloudwatch::error::{DeliveryError, ProcessError};
use elb_logs_to_cloudwatch::finalize::{finalize, Closing, FinalStep};
use elb_logs_to_cloudwatch::output::{
    CloudwatchLogOutput, CloudwatchMetricOutput, DeliveryRequest, OutputType, Progress, Receipt,
    StdoutOutput, VoidOutput,
};
use elb_logs_to_cloudwatch::pipelines::{
    compile_pipelines, FilterScheme, Pipeline, Pipelines, Predicate,
};
use elb_logs_to_cloudwatch::types::RequestLogLine;

fn numbered(n: usize, target_group: &str) -> RequestLogLine {
    let text = format!(
        "http 2020-02-10T10:00:{:02}.000000Z app/front client-{} 10.0.0.1:80 0.000 0.001 0.000 200 200 34 366 request agent - - {} trace - - 0 2020-02-10T10:00:00.099000Z forward -",
        n % 60,
        n,
        target_group
    );
    let fields: Vec<String> = text.split(' ').map(String::from).collect();
    decode_row(&fields).unwrap()
}

fn filled(mut output: OutputType, lines: &[RequestLogLine]) -> Pipeline {
    for line in lines {
        assert_eq!(output.process_line(line), Progress::Done);
    }
    Pipeline { filter: "elb_status_code == 200".to_string(), output }
}

fn compiled(scheme: &FilterScheme, pipelines: Vec<Pipeline>) -> Vec<(Pipeline, Predicate<'_>)> {
    match compile_pipelines(Pipelines::new(pipelines), scheme) {
        Ok(compiled) => compiled,
        Err((position, error)) => panic!("pipeline {} is invalid: {:?}", position, error),
    }
}

fn metric_sink() -> OutputType {
    OutputType::CloudwatchMetric(CloudwatchMetricOutput::new("ns".to_string(), "hits".to_string()))
}

fn log_sink() -> OutputType {
    OutputType::CloudwatchLog(CloudwatchLogOutput::with_suffix(
        "group".to_string(),
        "elb".to_string(),
        "s".to_string(),
    ))
}

fn held(output: &OutputType) -> usize {
    match output {
        OutputType::CloudwatchMetric(sink) => sink.batch.buffer_len(),
        OutputType::CloudwatchLog(sink) => sink.batch.buffer_len(),
        OutputType::Stdout(sink) => sink.batch.buffer_len(),
        OutputType::Void(_) => 0,
    }
}

fn flush_all(
    pipelines: &mut Vec<(Pipeline, Predicate<'_>)>,
    failing: &[usize],
) -> (Vec<(usize, DeliveryRequest)>, Option<ProcessError>) {
    let mut closing = Closing::new();
    let mut deliveries = Vec::new();
    let mut reply = None;
    loop {
        match finalize(&mut closing, pipelines, reply.take()) {
            FinalStep::Finished => break,
            FinalStep::Deliver { pipeline, request } => {
                deliveries.push((pipeline, request));
                reply = Some(if failing.contains(&pipeline) {
                    Err(DeliveryError::Rejected { reason: format!("sink {} is down", pipeline) })
                } else {
                    Ok(Receipt { next_sequence_token: None })
                });
            }
        }
    }
    assert_eq!(closing.position, pipelines.len());
    (deliveries, closing.failure)
}

#[test]
fn empty_sinks_are_finalized_without_a_delivery() {
    let scheme = FilterScheme::new();
    let mut pipelines = compiled(&scheme, vec![
        filled(metric_sink(), &[]),
        filled(log_sink(), &[]),
        filled(OutputType::Stdout(StdoutOutput::new()), &[]),
        filled(OutputType::Void(VoidOutput), &[]),
    ]);
    let mut closing = Closing::new();
    assert_eq!(finalize(&mut closing, &mut pipelines, None), FinalStep::Finished);
    assert_eq!(closing, Closing { position: 4, failure: None });
    assert_eq!(finalize(&mut closing, &mut pipelines, None), FinalStep::Finished);
    let mut none = compiled(&scheme, Vec::new());
    let mut fresh = Closing::new();
    assert_eq!(finalize(&mut fresh, &mut none, None), FinalStep::Finished);
    assert_eq!(fresh, Closing { position: 0, failure: None });
}

#[test]
fn every_sink_delivers_what_it_holds_and_is_empty_then() {
    let scheme = FilterScheme::new();
    let tg = "arn:aws:x:targetgroup/a/b";
    let mut pipelines = compiled(&scheme, vec![
        filled(metric_sink(), &[numbered(1, tg), numbered(2, tg), numbered(3, tg)]),
        filled(OutputType::Void(VoidOutput), &[numbered(4, tg)]),
        filled(log_sink(), &[numbered(6, tg), numbered(5, tg)]),
        filled(metric_sink(), &[]),
        filled(OutputType::Stdout(StdoutOutput::new()), &[numbered(7, tg)]),
    ]);
    let (deliveries, failure) = flush_all(&mut pipelines, &[]);
    assert_eq!(failure, None);
    let order: Vec<usize> = deliveries.iter().map(|(pipeline, _)| *pipeline).collect();
    assert_eq!(order, vec![0, 2, 2, 4]);
    match &deliveries[0].1 {
        DeliveryRequest::PutMetricData { metric_data, .. } => assert_eq!(metric_data.len(), 3),
        other => panic!("another request: {:?}", other),
    }
    assert!(matches!(deliveries[1].1, DeliveryRequest::CreateLogStream { .. }));
    match &deliveries[2].1 {
        DeliveryRequest::PutLogEvents { log_events, .. } => {
            assert_eq!(log_events.len(), 2);
            assert_eq!(log_events[0].line, numbered(5, tg));
            assert_eq!(log_events[1].line, numbered(6, tg));
        }
        other => panic!("another request: {:?}", other),
    }
    assert_eq!(
        deliveries[3].1,
        DeliveryRequest::WriteLines { lines: vec![numbered(7, tg)] }
    );
    for (pipeline, _) in &pipelines {
        assert_eq!(held(&pipeline.output), 0);
    }
}

#[test]
fn a_failing_sink_does_not_keep_the_others_from_being_flushed() {
    let scheme = FilterScheme::new();
    let tg = "arn:aws:x:targetgroup/a/b";
    let mut pipelines = compiled(&scheme, vec![
        filled(metric_sink(), &[numbered(1, tg)]),
        filled(log_sink(), &[numbered(2, tg)]),
        filled(metric_sink(), &[numbered(3, "-")]),
        filled(OutputType::Stdout(StdoutOutput::new()), &[numbered(4, tg)]),
    ]);
    let (deliveries, failure) = flush_all(&mut pipelines, &[1]);
    let order: Vec<usize> = deliveries.iter().map(|(pipeline, _)| *pipeline).collect();
    assert_eq!(order, vec![0, 1, 3]);
    assert_eq!(
        failure,
        Some(ProcessError::Delivery {
            pipeline: 1,
            error: DeliveryError::Rejected { reason: "sink 1 is down".to_string() },
        })
    );
    assert_eq!(held(&pipelines[0].0.output), 0);
    assert_eq!(held(&pipelines[1].0.output), 1);
    assert_eq!(held(&pipelines[2].0.output), 1);
    assert_eq!(held(&pipelines[3].0.output), 0);
}

#[test]
fn the_first_failure_is_the_one_reported() {
    let scheme = FilterScheme::new();
    let tg = "arn:aws:x:targetgroup/a/b";
    let mut pipelines = compiled(&scheme, vec![
        filled(metric_sink(), &[numbered(1, tg), numbered(2, "-")]),
        filled(OutputType::Stdout(StdoutOutput::new()), &[numbered(3, tg)]),
    ]);
    let (deliveries, failure) = flush_all(&mut pipelines, &[1]);
    assert_eq!(deliveries.len(), 1);
    assert_eq!(deliveries[0].0, 1);
    assert_eq!(
        failure,
        Some(ProcessError::Delivery { pipeline: 0, error: DeliveryError::InvalidTargetGroup })
    );
    assert_eq!(held(&pipelines[0].0.output), 2);
    assert_eq!(held(&pipelines[1].0.output), 1);
}

#[test]
fn without_a_reply_the_delivery_is_asked_for_again() {
    let scheme = FilterScheme::new();
    let tg = "arn:aws:x:targetgroup/a/b";
    let mut pipelines =
        compiled(&scheme, vec![filled(OutputType::Stdout(StdoutOutput::new()), &[numbered(1, tg)])]);
    let mut closing = Closing::new();
    let first = finalize(&mut closing, &mut pipelines, None);
    assert_eq!(
        first,
        FinalStep::Deliver {
            pipeline: 0,
            request: DeliveryRequest::WriteLines { lines: vec![numbered(1, tg)] },
        }
    );
    assert_eq!(closing, Closing { position: 0, failure: None });
    assert_eq!(finalize(&mut closing, &mut pipelines, None), first);
    let done = finalize(&mut closing, &mut pipelines, Some(Ok(Receipt { next_sequence_token: None })));
    assert_eq!(done, FinalStep::Finished);
    assert_eq!(closing, Closing { position: 1, failure: None });
    assert_eq!(held(&pipelines[0].0.output), 0);
}
