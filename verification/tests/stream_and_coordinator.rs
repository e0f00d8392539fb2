use edgecb::coordinator::{Action, Event, Execution, SourceReply, Stage};
use edgecb::frame::{
    copy_values, measure_row, saturating_sum, ErrorKind, Outcome, QueryMetrics, QueryStatus,
    ResultFrame, Value,
};
use edgecb::plan::parse;
use edgecb::registry::Phase;
use edgecb::stream::{PullOutcome, PushOutcome, ResultStream};

fn row(n: i64) -> ResultFrame {
    ResultFrame::Row(vec![Value::Int(n)])
}

fn status(outcome: Outcome) -> ResultFrame {
    ResultFrame::Status(QueryStatus {
        outcome,
        request_id: "r".to_string(),
        client_context_id: String::new(),
    })
}

fn start(statement: &str, params: Vec<Value>) -> Execution {
    Execution::start(
        "req".to_string(),
        "ctx".to_string(),
        parse(statement).unwrap(),
        params,
        10,
        20,
    )
}

#[test]
fn frames_leave_in_the_order_they_entered() {
    let mut stream = ResultStream::new(4);
    assert_eq!(stream.pull(), PullOutcome::Pending);
    assert_eq!(stream.push(row(1)), PushOutcome::Accepted);
    assert_eq!(stream.push(row(2)), PushOutcome::Accepted);
    assert_eq!(stream.len(), 2);
    assert_eq!(stream.pull(), PullOutcome::Frame(row(1)));
    assert_eq!(stream.push(ResultFrame::Metrics(QueryMetrics::new())), PushOutcome::Accepted);
    assert_eq!(stream.push(status(Outcome::Success)), PushOutcome::Accepted);
    stream.close_producer();
    assert_eq!(stream.pull(), PullOutcome::Frame(row(2)));
    assert_eq!(stream.pull(), PullOutcome::Frame(ResultFrame::Metrics(QueryMetrics::new())));
    assert_eq!(stream.pull(), PullOutcome::Frame(status(Outcome::Success)));
    assert_eq!(stream.pull(), PullOutcome::End);
    assert_eq!(stream.pull(), PullOutcome::End);
}

#[test]
fn full_stream_hands_the_frame_back() {
    let mut stream = ResultStream::new(2);
    assert_eq!(stream.push(row(1)), PushOutcome::Accepted);
    assert_eq!(stream.push(row(2)), PushOutcome::Accepted);
    assert_eq!(stream.push(row(3)), PushOutcome::Full(row(3)));
    assert_eq!(stream.len(), 2);
    assert_eq!(stream.pull(), PullOutcome::Frame(row(1)));
    assert_eq!(stream.push(row(3)), PushOutcome::Accepted);
    let mut least = ResultStream::new(0);
    assert_eq!(least.push(row(1)), PushOutcome::Accepted);
    assert_eq!(least.push(row(2)), PushOutcome::Full(row(2)));
}

#[test]
fn stream_takes_frames_in_the_order_of_a_result_only() {
    let mut stream = ResultStream::new(8);
    assert_eq!(stream.push(status(Outcome::Success)), PushOutcome::OutOfOrder);
    assert_eq!(stream.push(row(1)), PushOutcome::Accepted);
    assert_eq!(stream.push(ResultFrame::Metrics(QueryMetrics::new())), PushOutcome::Accepted);
    assert_eq!(stream.push(row(2)), PushOutcome::OutOfOrder);
    assert_eq!(
        stream.push(ResultFrame::Metrics(QueryMetrics::new())),
        PushOutcome::OutOfOrder
    );
    assert_eq!(
        stream.push(ResultFrame::Error { kind: ErrorKind::Execution, message: "x".to_string() }),
        PushOutcome::OutOfOrder
    );
    assert_eq!(stream.push(status(Outcome::Cancelled)), PushOutcome::Accepted);
    assert_eq!(stream.push(status(Outcome::Cancelled)), PushOutcome::OutOfOrder);
    assert_eq!(stream.push(row(3)), PushOutcome::OutOfOrder);
    assert_eq!(stream.len(), 3);
}

#[test]
fn error_frame_ends_a_stream_of_rows() {
    let mut stream = ResultStream::new(8);
    assert_eq!(stream.push(row(1)), PushOutcome::Accepted);
    let error = || ResultFrame::Error { kind: ErrorKind::Execution, message: "gone".to_string() };
    assert_eq!(stream.push(error()), PushOutcome::Accepted);
    assert_eq!(stream.push(row(2)), PushOutcome::OutOfOrder);
    assert_eq!(stream.pull(), PullOutcome::Frame(row(1)));
    assert_eq!(stream.pull(), PullOutcome::Frame(error()));
    assert_eq!(stream.pull(), PullOutcome::End);
}

#[test]
fn producer_closed_without_terminal_frame_is_truncated() {
    let mut stream = ResultStream::new(8);
    assert_eq!(stream.push(row(1)), PushOutcome::Accepted);
    stream.close_producer();
    assert_eq!(stream.push(row(2)), PushOutcome::OutOfOrder);
    assert_eq!(stream.pull(), PullOutcome::Frame(row(1)));
    assert_eq!(stream.pull(), PullOutcome::Truncated);
    let mut empty = ResultStream::new(8);
    empty.close_producer();
    assert_eq!(empty.pull(), PullOutcome::Truncated);
}

#[test]
fn push_finds_the_consumer_gone() {
    let mut stream = ResultStream::new(8);
    assert_eq!(stream.push(row(1)), PushOutcome::Accepted);
    stream.close_consumer();
    assert_eq!(stream.push(row(2)), PushOutcome::Disconnected);
    assert_eq!(stream.push(status(Outcome::Success)), PushOutcome::Disconnected);
    assert_eq!(stream.len(), 1);
}

#[test]
fn frame_helpers() {
    assert!(status(Outcome::Success).is_terminal());
    assert!(ResultFrame::Error { kind: ErrorKind::Internal, message: String::new() }.is_terminal());
    assert!(!row(1).is_terminal());
    assert!(!ResultFrame::Metrics(QueryMetrics::new()).is_terminal());
    assert_eq!(Outcome::Errors.as_str(), "errors");
    assert_eq!(Outcome::Success.error_kind(), None);
    assert_eq!(Outcome::Errors.error_kind(), Some(ErrorKind::Execution));
    assert_eq!(Outcome::Cancelled.error_kind(), Some(ErrorKind::Cancelled));
    assert_eq!(PullOutcome::Truncated.error_kind(), Some(ErrorKind::Internal));
    assert_eq!(PullOutcome::End.error_kind(), None);
    assert_eq!(PullOutcome::Pending.error_kind(), None);
    assert_eq!(row(5).clone(), row(5));
    assert_eq!(status(Outcome::Errors).clone(), status(Outcome::Errors));
    let values = vec![
        Value::Null,
        Value::Bool(true),
        Value::Int(-4),
        Value::Text("héllo".to_string()),
    ];
    assert_eq!(copy_values(&values), values);
    assert_eq!(measure_row(&values), 1 + 1 + 8 + 6);
    assert_eq!(measure_row(&vec![]), 0);
    assert_eq!(saturating_sum(3, 4), 7);
    assert_eq!(saturating_sum(u64::MAX, 1), u64::MAX);
    assert_eq!(saturating_sum(u64::MAX - 1, 1), u64::MAX);
    assert_eq!(saturating_sum(1 << 63, 1 << 63), u64::MAX);
    let zero = QueryMetrics::new();
    assert_eq!(zero.elapsed_time_ms + zero.execution_time_ms + zero.result_count, 0);
    assert_eq!(zero.result_size_bytes + zero.mutation_count + zero.sort_count, 0);
    assert_eq!(zero.error_count + zero.warning_count, 0);
}

#[test]
fn constant_plan_runs_to_row_metrics_status() {
    let mut execution = start("SELECT $1, 2, null", vec![Value::Text("abc".to_string())]);
    assert_eq!(execution.stage(), Stage::Idle);
    assert_eq!(execution.phase(), Phase::Executing);
    let frames = execution.run(&vec![], false, 50);
    assert_eq!(
        frames,
        vec![
            ResultFrame::Row(vec![Value::Text("abc".to_string()), Value::Int(2), Value::Null]),
            ResultFrame::Metrics(QueryMetrics {
                elapsed_time_ms: 40,
                execution_time_ms: 30,
                result_count: 1,
                result_size_bytes: 12,
                mutation_count: 0,
                sort_count: 0,
                error_count: 0,
                warning_count: 0,
            }),
            ResultFrame::Status(QueryStatus {
                outcome: Outcome::Success,
                request_id: "req".to_string(),
                client_context_id: "ctx".to_string(),
            }),
        ]
    );
    assert_eq!(execution.stage(), Stage::Done);
    assert_eq!(execution.phase(), Phase::Completed);
}

#[test]
fn clock_that_runs_backwards_counts_as_no_time() {
    let mut execution = start("SELECT 1", vec![]);
    let frames = execution.run(&vec![], false, 5);
    match &frames[1] {
        ResultFrame::Metrics(m) => {
            assert_eq!(m.elapsed_time_ms, 0);
            assert_eq!(m.execution_time_ms, 0);
        }
        other => panic!("expected metrics, found {:?}", other),
    }
}

#[test]
fn constant_plan_with_limit_zero_yields_no_row() {
    let mut execution = start("SELECT 1 LIMIT 0", vec![]);
    let frames = execution.run(&vec![], false, 20);
    assert_eq!(frames.len(), 2);
    match &frames[0] {
        ResultFrame::Metrics(m) => assert_eq!(m.result_count, 0),
        other => panic!("expected metrics, found {:?}", other),
    }
    assert!(matches!(&frames[1], ResultFrame::Status(s) if s.outcome == Outcome::Success));
}

#[test]
fn scan_delivers_rows_in_source_order_up_to_the_limit() {
    let mut execution = start("SELECT a, 0 FROM t LIMIT 3", vec![]);
    let script = vec![
        SourceReply::Rows { rows: vec![vec![Value::Int(1)], vec![Value::Int(2)]], done: false },
        SourceReply::Rows { rows: vec![], done: false },
        SourceReply::Rows { rows: vec![vec![Value::Int(3)], vec![Value::Int(4)]], done: false },
        SourceReply::Rows { rows: vec![vec![Value::Int(5)]], done: true },
    ];
    let frames = execution.run(&script, false, 20);
    assert_eq!(frames.len(), 5);
    for i in 0..3 {
        assert_eq!(
            frames[i],
            ResultFrame::Row(vec![Value::Int(i as i64 + 1), Value::Int(0)])
        );
    }
    match &frames[3] {
        ResultFrame::Metrics(m) => {
            assert_eq!(m.result_count, 3);
            assert_eq!(m.result_size_bytes, 48);
        }
        other => panic!("expected metrics, found {:?}", other),
    }
    assert!(matches!(&frames[4], ResultFrame::Status(s) if s.outcome == Outcome::Success));
    assert_eq!(execution.phase(), Phase::Completed);
}

#[test]
fn scan_ends_when_the_source_has_no_more_answers() {
    let mut execution = start("SELECT a FROM t", vec![]);
    let script =
        vec![SourceReply::Rows { rows: vec![vec![Value::Int(1)]], done: false }];
    let frames = execution.run(&script, false, 20);
    assert_eq!(frames.len(), 3);
    assert_eq!(frames[0], row(1));
    let mut nothing = start("SELECT a FROM t", vec![]);
    let frames = nothing.run(&vec![], false, 20);
    assert_eq!(frames.len(), 2);
}

#[test]
fn fetch_requests_carry_offset_and_room() {
    let mut execution = start("SELECT a, b FROM t LIMIT 5", vec![]);
    match execution.step(Event::Begin, false, 0) {
        Action::Fetch(request) => {
            assert_eq!(request.target, "t");
            assert_eq!(request.fields, vec!["a".to_string(), "b".to_string()]);
            assert_eq!(request.offset, 0);
            assert_eq!(request.max_rows, Some(5));
        }
        other => panic!("expected a fetch, found {:?}", other),
    }
    assert_eq!(execution.stage(), Stage::Fetching);
    let rows = SourceReply::Rows {
        rows: vec![
            vec![Value::Int(1), Value::Int(2)],
            vec![Value::Int(3), Value::Int(4)],
        ],
        done: false,
    };
    assert!(matches!(
        execution.step(Event::Source(rows.clone()), false, 0),
        Action::Emit(ResultFrame::Row(_))
    ));
    assert!(matches!(
        execution.step(Event::Delivered, false, 0),
        Action::Emit(ResultFrame::Row(_))
    ));
    match execution.step(Event::Delivered, false, 0) {
        Action::Fetch(request) => {
            assert_eq!(request.offset, 2);
            assert_eq!(request.max_rows, Some(3));
        }
        other => panic!("expected a fetch, found {:?}", other),
    }
    assert_eq!(rows.clone(), rows);
}

#[test]
fn fatal_source_failure_ends_with_an_error_frame() {
    let mut execution = start("SELECT a FROM t", vec![]);
    let script = vec![
        SourceReply::Rows { rows: vec![vec![Value::Int(1)]], done: false },
        SourceReply::Failed { fatal: true, message: "storage unavailable".to_string() },
        SourceReply::Rows { rows: vec![vec![Value::Int(2)]], done: true },
    ];
    let frames = execution.run(&script, false, 20);
    assert_eq!(
        frames,
        vec![
            row(1),
            ResultFrame::Error {
                kind: ErrorKind::Execution,
                message: "storage unavailable".to_string(),
            },
        ]
    );
    assert_eq!(execution.phase(), Phase::Failed);
}

#[test]
fn source_error_that_is_not_fatal_ends_with_status_errors() {
    let mut execution = start("SELECT a FROM t", vec![]);
    let script = vec![
        SourceReply::Rows { rows: vec![vec![Value::Int(1)]], done: false },
        SourceReply::Failed { fatal: false, message: "index missing".to_string() },
        SourceReply::Rows { rows: vec![vec![Value::Int(2)]], done: true },
    ];
    let frames = execution.run(&script, false, 20);
    assert_eq!(frames.len(), 3);
    assert_eq!(frames[0], row(1));
    match &frames[1] {
        ResultFrame::Metrics(m) => {
            assert_eq!(m.result_count, 1);
            assert_eq!(m.error_count, 1);
        }
        other => panic!("expected metrics, found {:?}", other),
    }
    assert!(matches!(&frames[2], ResultFrame::Status(s) if s.outcome == Outcome::Errors));
    assert_eq!(execution.phase(), Phase::Completed);
}

#[test]
fn row_that_does_not_fit_the_plan_ends_with_an_error_frame() {
    let mut execution = start("SELECT a, b FROM t", vec![]);
    let script = vec![SourceReply::Rows {
        rows: vec![vec![Value::Int(1), Value::Int(2)], vec![Value::Int(3)]],
        done: true,
    }];
    let frames = execution.run(&script, false, 20);
    assert_eq!(
        frames,
        vec![ResultFrame::Error {
            kind: ErrorKind::Execution,
            message: "source returned a row that does not fit the plan".to_string(),
        }]
    );
    assert_eq!(execution.phase(), Phase::Failed);
}

#[test]
fn consumer_gone_finishes_without_another_frame() {
    let mut execution = start("SELECT 1", vec![]);
    assert!(matches!(execution.step(Event::Begin, false, 0), Action::Emit(_)));
    assert_eq!(
        execution.step(Event::ConsumerGone, false, 0),
        Action::Finish(Phase::Cancelled)
    );
    assert!(execution.is_finished());
    assert_eq!(execution.phase(), Phase::Cancelled);
}

#[test]
fn event_that_does_not_answer_the_last_step_finishes_the_execution() {
    let mut execution = start("SELECT 1", vec![]);
    assert_eq!(
        execution.step(Event::Delivered, false, 0),
        Action::Finish(Phase::Failed)
    );
    assert_eq!(execution.step(Event::Begin, false, 0), Action::Finish(Phase::Failed));
    let mut scan = start("SELECT a FROM t", vec![]);
    assert!(matches!(scan.step(Event::Begin, false, 0), Action::Fetch(_)));
    assert_eq!(scan.step(Event::Begin, false, 0), Action::Finish(Phase::Failed));
}

#[test]
fn cancelled_run_emits_no_row() {
    let mut execution = start("SELECT a FROM t", vec![]);
    let script = vec![SourceReply::Rows { rows: vec![vec![Value::Int(1)]], done: true }];
    let frames = execution.run(&script, true, 25);
    assert_eq!(frames.len(), 2);
    assert!(matches!(frames[0], ResultFrame::Metrics(_)));
    assert!(matches!(&frames[1], ResultFrame::Status(s) if s.outcome == Outcome::Cancelled));
    assert_eq!(execution.phase(), Phase::Cancelled);
}

#[test]
fn late_cancellation_does_not_change_a_result_that_is_wrapping_up() {
    let mut execution = start("SELECT 1", vec![]);
    assert!(matches!(execution.step(Event::Begin, false, 0), Action::Emit(ResultFrame::Row(_))));
    assert!(matches!(
        execution.step(Event::Delivered, false, 0),
        Action::Emit(ResultFrame::Metrics(_))
    ));
    match execution.step(Event::Delivered, true, 0) {
        Action::Emit(ResultFrame::Status(s)) => assert_eq!(s.outcome, Outcome::Success),
        other => panic!("expected the status, found {:?}", other),
    }
    assert_eq!(
        execution.step(Event::Delivered, true, 0),
        Action::Finish(Phase::Completed)
    );
}
