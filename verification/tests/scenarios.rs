use edgecb::coordinator::{Action, Event, SourceReply};
use edgecb::frame::{ErrorKind, Outcome, ResultFrame, Value};
use edgecb::ident::IdSource;
use edgecb::plan_cache::PlanCache;
use edgecb::lexer::CompileCause;
use edgecb::query::{QueryError, QueryServiceImpl};
use edgecb::registry::Phase;

fn select_one_frames(frames: &Vec<ResultFrame>) {
    assert_eq!(frames.len(), 3);
    assert_eq!(frames[0], ResultFrame::Row(vec![Value::Int(1)]));
    match &frames[1] {
        ResultFrame::Metrics(m) => {
            assert_eq!(m.result_count, 1);
            assert_eq!(m.result_size_bytes, 8);
            assert_eq!(m.error_count, 0);
            assert_eq!(m.warning_count, 0);
            assert_eq!(m.mutation_count, 0);
            assert_eq!(m.sort_count, 0);
        }
        other => panic!("expected metrics, found {:?}", other),
    }
    match &frames[2] {
        ResultFrame::Status(s) => {
            assert_eq!(s.outcome, Outcome::Success);
            assert_eq!(s.outcome.as_str(), "success");
            assert!(!s.request_id.is_empty());
        }
        other => panic!("expected a status, found {:?}", other),
    }
}

#[test]
fn execute_select_one_yields_row_metrics_status() {
    let mut service = QueryServiceImpl::default();
    let mut execution = service
        .execute("SELECT 1", vec![], "ctx-7".to_string(), 100)
        .unwrap();
    let id = execution.request_id().clone();
    assert!(service.is_in_flight(&id));
    let frames = service.run(&mut execution, &vec![], 130);
    select_one_frames(&frames);
    match &frames[1] {
        ResultFrame::Metrics(m) => {
            assert_eq!(m.elapsed_time_ms, 30);
            assert_eq!(m.execution_time_ms, 30);
        }
        _ => unreachable!(),
    }
    match &frames[2] {
        ResultFrame::Status(s) => {
            assert_eq!(s.request_id, id);
            assert_eq!(s.client_context_id, "ctx-7");
        }
        _ => unreachable!(),
    }
    assert_eq!(execution.phase(), Phase::Completed);
    assert!(execution.is_finished());
    assert!(!service.is_in_flight(&id));
}

#[test]
fn execute_empty_statement_is_compile_error_without_frames() {
    let mut service = QueryServiceImpl::default();
    let result = service.execute("", vec![], String::new(), 0);
    match result {
        Err(QueryError::Compile(e)) => {
            assert_eq!(e.cause, CompileCause::EmptyStatement);
            assert_eq!(e.position, 0);
            assert_eq!(QueryError::Compile(e).kind(), ErrorKind::Compile);
            assert_eq!(
                QueryError::Compile(e).message(),
                "statement is empty at position 0"
            );
        }
        _ => panic!("an empty statement must not compile"),
    }
}

#[test]
fn prepare_then_execute_prepared_reproduces_execute() {
    let mut service = QueryServiceImpl::default();
    let prepared = service.prepare("SELECT 1", &vec![]).unwrap();
    assert!(!prepared.prepared_name.is_empty());
    assert!(prepared.encoded_plan.is_empty());
    assert_eq!(prepared.plan_text, None);
    let mut execution = service
        .execute_prepared(&prepared.prepared_name, vec![], 5)
        .unwrap();
    let frames = service.run(&mut execution, &vec![], 5);
    select_one_frames(&frames);
    match &frames[2] {
        ResultFrame::Status(s) => assert_eq!(s.client_context_id, ""),
        _ => unreachable!(),
    }
}

#[test]
fn prepared_and_direct_execution_yield_the_same_rows() {
    let mut service = QueryServiceImpl::new(4, 8);
    let statement = "select $2, name, 7 from people limit 3";
    let params = || vec![Value::Text("x".to_string()), Value::Bool(true)];
    let script = vec![
        SourceReply::Rows {
            rows: vec![vec![Value::Text("ann".to_string())], vec![Value::Null]],
            done: false,
        },
        SourceReply::Rows {
            rows: vec![vec![Value::Int(3)], vec![Value::Int(4)]],
            done: true,
        },
    ];
    let mut direct = service
        .execute(statement, params(), "c".to_string(), 0)
        .unwrap();
    let direct_frames = service.run(&mut direct, &script, 9);
    let name = service.prepare(statement, &params()).unwrap().prepared_name;
    let mut prepared = service.execute_prepared(&name, params(), 0).unwrap();
    let prepared_frames = service.run(&mut prepared, &script, 9);
    assert_eq!(direct_frames.len(), 5);
    assert_eq!(prepared_frames.len(), 5);
    for i in 0..4 {
        assert_eq!(direct_frames[i], prepared_frames[i]);
    }
    assert_eq!(
        direct_frames[0],
        ResultFrame::Row(vec![
            Value::Bool(true),
            Value::Text("ann".to_string()),
            Value::Int(7)
        ])
    );
    assert_eq!(
        direct_frames[2],
        ResultFrame::Row(vec![Value::Bool(true), Value::Int(3), Value::Int(7)])
    );
    match (&direct_frames[4], &prepared_frames[4]) {
        (ResultFrame::Status(a), ResultFrame::Status(b)) => {
            assert_eq!(a.outcome, Outcome::Success);
            assert_eq!(a.outcome, b.outcome);
            assert_ne!(a.request_id, b.request_id);
        }
        _ => panic!("both streams must end with a status"),
    }
}

#[test]
fn execute_prepared_unknown_name_is_plan_not_found() {
    let mut service = QueryServiceImpl::default();
    match service.execute_prepared("nonexistent", vec![], 0) {
        Err(e) => {
            assert_eq!(e, QueryError::PlanNotFound);
            assert_eq!(e.kind(), ErrorKind::PlanNotFound);
            assert_eq!(e.message(), "no plan is registered under this name");
        }
        Ok(_) => panic!("no plan stands under this name"),
    }
}

#[test]
fn execute_prepared_after_evict_is_plan_not_found() {
    let mut service = QueryServiceImpl::default();
    let name = service.prepare("SELECT 1", &vec![]).unwrap().prepared_name;
    assert!(service.evict(&name));
    assert!(!service.evict(&name));
    assert!(matches!(
        service.execute_prepared(&name, vec![], 0),
        Err(QueryError::PlanNotFound)
    ));
}

#[test]
fn execute_prepared_with_wrong_parameter_count_is_compile_error() {
    let mut service = QueryServiceImpl::default();
    let name = service
        .prepare("SELECT $1", &vec![Value::Int(1)])
        .unwrap()
        .prepared_name;
    match service.execute_prepared(&name, vec![], 0) {
        Err(QueryError::Compile(e)) => {
            assert_eq!(e.cause, CompileCause::ParameterCount);
            assert_eq!(e.position, 0);
        }
        _ => panic!("the parameters are too few"),
    }
}

#[test]
fn cancel_in_flight_ends_with_cancelled_status() {
    let mut service = QueryServiceImpl::default();
    let mut execution = service
        .execute("SELECT a FROM big", vec![], "ctx".to_string(), 0)
        .unwrap();
    let id = execution.request_id().clone();
    let first = service.step(&mut execution, Event::Begin, 1);
    match first {
        Action::Fetch(request) => {
            assert_eq!(request.target, "big");
            assert_eq!(request.fields, vec!["a".to_string()]);
            assert_eq!(request.offset, 0);
            assert_eq!(request.max_rows, None);
        }
        other => panic!("expected a fetch, found {:?}", other),
    }
    assert!(service.cancel(&id));
    assert!(service.cancel(&id));
    let rows = SourceReply::Rows {
        rows: vec![vec![Value::Int(1)], vec![Value::Int(2)]],
        done: false,
    };
    let second = service.step(&mut execution, Event::Source(rows), 4);
    match second {
        Action::Emit(ResultFrame::Metrics(m)) => {
            assert_eq!(m.result_count, 0);
            assert_eq!(m.elapsed_time_ms, 4);
        }
        other => panic!("expected the metrics, found {:?}", other),
    }
    let third = service.step(&mut execution, Event::Delivered, 5);
    match third {
        Action::Emit(ResultFrame::Status(s)) => {
            assert_eq!(s.outcome, Outcome::Cancelled);
            assert_eq!(s.outcome.as_str(), "cancelled");
            assert_eq!(s.request_id, id);
            assert_eq!(s.client_context_id, "ctx");
        }
        other => panic!("expected the status, found {:?}", other),
    }
    assert!(service.is_in_flight(&id));
    let last = service.step(&mut execution, Event::Delivered, 6);
    assert_eq!(last, Action::Finish(Phase::Cancelled));
    assert!(!service.is_in_flight(&id));
    assert!(!service.cancel(&id));
    assert_eq!(
        service.step(&mut execution, Event::Delivered, 7),
        Action::Finish(Phase::Cancelled)
    );
}

#[test]
fn cancel_after_rows_lets_no_row_follow() {
    let mut service = QueryServiceImpl::default();
    let mut execution = service
        .execute("SELECT a FROM big", vec![], String::new(), 0)
        .unwrap();
    let id = execution.request_id().clone();
    assert!(matches!(
        service.step(&mut execution, Event::Begin, 0),
        Action::Fetch(_)
    ));
    let rows = SourceReply::Rows {
        rows: vec![vec![Value::Int(1)], vec![Value::Int(2)], vec![Value::Int(3)]],
        done: false,
    };
    assert_eq!(
        service.step(&mut execution, Event::Source(rows), 0),
        Action::Emit(ResultFrame::Row(vec![Value::Int(1)]))
    );
    assert_eq!(execution.phase(), Phase::Streaming);
    assert!(service.cancel(&id));
    match service.step(&mut execution, Event::Delivered, 0) {
        Action::Emit(ResultFrame::Metrics(m)) => assert_eq!(m.result_count, 1),
        other => panic!("expected the metrics, found {:?}", other),
    }
    assert!(matches!(
        service.step(&mut execution, Event::Delivered, 0),
        Action::Emit(ResultFrame::Status(_))
    ));
    assert_eq!(
        service.step(&mut execution, Event::Delivered, 0),
        Action::Finish(Phase::Cancelled)
    );
    assert!(!service.is_in_flight(&id));
}

#[test]
fn cancel_before_run_yields_metrics_and_cancelled_status() {
    let mut service = QueryServiceImpl::default();
    let mut execution = service
        .execute("SELECT 1", vec![], String::new(), 0)
        .unwrap();
    let id = execution.request_id().clone();
    assert!(service.cancel(&id));
    let frames = service.run(&mut execution, &vec![], 0);
    assert_eq!(frames.len(), 2);
    assert!(matches!(frames[0], ResultFrame::Metrics(_)));
    match &frames[1] {
        ResultFrame::Status(s) => assert_eq!(s.outcome, Outcome::Cancelled),
        other => panic!("expected a status, found {:?}", other),
    }
    assert!(!service.is_in_flight(&id));
}

#[test]
fn request_ids_differ_between_executions() {
    let mut service = QueryServiceImpl::default();
    let a = service.execute("SELECT 1", vec![], String::new(), 0).unwrap();
    let b = service.execute("SELECT 1", vec![], String::new(), 0).unwrap();
    assert_ne!(a.request_id(), b.request_id());
    assert!(a.request_id().ends_with("-0000000000000000"));
    assert!(b.request_id().ends_with("-0000000000000001"));
    assert_eq!(a.request_id().len(), 53);
}

#[test]
fn explain_describes_the_plan_or_the_fault() {
    let service = QueryServiceImpl::default();
    let constant = service.explain("select null");
    assert!(constant.plan.is_some());
    assert_eq!(constant.plan_text, "constant row");
    let scan = service.explain("select a from b.c");
    assert_eq!(scan.plan_text, "scan of b.c");
    assert_eq!(scan.plan.unwrap().param_count(), 0);
    let wrong = service.explain("select");
    assert!(wrong.plan.is_none());
    assert_eq!(wrong.plan_text, "expected a column at position 6");
    let with_params = service.explain("select $3");
    assert_eq!(with_params.plan.unwrap().param_count(), 3);
}

#[test]
fn service_without_identifiers_fails_internally() {
    let mut service = QueryServiceImpl::with_parts(
        PlanCache::with_names(4, IdSource::from_count(u64::MAX)),
        IdSource::from_count(u64::MAX),
        8,
    );
    match service.execute("SELECT 1", vec![], String::new(), 0) {
        Err(e) => {
            assert_eq!(e, QueryError::Internal);
            assert_eq!(e.kind(), ErrorKind::Internal);
            assert_eq!(e.message(), "no identifier is left");
        }
        Ok(_) => panic!("no identifier is left for the request"),
    }
    assert_eq!(
        service.prepare("SELECT 1", &vec![]).unwrap_err(),
        QueryError::Internal
    );
    assert!(matches!(
        service.prepare("SELECT", &vec![]),
        Err(QueryError::Compile(_))
    ));
    let mut other = QueryServiceImpl::with_parts(PlanCache::new(4), IdSource::from_count(u64::MAX), 8);
    let name = other.prepare("SELECT 1", &vec![]).unwrap().prepared_name;
    assert!(matches!(
        other.execute_prepared(&name, vec![], 0),
        Err(QueryError::Internal)
    ));
    assert!(matches!(
        other.execute_prepared("absent", vec![], 0),
        Err(QueryError::PlanNotFound)
    ));
}

#[test]
fn streams_of_a_service_have_its_capacity() {
    let service = QueryServiceImpl::new(4, 2);
    let mut stream = service.open_stream();
    let row = || ResultFrame::Row(vec![Value::Null]);
    assert_eq!(stream.push(row()), edgecb::stream::PushOutcome::Accepted);
    assert_eq!(stream.push(row()), edgecb::stream::PushOutcome::Accepted);
    assert_eq!(stream.push(row()), edgecb::stream::PushOutcome::Full(row()));
}

#[test]
fn compile_failure_leaves_no_request_behind() {
    let mut service = QueryServiceImpl::default();
    assert!(service.execute("SELECT", vec![], String::new(), 0).is_err());
    let execution = service.execute("SELECT 1", vec![], String::new(), 0).unwrap();
    assert!(execution.request_id().ends_with("-0000000000000001"));
    assert!(service.is_in_flight(execution.request_id()));
}

#[test]
fn portable_plans_are_encoded_as_their_statement() {
    let mut service = QueryServiceImpl::default();
    let plain = service.prepare("SELECT 1", &vec![]).unwrap();
    assert!(plain.encoded_plan.is_empty());
    service.set_portable(true);
    let statement = "select nom from gens limit 2";
    let portable = service.prepare(statement, &vec![]).unwrap();
    assert_eq!(portable.encoded_plan, statement.as_bytes().to_vec());
    let again = edgecb::plan::parse(std::str::from_utf8(&portable.encoded_plan).unwrap()).unwrap();
    let mut execution = service
        .execute_prepared(&portable.prepared_name, vec![], 0)
        .unwrap();
    let frames = service.run(&mut execution, &vec![], 0);
    assert_eq!(frames.len(), 2);
    assert_eq!(again, edgecb::plan::parse(statement).unwrap());
    service.set_portable(false);
    assert!(service.prepare("SELECT 1", &vec![]).unwrap().encoded_plan.is_empty());
}
