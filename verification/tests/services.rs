use edgecb::ack::{done, framed, framed_pair, not_yet};
use edgecb::analytics::AnalyticsServiceImpl;
use edgecb::endpoint::{bind_address, ServiceKind};
use edgecb::coordinator::SourceReply;
use edgecb::frame::{ErrorKind, Value};
use edgecb::index::{entry_row, scan_reply, IndexServiceImpl, ScanEntry};
use edgecb::kv::{CounterResult, DataServiceImpl, ErrorCode, SetResult};
use edgecb::search::SearchServiceImpl;
use edgecb::text::push_decimal;

#[test]
fn missing_key_is_reported_by_name() {
    let service = DataServiceImpl::default();
    let error = service.get("user::42").unwrap_err();
    assert_eq!(error.code, ErrorCode::KeyNotFound);
    assert_eq!(error.message, "Key 'user::42' not found");
    let error = service.delete("").unwrap_err();
    assert_eq!(error.code, ErrorCode::KeyNotFound);
    assert_eq!(error.message, "Key '' not found");
    let error = service.touch("k").unwrap_err();
    assert_eq!(error.code, ErrorCode::KeyNotFound);
    assert_eq!(error.message, "Not implemented");
}

#[test]
fn writes_and_counters_are_acknowledged() {
    let service = DataServiceImpl::default();
    assert_eq!(
        service.set("k", &vec![1, 2, 3]).unwrap(),
        SetResult { cas: 1, seq_no: 1, vbucket_id: 0 }
    );
    assert_eq!(
        service.increment("c", 5, 40).unwrap(),
        CounterResult { value: 40, cas: 1 }
    );
    assert_eq!(
        service.decrement("c", 5, 0).unwrap(),
        CounterResult { value: 0, cas: 1 }
    );
}

#[test]
fn every_key_of_a_batch_is_missing() {
    let service = DataServiceImpl::default();
    let keys = vec!["a".to_string(), "b".to_string()];
    let response = service.get_multi(keys.clone());
    assert!(response.documents.is_empty());
    assert_eq!(response.missing_keys, keys);
}

#[test]
fn index_service_answers() {
    let service = IndexServiceImpl::default();
    let created = service.create_index("by_name");
    assert!(created.success);
    assert_eq!(created.message, "Index 'by_name' creation initiated");
    assert_eq!(created.index_info, None);
    let dropped = service.drop_index("by_name");
    assert!(dropped.success);
    assert_eq!(dropped.message, "Index 'by_name' dropped");
    assert!(service.list_indexes("b").is_empty());
    assert_eq!(
        service.get_index_stats("by_name").message,
        "Index stats not yet implemented"
    );
    let events = service.build_index("b");
    assert_eq!(events.len(), 1);
    assert_eq!(events[0].index_name, "placeholder");
    assert_eq!(events[0].total_docs, 0);
    assert_eq!(events[0].duration_ms, 0);
    assert!(service.scan("by_name").is_empty());
    assert!(IndexServiceImpl::default().range_scan("by_name").is_empty());
}

#[test]
fn search_service_answers() {
    let service = SearchServiceImpl::default();
    let created = service.create_index("fts");
    assert!(created.success);
    assert_eq!(created.message, "Search index 'fts' created");
    assert_eq!(created.index_uuid.len(), 36);
    assert!(uuid::Uuid::parse_str(&created.index_uuid).is_ok());
    assert_ne!(created.index_uuid, service.create_index("fts").index_uuid);
    let deleted = service.delete_index("fts");
    assert!(deleted.success);
    assert_eq!(deleted.message, "Search index 'fts' deleted");
    assert!(service.list_indexes().is_empty());
    assert_eq!(
        service.get_index_stats("fts").message,
        "Search index stats not yet implemented"
    );
    for response in [service.search("fts"), SearchServiceImpl::default().vector_search("fts", 10)] {
        let status = response.status.unwrap();
        assert_eq!(status.total_shards, 1);
        assert_eq!(status.successful_shards, 1);
        assert_eq!(status.failed_shards, 0);
        assert!(status.failures.is_empty());
        assert!(response.hits.is_empty());
        assert_eq!(response.total_hits, 0);
        assert_eq!(response.took_ms, 0);
        assert_eq!(response.facets, None);
    }
}

#[test]
fn analytics_service_answers() {
    let service = AnalyticsServiceImpl::default();
    assert_eq!(service.create_dataverse("dv").message, "Dataverse 'dv' created");
    assert!(service.create_dataverse("dv").success);
    assert_eq!(service.drop_dataverse("dv").message, "Dataverse 'dv' dropped");
    assert_eq!(service.create_dataset("dv", "ds").message, "Dataset 'dv.ds' created");
    assert_eq!(service.drop_dataset("dv", "ds").message, "Dataset 'dv.ds' dropped");
    assert_eq!(service.connect_link("dv", "l").message, "Link 'dv.l' connected");
    let gone = AnalyticsServiceImpl::default().disconnect_link("dv", "l");
    assert!(gone.success);
    assert_eq!(gone.message, "Link 'dv.l' disconnected");
    let messages = service.query("SELECT 1");
    assert_eq!(messages.len(), 1);
    assert_eq!(messages[0].status, "success");
    assert_eq!(
        service.get_dataset_stats("dv", "ds").message,
        "Dataset stats not yet implemented"
    );
}

#[test]
fn answers_are_put_together_from_their_parts() {
    assert_eq!(framed("<", "x", ">"), "<x>");
    assert_eq!(framed_pair("<", "a", "b", ">"), "<a.b>");
    let ack = done("fine".to_string());
    assert!(ack.success);
    assert_eq!(ack.message, "fine");
    assert_eq!(not_yet("later").message, "later");
}

#[test]
fn bind_address_falls_back_to_the_default_port() {
    assert_eq!(bind_address(ServiceKind::Data, None), "0.0.0.0:11210");
    assert_eq!(bind_address(ServiceKind::Query, None), "0.0.0.0:8093");
    assert_eq!(bind_address(ServiceKind::Search, None), "0.0.0.0:8094");
    assert_eq!(bind_address(ServiceKind::Analytics, None), "0.0.0.0:8095");
    assert_eq!(bind_address(ServiceKind::Index, None), "0.0.0.0:9102");
    assert_eq!(
        bind_address(ServiceKind::Index, Some("127.0.0.1:1".to_string())),
        "127.0.0.1:1"
    );
    assert_eq!(ServiceKind::Query.default_port(), 8093);
}

#[test]
fn numbers_in_decimal() {
    for (n, text) in [
        (0u64, "0"),
        (7, "7"),
        (10, "10"),
        (909, "909"),
        (u64::MAX, "18446744073709551615"),
    ] {
        let mut out = String::from("n=");
        push_decimal(&mut out, n);
        assert_eq!(out, format!("n={}", text));
    }
}

#[test]
fn index_entries_answer_a_fetch() {
    let entry = |id: &str| ScanEntry { key: vec![1], document_id: id.to_string() };
    let fields = vec!["name".to_string(), "id".to_string(), "ID".to_string()];
    assert_eq!(
        entry_row(&entry("doc-1"), &fields),
        vec![Value::Null, Value::Text("doc-1".to_string()), Value::Null]
    );
    assert_eq!(entry_row(&entry("doc-1"), &vec![]), Vec::<Value>::new());
    assert_eq!(
        scan_reply(&vec![entry("a"), entry("b")], &vec!["id".to_string()]),
        SourceReply::Rows {
            rows: vec![
                vec![Value::Text("a".to_string())],
                vec![Value::Text("b".to_string())]
            ],
            done: true,
        }
    );
    assert_eq!(
        scan_reply(&vec![], &fields),
        SourceReply::Rows { rows: vec![], done: true }
    );
}

#[test]
fn services_go_by_their_names() {
    for kind in [
        ServiceKind::Data,
        ServiceKind::Query,
        ServiceKind::Search,
        ServiceKind::Analytics,
        ServiceKind::Index,
    ] {
        assert_eq!(ServiceKind::from_name(kind.name()), Some(kind));
    }
    assert_eq!(ServiceKind::from_name("query"), Some(ServiceKind::Query));
    assert_eq!(ServiceKind::from_name("Query"), None);
    assert_eq!(ServiceKind::from_name(""), None);
    assert_eq!(ErrorKind::Compile.as_str(), "compile");
    assert_eq!(ErrorKind::PlanNotFound.as_str(), "plan_not_found");
    assert_eq!(ErrorKind::Execution.as_str(), "execution");
    assert_eq!(ErrorKind::Cancelled.as_str(), "cancelled");
    assert_eq!(ErrorKind::Internal.as_str(), "internal");
}
