use spanfall::api::attributes::get_attributes;
use spanfall::api::events::event_data;
use spanfall::api::filter::{get_filter, FilterResult};
use spanfall::api::receiver::get_receiver;
use spanfall::api::traces::{get_trace, list_traces, TraceLookupError};
use spanfall::ingest::receiver_state::{ReceiverState, Transport};
use spanfall::store::trace::NewSpan;
use spanfall::store::types::{AttrValue, SpanId, TraceId};
use spanfall::store::Store;

fn store_with_two_spans() -> Store {
    let mut store = Store::new(10_000_000);
    store.insert_span(
        TraceId([1; 16]),
        NewSpan {
            span_id: SpanId([1; 8]),
            parent_span_id: None,
            name: "checkout root".to_string(),
            start_time_unix_nano: 0,
            end_time_unix_nano: 50_000_000, // 50ms
            status_message: String::new(),
            status_code: 1, // Ok
            unknown_service: false,
            service_name: Some("checkout".to_string()),
            attributes: vec![("http.status_code".to_string(), AttrValue::Int(200))],
        },
        0,
    );
    store.insert_span(
        TraceId([1; 16]),
        NewSpan {
            span_id: SpanId([2; 8]),
            parent_span_id: None,
            name: "db query".to_string(),
            start_time_unix_nano: 0,
            end_time_unix_nano: 200_000_000, // 200ms
            status_message: String::new(),
            status_code: 2, // Error
            unknown_service: false,
            service_name: Some("db".to_string()),
            attributes: vec![("http.status_code".to_string(), AttrValue::Int(500))],
        },
        0,
    );
    store
}

/// The matching span indices; every verdict here is decided without floating point.
fn indices(f: &FilterResult) -> Vec<usize> {
    f.verdicts
        .iter()
        .enumerate()
        .filter(|(_, v)| v.expect("decided without floating point"))
        .map(|(i, _)| i)
        .collect()
}

fn filter(store: &Store, q: &str) -> FilterResult {
    let hex = TraceId([1; 16]).to_hex();
    match get_filter(store, &hex, q) {
        Ok(f) => f,
        Err(e) => panic!("lookup failed: {e:?}"),
    }
}

#[test]
fn status_error_matches_only_the_error_span() {
    let f = filter(&store_with_two_spans(), "status=error");
    assert_eq!(indices(&f), vec![1]);
    assert!(f.dropped_terms.is_empty());
}

#[test]
fn duration_is_per_span_not_the_trace_aggregate() {
    let f = filter(&store_with_two_spans(), "duration>100ms");
    assert_eq!(indices(&f), vec![1]);
}

#[test]
fn numeric_attribute_ordering_works() {
    let f = filter(&store_with_two_spans(), "http.status_code>=500");
    assert_eq!(indices(&f), vec![1]);
}

#[test]
fn implicit_and_across_multiple_terms() {
    let f = filter(&store_with_two_spans(), "service=checkout status=ok");
    assert_eq!(indices(&f), vec![0]);
}

#[test]
fn bareword_matches_span_name_as_substring() {
    let f = filter(&store_with_two_spans(), "checkout");
    assert_eq!(indices(&f), vec![0]);
}

#[test]
fn quoted_bareword_with_a_space_matches_as_one_substring_term() {
    let f = filter(&store_with_two_spans(), "\"db query\"");
    assert_eq!(indices(&f), vec![1]);
}

#[test]
fn unknown_operator_is_dropped_but_the_rest_of_the_query_still_applies() {
    let f = filter(&store_with_two_spans(), "service~checkout status=ok");
    assert_eq!(indices(&f), vec![0]);
    assert_eq!(f.dropped_terms, vec!["service~checkout".to_string()]);
}

#[test]
fn unresolvable_key_matches_nothing_and_is_not_reported_as_dropped() {
    let f = filter(&store_with_two_spans(), "nonexistent.key=x");
    assert_eq!(indices(&f), Vec::<usize>::new());
    assert!(f.dropped_terms.is_empty());
}

#[test]
fn missing_query_matches_every_span() {
    let f = filter(&store_with_two_spans(), "");
    assert_eq!(indices(&f), vec![0, 1]);
}

#[test]
fn filter_returns_indices_never_span_objects() {
    let f = filter(&store_with_two_spans(), "service=checkout");
    assert_eq!(f.verdicts.len(), 2);
    assert_eq!(indices(&f), vec![0]);
}

#[test]
fn get_filter_returns_404_for_an_unknown_trace() {
    let store = store_with_two_spans();
    let hex = TraceId([9; 16]).to_hex();
    assert!(matches!(get_filter(&store, &hex, "x"), Err(TraceLookupError::NotFound)));
}

#[test]
fn unterminated_quote_is_dropped() {
    let f = filter(&store_with_two_spans(), "status=ok \"db");
    assert_eq!(indices(&f), vec![0]);
    assert_eq!(f.dropped_terms, vec!["db".to_string()]);
}

#[test]
fn ordering_ops_on_service_and_status_are_dropped() {
    let f = filter(&store_with_two_spans(), "service>a status<ok");
    assert_eq!(f.dropped_terms, vec!["service>a".to_string(), "status<ok".to_string()]);
    assert_eq!(indices(&f), vec![0, 1]);
}

#[test]
fn attribute_equality_and_inequality() {
    assert_eq!(indices(&filter(&store_with_two_spans(), "http.status_code=200")), vec![0]);
    assert_eq!(indices(&filter(&store_with_two_spans(), "http.status_code!=200")), vec![1]);
}

#[test]
fn service_inequality_matches_the_other_service() {
    assert_eq!(indices(&filter(&store_with_two_spans(), "service!=checkout")), vec![1]);
}

#[test]
fn bad_duration_value_is_dropped() {
    let f = filter(&store_with_two_spans(), "duration>fast");
    assert_eq!(f.dropped_terms, vec!["duration>fast".to_string()]);
}

#[test]
fn duration_in_seconds_and_plain_nanos() {
    assert_eq!(indices(&filter(&store_with_two_spans(), "duration<1s")), vec![0, 1]);
    assert_eq!(indices(&filter(&store_with_two_spans(), "duration=50000000")), vec![0]);
}

#[test]
fn substring_matches_integer_attribute_text() {
    assert_eq!(indices(&filter(&store_with_two_spans(), "50")), vec![1]);
}

#[test]
fn a_double_comparison_is_left_undecided() {
    let mut store = Store::new(10_000_000);
    store.insert_span(
        TraceId([1; 16]),
        NewSpan {
            span_id: SpanId([1; 8]),
            parent_span_id: None,
            name: "op".to_string(),
            start_time_unix_nano: 0,
            end_time_unix_nano: 1,
            status_message: String::new(),
            status_code: 0,
            unknown_service: true,
            service_name: None,
            attributes: vec![("ratio".to_string(), AttrValue::Double(0.5f64.to_bits()))],
        },
        0,
    );
    let f = filter(&store, "ratio>0.25");
    assert_eq!(f.verdicts, vec![None]);
    let f = filter(&store, "status=ok ratio>0.25");
    assert_eq!(f.verdicts, vec![Some(false)]);
}

fn store_with_one_trace() -> Store {
    let mut store = Store::new(10_000_000);
    let span = NewSpan {
        span_id: SpanId([2; 8]),
        parent_span_id: None,
        name: "root".to_string(),
        start_time_unix_nano: 100,
        end_time_unix_nano: 500,
        status_message: String::new(),
        status_code: 0,
        unknown_service: false,
        service_name: Some("checkout".to_string()),
        attributes: vec![("http.status_code".to_string(), AttrValue::Int(200))],
    };
    store.insert_span(TraceId([1; 16]), span, 0);
    let span = NewSpan {
        span_id: SpanId([3; 8]),
        parent_span_id: Some(SpanId([2; 8])),
        name: "child".to_string(),
        start_time_unix_nano: 150,
        end_time_unix_nano: 900,
        status_message: String::new(),
        status_code: 0,
        unknown_service: false,
        service_name: Some("db".to_string()),
        attributes: Vec::new(),
    };
    store.insert_span(TraceId([1; 16]), span, 0);
    store
}

#[test]
fn list_traces_reports_span_count_duration_and_services() {
    let store = store_with_one_trace();
    let summaries = list_traces(&store);
    assert_eq!(summaries.len(), 1);
    assert_eq!(summaries[0].span_count, 2);
    assert_eq!(summaries[0].duration_nanos, Some(800)); // 900 - 100
    assert_eq!(summaries[0].services, vec!["checkout".to_string(), "db".to_string()]);
    assert_eq!(summaries[0].trace_id, TraceId([1; 16]).to_hex());
}

#[test]
fn get_trace_payload_never_contains_attributes() {
    let store = store_with_one_trace();
    let p = get_trace(&store, &TraceId([1; 16]).to_hex()).unwrap_or_else(|e| panic!("{e:?}"));
    assert!(!p.string_table.iter().any(|s| s.contains("http.status_code")));
    assert!(!p.string_table.iter().any(|s| s.contains("200")));
}

#[test]
fn get_trace_payload_is_columnar_with_a_shared_string_table() {
    let store = store_with_one_trace();
    let p = get_trace(&store, &TraceId([1; 16]).to_hex()).unwrap_or_else(|e| panic!("{e:?}"));
    assert_eq!(p.name_idx.len(), 2);
    let table = &p.string_table;
    assert!(table.iter().any(|v| v == "root"));
    assert!(table.iter().any(|v| v == "child"));
    assert!(table.iter().any(|v| v == "checkout"));
    assert!(table.iter().any(|v| v == "db"));
    assert_eq!(table[p.name_idx[1]], "child");
    assert_eq!(p.parent_idx, vec![None, Some(0)]);
    // both status messages are empty, so they share one entry
    assert_eq!(p.status_message_idx[0], p.status_message_idx[1]);
    assert_eq!(table.len(), 5);
}

#[test]
fn get_trace_returns_404_for_an_unknown_trace() {
    let store = store_with_one_trace();
    assert!(matches!(get_trace(&store, &TraceId([9; 16]).to_hex()), Err(TraceLookupError::NotFound)));
}

#[test]
fn get_trace_returns_400_for_a_malformed_id() {
    let store = store_with_one_trace();
    assert!(matches!(get_trace(&store, "not-hex"), Err(TraceLookupError::BadTraceId)));
}

fn store_with_one_span() -> Store {
    let mut store = Store::new(10_000_000);
    let span = NewSpan {
        span_id: SpanId([2; 8]),
        parent_span_id: None,
        name: "root".to_string(),
        start_time_unix_nano: 1,
        end_time_unix_nano: 2,
        status_message: String::new(),
        status_code: 0,
        unknown_service: false,
        service_name: Some("checkout".to_string()),
        attributes: vec![
            ("http.status_code".to_string(), AttrValue::Int(200)),
            ("http.method".to_string(), AttrValue::Str("GET".to_string())),
        ],
    };
    store.insert_span(TraceId([1; 16]), span, 0);
    store
}

#[test]
fn returns_the_spans_key_value_attributes() {
    let store = store_with_one_span();
    let entries = get_attributes(&store, &TraceId([1; 16]).to_hex(), 0).unwrap_or_else(|e| panic!("{e:?}"));
    assert_eq!(entries.len(), 2);
    assert!(entries.iter().any(|e| e.key == "http.status_code" && e.value == AttrValue::Int(200)));
    assert!(entries.iter().any(|e| e.key == "http.method" && e.value == AttrValue::Str("GET".to_string())));
}

#[test]
fn out_of_range_span_index_is_404() {
    let store = store_with_one_span();
    assert!(matches!(
        get_attributes(&store, &TraceId([1; 16]).to_hex(), 99),
        Err(TraceLookupError::NotFound)
    ));
}

#[test]
fn reports_store_counters_arrivals_and_recent_rejects() {
    let mut store = Store::new(10_000_000);
    let span = |name: &str| NewSpan {
        span_id: SpanId([1; 8]),
        parent_span_id: None,
        name: name.to_string(),
        start_time_unix_nano: 0,
        end_time_unix_nano: 0,
        status_message: String::new(),
        status_code: 0,
        unknown_service: true,
        service_name: None,
        attributes: Vec::new(),
    };
    store.insert_span(TraceId([1; 16]), span("op"), 0);
    // dedupe overwrite bumps duplicate_span
    store.insert_span(TraceId([1; 16]), span("op-renamed"), 1);
    let mut receiver = ReceiverState::default();
    receiver.arrivals.record(Transport::HttpProtobufV4318, 2);
    receiver.rejects.push("EmptyPayload".to_string(), 5);

    let body = get_receiver(&store, &receiver);
    assert_eq!(body.arrivals.http_protobuf_v4318, 2);
    assert_eq!(body.counters.duplicate_span, 1);
    assert_eq!(body.recent_rejects.len(), 1);
    assert_eq!(body.recent_rejects[0].reason, "EmptyPayload");
}

#[test]
fn connecting_yields_the_current_seq_immediately() {
    assert_eq!(event_data(3), r#"{"type":"changed","seq":3}"#);
}

#[test]
fn carries_no_span_data() {
    assert!(!event_data(0).contains("span"));
    assert_eq!(event_data(1234567890), r#"{"type":"changed","seq":1234567890}"#);
}

#[test]
fn services_are_listed_sorted_and_once() {
    let mut store = Store::new(10_000_000);
    for (i, svc) in ["zeta", "alpha", "zeta", "mid"].iter().enumerate() {
        store.insert_span(
            TraceId([4; 16]),
            NewSpan {
                span_id: SpanId([i as u8; 8]),
                parent_span_id: None,
                name: "op".to_string(),
                start_time_unix_nano: 0,
                end_time_unix_nano: 0,
                status_message: String::new(),
                status_code: 0,
                unknown_service: false,
                service_name: Some(svc.to_string()),
                attributes: Vec::new(),
            },
            0,
        );
    }
    let rows = list_traces(&store);
    assert_eq!(rows[0].services, vec!["alpha".to_string(), "mid".to_string(), "zeta".to_string()]);
}

#[test]
fn the_string_table_holds_each_string_once_in_first_use_order() {
    let store = store_with_one_trace();
    let p = get_trace(&store, &TraceId([1; 16]).to_hex()).unwrap_or_else(|e| panic!("{e:?}"));
    assert_eq!(p.string_table, vec!["root", "", "checkout", "child", "db"]);
    assert_eq!(p.name_idx, vec![0, 3]);
    assert_eq!(p.status_message_idx, vec![1, 1]);
    assert_eq!(p.service_idx, vec![Some(2), Some(4)]);
}

#[test]
fn span_attributes_never_change_the_trace_payload() {
    let with = store_with_one_trace();
    let mut without = Store::new(10_000_000);
    for (id, parent, name, start, end, svc) in
        [(2u8, None, "root", 100u64, 500u64, "checkout"), (3u8, Some(2u8), "child", 150, 900, "db")]
    {
        without.insert_span(
            TraceId([1; 16]),
            NewSpan {
                span_id: SpanId([id; 8]),
                parent_span_id: parent.map(|p| SpanId([p; 8])),
                name: name.to_string(),
                start_time_unix_nano: start,
                end_time_unix_nano: end,
                status_message: String::new(),
                status_code: 0,
                unknown_service: false,
                service_name: Some(svc.to_string()),
                attributes: Vec::new(),
            },
            0,
        );
    }
    let hex = TraceId([1; 16]).to_hex();
    let a = get_trace(&with, &hex).unwrap_or_else(|e| panic!("{e:?}"));
    let b = get_trace(&without, &hex).unwrap_or_else(|e| panic!("{e:?}"));
    assert_eq!(a.string_table, b.string_table);
    assert_eq!(a.name_idx, b.name_idx);
    assert_eq!(a.parent_idx, b.parent_idx);
    assert_eq!(a.service_idx, b.service_idx);
    assert_eq!(a.start_time_unix_nano, b.start_time_unix_nano);
}
