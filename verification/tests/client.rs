use spanfall::client::{parse_raw_response, response_json, JsonValue, RawResponse, ResponseError};
use spanfall::dump::{list_row, list_rows, member_str};
use spanfall::port_conflict::holder_from_lsof;

#[test]
fn parses_the_json_body_of_a_200_response() {
    let raw = b"HTTP/1.1 200 OK\r\nContent-Type: application/json\r\nConnection: close\r\n\r\n{\"ok\":true}";
    match parse_raw_response(raw) {
        RawResponse::Parsed { status_line_end, ok, .. } => {
            assert!(ok);
            assert_eq!(&raw[..status_line_end], b"HTTP/1.1 200 OK");
        },
        RawResponse::Malformed => panic!("expected a parsed response"),
    }
    let body = response_json(raw).unwrap();
    assert_eq!(body, JsonValue::Object(vec![("ok".to_string(), JsonValue::Bool(true))]));
}

#[test]
fn a_non_200_status_becomes_a_readable_error() {
    let raw = b"HTTP/1.1 404 Not Found\r\nConnection: close\r\n\r\n";
    match parse_raw_response(raw) {
        RawResponse::Parsed { status_line_end, ok, .. } => {
            assert!(!ok);
            let line = String::from_utf8_lossy(&raw[..status_line_end]);
            assert!(line.contains("404"), "expected the status line: {line}");
        },
        RawResponse::Malformed => panic!("expected a parsed response"),
    }
}

#[test]
fn a_response_without_a_blank_line_is_malformed() {
    assert_eq!(parse_raw_response(b"HTTP/1.1 200 OK\r\n"), RawResponse::Malformed);
    assert_eq!(parse_raw_response(b""), RawResponse::Malformed);
}

#[test]
fn the_status_line_ends_at_the_first_line_break() {
    let raw = b"HTTP/1.1 500 Oops\r\nX: 200 \r\n\r\n";
    assert_eq!(parse_raw_response(raw), RawResponse::Parsed { status_line_end: 17, ok: false, body_start: 30 });
}

#[test]
fn names_the_process_holding_a_listening_port() {
    let out = "COMMAND   PID USER   FD   TYPE DEVICE SIZE/OFF NODE NAME\n\
               jaeger  4242 me     7u  IPv4 0x1234      0t0  TCP *:4317 (LISTEN)\n";
    let holder = holder_from_lsof(out).unwrap();
    assert_eq!(holder, "jaeger (pid 4242)");
    assert!(holder.contains("pid"));
}

#[test]
fn an_unbound_port_has_no_holder() {
    assert_eq!(holder_from_lsof(""), None);
    assert_eq!(holder_from_lsof("COMMAND PID USER\n"), None);
    assert_eq!(holder_from_lsof("COMMAND PID USER\nlonely\n"), None);
}

#[test]
fn a_crlf_line_ending_is_not_part_of_the_pid() {
    assert_eq!(holder_from_lsof("H\r\notelcol 17\r\n").as_deref(), Some("otelcol (pid 17)"));
}

#[test]
fn the_json_body_of_a_200_response_is_parsed() {
    let raw = b"HTTP/1.1 200 OK\r\n\r\n[1,2]";
    let v = response_json(raw).unwrap();
    assert_eq!(v, JsonValue::Array(vec![JsonValue::Number("1".to_string()), JsonValue::Number("2".to_string())]));
    assert!(matches!(response_json(b"HTTP/1.1 200 OK\r\n\r\n{bad"), Err(ResponseError::Body(_))));
    assert!(matches!(
        response_json(b"HTTP/1.1 404 Not Found\r\n\r\n{}"),
        Err(ResponseError::Status { status_line_end: 22 })
    ));
    assert!(matches!(response_json(b"HTTP/1.1 200 OK"), Err(ResponseError::Malformed)));
}

#[test]
fn only_the_body_after_the_blank_line_is_parsed() {
    let raw = b"HTTP/1.1 200 OK\r\nX: 1\r\n\r\n{\"b\":[\"x\",null,-3,2.5],\"a\":\"y\"}";
    let v = response_json(raw).unwrap();
    assert_eq!(
        v,
        JsonValue::Object(vec![
            ("a".to_string(), JsonValue::Str("y".to_string())),
            (
                "b".to_string(),
                JsonValue::Array(vec![
                    JsonValue::Str("x".to_string()),
                    JsonValue::Null,
                    JsonValue::Number("-3".to_string()),
                    JsonValue::Number("2.5".to_string()),
                ])
            ),
        ])
    );
}

fn row_body(text: &str) -> JsonValue {
    let raw = format!("HTTP/1.1 200 OK\r\n\r\n{text}");
    response_json(raw.as_bytes()).unwrap()
}

#[test]
fn a_listing_row_shows_each_field() {
    let row = row_body(
        r#"{"trace_id":"0101","span_count":3,"duration_nanos":400,"services":["checkout",7,"payments"]}"#,
    );
    let r = list_row(&row);
    assert_eq!(r.trace_id, "0101");
    assert_eq!(r.span_count, 3);
    assert_eq!(r.duration, "400");
    assert_eq!(r.services, "checkout,payments");
    assert_eq!(member_str(&row, "trace_id").as_deref(), Some("0101"));
    assert_eq!(member_str(&row, "span_count"), None);
}

#[test]
fn a_listing_row_falls_back_where_a_field_is_missing() {
    let row = row_body(r#"{"span_count":-1,"duration_nanos":null,"services":"x"}"#);
    let r = list_row(&row);
    assert_eq!(r.trace_id, "?");
    assert_eq!(r.span_count, 0);
    assert_eq!(r.duration, "-");
    assert_eq!(r.services, "");
    let r = list_row(&row_body(r#"{"span_count":2.0}"#));
    assert_eq!(r.span_count, 0);
}

#[test]
fn the_listing_needs_an_array_body() {
    assert!(list_rows(&row_body("{}")).is_none());
    let rows = list_rows(&row_body(r#"[{"trace_id":"a"},{"trace_id":"b"}]"#)).unwrap();
    assert_eq!(rows.iter().map(|r| r.trace_id.as_str()).collect::<Vec<_>>(), vec!["a", "b"]);
    assert!(list_rows(&row_body("[]")).unwrap().is_empty());
}
