use spanfall::ingest::convert::{
    ContentType, OtlpRequest, OtlpResourceSpans, OtlpScopeSpans, OtlpSpan, OtlpStatus, RejectReason,
};
use spanfall::ingest::handler::{accept, conversion_panicked, IngestError};
use spanfall::ingest::http::{classify_content_type, http_status};
use spanfall::ingest::receiver_state::{ReceiverState, Transport};
use spanfall::ingest::grpc::{grpc_reply, GrpcReply};
use spanfall::ingest::sniff::{misdirect_body, misdirect_response, peek_verdict, preface_step, PeekVerdict, PREFACE_ATTEMPTS};

fn span_request() -> OtlpRequest {
    OtlpRequest {
        resource_spans: vec![OtlpResourceSpans {
            resource: None,
            scope_spans: vec![OtlpScopeSpans {
                spans: vec![OtlpSpan {
                    trace_id: vec![1; 16],
                    span_id: vec![2; 8],
                    parent_span_id: Vec::new(),
                    name: "op".to_string(),
                    start_time_unix_nano: 1,
                    end_time_unix_nano: 2,
                    attributes: Vec::new(),
                    status: Some(OtlpStatus { message: String::new(), code: 0 }),
                }],
            }],
        }],
    }
}

#[test]
fn accepted_batch_reaches_the_writer_channel() {
    let mut receiver = ReceiverState::default();
    let batch = accept(&mut receiver, span_request(), 7).unwrap_or_else(|e| panic!("{e:?}"));
    assert_eq!(batch.spans.len(), 1);
    assert!(receiver.rejects.is_empty());
}

#[test]
fn accepted_batch_bumps_the_arrival_count_for_its_transport() {
    let mut receiver = ReceiverState::default();
    let batch = accept(&mut receiver, span_request(), 7).unwrap_or_else(|e| panic!("{e:?}"));
    receiver.arrivals.record(Transport::HttpJsonV4318, batch.spans.len() as u64);
    assert_eq!(receiver.arrivals.http_json_v4318, 1);
    assert_eq!(receiver.arrivals.grpc_v4317, 0);
}

#[test]
fn empty_payload_is_rejected_and_recorded() {
    let mut receiver = ReceiverState::default();
    let err = accept(&mut receiver, OtlpRequest { resource_spans: vec![] }, 42).unwrap_err();
    assert!(matches!(err, IngestError::Reject(RejectReason::EmptyPayload)));
    assert_eq!(receiver.rejects.len(), 1);
    let rec = receiver.rejects.recent().iter().next().unwrap();
    assert_eq!(rec.reason, "EmptyPayload");
    assert_eq!(rec.at_unix_nano, 42);
}

#[test]
fn a_panicked_conversion_is_recorded() {
    let mut receiver = ReceiverState::default();
    let err = conversion_panicked(&mut receiver, 9);
    assert!(matches!(err, IngestError::ConversionPanicked));
    assert_eq!(receiver.rejects.recent().iter().next().unwrap().reason, "panic during conversion");
}

#[test]
fn content_type_selects_json_only_for_application_json() {
    assert_eq!(classify_content_type(Some("application/json")), (ContentType::Json, Transport::HttpJsonV4318));
    assert_eq!(
        classify_content_type(Some("application/json; charset=utf-8")),
        (ContentType::Json, Transport::HttpJsonV4318)
    );
    assert_eq!(
        classify_content_type(Some("application/x-protobuf")),
        (ContentType::Protobuf, Transport::HttpProtobufV4318)
    );
    assert_eq!(classify_content_type(None), (ContentType::Protobuf, Transport::HttpProtobufV4318));
    assert_eq!(classify_content_type(Some("application/js")), (ContentType::Protobuf, Transport::HttpProtobufV4318));
}

#[test]
fn empty_payload_is_a_200_not_a_reject() {
    assert_eq!(http_status(&Err(IngestError::Reject(RejectReason::EmptyPayload))), 200);
    assert_eq!(http_status(&Ok(())), 200);
}

#[test]
fn truncated_protobuf_body_is_a_400_not_a_panic() {
    assert_eq!(http_status(&Err(IngestError::Reject(RejectReason::DecodeError("bad".to_string())))), 400);
}

#[test]
fn backpressure_is_429_and_server_faults_are_500() {
    assert_eq!(http_status(&Err(IngestError::Backpressure)), 429);
    assert_eq!(http_status(&Err(IngestError::ConversionPanicked)), 500);
    assert_eq!(http_status(&Err(IngestError::WriterGone)), 500);
}

#[test]
fn an_h2_preface_goes_to_grpc() {
    assert_eq!(peek_verdict(Some(4), b"PRI "), PeekVerdict::Grpc);
}

#[test]
fn otlp_http_sent_to_the_grpc_port_gets_a_400_naming_the_fix() {
    assert_eq!(peek_verdict(Some(4), b"POST"), PeekVerdict::Misdirected);
    let response = misdirect_response();
    assert!(response.starts_with("HTTP/1.1 400"), "response was: {response}");
    assert!(response.contains("4318"), "response body must name the fix: {response}");
    assert!(response.ends_with(misdirect_body()));
    assert!(response.contains(&format!("Content-Length: {}\r\n", misdirect_body().len())));
}

#[test]
fn short_reads_retry_and_closed_or_failed_peeks_are_misdirected() {
    assert_eq!(peek_verdict(Some(2), b"PR\0\0"), PeekVerdict::Retry);
    assert_eq!(peek_verdict(Some(0), b"\0\0\0\0"), PeekVerdict::Misdirected);
    assert_eq!(peek_verdict(None, b"PRI "), PeekVerdict::Misdirected);
}

#[test]
fn grpc_answers_each_outcome() {
    assert_eq!(grpc_reply(&Ok(())), GrpcReply::Success);
    assert_eq!(grpc_reply(&Err(IngestError::Reject(RejectReason::EmptyPayload))), GrpcReply::Success);
    assert_eq!(grpc_reply(&Err(IngestError::Reject(RejectReason::DecodeError("x".to_string())))), GrpcReply::InvalidArgument);
    assert_eq!(grpc_reply(&Err(IngestError::Backpressure)), GrpcReply::ResourceExhausted);
    assert_eq!(grpc_reply(&Err(IngestError::ConversionPanicked)), GrpcReply::Internal);
    assert_eq!(grpc_reply(&Err(IngestError::WriterGone)), GrpcReply::Internal);
}

#[test]
fn a_slow_preface_is_retried_until_the_last_attempt() {
    assert_eq!(preface_step(0, PeekVerdict::Retry), None);
    assert_eq!(preface_step(PREFACE_ATTEMPTS - 2, PeekVerdict::Retry), None);
    assert_eq!(preface_step(PREFACE_ATTEMPTS - 1, PeekVerdict::Retry), Some(false));
    assert_eq!(preface_step(3, PeekVerdict::Grpc), Some(true));
    assert_eq!(preface_step(0, PeekVerdict::Misdirected), Some(false));
}
