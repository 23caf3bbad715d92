use opentelemetry_proto::tonic::collector::trace::v1::ExportTraceServiceRequest;
use opentelemetry_proto::tonic::common::v1::{any_value, AnyValue, KeyValue};
use opentelemetry_proto::tonic::resource::v1::Resource;
use opentelemetry_proto::tonic::trace::v1::{ResourceSpans, ScopeSpans, Span, Status};
use prost::Message;

use spanfall::ingest::convert::{
    convert, decode, ContentType, OtlpKeyValue, OtlpRequest, OtlpResource, OtlpResourceSpans, OtlpScopeSpans,
    OtlpSpan, OtlpStatus, OtlpValue, RejectReason,
};
use spanfall::store::types::{AttrValue, SpanId, TraceId};

fn kv(key: &str, value: OtlpValue) -> OtlpKeyValue {
    OtlpKeyValue { key: key.to_string(), value: Some(value) }
}

fn minimal_span(trace_id: [u8; 16], span_id: [u8; 8], parent: Option<[u8; 8]>) -> OtlpSpan {
    OtlpSpan {
        trace_id: trace_id.to_vec(),
        span_id: span_id.to_vec(),
        parent_span_id: parent.map(|p| p.to_vec()).unwrap_or_default(),
        name: "op".to_string(),
        start_time_unix_nano: 1,
        end_time_unix_nano: 2,
        attributes: Vec::new(),
        status: Some(OtlpStatus { message: String::new(), code: 0 }),
    }
}

fn request_with(resource_spans: Vec<OtlpResourceSpans>) -> OtlpRequest {
    OtlpRequest { resource_spans }
}

fn resource_spans_with(service_name: Option<&str>, spans: Vec<OtlpSpan>) -> OtlpResourceSpans {
    let resource = service_name.map(|name| OtlpResource {
        attributes: vec![kv("service.name", OtlpValue::Str(name.to_string()))],
    });
    OtlpResourceSpans { resource, scope_spans: vec![OtlpScopeSpans { spans }] }
}

fn proto_request(service: &str) -> ExportTraceServiceRequest {
    ExportTraceServiceRequest {
        resource_spans: vec![ResourceSpans {
            resource: Some(Resource {
                attributes: vec![KeyValue {
                    key: "service.name".to_string(),
                    value: Some(AnyValue { value: Some(any_value::Value::StringValue(service.to_string())) }),
                    ..Default::default()
                }],
                ..Default::default()
            }),
            scope_spans: vec![ScopeSpans {
                scope: None,
                spans: vec![Span {
                    trace_id: vec![1; 16],
                    span_id: vec![2; 8],
                    name: "op".to_string(),
                    start_time_unix_nano: 1,
                    end_time_unix_nano: 2,
                    status: Some(Status { message: String::new(), code: 0 }),
                    ..Default::default()
                }],
                schema_url: String::new(),
            }],
            schema_url: String::new(),
        }],
    }
}

#[test]
fn zero_resource_spans_is_empty_payload() {
    let req = request_with(vec![]);
    assert_eq!(convert(req).unwrap_err(), RejectReason::EmptyPayload);
}

#[test]
fn zero_spans_inside_present_resource_spans_is_also_empty_payload() {
    let req = request_with(vec![resource_spans_with(Some("checkout"), vec![])]);
    assert_eq!(convert(req).unwrap_err(), RejectReason::EmptyPayload);
}

#[test]
fn a_well_formed_span_converts_with_known_service() {
    let span = minimal_span([1; 16], [2; 8], None);
    let req = request_with(vec![resource_spans_with(Some("checkout"), vec![span])]);

    let batch = convert(req).unwrap();
    assert!(!batch.partial);
    assert_eq!(batch.malformed_span_count, 0);
    assert_eq!(batch.spans.len(), 1);
    let (trace_id, new_span) = &batch.spans[0];
    assert_eq!(*trace_id, TraceId([1; 16]));
    assert_eq!(new_span.span_id, SpanId([2; 8]));
    assert!(!new_span.unknown_service);
    assert_eq!(new_span.service_name.as_deref(), Some("checkout"));
}

#[test]
fn status_code_carries_through_from_the_proto() {
    let mut span = minimal_span([1; 16], [2; 8], None);
    span.status = Some(OtlpStatus { message: "boom".to_string(), code: 2 });
    let req = request_with(vec![resource_spans_with(Some("svc"), vec![span])]);

    let batch = convert(req).unwrap();
    assert_eq!(batch.spans[0].1.status_code, 2);
    assert_eq!(batch.spans[0].1.status_message, "boom");
}

#[test]
fn missing_service_name_flags_unknown_service_but_still_accepts_the_span() {
    let span = minimal_span([1; 16], [2; 8], None);
    let req = request_with(vec![resource_spans_with(None, vec![span])]);

    let batch = convert(req).unwrap();
    assert_eq!(batch.spans.len(), 1);
    assert!(batch.spans[0].1.unknown_service);
}

#[test]
fn a_malformed_trace_id_drops_only_that_span_and_flags_partial() {
    let ok = minimal_span([1; 16], [2; 8], None);
    let mut bad = minimal_span([1; 16], [3; 8], None);
    bad.trace_id = vec![0xFF; 15]; // wrong length

    let req = request_with(vec![resource_spans_with(Some("svc"), vec![ok, bad])]);
    let batch = convert(req).unwrap();

    assert!(batch.partial);
    assert_eq!(batch.malformed_span_count, 1);
    assert_eq!(batch.spans.len(), 1);
}

#[test]
fn parent_span_id_carries_through_when_present() {
    let span = minimal_span([1; 16], [2; 8], Some([9; 8]));
    let req = request_with(vec![resource_spans_with(Some("svc"), vec![span])]);

    let batch = convert(req).unwrap();
    assert_eq!(batch.spans[0].1.parent_span_id, Some(SpanId([9; 8])));
}

#[test]
fn scalar_attribute_kinds_convert_and_unsupported_kinds_are_dropped() {
    let mut span = minimal_span([1; 16], [2; 8], None);
    span.attributes = vec![
        kv("s", OtlpValue::Str("x".to_string())),
        kv("i", OtlpValue::Int(7)),
        kv("d", OtlpValue::Double(1.5f64.to_bits())),
        kv("b", OtlpValue::Bool(true)),
        kv("arr", OtlpValue::Array),
    ];
    let req = request_with(vec![resource_spans_with(Some("svc"), vec![span])]);

    let batch = convert(req).unwrap();
    assert_eq!(batch.spans[0].1.attributes.len(), 4);
    assert_eq!(batch.spans[0].1.attributes[2].1, AttrValue::Double(1.5f64.to_bits()));
}

#[test]
fn protobuf_round_trip_decodes() {
    let bytes = proto_request("svc").encode_to_vec();

    let decoded = decode(&bytes, ContentType::Protobuf).unwrap();
    assert_eq!(decoded.resource_spans.len(), 1);
}

#[test]
fn truncated_protobuf_is_a_typed_decode_error_not_a_panic() {
    let err = decode(&[0xFF, 0xFF, 0xFF], ContentType::Protobuf).unwrap_err();
    assert!(matches!(err, RejectReason::DecodeError(_)));
}

#[test]
fn json_round_trip_decodes() {
    let bytes = serde_json::to_vec(&proto_request("svc")).unwrap();

    let decoded = decode(&bytes, ContentType::Json).unwrap();
    assert_eq!(decoded.resource_spans.len(), 1);
}

#[test]
fn malformed_json_is_a_typed_decode_error_not_a_panic() {
    let err = decode(b"{not json", ContentType::Json).unwrap_err();
    assert!(matches!(err, RejectReason::DecodeError(_)));
}

#[test]
fn a_malformed_parent_id_is_treated_as_no_parent() {
    let mut span = minimal_span([1; 16], [2; 8], None);
    span.parent_span_id = vec![1, 2, 3];
    let req = request_with(vec![resource_spans_with(Some("svc"), vec![span])]);
    let batch = convert(req).unwrap();
    assert_eq!(batch.spans[0].1.parent_span_id, None);
    assert!(!batch.partial);
}

#[test]
fn spans_keep_their_order_across_resources_and_scopes() {
    let a = minimal_span([1; 16], [1; 8], None);
    let b = minimal_span([2; 16], [2; 8], None);
    let c = minimal_span([3; 16], [3; 8], None);
    let req = request_with(vec![
        resource_spans_with(Some("one"), vec![a, b]),
        resource_spans_with(Some("two"), vec![c]),
    ]);
    let batch = convert(req).unwrap();
    let ids: Vec<u8> = batch.spans.iter().map(|(t, _)| t.0[0]).collect();
    assert_eq!(ids, vec![1, 2, 3]);
    assert_eq!(batch.spans[2].1.service_name.as_deref(), Some("two"));
}

#[test]
fn an_all_malformed_batch_is_accepted_as_partial_with_no_spans() {
    let mut bad = minimal_span([1; 16], [2; 8], None);
    bad.span_id = vec![1];
    let req = request_with(vec![resource_spans_with(Some("svc"), vec![bad])]);
    let batch = convert(req).unwrap();
    assert!(batch.partial);
    assert_eq!(batch.spans.len(), 0);
    assert_eq!(batch.malformed_span_count, 1);
}

#[test]
fn decoding_keeps_every_field_the_conversion_reads() {
    let mut request = proto_request("svc");
    request.resource_spans[0].scope_spans[0].spans[0].attributes = vec![KeyValue {
        key: "ratio".to_string(),
        value: Some(AnyValue { value: Some(any_value::Value::DoubleValue(0.25)) }),
        ..Default::default()
    }];
    for (bytes, content_type) in [
        (request.encode_to_vec(), ContentType::Protobuf),
        (serde_json::to_vec(&request).unwrap(), ContentType::Json),
    ] {
        let decoded = decode(&bytes, content_type).unwrap();
        let rs = &decoded.resource_spans[0];
        let resource = rs.resource.as_ref().unwrap();
        assert_eq!(resource.attributes[0].key, "service.name");
        assert!(matches!(&resource.attributes[0].value, Some(OtlpValue::Str(s)) if s == "svc"));
        let span = &rs.scope_spans[0].spans[0];
        assert_eq!(span.trace_id, vec![1; 16]);
        assert_eq!(span.span_id, vec![2; 8]);
        assert_eq!(span.name, "op");
        assert_eq!((span.start_time_unix_nano, span.end_time_unix_nano), (1, 2));
        assert!(matches!(span.attributes[0].value, Some(OtlpValue::Double(bits)) if bits == 0.25f64.to_bits()));
        let batch = convert(decoded).unwrap();
        assert_eq!(batch.spans[0].0, TraceId([1; 16]));
        assert_eq!(batch.spans[0].1.service_name.as_deref(), Some("svc"));
    }
}
