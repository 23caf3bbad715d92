//! The one shared semantic conversion from an OTLP export request to a batch of spans.
//!
//! The request is given as `OtlpRequest`, a plain-value model of the OTLP
//! `ExportTraceServiceRequest` that holds exactly the fields the conversion reads.

use opentelemetry_proto::tonic::collector::trace::v1::ExportTraceServiceRequest;
use opentelemetry_proto::tonic::common::v1::{any_value, KeyValue};
use opentelemetry_proto::tonic::trace::v1::{ResourceSpans, Span};
use prost::Message;
use vstd::prelude::*;

use crate::store::trace::NewSpan;
use crate::store::types::{AttrValue, SpanId, TraceId};
use crate::text::str_eq;

verus! {

/// An OTLP `AnyValue` payload.
#[derive(Debug, Clone)]
pub enum OtlpValue {
    Str(String),
    Int(i64),
    /// IEEE-754 bit pattern of a double.
    Double(u64),
    Bool(bool),
    Array,
    Kvlist,
    Bytes,
    /// Profiling-signal string-table index; never populated by trace exporters.
    StrIndex,
}

/// An OTLP `KeyValue`; `value` is `None` when the value or its payload is unset.
#[derive(Debug, Clone)]
pub struct OtlpKeyValue {
    pub key: String,
    pub value: Option<OtlpValue>,
}

/// An OTLP span `Status`.
#[derive(Debug, Clone)]
pub struct OtlpStatus {
    pub message: String,
    pub code: i32,
}

/// The fields of an OTLP `Span` that conversion reads.
#[derive(Debug, Clone)]
pub struct OtlpSpan {
    pub trace_id: Vec<u8>,
    pub span_id: Vec<u8>,
    pub parent_span_id: Vec<u8>,
    pub name: String,
    pub start_time_unix_nano: u64,
    pub end_time_unix_nano: u64,
    pub attributes: Vec<OtlpKeyValue>,
    pub status: Option<OtlpStatus>,
}

/// An OTLP `ScopeSpans`.
#[derive(Debug, Clone)]
pub struct OtlpScopeSpans {
    pub spans: Vec<OtlpSpan>,
}

/// An OTLP `Resource`.
#[derive(Debug, Clone)]
pub struct OtlpResource {
    pub attributes: Vec<OtlpKeyValue>,
}

/// An OTLP `ResourceSpans`.
#[derive(Debug, Clone)]
pub struct OtlpResourceSpans {
    pub resource: Option<OtlpResource>,
    pub scope_spans: Vec<OtlpScopeSpans>,
}

/// An OTLP `ExportTraceServiceRequest`.
#[derive(Debug, Clone)]
pub struct OtlpRequest {
    pub resource_spans: Vec<OtlpResourceSpans>,
}

/// Envelope-level failures. Per-span problems never reach this type: they are counted and the
/// rest of the batch is still accepted.
#[derive(Debug, PartialEq)]
pub enum RejectReason {
    /// The exporter connected but sent zero spans.
    EmptyPayload,
    DecodeError(String),
}

/// Wire encoding of an OTLP/HTTP body.
#[derive(Debug, Clone, Copy, PartialEq, Eq, Structural)]
pub enum ContentType {
    Protobuf,
    Json,
}

/// A converted batch.
#[derive(Debug)]
pub struct SpanBatch {
    pub spans: Vec<(TraceId, NewSpan)>,
    /// Some spans in the batch converted and some did not.
    pub partial: bool,
    pub malformed_span_count: usize,
}

/// The service name a key-value pair names: a `service.name` key with a string value.
pub open spec fn kv_service(kv: OtlpKeyValue) -> Option<Seq<char>> {
    if kv.key@ == "service.name"@ {
        match kv.value {
            Some(OtlpValue::Str(s)) => Some(s@),
            _ => None,
        }
    } else {
        None
    }
}

/// The first service name among `kvs`.
pub open spec fn service_name_in(kvs: Seq<OtlpKeyValue>) -> Option<Seq<char>>
    decreases kvs.len(),
{
    if kvs.len() == 0 {
        None
    } else {
        match kv_service(kvs[0]) {
            Some(s) => Some(s),
            None => service_name_in(kvs.drop_first()),
        }
    }
}

/// The service name of a resource: the first `service.name` attribute with a string value.
pub open spec fn resource_service(rs: OtlpResourceSpans) -> Option<Seq<char>> {
    match rs.resource {
        Some(r) => service_name_in(r.attributes@),
        None => None,
    }
}

/// All spans of the given scopes, in order.
pub open spec fn scopes_flat(ss: Seq<OtlpScopeSpans>) -> Seq<OtlpSpan>
    decreases ss.len(),
{
    if ss.len() == 0 {
        Seq::empty()
    } else {
        scopes_flat(ss.drop_last()) + ss.last().spans@
    }
}

/// Each span paired with its resource's service name.
pub open spec fn tagged(svc: Option<Seq<char>>, spans: Seq<OtlpSpan>) -> Seq<(Option<Seq<char>>, OtlpSpan)> {
    spans.map_values(|s: OtlpSpan| (svc, s))
}

/// All spans of a request in order, each with its resource's service name.
pub open spec fn request_flat(rs: Seq<OtlpResourceSpans>) -> Seq<(Option<Seq<char>>, OtlpSpan)>
    decreases rs.len(),
{
    if rs.len() == 0 {
        Seq::empty()
    } else {
        request_flat(rs.drop_last()) + tagged(resource_service(rs.last()), scopes_flat(rs.last().scope_spans@))
    }
}

/// A span converts when its trace id is 16 bytes and its span id 8 bytes.
pub open spec fn well_formed(s: OtlpSpan) -> bool {
    s.trace_id@.len() == 16 && s.span_id@.len() == 8
}

/// How many of the entries do not convert.
pub open spec fn malformed_count(entries: Seq<(Option<Seq<char>>, OtlpSpan)>) -> nat
    decreases entries.len(),
{
    if entries.len() == 0 {
        0
    } else {
        malformed_count(entries.drop_last()) + if well_formed(entries.last().1) {
            0nat
        } else {
            1nat
        }
    }
}

/// The converted form of one attribute: scalar kinds carry over, the others are dropped.
pub open spec fn attr_converts(kv: OtlpKeyValue, out: (String, AttrValue)) -> bool {
    &&& out.0@ == kv.key@
    &&& match (kv.value, out.1) {
        (Some(OtlpValue::Str(s)), AttrValue::Str(t)) => s@ == t@,
        (Some(OtlpValue::Int(i)), AttrValue::Int(j)) => i == j,
        (Some(OtlpValue::Double(d)), AttrValue::Double(e)) => d == e,
        (Some(OtlpValue::Bool(b)), AttrValue::Bool(c)) => b == c,
        _ => false,
    }
}

/// Whether an attribute has a scalar value that carries over.
pub open spec fn scalar_attr(kv: OtlpKeyValue) -> bool {
    match kv.value {
        Some(OtlpValue::Str(_)) | Some(OtlpValue::Int(_)) | Some(OtlpValue::Double(_)) | Some(OtlpValue::Bool(_)) => true,
        _ => false,
    }
}

/// `out` is the scalar attributes of `kvs`, in order, converted.
pub open spec fn attrs_convert(kvs: Seq<OtlpKeyValue>, out: Seq<(String, AttrValue)>) -> bool
    decreases kvs.len(),
{
    if kvs.len() == 0 {
        out.len() == 0
    } else if scalar_attr(kvs.last()) {
        out.len() > 0 && attrs_convert(kvs.drop_last(), out.drop_last()) && attr_converts(kvs.last(), out.last())
    } else {
        attrs_convert(kvs.drop_last(), out)
    }
}

/// `out` is the converted form of the well-formed span `s` of a resource with service `svc`.
pub open spec fn span_converts(svc: Option<Seq<char>>, s: OtlpSpan, out: (TraceId, NewSpan)) -> bool {
    let n = out.1;
    &&& out.0.0@ == s.trace_id@
    &&& n.span_id.0@ == s.span_id@
    &&& match n.parent_span_id {
        Some(p) => s.parent_span_id@.len() == 8 && p.0@ == s.parent_span_id@,
        None => s.parent_span_id@.len() != 8,
    }
    &&& n.name@ == s.name@
    &&& n.start_time_unix_nano == s.start_time_unix_nano
    &&& n.end_time_unix_nano == s.end_time_unix_nano
    &&& n.status_message@ == match s.status {
        Some(st) => st.message@,
        None => Seq::<char>::empty(),
    }
    &&& n.status_code == match s.status {
        Some(st) => st.code,
        None => 0,
    }
    &&& n.unknown_service == (svc is None)
    &&& match n.service_name {
        Some(name) => svc == Some(name@),
        None => svc is None,
    }
    &&& attrs_convert(s.attributes@, n.attributes@)
}

/// `out` is the converted form of the well-formed entries, in order; malformed ones are
/// skipped.
pub open spec fn batch_converts(entries: Seq<(Option<Seq<char>>, OtlpSpan)>, out: Seq<(TraceId, NewSpan)>) -> bool
    decreases entries.len(),
{
    if entries.len() == 0 {
        out.len() == 0
    } else if well_formed(entries.last().1) {
        out.len() > 0 && batch_converts(entries.drop_last(), out.drop_last()) && span_converts(
            entries.last().0,
            entries.last().1,
            out.last(),
        )
    } else {
        batch_converts(entries.drop_last(), out)
    }
}

/// The 16-byte trace id that `bytes` holds, if it is exactly 16 bytes long.
pub fn trace_id_of(bytes: &[u8]) -> (r: Option<TraceId>)
    ensures
        match r {
            Some(t) => bytes@.len() == 16 && t.0@ == bytes@,
            None => bytes@.len() != 16,
        },
{
    if bytes.len() != 16 {
        return None;
    }
    let mut arr = [0u8; 16];
    let mut i: usize = 0;
    while i < 16
        invariant
            bytes@.len() == 16,
            i <= 16,
            forall|j: int| 0 <= j < i ==> arr@[j] == bytes@[j],
        decreases 16 - i,
    {
        arr[i] = bytes[i];
        i = i + 1;
    }
    assert(arr@ =~= bytes@);
    Some(TraceId(arr))
}

/// The 8-byte span id that `bytes` holds, if it is exactly 8 bytes long.
pub fn span_id_of(bytes: &[u8]) -> (r: Option<SpanId>)
    ensures
        match r {
            Some(t) => bytes@.len() == 8 && t.0@ == bytes@,
            None => bytes@.len() != 8,
        },
{
    if bytes.len() != 8 {
        return None;
    }
    let mut arr = [0u8; 8];
    let mut i: usize = 0;
    while i < 8
        invariant
            bytes@.len() == 8,
            i <= 8,
            forall|j: int| 0 <= j < i ==> arr@[j] == bytes@[j],
        decreases 8 - i,
    {
        arr[i] = bytes[i];
        i = i + 1;
    }
    assert(arr@ =~= bytes@);
    Some(SpanId(arr))
}

/// The service name of a resource: the first `service.name` attribute with a string value.
pub fn service_name_of(resource_spans: &OtlpResourceSpans) -> (r: Option<String>)
    ensures
        match r {
            Some(s) => resource_service(*resource_spans) == Some(s@),
            None => resource_service(*resource_spans) is None,
        },
{
    if resource_spans.resource.is_none() {
        return None;
    }
    let resource = resource_spans.resource.as_ref().unwrap();
    assert(resource_spans.resource == Some(*resource));
    let kvs = &resource.attributes;
    assert(kvs@.skip(0) =~= kvs@);
    let mut i: usize = 0;
    while i < kvs.len()
        invariant
            i <= kvs@.len(),
            service_name_in(kvs@) == service_name_in(kvs@.skip(i as int)),
            resource_service(*resource_spans) == service_name_in(kvs@),
        decreases kvs@.len() - i,
    {
        assert(kvs@.skip(i as int).drop_first() =~= kvs@.skip(i + 1));
        assert(kvs@.skip(i as int)[0] == kvs@[i as int]);
        let kv = &kvs[i];
        if str_eq(kv.key.as_str(), "service.name") {
            match &kv.value {
                Some(OtlpValue::Str(s)) => {
                    assert(kv_service(kvs@[i as int]) == Some(s@));
                    assert(service_name_in(kvs@.skip(i as int)) == Some(s@));
                    assert(resource_service(*resource_spans) == service_name_in(kvs@));
                    let r = s.clone();
                    assert(r@ == s@);
                    return Some(r);
                },
                _ => {},
            }
        }
        i = i + 1;
    }
    assert(kvs@.skip(i as int).len() == 0);
    None
}

/// The converted form of one attribute, or `None` for a kind that does not carry over
/// (array, kvlist, bytes, string-table index, unset).
pub fn attr_of(kv: &OtlpKeyValue) -> (r: Option<(String, AttrValue)>)
    ensures
        match r {
            Some(out) => scalar_attr(*kv) && attr_converts(*kv, out),
            None => !scalar_attr(*kv),
        },
{
    let value = match &kv.value {
        Some(OtlpValue::Str(s)) => AttrValue::Str(s.clone()),
        Some(OtlpValue::Int(i)) => AttrValue::Int(*i),
        Some(OtlpValue::Double(d)) => AttrValue::Double(*d),
        Some(OtlpValue::Bool(b)) => AttrValue::Bool(*b),
        _ => return None,
    };
    Some((kv.key.clone(), value))
}

/// The scalar attributes of `kvs`, converted, in order.
fn attrs_of(kvs: &Vec<OtlpKeyValue>) -> (r: Vec<(String, AttrValue)>)
    ensures
        attrs_convert(kvs@, r@),
{
    let mut out: Vec<(String, AttrValue)> = Vec::new();
    let mut i: usize = 0;
    while i < kvs.len()
        invariant
            i <= kvs@.len(),
            attrs_convert(kvs@.take(i as int), out@),
        decreases kvs@.len() - i,
    {
        let ghost before = out@;
        assert(kvs@.take(i + 1).drop_last() =~= kvs@.take(i as int));
        match attr_of(&kvs[i]) {
            Some(a) => {
                out.push(a);
                assert(out@.drop_last() =~= before);
            },
            None => {},
        }
        i = i + 1;
    }
    assert(kvs@.take(kvs@.len() as int) =~= kvs@);
    out
}


/// Conversion of two runs of entries concatenates.
pub proof fn lemma_batch_append(
    e1: Seq<(Option<Seq<char>>, OtlpSpan)>,
    o1: Seq<(TraceId, NewSpan)>,
    e2: Seq<(Option<Seq<char>>, OtlpSpan)>,
    o2: Seq<(TraceId, NewSpan)>,
)
    requires
        batch_converts(e1, o1),
        batch_converts(e2, o2),
    ensures
        batch_converts(e1 + e2, o1 + o2),
        malformed_count(e1 + e2) == malformed_count(e1) + malformed_count(e2),
    decreases e2.len(),
{
    if e2.len() == 0 {
        assert(e1 + e2 =~= e1);
        assert(o2.len() == 0);
        assert(o1 + o2 =~= o1);
    } else {
        assert((e1 + e2).drop_last() =~= e1 + e2.drop_last());
        assert((e1 + e2).last() == e2.last());
        if well_formed(e2.last().1) {
            lemma_batch_append(e1, o1, e2.drop_last(), o2.drop_last());
            assert((o1 + o2).drop_last() =~= o1 + o2.drop_last());
            assert((o1 + o2).last() == o2.last());
        } else {
            lemma_batch_append(e1, o1, e2.drop_last(), o2);
        }
    }
}

/// Tagging distributes over concatenation.
pub proof fn lemma_tagged_append(svc: Option<Seq<char>>, a: Seq<OtlpSpan>, b: Seq<OtlpSpan>)
    ensures
        tagged(svc, a + b) == tagged(svc, a) + tagged(svc, b),
{
    assert(tagged(svc, a + b) =~= tagged(svc, a) + tagged(svc, b));
}

/// The view of an optional service name.
pub open spec fn opt_view(o: Option<String>) -> Option<Seq<char>> {
    match o {
        Some(s) => Some(s@),
        None => None,
    }
}

fn clone_opt_string(o: &Option<String>) -> (r: Option<String>)
    ensures
        opt_view(r) == opt_view(*o),
{
    match o {
        Some(s) => Some(s.clone()),
        None => None,
    }
}

/// Converts one span of a resource whose service name is `svc`; `None` if its trace id or
/// span id has the wrong length.
fn convert_span(svc: &Option<String>, pb: &OtlpSpan) -> (r: Option<(TraceId, NewSpan)>)
    ensures
        match r {
            Some(out) => well_formed(*pb) && span_converts(opt_view(*svc), *pb, out),
            None => !well_formed(*pb),
        },
{
    let trace_id = match trace_id_of(pb.trace_id.as_slice()) {
        Some(t) => t,
        None => return None,
    };
    let span_id = match span_id_of(pb.span_id.as_slice()) {
        Some(s) => s,
        None => return None,
    };
    let parent_span_id = span_id_of(pb.parent_span_id.as_slice());
    let attributes = attrs_of(&pb.attributes);
    let (status_message, status_code) = match &pb.status {
        Some(st) => (st.message.clone(), st.code),
        None => (String::new(), 0),
    };
    let new_span = NewSpan {
        span_id,
        parent_span_id,
        name: pb.name.clone(),
        start_time_unix_nano: pb.start_time_unix_nano,
        end_time_unix_nano: pb.end_time_unix_nano,
        status_message,
        status_code,
        unknown_service: svc.is_none(),
        service_name: clone_opt_string(svc),
        attributes,
    };
    Some((trace_id, new_span))
}

/// Converts every span of the given scopes, all of a resource whose service name is `svc`.
fn convert_scopes(svc: &Option<String>, scopes: &Vec<OtlpScopeSpans>, out: &mut Vec<(TraceId, NewSpan)>, malformed: &mut usize)
    requires
        *old(malformed) + malformed_count(tagged(opt_view(*svc), scopes_flat(scopes@))) <= usize::MAX,
    ensures
        exists|added: Seq<(TraceId, NewSpan)>|
            final(out)@ == old(out)@ + added && batch_converts(tagged(opt_view(*svc), scopes_flat(scopes@)), added),
        *final(malformed) == *old(malformed) + malformed_count(tagged(opt_view(*svc), scopes_flat(scopes@))),
{
    let ghost sv = opt_view(*svc);
    let ghost out0 = out@;
    let ghost m0 = *malformed;
    let ghost total = malformed_count(tagged(sv, scopes_flat(scopes@)));
    let mut j: usize = 0;
    assert(out@ =~= out0 + Seq::<(TraceId, NewSpan)>::empty());
    while j < scopes.len()
        invariant
            j <= scopes@.len(),
            sv == opt_view(*svc),
            total == malformed_count(tagged(sv, scopes_flat(scopes@))),
            m0 + total <= usize::MAX,
            exists|added: Seq<(TraceId, NewSpan)>|
                out@ == out0 + added && batch_converts(tagged(sv, scopes_flat(scopes@.take(j as int))), added),
            *malformed == m0 + malformed_count(tagged(sv, scopes_flat(scopes@.take(j as int)))),
        decreases scopes@.len() - j,
    {
        let ghost done = tagged(sv, scopes_flat(scopes@.take(j as int)));
        let ghost added0 = choose|added: Seq<(TraceId, NewSpan)>| out@ == out0 + added && batch_converts(done, added);
        let spans = &scopes[j].spans;
        proof {
            assert(scopes@.take(j + 1).drop_last() =~= scopes@.take(j as int));
            assert(scopes_flat(scopes@.take(j + 1)) == scopes_flat(scopes@.take(j as int)) + spans@);
            lemma_tagged_append(sv, scopes_flat(scopes@.take(j as int)), spans@);
            assert(tagged(sv, scopes_flat(scopes@.take(j + 1))) == done + tagged(sv, spans@));
            lemma_flat_prefix_bound(sv, scopes@, j + 1);
            lemma_malformed_append(done, tagged(sv, spans@));
        }
        let ghost out1 = out@;
        let ghost m1 = *malformed;
        let mut k: usize = 0;
        assert(tagged(sv, spans@.take(0)) =~= Seq::<(Option<Seq<char>>, OtlpSpan)>::empty());
        assert(out@ =~= out1 + Seq::<(TraceId, NewSpan)>::empty());
        while k < spans.len()
            invariant
                k <= spans@.len(),
                sv == opt_view(*svc),
                m1 + malformed_count(tagged(sv, spans@)) <= usize::MAX,
                exists|added: Seq<(TraceId, NewSpan)>|
                    out@ == out1 + added && batch_converts(tagged(sv, spans@.take(k as int)), added),
                *malformed == m1 + malformed_count(tagged(sv, spans@.take(k as int))),
            decreases spans@.len() - k,
        {
            let ghost prev = tagged(sv, spans@.take(k as int));
            let ghost added1 = choose|added: Seq<(TraceId, NewSpan)>| out@ == out1 + added && batch_converts(prev, added);
            proof {
                assert(tagged(sv, spans@.take(k + 1)) =~= prev.push((sv, spans@[k as int])));
                assert(prev.push((sv, spans@[k as int])).drop_last() =~= prev);
                lemma_malformed_prefix(tagged(sv, spans@), k + 1);
                assert(tagged(sv, spans@).take(k + 1) =~= tagged(sv, spans@.take(k + 1)));
            }
            match convert_span(svc, &spans[k]) {
                Some(entry) => {
                    out.push(entry);
                    proof {
                        let added2 = added1.push(entry);
                        assert(out@ =~= out1 + added2);
                        assert(added2.drop_last() =~= added1);
                        assert(batch_converts(tagged(sv, spans@.take(k + 1)), added2));
                    }
                },
                None => {
                    *malformed = *malformed + 1;
                    proof {
                        assert(batch_converts(tagged(sv, spans@.take(k + 1)), added1));
                    }
                },
            }
            k = k + 1;
        }
        proof {
            assert(spans@.take(spans@.len() as int) =~= spans@);
            let added_s = choose|added: Seq<(TraceId, NewSpan)>| out@ == out1 + added && batch_converts(tagged(sv, spans@), added);
            lemma_batch_append(done, added0, tagged(sv, spans@), added_s);
            assert(out@ =~= out0 + (added0 + added_s));
        }
        j = j + 1;
    }
    assert(scopes@.take(scopes@.len() as int) =~= scopes@);
}

/// Malformed counts of prefixes never exceed the whole.
pub proof fn lemma_malformed_prefix(e: Seq<(Option<Seq<char>>, OtlpSpan)>, k: int)
    requires
        0 <= k <= e.len(),
    ensures
        malformed_count(e.take(k)) <= malformed_count(e),
    decreases e.len() - k,
{
    if k < e.len() {
        lemma_malformed_prefix(e, k + 1);
        assert(e.take(k + 1).drop_last() =~= e.take(k));
    } else {
        assert(e.take(k) =~= e);
    }
}

/// Malformed counts of scope prefixes never exceed the whole.
pub proof fn lemma_flat_prefix_bound(sv: Option<Seq<char>>, scopes: Seq<OtlpScopeSpans>, j: int)
    requires
        0 <= j <= scopes.len(),
    ensures
        malformed_count(tagged(sv, scopes_flat(scopes.take(j)))) <= malformed_count(tagged(sv, scopes_flat(scopes))),
    decreases scopes.len() - j,
{
    if j < scopes.len() {
        lemma_flat_prefix_bound(sv, scopes, j + 1);
        assert(scopes.take(j + 1).drop_last() =~= scopes.take(j));
        lemma_tagged_append(sv, scopes_flat(scopes.take(j)), scopes[j].spans@);
        lemma_malformed_append(tagged(sv, scopes_flat(scopes.take(j))), tagged(sv, scopes[j].spans@));
    } else {
        assert(scopes.take(j) =~= scopes);
    }
}

/// Malformed counts add over concatenation.
pub proof fn lemma_malformed_append(e1: Seq<(Option<Seq<char>>, OtlpSpan)>, e2: Seq<(Option<Seq<char>>, OtlpSpan)>)
    ensures
        malformed_count(e1 + e2) == malformed_count(e1) + malformed_count(e2),
    decreases e2.len(),
{
    if e2.len() == 0 {
        assert(e1 + e2 =~= e1);
    } else {
        assert((e1 + e2).drop_last() =~= e1 + e2.drop_last());
        lemma_malformed_append(e1, e2.drop_last());
    }
}


/// Every entry either converts or is counted as malformed.
pub proof fn lemma_batch_len(e: Seq<(Option<Seq<char>>, OtlpSpan)>, o: Seq<(TraceId, NewSpan)>)
    requires
        batch_converts(e, o),
    ensures
        e.len() == o.len() + malformed_count(e),
    decreases e.len(),
{
    if e.len() > 0 {
        if well_formed(e.last().1) {
            lemma_batch_len(e.drop_last(), o.drop_last());
        } else {
            lemma_batch_len(e.drop_last(), o);
        }
    }
}

/// The shared semantic conversion: every span of every scope of every resource, in order,
/// becomes a `(trace id, span)` pair; a span whose trace id or span id has the wrong length is
/// dropped and counted (the batch is then `partial`). A request with no spans at all is
/// `EmptyPayload`.
#[verifier::spinoff_prover]
pub fn convert(request: OtlpRequest) -> (r: Result<SpanBatch, RejectReason>)
    requires
        request_flat(request.resource_spans@).len() <= usize::MAX,
    ensures
        match r {
            Ok(batch) => {
                &&& request_flat(request.resource_spans@).len() > 0
                &&& batch_converts(request_flat(request.resource_spans@), batch.spans@)
                &&& batch.malformed_span_count == malformed_count(request_flat(request.resource_spans@))
                &&& batch.partial == (batch.malformed_span_count > 0)
            },
            Err(reason) => request_flat(request.resource_spans@).len() == 0 && reason == RejectReason::EmptyPayload,
        },
{
    let rs = &request.resource_spans;
    let ghost all = request_flat(rs@);
    let mut spans: Vec<(TraceId, NewSpan)> = Vec::new();
    let mut malformed_span_count: usize = 0;
    let mut i: usize = 0;
    proof {
        lemma_batch_len(Seq::empty(), Seq::empty());
    }
    while i < rs.len()
        invariant
            i <= rs@.len(),
            all == request_flat(rs@),
            all.len() <= usize::MAX,
            batch_converts(request_flat(rs@.take(i as int)), spans@),
            malformed_span_count == malformed_count(request_flat(rs@.take(i as int))),
            request_flat(rs@.take(i as int)).len() <= all.len(),
        decreases rs@.len() - i,
    {
        let ghost done = request_flat(rs@.take(i as int));
        let ghost spans0 = spans@;
        let svc = service_name_of(&rs[i]);
        let ghost part = tagged(opt_view(svc), scopes_flat(rs@[i as int].scope_spans@));
        proof {
            assert(rs@.take(i + 1).drop_last() =~= rs@.take(i as int));
            assert(request_flat(rs@.take(i + 1)) == done + part);
            lemma_request_prefix(rs@, i + 1);
            lemma_malformed_append(done, part);
            lemma_batch_len(done, spans0);
            lemma_batch_len_bound(part);
        }
        convert_scopes(&svc, &rs[i].scope_spans, &mut spans, &mut malformed_span_count);
        proof {
            let added = choose|added: Seq<(TraceId, NewSpan)>| spans@ == spans0 + added && batch_converts(part, added);
            lemma_batch_append(done, spans0, part, added);
        }
        i = i + 1;
    }
    assert(rs@.take(rs@.len() as int) =~= rs@);
    proof {
        lemma_batch_len(all, spans@);
    }
    if spans.len() == 0 && malformed_span_count == 0 {
        return Err(RejectReason::EmptyPayload);
    }
    Ok(SpanBatch { partial: malformed_span_count > 0, malformed_span_count, spans })
}

/// Malformed counts are bounded by the number of entries.
pub proof fn lemma_batch_len_bound(e: Seq<(Option<Seq<char>>, OtlpSpan)>)
    ensures
        malformed_count(e) <= e.len(),
    decreases e.len(),
{
    if e.len() > 0 {
        lemma_batch_len_bound(e.drop_last());
    }
}

/// Prefixes of a request flatten to prefixes.
pub proof fn lemma_request_prefix(rs: Seq<OtlpResourceSpans>, i: int)
    requires
        0 <= i <= rs.len(),
    ensures
        request_flat(rs.take(i)).len() <= request_flat(rs).len(),
    decreases rs.len() - i,
{
    if i < rs.len() {
        lemma_request_prefix(rs, i + 1);
        assert(rs.take(i + 1).drop_last() =~= rs.take(i));
    } else {
        assert(rs.take(i) =~= rs);
    }
}

/// Prefixes of a scope list flatten to prefixes.
pub proof fn lemma_scopes_prefix(ss: Seq<OtlpScopeSpans>, j: int)
    requires
        0 <= j <= ss.len(),
    ensures
        scopes_flat(ss.take(j)).len() <= scopes_flat(ss).len(),
    decreases ss.len() - j,
{
    if j < ss.len() {
        lemma_scopes_prefix(ss, j + 1);
        assert(ss.take(j + 1).drop_last() =~= ss.take(j));
    } else {
        assert(ss.take(j) =~= ss);
    }
}

/// One more resource adds its spans to the flattened request.
proof fn lemma_flat_step(rs: Seq<OtlpResourceSpans>, i: int)
    requires
        0 <= i < rs.len(),
    ensures
        request_flat(rs.take(i + 1)).len() == request_flat(rs.take(i)).len() + scopes_flat(rs[i].scope_spans@).len(),
{
    let t = rs.take(i + 1);
    assert(t.drop_last() =~= rs.take(i));
    assert(t.last() == rs[i]);
    let part = tagged(resource_service(rs[i]), scopes_flat(rs[i].scope_spans@));
    assert(part.len() == scopes_flat(rs[i].scope_spans@).len());
    assert(request_flat(t) == request_flat(t.drop_last()) + part);
}

/// How many spans a request holds in all, or `None` when that does not fit in a `usize`
/// (conversion requires that it does).
pub fn request_span_total(request: &OtlpRequest) -> (r: Option<usize>)
    ensures
        match r {
            Some(n) => n == request_flat(request.resource_spans@).len(),
            None => request_flat(request.resource_spans@).len() > usize::MAX,
        },
{
    let rs = &request.resource_spans;
    let mut total: usize = 0;
    let mut i: usize = 0;
    while i < rs.len()
        invariant
            i <= rs@.len(),
            rs@ == request.resource_spans@,
            total == request_flat(rs@.take(i as int)).len(),
        decreases rs@.len() - i,
    {
        let scopes = &rs[i].scope_spans;
        let ghost before = request_flat(rs@.take(i as int)).len();
        let mut j: usize = 0;
        while j < scopes.len()
            invariant
                i < rs@.len(),
                rs@ == request.resource_spans@,
                before == request_flat(rs@.take(i as int)).len(),
                scopes@ == rs@[i as int].scope_spans@,
                j <= scopes@.len(),
                total == before + scopes_flat(scopes@.take(j as int)).len(),
            decreases scopes@.len() - j,
        {
            assert(scopes@.take(j + 1).drop_last() =~= scopes@.take(j as int));
            match total.checked_add(scopes[j].spans.len()) {
                Some(t) => {
                    total = t;
                },
                None => {
                    proof {
                        lemma_scopes_prefix(scopes@, j + 1);
                        assert(scopes_flat(scopes@.take(j + 1)).len() == scopes_flat(scopes@.take(j as int)).len()
                            + scopes[j as int].spans@.len());
                        lemma_flat_step(rs@, i as int);
                        lemma_request_prefix(rs@, i + 1);
                    }
                    return None;
                },
            }
            j = j + 1;
        }
        assert(scopes@.take(scopes@.len() as int) =~= scopes@);
        proof {
            lemma_flat_step(rs@, i as int);
        }
        i = i + 1;
    }
    assert(rs@.take(rs@.len() as int) =~= rs@);
    Some(total)
}

/// `prost::DecodeError`.
#[verifier::external_type_specification]
#[verifier::external_body]
pub struct ExDecodeError(prost::DecodeError);

/// `serde_json::Error`.
#[verifier::external_type_specification]
#[verifier::external_body]
pub struct ExJsonError(serde_json::Error);

/// `opentelemetry_proto`'s `ResourceSpans`.
#[verifier::external_type_specification]
#[verifier::external_body]
pub struct ExResourceSpans(ResourceSpans);

/// `opentelemetry_proto`'s `Span`.
#[verifier::external_type_specification]
#[verifier::external_body]
pub struct ExSpan(Span);

/// `opentelemetry_proto`'s `KeyValue`.
#[verifier::external_type_specification]
#[verifier::external_body]
pub struct ExKeyValue(KeyValue);

/// `opentelemetry_proto`'s `AnyValue` payload.
#[verifier::external_type_specification]
#[verifier::external_body]
pub struct ExAnyValuePayload(any_value::Value);

/// Whether `bytes` is a protobuf encoding of an `ExportTraceServiceRequest`.
pub uninterp spec fn protobuf_decodes(bytes: Seq<u8>) -> bool;

/// The request that protobuf `bytes` decode to, as the library's model of it.
pub uninterp spec fn protobuf_request(bytes: Seq<u8>) -> OtlpRequest;

/// Whether `bytes` is an OTLP/JSON encoding of an `ExportTraceServiceRequest`.
pub uninterp spec fn json_decodes(bytes: Seq<u8>) -> bool;

/// The request that OTLP/JSON `bytes` decode to, as the library's model of it.
pub uninterp spec fn json_request(bytes: Seq<u8>) -> OtlpRequest;

/// The model of one `AnyValue` payload: each variant to its counterpart, a double by its
/// bit pattern. Used by the decoding wrappers below to convert what they return.
#[verifier::external_body]
fn value_model(v: any_value::Value) -> OtlpValue {
    match v {
        any_value::Value::StringValue(s) => OtlpValue::Str(s),
        any_value::Value::BoolValue(b) => OtlpValue::Bool(b),
        any_value::Value::IntValue(i) => OtlpValue::Int(i),
        any_value::Value::DoubleValue(d) => OtlpValue::Double(d.to_bits()),
        any_value::Value::ArrayValue(_) => OtlpValue::Array,
        any_value::Value::KvlistValue(_) => OtlpValue::Kvlist,
        any_value::Value::BytesValue(_) => OtlpValue::Bytes,
        any_value::Value::StringValueStrindex(_) => OtlpValue::StrIndex,
    }
}

/// The model of one `KeyValue`: an unset value or payload is `None`.
#[verifier::external_body]
fn key_value_model(kv: KeyValue) -> OtlpKeyValue {
    OtlpKeyValue { key: kv.key, value: kv.value.and_then(|v| v.value).map(value_model) }
}

/// The model of one `Span`: the fields the conversion reads, moved over.
#[verifier::external_body]
fn span_model(s: Span) -> OtlpSpan {
    OtlpSpan {
        trace_id: s.trace_id,
        span_id: s.span_id,
        parent_span_id: s.parent_span_id,
        name: s.name,
        start_time_unix_nano: s.start_time_unix_nano,
        end_time_unix_nano: s.end_time_unix_nano,
        attributes: s.attributes.into_iter().map(key_value_model).collect(),
        status: s.status.map(|st| OtlpStatus { message: st.message, code: st.code }),
    }
}

/// The model of one `ResourceSpans`: its resource's attributes and its scopes' spans.
#[verifier::external_body]
fn resource_spans_model(rs: ResourceSpans) -> OtlpResourceSpans {
    OtlpResourceSpans {
        resource: rs.resource.map(|r| OtlpResource { attributes: r.attributes.into_iter().map(key_value_model).collect() }),
        scope_spans: rs.scope_spans.into_iter().map(|ss| OtlpScopeSpans { spans: ss.spans.into_iter().map(span_model).collect() }).collect(),
    }
}

/// `prost::Message::decode` for `ExportTraceServiceRequest`, the result converted to the
/// library's model: succeeds exactly on the bytes that encode one, and what it returns is a
/// deterministic function of the bytes, named `protobuf_request`.
#[verifier::external_body]
fn decode_protobuf(bytes: &[u8]) -> (r: Result<OtlpRequest, prost::DecodeError>)
    ensures
        r is Ok <==> protobuf_decodes(bytes@),
        r matches Ok(req) ==> req == protobuf_request(bytes@),
{
    ExportTraceServiceRequest::decode(bytes)
        .map(|req| OtlpRequest { resource_spans: req.resource_spans.into_iter().map(resource_spans_model).collect() })
}

/// `serde_json::from_slice` for `ExportTraceServiceRequest`, the result converted to the
/// library's model: succeeds exactly on the bytes that are OTLP/JSON for one, and what it
/// returns is a deterministic function of the bytes, named `json_request`.
#[verifier::external_body]
fn decode_json(bytes: &[u8]) -> (r: Result<OtlpRequest, serde_json::Error>)
    ensures
        r is Ok <==> json_decodes(bytes@),
        r matches Ok(req) ==> req == json_request(bytes@),
{
    serde_json::from_slice::<ExportTraceServiceRequest>(bytes)
        .map(|req| OtlpRequest { resource_spans: req.resource_spans.into_iter().map(resource_spans_model).collect() })
}

/// The `Display` text of a protobuf decode error (nothing is stated of it).
#[verifier::external_body]
fn protobuf_error_text(e: &prost::DecodeError) -> String {
    e.to_string()
}

/// The `Display` text of a JSON decode error (nothing is stated of it).
#[verifier::external_body]
pub(crate) fn json_error_text(e: &serde_json::Error) -> String {
    e.to_string()
}

/// Decodes wire bytes into the OTLP request (as the library's model of it): protobuf or
/// JSON by `content_type`. A body that does not decode is a `DecodeError`, never a panic.
pub fn decode(bytes: &[u8], content_type: ContentType) -> (r: Result<OtlpRequest, RejectReason>)
    ensures
        r is Ok <==> match content_type {
            ContentType::Protobuf => protobuf_decodes(bytes@),
            ContentType::Json => json_decodes(bytes@),
        },
        r matches Ok(req) ==> req == match content_type {
            ContentType::Protobuf => protobuf_request(bytes@),
            ContentType::Json => json_request(bytes@),
        },
        r matches Err(reason) ==> reason is DecodeError,
{
    match content_type {
        ContentType::Protobuf => match decode_protobuf(bytes) {
            Ok(req) => Ok(req),
            Err(e) => Err(RejectReason::DecodeError(protobuf_error_text(&e))),
        },
        ContentType::Json => match decode_json(bytes) {
            Ok(req) => Ok(req),
            Err(e) => Err(RejectReason::DecodeError(json_error_text(&e))),
        },
    }
}

} // verus!
