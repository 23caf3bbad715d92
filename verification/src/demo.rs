//! The curated, deterministic demo trace set seeded into the store before the listeners start:
//! a clean multi-service trace and one trace shaped to trip each lint rule (a span without a
//! service name, broken context propagation, an attribute key with two value types, a long
//! leaf span, and two hundred distinct span names). No clock and no randomness: ids, names
//! and times are fixed.

use vstd::prelude::*;

use crate::ingest::convert::opt_view;
use crate::store::trace::NewSpan;
use crate::store::types::{AttrValue, SpanId, TraceId};
use crate::store::replay::{lemma_evict_deterministic, lemma_insert_deterministic, same_contents, same_new_span};
use crate::store::{evicted_from, inserted_no_evict, Store, StoreInsertOutcome};
use crate::text::{append_str, nat_decimal, nat_decimal_exec, string_of};

verus! {

/// The attribute a demo span carries.
pub enum DemoAttr {
    /// None.
    Plain,
    /// `http.status_code` as the integer 200.
    StatusInt,
    /// `http.status_code` as the text "200".
    StatusText,
}

/// One span of the demo set, as plain values.
pub struct DemoSpan {
    pub trace_id: Seq<u8>,
    pub span_id: Seq<u8>,
    pub parent: Option<Seq<u8>>,
    pub name: Seq<char>,
    pub start: u64,
    pub end: u64,
    pub service: Option<Seq<char>>,
    pub attr: DemoAttr,
}

/// The bytes of `checkout-flow-01`.
pub open spec fn checkout_bytes() -> Seq<u8> {
    seq![99u8, 104u8, 101u8, 99u8, 107u8, 111u8, 117u8, 116u8, 45u8, 102u8, 108u8, 111u8, 119u8, 45u8, 48u8, 49u8]
}

/// The bytes of `missing-svc-name`.
pub open spec fn anon_bytes() -> Seq<u8> {
    seq![109u8, 105u8, 115u8, 115u8, 105u8, 110u8, 103u8, 45u8, 115u8, 118u8, 99u8, 45u8, 110u8, 97u8, 109u8, 101u8]
}

/// The bytes of `broken-propagatn`.
pub open spec fn broken_bytes() -> Seq<u8> {
    seq![98u8, 114u8, 111u8, 107u8, 101u8, 110u8, 45u8, 112u8, 114u8, 111u8, 112u8, 97u8, 103u8, 97u8, 116u8, 110u8]
}

/// The bytes of `attribute-drift1`.
pub open spec fn drift_bytes() -> Seq<u8> {
    seq![97u8, 116u8, 116u8, 114u8, 105u8, 98u8, 117u8, 116u8, 101u8, 45u8, 100u8, 114u8, 105u8, 102u8, 116u8, 49u8]
}

/// The bytes of `slow-leaf-span01`.
pub open spec fn slow_bytes() -> Seq<u8> {
    seq![115u8, 108u8, 111u8, 119u8, 45u8, 108u8, 101u8, 97u8, 102u8, 45u8, 115u8, 112u8, 97u8, 110u8, 48u8, 49u8]
}

/// The bytes of `high-cardinality`.
pub open spec fn search_bytes() -> Seq<u8> {
    seq![104u8, 105u8, 103u8, 104u8, 45u8, 99u8, 97u8, 114u8, 100u8, 105u8, 110u8, 97u8, 108u8, 105u8, 116u8, 121u8]
}

/// The bytes of `root-001`.
pub open spec fn root_bytes() -> Seq<u8> {
    seq![114u8, 111u8, 111u8, 116u8, 45u8, 48u8, 48u8, 49u8]
}

/// The bytes of `charge01`.
pub open spec fn charge_bytes() -> Seq<u8> {
    seq![99u8, 104u8, 97u8, 114u8, 103u8, 101u8, 48u8, 49u8]
}

/// The bytes of `reserve1`.
pub open spec fn reserve_bytes() -> Seq<u8> {
    seq![114u8, 101u8, 115u8, 101u8, 114u8, 118u8, 101u8, 49u8]
}

/// The bytes of `anon0001`.
pub open spec fn anon_span_bytes() -> Seq<u8> {
    seq![97u8, 110u8, 111u8, 110u8, 48u8, 48u8, 48u8, 49u8]
}

/// The bytes of `gateway1`.
pub open spec fn gateway_bytes() -> Seq<u8> {
    seq![103u8, 97u8, 116u8, 101u8, 119u8, 97u8, 121u8, 49u8]
}

/// The bytes of `authchld`.
pub open spec fn auth_bytes() -> Seq<u8> {
    seq![97u8, 117u8, 116u8, 104u8, 99u8, 104u8, 108u8, 100u8]
}

/// The bytes of `neverprt`.
pub open spec fn never_bytes() -> Seq<u8> {
    seq![110u8, 101u8, 118u8, 101u8, 114u8, 112u8, 114u8, 116u8]
}

/// The bytes of `drift001`.
pub open spec fn drift_a_bytes() -> Seq<u8> {
    seq![100u8, 114u8, 105u8, 102u8, 116u8, 48u8, 48u8, 49u8]
}

/// The bytes of `drift002`.
pub open spec fn drift_b_bytes() -> Seq<u8> {
    seq![100u8, 114u8, 105u8, 102u8, 116u8, 48u8, 48u8, 50u8]
}

/// The bytes of `slowroot`.
pub open spec fn slow_root_bytes() -> Seq<u8> {
    seq![115u8, 108u8, 111u8, 119u8, 114u8, 111u8, 111u8, 116u8]
}

/// The bytes of `slowleaf`.
pub open spec fn slow_leaf_bytes() -> Seq<u8> {
    seq![115u8, 108u8, 111u8, 119u8, 108u8, 101u8, 97u8, 102u8]
}

/// The bytes of `searchrt`.
pub open spec fn search_root_bytes() -> Seq<u8> {
    seq![115u8, 101u8, 97u8, 114u8, 99u8, 104u8, 114u8, 116u8]
}

/// The bytes of the `j`-th high-cardinality span id: `srch` and `j` as four big-endian bytes.
pub open spec fn search_leaf_bytes(j: int) -> Seq<u8> {
    seq![115u8, 114u8, 99u8, 104u8, (j / 16777216) as u8, ((j / 65536) % 256) as u8, ((j / 256) % 256) as u8, (j % 256) as u8]
}

/// How many spans the demo set has.
pub const DEMO_SPAN_COUNT: usize = 211;

/// The `i`-th span of the demo set, in insertion order.
pub open spec fn demo_entry(i: int) -> DemoSpan {
    if i == 0 {
        DemoSpan { trace_id: checkout_bytes(), span_id: root_bytes(), parent: None, name: "POST /checkout"@, start: 0, end: 300000000, service: Some("checkout"@), attr: DemoAttr::Plain }
    } else if i == 1 {
        DemoSpan { trace_id: checkout_bytes(), span_id: charge_bytes(), parent: Some(root_bytes()), name: "charge-card"@, start: 10000000, end: 180000000, service: Some("payments"@), attr: DemoAttr::Plain }
    } else if i == 2 {
        DemoSpan { trace_id: checkout_bytes(), span_id: reserve_bytes(), parent: Some(root_bytes()), name: "reserve-inventory"@, start: 10000000, end: 90000000, service: Some("inventory"@), attr: DemoAttr::Plain }
    } else if i == 3 {
        DemoSpan { trace_id: anon_bytes(), span_id: anon_span_bytes(), parent: None, name: "GET /health"@, start: 0, end: 5000000, service: None, attr: DemoAttr::Plain }
    } else if i == 4 {
        DemoSpan { trace_id: broken_bytes(), span_id: gateway_bytes(), parent: None, name: "gateway"@, start: 0, end: 200000000, service: Some("gateway"@), attr: DemoAttr::Plain }
    } else if i == 5 {
        DemoSpan { trace_id: broken_bytes(), span_id: auth_bytes(), parent: Some(never_bytes()), name: "validate-token"@, start: 5000000, end: 40000000, service: Some("auth"@), attr: DemoAttr::Plain }
    } else if i == 6 {
        DemoSpan { trace_id: drift_bytes(), span_id: drift_a_bytes(), parent: None, name: "GET /orders"@, start: 0, end: 50000000, service: Some("orders"@), attr: DemoAttr::StatusInt }
    } else if i == 7 {
        DemoSpan { trace_id: drift_bytes(), span_id: drift_b_bytes(), parent: None, name: "GET /invoice"@, start: 0, end: 60000000, service: Some("billing"@), attr: DemoAttr::StatusText }
    } else if i == 8 {
        DemoSpan { trace_id: slow_bytes(), span_id: slow_root_bytes(), parent: None, name: "batch-export"@, start: 0, end: 3000000000, service: Some("reporting"@), attr: DemoAttr::Plain }
    } else if i == 9 {
        DemoSpan { trace_id: slow_bytes(), span_id: slow_leaf_bytes(), parent: Some(slow_root_bytes()), name: "render-pdf"@, start: 0, end: 2000000000, service: Some("reporting"@), attr: DemoAttr::Plain }
    } else if i == 10 {
        DemoSpan { trace_id: search_bytes(), span_id: search_root_bytes(), parent: None, name: "search-request"@, start: 0, end: 500000000, service: Some("search"@), attr: DemoAttr::Plain }
    } else {
        DemoSpan {
            trace_id: search_bytes(),
            span_id: search_leaf_bytes(i - 11),
            parent: Some(search_root_bytes()),
            name: "query:"@ + nat_decimal((i - 11) as nat),
            start: 1_000_000,
            end: 2_000_000,
            service: Some("search"@),
            attr: DemoAttr::Plain,
        }
    }
}

/// `(trace_id, s)` is the demo span `d`: no status, and a missing service name marks the
/// span as of unknown service.
pub open spec fn is_demo_span(trace_id: TraceId, s: NewSpan, d: DemoSpan) -> bool {
    &&& trace_id.0@ == d.trace_id
    &&& s.span_id.0@ == d.span_id
    &&& match (s.parent_span_id, d.parent) {
        (None, None) => true,
        (Some(p), Some(q)) => p.0@ == q,
        _ => false,
    }
    &&& s.name@ == d.name
    &&& s.start_time_unix_nano == d.start
    &&& s.end_time_unix_nano == d.end
    &&& s.status_message@ == Seq::<char>::empty()
    &&& s.status_code == 0
    &&& s.unknown_service == (d.service is None)
    &&& opt_view(s.service_name) == d.service
    &&& match d.attr {
        DemoAttr::Plain => s.attributes@.len() == 0,
        DemoAttr::StatusInt => s.attributes@.len() == 1 && s.attributes@[0].0@ == "http.status_code"@
            && s.attributes@[0].1 == AttrValue::Int(200),
        DemoAttr::StatusText => s.attributes@.len() == 1 && s.attributes@[0].0@ == "http.status_code"@
            && (s.attributes@[0].1 matches AttrValue::Str(x) && x@ == "200"@),
    }
}

/// The checkout trace is the clean, multi-service contrast case: every one of its spans
/// names its service, and it has spans of three different services.
pub proof fn lemma_demo_checkout_is_clean()
    ensures
        forall|i: int| 0 <= i < DEMO_SPAN_COUNT && (#[trigger] demo_entry(i)).trace_id == checkout_bytes()
            ==> demo_entry(i).service is Some,
        exists|i: int, j: int, k: int|
            0 <= i < DEMO_SPAN_COUNT && 0 <= j < DEMO_SPAN_COUNT && 0 <= k < DEMO_SPAN_COUNT
            && (#[trigger] demo_entry(i)).trace_id == checkout_bytes()
            && (#[trigger] demo_entry(j)).trace_id == checkout_bytes()
            && (#[trigger] demo_entry(k)).trace_id == checkout_bytes()
            && demo_entry(i).service != demo_entry(j).service
            && demo_entry(j).service != demo_entry(k).service
            && demo_entry(i).service != demo_entry(k).service,
{
    assert(search_bytes()[0] != checkout_bytes()[0]);
    assert(anon_bytes()[0] != checkout_bytes()[0]);
    assert(broken_bytes()[0] != checkout_bytes()[0]);
    assert(drift_bytes()[0] != checkout_bytes()[0]);
    assert(slow_bytes()[0] != checkout_bytes()[0]);
    reveal_strlit("checkout");
    reveal_strlit("payments");
    reveal_strlit("inventory");
    assert("checkout"@[0] != "payments"@[0] && "payments"@[0] != "inventory"@[0] && "checkout"@[0] != "inventory"@[0]);
    assert(demo_entry(0).trace_id == checkout_bytes() && demo_entry(1).trace_id == checkout_bytes()
        && demo_entry(2).trace_id == checkout_bytes());
}

/// Exactly the spans of the `missing-svc-name` trace lack a service name: every span of
/// every other trace names its service.
pub proof fn lemma_demo_missing_service_only_in_its_trace()
    ensures
        forall|i: int| 0 <= i < DEMO_SPAN_COUNT ==> ((#[trigger] demo_entry(i)).service is None
            <==> demo_entry(i).trace_id == anon_bytes()),
        exists|i: int| 0 <= i < DEMO_SPAN_COUNT && (#[trigger] demo_entry(i)).trace_id == anon_bytes(),
{
    assert(search_bytes()[0] != anon_bytes()[0]);
    assert(checkout_bytes()[0] != anon_bytes()[0]);
    assert(broken_bytes()[0] != anon_bytes()[0]);
    assert(drift_bytes()[0] != anon_bytes()[0]);
    assert(slow_bytes()[0] != anon_bytes()[0]);
    assert(demo_entry(3).trace_id == anon_bytes());
}

/// The facts every high-cardinality leaf entry shares.
proof fn lemma_demo_leaf_entry(i: int)
    requires
        11 <= i < DEMO_SPAN_COUNT,
    ensures
        demo_entry(i).trace_id == search_bytes(),
        demo_entry(i).parent == Some(search_root_bytes()),
        demo_entry(i).service == Some("search"@),
{
}

/// Context propagates everywhere but in the `broken-propagatn` trace: every parent a span of
/// another trace declares is a span of that same trace.
pub proof fn lemma_demo_parents_present()
    ensures
        forall|i: int| 0 <= i < DEMO_SPAN_COUNT && (#[trigger] demo_entry(i)).parent is Some
            && demo_entry(i).trace_id != broken_bytes() ==> exists|j: int| 0 <= j < DEMO_SPAN_COUNT
                && (#[trigger] demo_entry(j)).trace_id == demo_entry(i).trace_id
                && demo_entry(j).span_id == demo_entry(i).parent->0,
{
    assert forall|i: int| 0 <= i < DEMO_SPAN_COUNT && (#[trigger] demo_entry(i)).parent is Some
        && demo_entry(i).trace_id != broken_bytes() implies exists|j: int| 0 <= j < DEMO_SPAN_COUNT
            && (#[trigger] demo_entry(j)).trace_id == demo_entry(i).trace_id
            && demo_entry(j).span_id == demo_entry(i).parent->0 by {
        let j = lemma_demo_parent_of(i);
        assert(demo_entry(j).trace_id == demo_entry(i).trace_id);
    }
}

/// Where the parent a non-broken demo span declares sits in the demo set.
proof fn lemma_demo_parent_of(i: int) -> (j: int)
    requires
        0 <= i < DEMO_SPAN_COUNT,
        demo_entry(i).parent is Some,
        demo_entry(i).trace_id != broken_bytes(),
    ensures
        0 <= j < DEMO_SPAN_COUNT,
        demo_entry(j).trace_id == demo_entry(i).trace_id,
        demo_entry(j).span_id == demo_entry(i).parent->0,
{
    if i >= 11 {
        lemma_demo_leaf_entry(i);
        10
    } else if i == 1 || i == 2 {
        0
    } else if i == 9 {
        8
    } else if i == 5 {
        5
    } else {
        assert(i == 0 || i == 3 || i == 4 || i == 6 || i == 7 || i == 8 || i == 10);
        if i == 0 {
        } else if i == 3 {
        } else if i == 4 {
        } else if i == 6 {
        } else if i == 7 {
        } else if i == 8 {
        } else {
        }
        0
    }
}

/// The `broken-propagatn` trace has a span whose declared parent is no span of its trace.
pub proof fn lemma_demo_broken_propagation()
    ensures
        exists|i: int| 0 <= i < DEMO_SPAN_COUNT && (#[trigger] demo_entry(i)).trace_id == broken_bytes()
            && demo_entry(i).parent is Some && forall|j: int| 0 <= j < DEMO_SPAN_COUNT
                && (#[trigger] demo_entry(j)).trace_id == broken_bytes() ==> demo_entry(j).span_id != demo_entry(i).parent->0,
{
    assert(search_bytes()[0] != broken_bytes()[0]);
    assert(gateway_bytes()[0] != never_bytes()[0]);
    assert(auth_bytes()[0] != never_bytes()[0]);
    let e5 = demo_entry(5);
    assert(e5.trace_id == broken_bytes() && e5.parent == Some(never_bytes()));
    assert forall|j: int| 0 <= j < DEMO_SPAN_COUNT && (#[trigger] demo_entry(j)).trace_id == broken_bytes()
        implies demo_entry(j).span_id != never_bytes() by {
        if j >= 11 {
            lemma_demo_leaf_entry(j);
        } else if j == 4 || j == 5 {
        } else {
            assert(demo_entry(j).trace_id != broken_bytes()) by {
                assert(demo_entry(j).trace_id[0] != broken_bytes()[0]);
            }
        }
    }
}

/// The `attribute-drift1` trace carries `http.status_code` as an integer on one span and as
/// text on another.
pub proof fn lemma_demo_attribute_drift()
    ensures
        exists|i: int, j: int| 0 <= i < DEMO_SPAN_COUNT && 0 <= j < DEMO_SPAN_COUNT
            && (#[trigger] demo_entry(i)).trace_id == drift_bytes() && (#[trigger] demo_entry(j)).trace_id == drift_bytes()
            && demo_entry(i).attr is StatusInt && demo_entry(j).attr is StatusText,
{
    let e6 = demo_entry(6);
    let e7 = demo_entry(7);
    assert(e6.trace_id == drift_bytes() && e7.trace_id == drift_bytes() && e6.attr is StatusInt && e7.attr is StatusText);
}

/// The `slow-leaf-span01` trace has a leaf span (no span names it as parent) that runs longer
/// than half its parent.
pub proof fn lemma_demo_slow_leaf()
    ensures
        exists|i: int, p: int| 0 <= i < DEMO_SPAN_COUNT && 0 <= p < DEMO_SPAN_COUNT
            && (#[trigger] demo_entry(i)).trace_id == slow_bytes() && (#[trigger] demo_entry(p)).trace_id == slow_bytes()
            && demo_entry(i).parent == Some(demo_entry(p).span_id)
            && 2 * (demo_entry(i).end - demo_entry(i).start) > demo_entry(p).end - demo_entry(p).start
            && forall|k: int| 0 <= k < DEMO_SPAN_COUNT ==> (#[trigger] demo_entry(k)).parent != Some(demo_entry(i).span_id),
{
    let e8 = demo_entry(8);
    let e9 = demo_entry(9);
    assert(e9.trace_id == slow_bytes() && e8.trace_id == slow_bytes() && e9.parent == Some(e8.span_id));
    assert(root_bytes()[0] != slow_leaf_bytes()[0]);
    assert(never_bytes()[0] != slow_leaf_bytes()[0]);
    assert(slow_root_bytes()[4] != slow_leaf_bytes()[4]);
    assert(search_root_bytes()[1] != slow_leaf_bytes()[1]);
    assert forall|k: int| 0 <= k < DEMO_SPAN_COUNT implies (#[trigger] demo_entry(k)).parent != Some(slow_leaf_bytes()) by {
        if k >= 11 {
            lemma_demo_leaf_entry(k);
        }
    }
}

/// The `high-cardinality` trace has two hundred spans, each with its own name.
pub proof fn lemma_demo_distinct_leaf_names()
    ensures
        DEMO_SPAN_COUNT - 11 == 200,
        forall|i: int, j: int| 11 <= i < DEMO_SPAN_COUNT && 11 <= j < DEMO_SPAN_COUNT && i != j
            ==> (#[trigger] demo_entry(i)).trace_id == search_bytes()
                && demo_entry(i).name != (#[trigger] demo_entry(j)).name,
{
    assert forall|i: int, j: int| 11 <= i < DEMO_SPAN_COUNT && 11 <= j < DEMO_SPAN_COUNT && i != j
        implies (#[trigger] demo_entry(i)).trace_id == search_bytes()
            && demo_entry(i).name != (#[trigger] demo_entry(j)).name by {
        lemma_demo_leaf_entry(i);
        let a = demo_entry(i).name;
        let b = demo_entry(j).name;
        let p = "query:"@;
        assert(a == p + nat_decimal((i - 11) as nat));
        assert(b == p + nat_decimal((j - 11) as nat));
        if a == b {
            assert(a.skip(p.len() as int) =~= nat_decimal((i - 11) as nat));
            assert(b.skip(p.len() as int) =~= nat_decimal((j - 11) as nat));
            crate::text::lemma_nat_decimal_value((i - 11) as nat);
            crate::text::lemma_nat_decimal_value((j - 11) as nat);
        }
    }
}

/// Appends one demo span to `v`.
fn push_demo(
    v: &mut Vec<(TraceId, NewSpan)>,
    trace_id: [u8; 16],
    span_id: [u8; 8],
    parent: Option<[u8; 8]>,
    name: &str,
    start: u64,
    end: u64,
    service: Option<&str>,
    attr: DemoAttr,
)
    ensures
        final(v)@.len() == old(v)@.len() + 1,
        forall|k: int| 0 <= k < old(v)@.len() ==> #[trigger] final(v)@[k] == old(v)@[k],
        is_demo_span(
            final(v)@.last().0,
            final(v)@.last().1,
            DemoSpan {
                trace_id: trace_id@,
                span_id: span_id@,
                parent: match parent {
                    Some(p) => Some(p@),
                    None => None,
                },
                name: name@,
                start,
                end,
                service: match service {
                    Some(s) => Some(s@),
                    None => None,
                },
                attr,
            },
        ),
{
    let mut attributes: Vec<(String, AttrValue)> = Vec::new();
    match attr {
        DemoAttr::Plain => {},
        DemoAttr::StatusInt => {
            attributes.push(("http.status_code".to_owned(), AttrValue::Int(200)));
        },
        DemoAttr::StatusText => {
            attributes.push(("http.status_code".to_owned(), AttrValue::Str("200".to_owned())));
        },
    }
    let service_name = match service {
        Some(s) => Some(s.to_owned()),
        None => None,
    };
    let span = NewSpan {
        span_id: SpanId(span_id),
        parent_span_id: match parent {
            Some(p) => Some(SpanId(p)),
            None => None,
        },
        name: name.to_owned(),
        start_time_unix_nano: start,
        end_time_unix_nano: end,
        status_message: String::new(),
        status_code: 0,
        unknown_service: service.is_none(),
        service_name,
        attributes,
    };
    v.push((TraceId(trace_id), span));
}

/// The demo set, in insertion order.
pub fn demo_spans() -> (r: Vec<(TraceId, NewSpan)>)
    ensures
        r@.len() == DEMO_SPAN_COUNT,
        forall|i: int| 0 <= i < DEMO_SPAN_COUNT ==> is_demo_span(#[trigger] r@[i].0, r@[i].1, demo_entry(i)),
{
    let mut v: Vec<(TraceId, NewSpan)> = Vec::new();
    push_demo(&mut v, [99, 104, 101, 99, 107, 111, 117, 116, 45, 102, 108, 111, 119, 45, 48, 49], [114, 111, 111, 116, 45, 48, 48, 49], None, "POST /checkout", 0, 300000000, Some("checkout"), DemoAttr::Plain);
    push_demo(&mut v, [99, 104, 101, 99, 107, 111, 117, 116, 45, 102, 108, 111, 119, 45, 48, 49], [99, 104, 97, 114, 103, 101, 48, 49], Some([114, 111, 111, 116, 45, 48, 48, 49]), "charge-card", 10000000, 180000000, Some("payments"), DemoAttr::Plain);
    push_demo(&mut v, [99, 104, 101, 99, 107, 111, 117, 116, 45, 102, 108, 111, 119, 45, 48, 49], [114, 101, 115, 101, 114, 118, 101, 49], Some([114, 111, 111, 116, 45, 48, 48, 49]), "reserve-inventory", 10000000, 90000000, Some("inventory"), DemoAttr::Plain);
    push_demo(&mut v, [109, 105, 115, 115, 105, 110, 103, 45, 115, 118, 99, 45, 110, 97, 109, 101], [97, 110, 111, 110, 48, 48, 48, 49], None, "GET /health", 0, 5000000, None, DemoAttr::Plain);
    push_demo(&mut v, [98, 114, 111, 107, 101, 110, 45, 112, 114, 111, 112, 97, 103, 97, 116, 110], [103, 97, 116, 101, 119, 97, 121, 49], None, "gateway", 0, 200000000, Some("gateway"), DemoAttr::Plain);
    push_demo(&mut v, [98, 114, 111, 107, 101, 110, 45, 112, 114, 111, 112, 97, 103, 97, 116, 110], [97, 117, 116, 104, 99, 104, 108, 100], Some([110, 101, 118, 101, 114, 112, 114, 116]), "validate-token", 5000000, 40000000, Some("auth"), DemoAttr::Plain);
    push_demo(&mut v, [97, 116, 116, 114, 105, 98, 117, 116, 101, 45, 100, 114, 105, 102, 116, 49], [100, 114, 105, 102, 116, 48, 48, 49], None, "GET /orders", 0, 50000000, Some("orders"), DemoAttr::StatusInt);
    push_demo(&mut v, [97, 116, 116, 114, 105, 98, 117, 116, 101, 45, 100, 114, 105, 102, 116, 49], [100, 114, 105, 102, 116, 48, 48, 50], None, "GET /invoice", 0, 60000000, Some("billing"), DemoAttr::StatusText);
    push_demo(&mut v, [115, 108, 111, 119, 45, 108, 101, 97, 102, 45, 115, 112, 97, 110, 48, 49], [115, 108, 111, 119, 114, 111, 111, 116], None, "batch-export", 0, 3000000000, Some("reporting"), DemoAttr::Plain);
    push_demo(&mut v, [115, 108, 111, 119, 45, 108, 101, 97, 102, 45, 115, 112, 97, 110, 48, 49], [115, 108, 111, 119, 108, 101, 97, 102], Some([115, 108, 111, 119, 114, 111, 111, 116]), "render-pdf", 0, 2000000000, Some("reporting"), DemoAttr::Plain);
    push_demo(&mut v, [104, 105, 103, 104, 45, 99, 97, 114, 100, 105, 110, 97, 108, 105, 116, 121], [115, 101, 97, 114, 99, 104, 114, 116], None, "search-request", 0, 500000000, Some("search"), DemoAttr::Plain);
    let search: [u8; 16] = [104, 105, 103, 104, 45, 99, 97, 114, 100, 105, 110, 97, 108, 105, 116, 121];
    let search_root: [u8; 8] = [115, 101, 97, 114, 99, 104, 114, 116];
    let mut j: u32 = 0;
    while j < 200
        invariant
            j <= 200,
            v@.len() == 11 + j,
            search@ == search_bytes(),
            search_root@ == search_root_bytes(),
            forall|i: int| 0 <= i < v@.len() ==> is_demo_span(#[trigger] v@[i].0, v@[i].1, demo_entry(i)),
        decreases 200 - j,
    {
        let id: [u8; 8] = [115, 114, 99, 104, (j / 16777216) as u8, ((j / 65536) % 256) as u8, ((j / 256) % 256) as u8, (j % 256) as u8];
        assert(id@ =~= search_leaf_bytes(j as int));
        let mut name = String::new();
        append_str(&mut name, "query:");
        let digits = string_of(nat_decimal_exec(j as u64).as_slice());
        append_str(&mut name, digits.as_str());
        let ghost before = v@;
        push_demo(&mut v, search, id, Some(search_root), name.as_str(), 1_000_000, 2_000_000, Some("search"), DemoAttr::Plain);
        assert forall|i: int| 0 <= i < v@.len() implies is_demo_span(#[trigger] v@[i].0, v@[i].1, demo_entry(i)) by {
            if i < before.len() {
                assert(v@[i] == before[i]);
            } else {
                assert(i - 11 == j);
            }
        }
        j = j + 1;
    }
    v
}

/// `s1` is `s0` after `Store::insert_span_no_evict` of `span` into `trace_id` at `now`.
pub open spec fn no_evict_step(s1: Store, s0: Store, trace_id: TraceId, span: NewSpan, now: u64) -> bool {
    exists|out: StoreInsertOutcome| #[trigger] inserted_no_evict(s1, s0, trace_id, span, now, out)
}

/// `states` is the run of stores that seeding passes through: `states[i + 1]` is
/// `states[i]` with the `i`-th demo span inserted (without eviction) at time `i`.
pub open spec fn demo_run(states: Seq<Store>, spans: Seq<(TraceId, NewSpan)>) -> bool {
    &&& states.len() == DEMO_SPAN_COUNT + 1
    &&& spans.len() == DEMO_SPAN_COUNT
    &&& forall|i: int| 0 <= i < DEMO_SPAN_COUNT ==> is_demo_span(#[trigger] spans[i].0, spans[i].1, demo_entry(i))
    &&& forall|i: int| 0 <= i < DEMO_SPAN_COUNT ==> no_evict_step(#[trigger] states[i + 1], states[i], spans[i].0, spans[i].1, i as u64)
}

/// Seeds the store with the demo set: each span inserted in order without eviction, the
/// `i`-th at time `i`, then one eviction pass at the end.
pub fn seed(store: &mut Store)
    requires
        old(store).wf(),
    ensures
        exists|states: Seq<Store>, spans: Seq<(TraceId, NewSpan)>|
            #[trigger] demo_run(states, spans) && states[0] == *old(store) && evicted_from(*final(store), states.last()),
{
    let ghost s0 = *store;
    let all = demo_spans();
    let ghost spans = all@;
    let ghost mut states: Seq<Store> = seq![s0];
    let mut now: u64 = 0;
    for pair in it: all.into_iter()
        invariant
            store.wf(),
            it.seq() == spans,
            spans.len() == DEMO_SPAN_COUNT,
            now == it.index(),
            states.len() == it.index() + 1,
            states[0] == s0,
            states.last() == *store,
            forall|i: int| 0 <= i < it.index() ==> no_evict_step(#[trigger] states[i + 1], states[i], spans[i].0, spans[i].1, i as u64),
    {
        let ghost before = *store;
        let (trace_id, span) = pair;
        let out = store.insert_span_no_evict(trace_id, span, now);
        proof {
            let k = it.index() as int;
            assert(spans[k] == (trace_id, span));
            assert(no_evict_step(*store, before, trace_id, span, now));
            let s2 = states.push(*store);
            assert forall|i: int| 0 <= i < k + 1 implies no_evict_step(#[trigger] s2[i + 1], s2[i], spans[i].0, spans[i].1, i as u64) by {
                if i < k {
                    assert(s2[i + 1] == states[i + 1]);
                }
            }
            states = s2;
        }
        now = now + 1;
    }
    let ghost last = *store;
    store.evict_over_budget();
    assert(demo_run(states, spans));
}


/// Two spans that are both the `i`-th demo span have the same trace id and content.
proof fn lemma_demo_span_unique(ta: TraceId, sa: NewSpan, tb: TraceId, sb: NewSpan, d: DemoSpan)
    requires
        is_demo_span(ta, sa, d),
        is_demo_span(tb, sb, d),
    ensures
        ta == tb,
        same_new_span(sa, sb),
{
    assert(ta.0 =~= tb.0);
    assert(sa.span_id.0 =~= sb.span_id.0);
    match (sa.parent_span_id, sb.parent_span_id) {
        (Some(p), Some(q)) => {
            assert(p.0 =~= q.0);
        },
        _ => {},
    }
    assert forall|j: int| 0 <= j < sa.attributes@.len() implies (#[trigger] sa.attributes@[j]).0@ == sb.attributes@[j].0@
        && crate::store::types::same_value(sa.attributes@[j].1, sb.attributes@[j].1) by {
    }
}

proof fn lemma_demo_runs_agree(
    sa: Seq<Store>,
    spa: Seq<(TraceId, NewSpan)>,
    sb: Seq<Store>,
    spb: Seq<(TraceId, NewSpan)>,
    i: int,
)
    requires
        demo_run(sa, spa),
        demo_run(sb, spb),
        same_contents(sa[0], sb[0]),
        0 <= i <= DEMO_SPAN_COUNT,
    ensures
        same_contents(sa[i], sb[i]),
    decreases i,
{
    if i > 0 {
        lemma_demo_runs_agree(sa, spa, sb, spb, i - 1);
        let k = i - 1;
        assert(is_demo_span(spa[k].0, spa[k].1, demo_entry(k)));
        assert(is_demo_span(spb[k].0, spb[k].1, demo_entry(k)));
        lemma_demo_span_unique(spa[k].0, spa[k].1, spb[k].0, spb[k].1, demo_entry(k));
        assert(no_evict_step(sa[k + 1], sa[k], spa[k].0, spa[k].1, k as u64));
        assert(no_evict_step(sb[k + 1], sb[k], spb[k].0, spb[k].1, k as u64));
        let oa = choose|out: StoreInsertOutcome| #[trigger] inserted_no_evict(sa[k + 1], sa[k], spa[k].0, spa[k].1, k as u64, out);
        let ob = choose|out: StoreInsertOutcome| #[trigger] inserted_no_evict(sb[k + 1], sb[k], spb[k].0, spb[k].1, k as u64, out);
        lemma_insert_deterministic(sa[k], sa[k + 1], sb[k], sb[k + 1], spa[k].0, spa[k].1, spb[k].1, k as u64, oa, ob);
    }
}

/// In a run of seeding that starts with no resident traces, every resident trace was last
/// active at the time of the last demo span inserted into it.
proof fn lemma_demo_activity(states: Seq<Store>, spans: Seq<(TraceId, NewSpan)>, j: int)
    requires
        demo_run(states, spans),
        states[0].trace_map().dom().is_empty(),
        0 <= j <= DEMO_SPAN_COUNT,
    ensures
        forall|k: TraceId| #[trigger] states[j].trace_map().contains_key(k) ==> exists|i: int|
            0 <= i < j && #[trigger] spans[i].0 == k && states[j].trace_map()[k].activity() == i,
    decreases j,
{
    if j == 0 {
        assert forall|k: TraceId| !#[trigger] states[0].trace_map().contains_key(k) by {
            assert(!states[0].trace_map().dom().contains(k));
        }
    } else {
        let s = j - 1;
        lemma_demo_activity(states, spans, s);
        assert(no_evict_step(states[s + 1], states[s], spans[s].0, spans[s].1, s as u64));
        let out = choose|out: StoreInsertOutcome|
            #[trigger] inserted_no_evict(states[s + 1], states[s], spans[s].0, spans[s].1, s as u64, out);
        assert forall|k: TraceId| #[trigger] states[j].trace_map().contains_key(k) implies exists|i: int|
            0 <= i < j && #[trigger] spans[i].0 == k && states[j].trace_map()[k].activity() == i by {
            if k == spans[s].0 {
                assert(states[j].trace_map()[k].activity() == s);
            } else {
                assert(states[s].trace_map().dom().insert(spans[s].0).contains(k));
                assert(states[s].trace_map().contains_key(k));
                let i = choose|i: int| 0 <= i < s && #[trigger] spans[i].0 == k && states[s].trace_map()[k].activity() == i;
                assert(spans[i].0 == k);
            }
        }
    }
}

/// Seeding is deterministic: two fresh stores (no resident traces, the same contents
/// otherwise, such as two stores just made with the same budget), seeded, end with the same
/// contents: the same traces with the same spans, interned strings, evicted ids and counters.
pub proof fn lemma_seed_deterministic(
    a0: Store,
    a1: Store,
    sa: Seq<Store>,
    spa: Seq<(TraceId, NewSpan)>,
    b0: Store,
    b1: Store,
    sb: Seq<Store>,
    spb: Seq<(TraceId, NewSpan)>,
)
    requires
        same_contents(a0, b0),
        a0.trace_map().dom().is_empty(),
        demo_run(sa, spa),
        sa[0] == a0,
        evicted_from(a1, sa.last()),
        demo_run(sb, spb),
        sb[0] == b0,
        evicted_from(b1, sb.last()),
    ensures
        same_contents(a1, b1),
        a1.resident().len() == b1.resident().len(),
{
    let n = DEMO_SPAN_COUNT as int;
    lemma_demo_runs_agree(sa, spa, sb, spb, n);
    let k = n - 1;
    assert(sa.last() == sa[k + 1]);
    assert(sb.last() == sb[k + 1]);
    assert(no_evict_step(sa[k + 1], sa[k], spa[k].0, spa[k].1, k as u64));
    assert(no_evict_step(sb[k + 1], sb[k], spb[k].0, spb[k].1, k as u64));
    let oa = choose|out: StoreInsertOutcome| #[trigger] inserted_no_evict(sa[k + 1], sa[k], spa[k].0, spa[k].1, k as u64, out);
    let ob = choose|out: StoreInsertOutcome| #[trigger] inserted_no_evict(sb[k + 1], sb[k], spb[k].0, spb[k].1, k as u64, out);
    assert(sa.last().wf() && sb.last().wf());
    lemma_demo_activity(sa, spa, n);
    let m = sa.last().trace_map();
    assert forall|k1: TraceId, k2: TraceId|
        #[trigger] m.contains_key(k1) && #[trigger] m.contains_key(k2) && k1 != k2
            implies m[k1].activity() != m[k2].activity() by {
        let i1 = choose|i: int| 0 <= i < n && #[trigger] spa[i].0 == k1 && m[k1].activity() == i;
        let i2 = choose|i: int| 0 <= i < n && #[trigger] spa[i].0 == k2 && m[k2].activity() == i;
    }
    lemma_evict_deterministic(sa.last(), a1, sb.last(), b1);
}

} // verus!
