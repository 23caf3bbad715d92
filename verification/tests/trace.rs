use spanfall::store::interner::Interner;
use spanfall::store::trace::{NewSpan, Trace};
use spanfall::store::types::{AttrValue, SpanId, TraceId};

fn sid(b: u8) -> SpanId {
    SpanId([b; 8])
}

fn span(id: u8, parent: Option<u8>, name: &str) -> NewSpan {
    NewSpan {
        span_id: sid(id),
        parent_span_id: parent.map(sid),
        name: name.to_string(),
        start_time_unix_nano: 100,
        end_time_unix_nano: 200,
        status_message: String::new(),
        status_code: 0,
        unknown_service: false,
        service_name: None,
        attributes: Vec::new(),
    }
}

#[test]
fn attr_offsets_len_is_always_span_count_plus_one() {
    let mut t = Trace::new(TraceId([0; 16]), 0);
    let mut interner = Interner::new(100);
    assert_eq!(t.attr_offsets(), &[0usize][..]);

    t.insert(span(1, None, "root"), None, &mut interner, 0);
    assert_eq!(t.attr_offsets().len(), 2);

    t.insert(span(2, Some(1), "child"), None, &mut interner, 0);
    assert_eq!(t.attr_offsets().len(), 3);
}

#[test]
fn zero_attribute_span_gets_an_empty_slice() {
    let mut t = Trace::new(TraceId([0; 16]), 0);
    let mut interner = Interner::new(100);
    let out = t.insert(span(1, None, "root"), None, &mut interner, 0);
    assert_eq!(t.attributes(out.local_idx), &[] as &[AttrValue]);
}

#[test]
fn parent_first_resolves_immediately() {
    let mut t = Trace::new(TraceId([0; 16]), 0);
    let mut interner = Interner::new(100);
    let root = t.insert(span(1, None, "root"), None, &mut interner, 0);
    let child = t.insert(span(2, Some(1), "child"), None, &mut interner, 0);

    assert_eq!(t.parent_idx(child.local_idx), Some(root.local_idx));
    assert!(!t.is_orphan(child.local_idx));
}

#[test]
fn child_first_is_orphan_then_patches_when_parent_arrives() {
    let mut t = Trace::new(TraceId([0; 16]), 0);
    let mut interner = Interner::new(100);
    let child = t.insert(span(2, Some(1), "child"), None, &mut interner, 0);

    assert!(t.is_orphan(child.local_idx));
    assert_eq!(t.parent_idx(child.local_idx), None);

    let root = t.insert(span(1, None, "root"), None, &mut interner, 0);

    assert!(!t.is_orphan(child.local_idx));
    assert_eq!(t.parent_idx(child.local_idx), Some(root.local_idx));
}

#[test]
fn parent_never_arriving_renders_as_a_flagged_root() {
    let mut t = Trace::new(TraceId([0; 16]), 0);
    let mut interner = Interner::new(100);
    let child = t.insert(span(2, Some(99), "child"), None, &mut interner, 0);

    assert!(t.is_orphan(child.local_idx));
    assert_eq!(t.parent_idx(child.local_idx), None);
    assert_eq!(t.span_count(), 1);
}

#[test]
fn duplicate_span_id_overwrites_in_place_without_growing_span_count() {
    let mut t = Trace::new(TraceId([0; 16]), 0);
    let mut interner = Interner::new(100);
    let first = t.insert(span(1, None, "root"), None, &mut interner, 0);

    let mut updated = span(1, None, "root-renamed");
    updated.end_time_unix_nano = 999;
    let second = t.insert(updated, None, &mut interner, 5);

    assert_eq!(t.span_count(), 1);
    assert!(second.is_duplicate);
    assert_eq!(second.local_idx, first.local_idx);
    assert_eq!(t.name(first.local_idx), "root-renamed");
    assert_eq!(t.last_activity_unix_nano, 5);
}

#[test]
fn duplicate_with_different_attribute_count_keeps_csr_offsets_consistent() {
    let mut t = Trace::new(TraceId([0; 16]), 0);
    let mut interner = Interner::new(100);

    let mut first = span(1, None, "a");
    first.attributes = vec![("k1".to_string(), AttrValue::Bool(true))];
    t.insert(first, None, &mut interner, 0);
    let second_span = t.insert(span(2, None, "b"), None, &mut interner, 0);

    // now re-send span 1 with three attributes instead of one
    let mut retry = span(1, None, "a");
    retry.attributes = vec![
        ("k1".to_string(), AttrValue::Bool(false)),
        ("k2".to_string(), AttrValue::Int(7)),
        ("k3".to_string(), AttrValue::Double(1.5f64.to_bits())),
    ];
    t.insert(retry, None, &mut interner, 1);

    assert_eq!(t.attributes(0).len(), 3);
    // span 2, which comes after span 1 in the dense arrays, must still resolve correctly
    assert_eq!(t.attributes(second_span.local_idx).len(), 0);
    assert_eq!(t.attr_offsets().len(), t.span_count() + 1);
}

#[test]
fn attribute_key_refused_by_a_full_interner_drops_only_that_pair() {
    let mut t = Trace::new(TraceId([0; 16]), 0);
    let mut interner = Interner::new(1);
    interner.intern("already-full").unwrap();

    let mut s = span(1, None, "root");
    s.attributes = vec![("brand-new-key".to_string(), AttrValue::Str("x".to_string()))];
    let out = t.insert(s, None, &mut interner, 0);

    assert_eq!(t.span_count(), 1);
    assert_eq!(t.attributes(out.local_idx).len(), 0);
    assert_eq!(interner.cap_hit_count(), 1);
}

#[test]
fn service_name_id_round_trips_and_dedupe_overwrites_it() {
    let mut t = Trace::new(TraceId([0; 16]), 0);
    let mut interner = Interner::new(100);

    let first = t.insert(span(1, None, "a"), Some(7), &mut interner, 0);
    assert_eq!(t.service_name_id(first.local_idx), Some(7));

    // re-send the same span under a different (already-interned) service id
    let second = t.insert(span(1, None, "a"), Some(9), &mut interner, 1);
    assert_eq!(t.service_name_id(second.local_idx), Some(9));
}

#[test]
fn duration_nanos_spans_the_earliest_start_to_latest_end() {
    let mut t = Trace::new(TraceId([0; 16]), 0);
    let mut interner = Interner::new(100);

    let mut root = span(1, None, "root");
    root.start_time_unix_nano = 100;
    root.end_time_unix_nano = 500;
    t.insert(root, None, &mut interner, 0);

    let mut child = span(2, Some(1), "child");
    child.start_time_unix_nano = 150;
    child.end_time_unix_nano = 900;
    t.insert(child, None, &mut interner, 0);

    assert_eq!(t.duration_nanos(), Some(800)); // 900 - 100
}

#[test]
fn duration_nanos_is_none_for_an_empty_trace() {
    let t = Trace::new(TraceId([0; 16]), 0);
    assert_eq!(t.duration_nanos(), None);
}

#[test]
fn duration_nanos_is_none_rather_than_underflow_on_end_before_start() {
    let mut t = Trace::new(TraceId([0; 16]), 0);
    let mut interner = Interner::new(100);

    let mut malformed = span(1, None, "root");
    malformed.start_time_unix_nano = 500;
    malformed.end_time_unix_nano = 100; // end before start
    t.insert(malformed, None, &mut interner, 0);

    assert_eq!(t.duration_nanos(), None);
}

#[test]
fn status_code_round_trips_and_dedupe_overwrites_it() {
    let mut t = Trace::new(TraceId([0; 16]), 0);
    let mut interner = Interner::new(100);

    let mut ok = span(1, None, "root");
    ok.status_code = 1; // Ok
    let first = t.insert(ok, None, &mut interner, 0);
    assert_eq!(t.status_code(first.local_idx), 1);

    let mut err = span(1, None, "root");
    err.status_code = 2; // Error
    let second = t.insert(err, None, &mut interner, 1);
    assert_eq!(t.status_code(second.local_idx), 2);
}

#[test]
fn parent_linkage_does_not_depend_on_arrival_order() {
    // the same three spans (root, child, grandchild) in two orders
    let mut interner = Interner::new(100);
    let mut a = Trace::new(TraceId([0; 16]), 0);
    a.insert(span(1, None, "root"), None, &mut interner, 0);
    a.insert(span(2, Some(1), "child"), None, &mut interner, 0);
    a.insert(span(3, Some(2), "grandchild"), None, &mut interner, 0);

    let mut b = Trace::new(TraceId([0; 16]), 0);
    b.insert(span(3, Some(2), "grandchild"), None, &mut interner, 0);
    b.insert(span(2, Some(1), "child"), None, &mut interner, 0);
    b.insert(span(1, None, "root"), None, &mut interner, 0);

    for t in [&a, &b] {
        for i in 0..t.span_count() {
            let parent = t.parent_idx(i).map(|p| t.span_id(p));
            let expected = match t.span_id(i) {
                s if s == sid(1) => None,
                s if s == sid(2) => Some(sid(1)),
                _ => Some(sid(2)),
            };
            assert_eq!(parent, expected);
            assert!(!t.is_orphan(i));
        }
    }
}

#[test]
fn attributes_and_keys_are_parallel_slices() {
    let mut t = Trace::new(TraceId([0; 16]), 0);
    let mut interner = Interner::new(100);
    let mut s = span(1, None, "root");
    s.attributes = vec![
        ("a".to_string(), AttrValue::Int(1)),
        ("b".to_string(), AttrValue::Str("two".to_string())),
    ];
    let out = t.insert(s, None, &mut interner, 0);
    let keys: Vec<&str> = t.attribute_keys(out.local_idx).iter().map(|&k| interner.get(k)).collect();
    assert_eq!(keys, vec!["a", "b"]);
    assert_eq!(t.attributes(out.local_idx)[1], AttrValue::Str("two".to_string()));
}

#[test]
fn generation_bumps_and_holds_at_the_maximum() {
    let mut t = Trace::new(TraceId([0; 16]), 0);
    assert_eq!(t.generation(), 0);
    t.bump_generation();
    assert_eq!(t.generation(), 1);
    t.set_generation(u32::MAX);
    t.bump_generation();
    assert_eq!(t.generation(), u32::MAX);
}
