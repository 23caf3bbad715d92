use std::collections::HashSet;

use spanfall::demo::{demo_spans, seed, DEMO_SPAN_COUNT};
use spanfall::store::types::{AttrValue, TraceId};
use spanfall::store::Store;

fn seeded() -> Store {
    let mut store = Store::new(usize::MAX);
    seed(&mut store);
    store
}

#[test]
fn seeds_a_missing_service_name_span() {
    let store = seeded();
    let found = store.traces().iter().any(|t| (0..t.span_count()).any(|i| t.unknown_service(i)));
    assert!(found, "expected at least one unknown_service span");
}

#[test]
fn seeds_an_orphan_span_in_a_multi_service_trace() {
    let store = seeded();
    let broken = TraceId(*b"broken-propagatn");
    let trace = store.trace(broken).expect("broken-propagation trace seeded");

    let mut services = HashSet::new();
    let mut has_orphan = false;
    for i in 0..trace.span_count() {
        has_orphan |= trace.is_orphan(i);
        if let Some(id) = trace.service_name_id(i) {
            services.insert(store.service_name(id).to_string());
        }
    }
    assert!(has_orphan, "expected an orphan span");
    assert!(services.len() >= 2, "expected 2+ services, got {services:?}");
}

#[test]
fn seeds_the_same_attribute_key_with_two_different_value_types() {
    let store = seeded();
    let drift = TraceId(*b"attribute-drift1");
    let trace = store.trace(drift).expect("attribute-drift trace seeded");

    let mut kinds: HashSet<&'static str> = HashSet::new();
    for i in 0..trace.span_count() {
        for (&key_id, value) in trace.attribute_keys(i).iter().zip(trace.attributes(i).iter()) {
            if store.attribute_key(key_id) == "http.status_code" {
                kinds.insert(match value {
                    AttrValue::Str(_) => "str",
                    AttrValue::Int(_) => "int",
                    AttrValue::Double(_) => "double",
                    AttrValue::Bool(_) => "bool",
                });
            }
        }
    }
    assert_eq!(kinds.len(), 2, "expected http.status_code seeded as two distinct types, got {kinds:?}");
}

#[test]
fn seeds_a_long_leaf_span_over_half_its_parents_duration() {
    let store = seeded();
    let slow = TraceId(*b"slow-leaf-span01");
    let trace = store.trace(slow).expect("slow-leaf trace seeded");

    let parent_duration = trace.duration_nanos().expect("trace has a duration");
    let mut found = false;
    for i in 0..trace.span_count() {
        let Some(_parent) = trace.parent_idx(i) else { continue };
        let duration = trace.end_time_unix_nano(i) - trace.start_time_unix_nano(i);
        if duration > 1_000_000_000 && duration * 2 > parent_duration {
            found = true;
        }
    }
    assert!(found, "expected a leaf span over 1s and over half its parent's duration");
}

#[test]
fn seeds_at_least_two_hundred_distinct_span_names() {
    let store = seeded();
    let mut names = HashSet::new();
    for trace in store.traces() {
        for i in 0..trace.span_count() {
            names.insert(trace.name(i).to_string());
        }
    }
    assert!(names.len() >= 200, "expected >= 200 distinct span names, got {}", names.len());
}

#[test]
fn seeding_is_deterministic_across_runs() {
    let a = seeded();
    let b = seeded();
    assert_eq!(a.trace_count(), b.trace_count());

    let checkout = TraceId(*b"checkout-flow-01");
    let ta = a.trace(checkout).expect("seeded");
    let tb = b.trace(checkout).expect("seeded");
    assert_eq!(ta.span_count(), tb.span_count());
    for i in 0..ta.span_count() {
        assert_eq!(ta.name(i), tb.name(i));
        assert_eq!(ta.start_time_unix_nano(i), tb.start_time_unix_nano(i));
    }
}

#[test]
fn the_demo_set_has_six_traces_and_its_leaf_names_are_numbered() {
    let spans = demo_spans();
    assert_eq!(spans.len(), DEMO_SPAN_COUNT);
    assert_eq!(spans[11].1.name, "query:0");
    assert_eq!(spans[210].1.name, "query:199");
    assert_eq!(spans[210].1.span_id.0, *b"srch\0\0\0\xc7");
    let store = seeded();
    assert_eq!(store.trace_count(), 6);
    let search = store.trace(TraceId(*b"high-cardinality")).unwrap();
    assert_eq!(search.span_count(), 201);
    assert!((1..201).all(|i| search.parent_idx(i) == Some(0)));
}

#[test]
fn a_tight_budget_keeps_only_the_most_recent_demo_traces() {
    let mut store = Store::new(1);
    seed(&mut store);
    assert_eq!(store.trace_count(), 1);
    assert!(store.trace(TraceId(*b"high-cardinality")).is_some());
    assert_eq!(store.counters.evicted_traces, 5);
}

#[test]
fn seeding_under_a_partial_budget_keeps_the_same_traces_in_both_runs() {
    let ids: Vec<TraceId> = demo_spans().iter().map(|(t, _)| *t).collect::<HashSet<_>>().into_iter().collect();
    for budget in [1usize, 500, 2_000, 15_000, 40_000] {
        let mut a = Store::new(budget);
        seed(&mut a);
        let mut b = Store::new(budget);
        seed(&mut b);
        assert_eq!(a.trace_count(), b.trace_count());
        assert_eq!(a.counters.evicted_traces, b.counters.evicted_traces);
        for id in &ids {
            assert_eq!(a.trace(*id).map(|t| t.span_count()), b.trace(*id).map(|t| t.span_count()));
        }
    }
}
