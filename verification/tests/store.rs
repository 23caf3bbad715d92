use spanfall::ingest::convert::SpanBatch;
use spanfall::store::trace::NewSpan;
use spanfall::store::types::{AttrValue, SpanId, TraceId};
use spanfall::store::writer::apply_batch;
use spanfall::store::Store;

fn tid(b: u8) -> TraceId {
    TraceId([b; 16])
}

fn span(id: u8, name: &str) -> NewSpan {
    NewSpan {
        span_id: SpanId([id; 8]),
        parent_span_id: None,
        name: name.to_string(),
        start_time_unix_nano: 0,
        end_time_unix_nano: 0,
        status_message: String::new(),
        status_code: 0,
        unknown_service: false,
        service_name: None,
        attributes: Vec::new(),
    }
}

#[test]
fn eviction_picks_oldest_last_activity_not_oldest_created() {
    // one span's approx footprint is APPROX_SPAN_FIXED_BYTES (64) + name len (1) = 65.
    // cap for ~2 traces, not 3.
    let mut store = Store::new(140);

    store.insert_span(tid(1), span(1, "a"), 0); // A created at t=0
    store.insert_span(tid(2), span(2, "b"), 1); // B created at t=1, never touched again
    // touch A again (dedupe overwrite, same span id) so its last_activity moves to t=5
    store.insert_span(tid(1), span(1, "a"), 5);

    assert_eq!(store.trace_count(), 2);

    // adding a third trace pushes over budget; the oldest last_activity (B, at t=1) goes
    store.insert_span(tid(3), span(3, "c"), 10);

    assert!(store.trace(tid(1)).is_some(), "A should survive: touched most recently");
    assert!(store.trace(tid(2)).is_none(), "B should be evicted: oldest last_activity");
    assert!(store.trace(tid(3)).is_some());
    assert_eq!(store.counters.evicted_traces, 1);
}

#[test]
fn late_span_after_eviction_resurrects_the_trace_and_bumps_generation() {
    let mut store = Store::new(80); // room for ~1 trace only

    store.insert_span(tid(1), span(1, "a"), 0);
    store.insert_span(tid(2), span(2, "b"), 1); // evicts trace 1

    assert!(store.trace(tid(1)).is_none());
    assert_eq!(store.counters.evicted_traces, 1);

    let outcome = store.insert_span(tid(1), span(3, "c"), 2);

    assert!(outcome.resurrected);
    assert_eq!(store.counters.late_span_after_eviction, 1);
    assert_eq!(store.trace(tid(1)).unwrap().generation, 1);
}

#[test]
fn duplicate_span_increments_the_store_level_counter() {
    let mut store = Store::new(10_000);
    store.insert_span(tid(1), span(1, "a"), 0);
    let outcome = store.insert_span(tid(1), span(1, "a-renamed"), 1);

    assert!(outcome.is_duplicate);
    assert_eq!(store.counters.duplicate_span, 1);
}

#[test]
fn a_single_trace_over_budget_is_kept() {
    let mut store = Store::new(10);
    store.insert_span(tid(1), span(1, "a-long-name"), 0);
    assert_eq!(store.trace_count(), 1);
    assert_eq!(store.counters.evicted_traces, 0);
}

#[test]
fn eviction_stops_once_within_budget() {
    let mut store = Store::new(1_000);
    for i in 0..5u8 {
        store.insert_span(tid(i), span(i, "a"), i as u64);
    }
    // 5 * 65 = 325 bytes, well under budget: nothing goes
    assert_eq!(store.trace_count(), 5);
    assert_eq!(store.counters.evicted_traces, 0);
}

#[test]
fn service_names_are_interned_once_across_traces() {
    let mut store = Store::new(10_000);
    let mut a = span(1, "a");
    a.service_name = Some("checkout".to_string());
    let mut b = span(2, "b");
    b.service_name = Some("checkout".to_string());
    store.insert_span(tid(1), a, 0);
    store.insert_span(tid(2), b, 0);
    let ida = store.trace(tid(1)).unwrap().service_name_id(0).unwrap();
    let idb = store.trace(tid(2)).unwrap().service_name_id(0).unwrap();
    assert_eq!(ida, idb);
    assert_eq!(store.service_name(ida), "checkout");
}

#[test]
fn attribute_keys_resolve_through_the_store() {
    let mut store = Store::new(10_000);
    let mut s = span(1, "a");
    s.attributes = vec![("http.method".to_string(), AttrValue::Str("GET".to_string()))];
    store.insert_span(tid(1), s, 0);
    let id = store.attribute_key_id("http.method").unwrap();
    assert_eq!(store.attribute_key(id), "http.method");
    assert_eq!(store.attribute_key_id("never.seen"), None);
}

#[test]
fn writer_applies_batches_and_updates_counters() {
    let mut store = Store::new(10_000_000);
    apply_batch(&mut store, SpanBatch { spans: vec![(tid(1), span(1, "op"))], partial: false, malformed_span_count: 0 }, 0);
    apply_batch(&mut store, SpanBatch { spans: vec![(tid(1), span(2, "op"))], partial: true, malformed_span_count: 2 }, 0);

    assert_eq!(store.trace(tid(1)).unwrap().span_count(), 2);
    assert_eq!(store.counters.malformed_span, 2);
}

#[test]
fn retried_batch_dedupes_span_count_and_bumps_duplicate_span_counter() {
    let mut store = Store::new(10_000_000);
    for now in 0..2u64 {
        apply_batch(
            &mut store,
            SpanBatch { spans: vec![(TraceId([9; 16]), span(7, "op"))], partial: false, malformed_span_count: 0 },
            now,
        );
    }
    assert_eq!(store.counters.duplicate_span, 1);
    assert_eq!(store.trace_count(), 1);
    assert_eq!(store.trace(TraceId([9; 16])).unwrap().span_count(), 1);
}

#[test]
fn insert_without_eviction_can_exceed_the_budget_until_evicted() {
    let mut store = Store::new(70);
    store.insert_span_no_evict(tid(1), span(1, "a"), 0);
    store.insert_span_no_evict(tid(2), span(2, "b"), 1);
    assert_eq!(store.trace_count(), 2);
    store.evict_over_budget();
    assert_eq!(store.trace_count(), 1);
    assert!(store.trace(tid(2)).is_some());
}

#[test]
fn the_trace_being_written_survives_however_far_over_budget() {
    let mut store = Store::new(1);
    store.insert_span(tid(1), span(1, "a"), 0);
    store.insert_span(tid(2), span(2, "b"), 1);
    store.insert_span(tid(3), span(3, "c"), 2);
    assert_eq!(store.trace_count(), 1);
    assert_eq!(store.trace(tid(3)).unwrap().last_activity_unix_nano, 2);
    assert_eq!(store.counters.evicted_traces, 2);
}

#[test]
fn nothing_is_evicted_while_within_budget() {
    let mut store = Store::new(1_000_000);
    store.insert_span_no_evict(tid(1), span(1, "a"), 0);
    store.insert_span_no_evict(tid(2), span(2, "b"), 1);
    store.evict_over_budget();
    assert_eq!(store.trace_count(), 2);
    assert_eq!(store.counters.evicted_traces, 0);
}
