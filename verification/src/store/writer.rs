//! Applying a converted batch to the store: the step the single writer takes for each batch
//! it receives.

use vstd::prelude::*;

use super::trace::NewSpan;
use super::types::TraceId;
use super::{evicted_from, inserted_no_evict, Store};
use crate::ingest::convert::SpanBatch;
use crate::receiver::{sat_add, Counters};

verus! {

/// `s1` is `s0` after one `Store::insert_span` of `span` into `trace_id` at time `now`.
pub open spec fn one_insert(s1: Store, s0: Store, trace_id: TraceId, span: NewSpan, now: u64) -> bool {
    exists|mid: Store, out: super::StoreInsertOutcome|
        #[trigger] inserted_no_evict(mid, s0, trace_id, span, now, out) && #[trigger] evicted_from(s1, mid)
}

/// `states` is the run of stores that inserting `spans` one after another, in order, at
/// time `now`, passes through: `states[0]` before the first insert, `states[i + 1]` after
/// inserting `spans[i]`.
pub open spec fn insert_run(states: Seq<Store>, spans: Seq<(TraceId, NewSpan)>, now: u64) -> bool {
    &&& states.len() == spans.len() + 1
    &&& forall|i: int| 0 <= i < spans.len() ==> one_insert(#[trigger] states[i + 1], states[i], spans[i].0, spans[i].1, now)
}

/// `s1` is `s0` with `n` more malformed spans counted and nothing else changed.
pub open spec fn malformed_added(s1: Store, s0: Store, n: int) -> bool {
    &&& s1.wf()
    &&& s1.resident() == s0.resident()
    &&& s1.index() == s0.index()
    &&& s1.evicted() == s0.evicted()
    &&& s1.keys() == s0.keys()
    &&& s1.services() == s0.services()
    &&& s1.budget() == s0.budget()
    &&& s1.counts() == (Counters { malformed_span: sat_add(s0.counts().malformed_span, n), ..s0.counts() })
}

/// Applies one batch: every span is inserted in order (each insert followed by eviction while
/// over budget) at time `now`, then the batch's malformed spans are counted.
pub fn apply_batch(store: &mut Store, batch: SpanBatch, now: u64)
    requires
        old(store).wf(),
    ensures
        exists|states: Seq<Store>|
            #[trigger] insert_run(states, batch.spans@, now) && states[0] == *old(store) && malformed_added(
                *final(store),
                states.last(),
                batch.malformed_span_count as int,
            ),
{
    let ghost s0 = *store;
    let ghost all = batch.spans@;
    let ghost mut states: Seq<Store> = seq![s0];
    let malformed = batch.malformed_span_count as u64;
    for pair in it: batch.spans.into_iter()
        invariant
            store.wf(),
            it.seq() == all,
            states.len() == it.index() + 1,
            states[0] == s0,
            states.last() == *store,
            insert_run(states, all.take(it.index() as int), now),
    {
        let ghost before = *store;
        let (trace_id, span) = pair;
        let out = store.insert_span(trace_id, span, now);
        proof {
            let k = it.index() as int;
            assert(all[k] == (trace_id, span));
            let ins = choose|mid: Store| inserted_no_evict(mid, before, trace_id, span, now, out) && evicted_from(*store, mid);
            assert(one_insert(*store, before, trace_id, span, now));
            let s2 = states.push(*store);
            assert forall|i: int| 0 <= i < k + 1 implies one_insert(#[trigger] s2[i + 1], s2[i], all.take(k + 1)[i].0, all.take(k + 1)[i].1, now) by {
                if i < k {
                    assert(s2[i + 1] == states[i + 1]);
                    assert(all.take(k + 1)[i] == all.take(k)[i]);
                }
            }
            states = s2;
        }
    }
    assert(all.take(all.len() as int) =~= all);
    let ghost last = *store;
    store.add_malformed(malformed);
    assert(insert_run(states, all, now));
}

} // verus!
