//! Inserting and evicting are deterministic: the same spans inserted into stores with the same
//! contents give stores with the same contents, and so does evicting from stores with the same
//! contents when no two resident traces were last active at the same time.

use vstd::prelude::*;

use super::interner::{intern_step, InternState};
use super::trace::{intern_attrs, NewSpan, SpanView, Trace};
use super::types::{same_value, AttrValue, TraceId};
use super::{
    add_trace_bytes, evicted_from, id_bytes, inserted_no_evict, lemma_resident_count, lemma_total_bytes_by_id,
    span_bytes, total_bytes, trace_bytes, trace_bytes_upto, Store, StoreInsertOutcome,
};
use crate::ingest::convert::opt_view;

verus! {

/// Two attribute lists with the same keys and the same values, in order.
pub open spec fn same_attrs(a: Seq<(u32, AttrValue)>, b: Seq<(u32, AttrValue)>) -> bool {
    &&& a.len() == b.len()
    &&& forall|j: int| 0 <= j < a.len() ==> (#[trigger] a[j]).0 == b[j].0 && same_value(a[j].1, b[j].1)
}

/// Two stored spans with the same content.
pub open spec fn same_span(a: SpanView, b: SpanView) -> bool {
    &&& a.span_id == b.span_id
    &&& a.name == b.name
    &&& a.start_time_unix_nano == b.start_time_unix_nano
    &&& a.end_time_unix_nano == b.end_time_unix_nano
    &&& a.status_message == b.status_message
    &&& a.status_code == b.status_code
    &&& a.unknown_service == b.unknown_service
    &&& a.service_name_id == b.service_name_id
    &&& a.declared_parent == b.declared_parent
    &&& same_attrs(a.attrs, b.attrs)
}

/// Two traces with the same identity, generation, activity, span index and spans.
pub open spec fn same_trace(a: Trace, b: Trace) -> bool {
    &&& a.id() == b.id()
    &&& a.gen() == b.gen()
    &&& a.activity() == b.activity()
    &&& a.len() == b.len()
    &&& a.lookup() == b.lookup()
    &&& forall|i: int| 0 <= i < a.len() ==> same_span(#[trigger] a.span(i), b.span(i))
}

/// Two stores with the same contents: the same resident traces (by id), interners,
/// evicted generations, counters and budget.
pub open spec fn same_contents(a: Store, b: Store) -> bool {
    &&& a.trace_map().dom() == b.trace_map().dom()
    &&& forall|k: TraceId| #[trigger] a.trace_map().contains_key(k) ==> same_trace(a.trace_map()[k], b.trace_map()[k])
    &&& a.keys() == b.keys()
    &&& a.services() == b.services()
    &&& a.evicted() == b.evicted()
    &&& a.counts() == b.counts()
    &&& a.budget() == b.budget()
}

/// Two incoming spans with the same content.
pub open spec fn same_new_span(a: NewSpan, b: NewSpan) -> bool {
    &&& a.span_id == b.span_id
    &&& a.parent_span_id == b.parent_span_id
    &&& a.name@ == b.name@
    &&& a.start_time_unix_nano == b.start_time_unix_nano
    &&& a.end_time_unix_nano == b.end_time_unix_nano
    &&& a.status_message@ == b.status_message@
    &&& a.status_code == b.status_code
    &&& a.unknown_service == b.unknown_service
    &&& opt_view(a.service_name) == opt_view(b.service_name)
    &&& a.attributes@.len() == b.attributes@.len()
    &&& forall|j: int| 0 <= j < a.attributes@.len() ==> (#[trigger] a.attributes@[j]).0@ == b.attributes@[j].0@
        && same_value(a.attributes@[j].1, b.attributes@[j].1)
}

proof fn lemma_intern_attrs_same(st: InternState, a: Seq<(String, AttrValue)>, b: Seq<(String, AttrValue)>)
    requires
        a.len() == b.len(),
        forall|j: int| 0 <= j < a.len() ==> (#[trigger] a[j]).0@ == b[j].0@ && same_value(a[j].1, b[j].1),
    ensures
        intern_attrs(st, a).0 == intern_attrs(st, b).0,
        same_attrs(intern_attrs(st, a).1, intern_attrs(st, b).1),
    decreases a.len(),
{
    if a.len() > 0 {
        let (a0, b0) = (a.drop_last(), b.drop_last());
        assert forall|j: int| 0 <= j < a0.len() implies (#[trigger] a0[j]).0@ == b0[j].0@ && same_value(a0[j].1, b0[j].1) by {
            assert(a0[j] == a[j] && b0[j] == b[j]);
        }
        lemma_intern_attrs_same(st, a0, b0);
        assert(a.last().0@ == b.last().0@ && same_value(a.last().1, b.last().1)) by {
            assert(a.last() == a[a.len() - 1]);
        }
        let (ka, kb) = (intern_attrs(st, a0).1, intern_attrs(st, b0).1);
        let (ra, rb) = (intern_attrs(st, a).1, intern_attrs(st, b).1);
        assert forall|j: int| 0 <= j < ra.len() implies (#[trigger] ra[j]).0 == rb[j].0 && same_value(ra[j].1, rb[j].1) by {
            if j < ka.len() {
                assert(ra[j] == ka[j] && rb[j] == kb[j]);
            }
        }
    }
}

/// Inserting the same span (by content) into stores with the same contents gives stores
/// with the same contents and the same outcome.
pub proof fn lemma_insert_deterministic(
    a0: Store,
    a1: Store,
    b0: Store,
    b1: Store,
    trace_id: TraceId,
    sa: NewSpan,
    sb: NewSpan,
    now: u64,
    oa: StoreInsertOutcome,
    ob: StoreInsertOutcome,
)
    requires
        same_contents(a0, b0),
        same_new_span(sa, sb),
        inserted_no_evict(a1, a0, trace_id, sa, now, oa),
        inserted_no_evict(b1, b0, trace_id, sb, now, ob),
    ensures
        same_contents(a1, b1),
        oa == ob,
{
    lemma_intern_attrs_same(a0.keys(), sa.attributes@, sb.attributes@);
    let ka = intern_attrs(a0.keys(), sa.attributes@).1;
    let kb = intern_attrs(b0.keys(), sb.attributes@).1;
    let present = a0.trace_map().contains_key(trace_id);
    assert(present == b0.trace_map().contains_key(trace_id));
    let (ta, tb) = (a1.trace_map()[trace_id], b1.trace_map()[trace_id]);
    assert(a1.trace_map().contains_key(trace_id));
    if present {
        let (pa, pb) = (a0.trace_map()[trace_id], b0.trace_map()[trace_id]);
        assert(same_trace(pa, pb));
        let dup = pa.lookup().contains_key(sa.span_id);
        let idx = if dup { pa.lookup()[sa.span_id] as int } else { pa.len() as int };
        assert forall|i: int| 0 <= i < ta.len() implies same_span(#[trigger] ta.span(i), tb.span(i)) by {
            if i == idx {
                if dup {
                    assert(same_span(pa.span(idx), pb.span(idx)));
                }
                assert(same_attrs(ta.span(i).attrs, tb.span(i).attrs));
            } else {
                assert(same_span(pa.span(i), pb.span(i)));
            }
        }
        assert(same_trace(ta, tb));
    } else {
        assert(same_span(ta.span(0), tb.span(0)));
        assert(same_trace(ta, tb));
    }
    assert(a1.trace_map().dom() == b1.trace_map().dom());
    assert forall|k: TraceId| #[trigger] a1.trace_map().contains_key(k) implies same_trace(a1.trace_map()[k], b1.trace_map()[k]) by {
        if k != trace_id {
            assert(a0.trace_map().contains_key(k));
            assert(same_trace(a0.trace_map()[k], b0.trace_map()[k]));
        }
    }
    assert(a1.counts() == b1.counts());
}


proof fn lemma_trace_bytes_upto(a: Trace, b: Trace, k: int)
    requires
        same_trace(a, b),
        k <= a.len(),
    ensures
        trace_bytes_upto(a, k) == trace_bytes_upto(b, k),
        trace_bytes_upto(a, k) >= 0,
    decreases k,
{
    if k > 0 {
        lemma_trace_bytes_upto(a, b, k - 1);
        assert(same_span(a.span(k - 1), b.span(k - 1)));
        assert(span_bytes(a.span(k - 1)) == span_bytes(b.span(k - 1)));
    }
}

/// Traces with the same contents have the same footprint, which is never negative.
proof fn lemma_same_trace_bytes(a: Trace, b: Trace)
    requires
        same_trace(a, b),
    ensures
        trace_bytes(a) == trace_bytes(b),
        trace_bytes(a) >= 0,
{
    lemma_trace_bytes_upto(a, b, a.len() as int);
}

/// The footprint under a set of ids depends only on the footprints of the traces under them.
proof fn lemma_id_bytes_congruent(m1: Map<TraceId, Trace>, m2: Map<TraceId, Trace>, ids: Set<TraceId>)
    requires
        ids.finite(),
        forall|k: TraceId| #[trigger] ids.contains(k) ==> trace_bytes(m1[k]) == trace_bytes(m2[k]),
    ensures
        id_bytes(m1, ids) == id_bytes(m2, ids),
    decreases ids.len(),
{
    let f1 = add_trace_bytes(m1);
    let f2 = add_trace_bytes(m2);
    assert(vstd::set::fold::is_fun_commutative(f1));
    assert(vstd::set::fold::is_fun_commutative(f2));
    if ids.len() == 0 {
        assert(ids =~= Set::<TraceId>::empty());
        vstd::set::fold::lemma_fold_empty(0int, f1);
        vstd::set::fold::lemma_fold_empty(0int, f2);
    } else {
        let e = ids.choose();
        let rest = ids.remove(e);
        lemma_id_bytes_congruent(m1, m2, rest);
        assert(rest.insert(e) =~= ids);
        vstd::set::fold::lemma_fold_insert(rest, 0int, f1, e);
        vstd::set::fold::lemma_fold_insert(rest, 0int, f2, e);
    }
}

/// Adding ids never lowers the footprint.
proof fn lemma_id_bytes_grows(m: Map<TraceId, Trace>, small: Set<TraceId>, big: Set<TraceId>)
    requires
        big.finite(),
        small.subset_of(big),
        forall|k: TraceId| #[trigger] big.contains(k) ==> trace_bytes(m[k]) >= 0,
    ensures
        id_bytes(m, small) <= id_bytes(m, big),
    decreases big.len(),
{
    let f = add_trace_bytes(m);
    assert(vstd::set::fold::is_fun_commutative(f));
    if !(big =~= small) {
        let e = choose|e: TraceId| big.contains(e) && !small.contains(e);
        let rest = big.remove(e);
        lemma_id_bytes_grows(m, small, rest);
        assert(rest.insert(e) =~= big);
        vstd::set::fold::lemma_fold_insert(rest, 0int, f, e);
    }
}

/// Under distinct last activities, an id kept by one eviction is kept by the other.
proof fn lemma_kept_by_both(a1: Store, a: Store, b1: Store, b: Store, x: TraceId)
    requires
        a.wf(),
        b.wf(),
        same_contents(a, b),
        evicted_from(a1, a),
        evicted_from(b1, b),
        forall|k1: TraceId, k2: TraceId|
            #[trigger] a.trace_map().contains_key(k1) && #[trigger] a.trace_map().contains_key(k2) && k1 != k2
                ==> a.trace_map()[k1].activity() != a.trace_map()[k2].activity(),
        b1.trace_map().contains_key(x),
    ensures
        a1.trace_map().contains_key(x),
{
    let am = a.trace_map();
    let bm = b.trace_map();
    if !a1.trace_map().contains_key(x) {
        assert(bm.contains_key(x));
        assert(am.contains_key(x));
        // Every id that `a1` keeps is newer than `x`, so `b1` keeps it too.
        assert forall|k: TraceId| #[trigger] a1.trace_map().contains_key(k) implies b1.trace_map().contains_key(k) by {
            if !b1.trace_map().contains_key(k) {
                assert(am.contains_key(k));
                assert(same_trace(am[k], bm[k]));
                assert(same_trace(am[x], bm[x]));
                assert(bm[k].activity() <= bm[x].activity());
                assert(am[x].activity() <= am[k].activity());
            }
        }
        let gone = |k: TraceId| am.contains_key(k) && !a1.trace_map().contains_key(k);
        assert(gone(x));
        let e = choose|e: TraceId|
            #[trigger] gone(e) && (forall|e2: TraceId| #[trigger] gone(e2) ==> am[e2].activity() <= am[e].activity())
                && total_bytes(a1.resident()) + trace_bytes(am[e]) > a.budget();
        // The newest id `a1` dropped is kept by `b1`.
        assert(b1.trace_map().contains_key(e)) by {
            if !b1.trace_map().contains_key(e) {
                assert(am[x].activity() <= am[e].activity());
                assert(same_trace(am[e], bm[e]));
                assert(same_trace(am[x], bm[x]));
                assert(bm[e].activity() <= bm[x].activity());
            }
        }
        let ka = a1.trace_map().dom();
        let kb = b1.trace_map().dom();
        lemma_total_bytes_by_id(a1);
        lemma_total_bytes_by_id(b1);
        lemma_total_bytes_by_id(a);
        lemma_resident_count(a1);
        lemma_resident_count(b1);
        lemma_resident_count(a);
        assert forall|k: TraceId| #[trigger] kb.contains(k) implies trace_bytes(b1.trace_map()[k]) >= 0
            && trace_bytes(b1.trace_map()[k]) == trace_bytes(bm[k]) by {
            lemma_same_trace_bytes(bm[k], bm[k]);
        }
        assert forall|k: TraceId| #[trigger] ka.contains(k) implies trace_bytes(a1.trace_map()[k]) == trace_bytes(bm[k]) by {
            lemma_same_trace_bytes(am[k], bm[k]);
        }
        lemma_id_bytes_congruent(a1.trace_map(), bm, ka);
        let with_e = ka.insert(e);
        assert(with_e.subset_of(kb));
        assert forall|k: TraceId| #[trigger] with_e.contains(k) implies trace_bytes(bm[k]) == trace_bytes(b1.trace_map()[k]) by {}
        lemma_id_bytes_congruent(bm, b1.trace_map(), kb);
        lemma_id_bytes_grows(b1.trace_map(), with_e, kb);
        lemma_id_bytes_congruent(bm, b1.trace_map(), with_e);
        vstd::set::fold::lemma_fold_insert(ka, 0int, add_trace_bytes(bm), e);
        lemma_same_trace_bytes(am[e], bm[e]);
        assert(id_bytes(bm, with_e) == id_bytes(bm, ka) + trace_bytes(bm[e]));
        assert(total_bytes(b1.resident()) > b1.budget());
        assert(am.dom().contains(x));
        assert(am.dom().len() >= 1) by {
            vstd::set_lib::lemma_len_subset(set![x], am.dom());
        }
        vstd::set_lib::lemma_len_subset(with_e, kb);
        assert(kb.len() >= 2);
        assert(false);
    }
}

/// Evicting is deterministic: two stores with the same contents, in which no two resident
/// traces were last active at the same time, keep the same traces and end with the same
/// contents.
pub proof fn lemma_evict_deterministic(a: Store, a1: Store, b: Store, b1: Store)
    requires
        a.wf(),
        b.wf(),
        same_contents(a, b),
        forall|k1: TraceId, k2: TraceId|
            #[trigger] a.trace_map().contains_key(k1) && #[trigger] a.trace_map().contains_key(k2) && k1 != k2
                ==> a.trace_map()[k1].activity() != a.trace_map()[k2].activity(),
        evicted_from(a1, a),
        evicted_from(b1, b),
    ensures
        same_contents(a1, b1),
        a1.resident().len() == b1.resident().len(),
{
    assert(same_contents(b, a)) by {
        assert forall|k: TraceId| #[trigger] b.trace_map().contains_key(k) implies same_trace(b.trace_map()[k], a.trace_map()[k]) by {
            assert(same_trace(a.trace_map()[k], b.trace_map()[k]));
            assert forall|i: int| 0 <= i < b.trace_map()[k].len() implies same_span(#[trigger] b.trace_map()[k].span(i), a.trace_map()[k].span(i)) by {
                assert(same_span(a.trace_map()[k].span(i), b.trace_map()[k].span(i)));
                let (x, y) = (a.trace_map()[k].span(i).attrs, b.trace_map()[k].span(i).attrs);
                assert forall|j: int| 0 <= j < y.len() implies (#[trigger] y[j]).0 == x[j].0 && same_value(y[j].1, x[j].1) by {
                    assert(x[j].0 == y[j].0 && same_value(x[j].1, y[j].1));
                }
            }
        }
    }
    assert forall|k1: TraceId, k2: TraceId|
        #[trigger] b.trace_map().contains_key(k1) && #[trigger] b.trace_map().contains_key(k2) && k1 != k2
            implies b.trace_map()[k1].activity() != b.trace_map()[k2].activity() by {
        assert(same_trace(a.trace_map()[k1], b.trace_map()[k1]));
        assert(same_trace(a.trace_map()[k2], b.trace_map()[k2]));
    }
    assert forall|x: TraceId| #[trigger] b1.trace_map().contains_key(x) implies a1.trace_map().contains_key(x) by {
        lemma_kept_by_both(a1, a, b1, b, x);
    }
    assert forall|x: TraceId| #[trigger] a1.trace_map().contains_key(x) implies b1.trace_map().contains_key(x) by {
        lemma_kept_by_both(b1, b, a1, a, x);
    }
    assert(a1.trace_map().dom() =~= b1.trace_map().dom());
    assert forall|k: TraceId| #[trigger] a1.trace_map().contains_key(k) implies same_trace(a1.trace_map()[k], b1.trace_map()[k]) by {
        assert(same_trace(a.trace_map()[k], b.trace_map()[k]));
    }
    assert(a1.evicted() =~= b1.evicted()) by {
        assert forall|k: TraceId| #[trigger] a1.evicted().contains_key(k) == b1.evicted().contains_key(k) by {
            if a.trace_map().contains_key(k) {
                assert(same_trace(a.trace_map()[k], b.trace_map()[k]));
            }
        }
        assert forall|k: TraceId| #[trigger] a1.evicted().contains_key(k) implies a1.evicted()[k] == b1.evicted()[k] by {
            if a.trace_map().contains_key(k) {
                assert(same_trace(a.trace_map()[k], b.trace_map()[k]));
            }
        }
    }
    lemma_resident_count(a);
    lemma_resident_count(b);
    lemma_resident_count(a1);
    lemma_resident_count(b1);
    assert(a1.counts() == b1.counts());
}

} // verus!
