//! The in-memory, trace-partitioned store with interning and budgeted eviction.

pub mod interner;
pub mod replay;
pub mod trace;
pub mod types;
pub mod writer;

use rustc_hash::FxHashMap;
use vstd::prelude::*;

use crate::fxmap::{fx_get_trace, fx_insert_trace, fx_remove_trace};
use crate::receiver::{sat_add, Counters};
use interner::{intern_step, sat_inc, InternState, Interner};
use trace::{intern_attrs, stored_view, InsertOutcome, NewSpan, SpanView, Trace};
use types::TraceId;

verus! {

/// Cap of each global interner (attribute keys, service names).
pub const GLOBAL_INTERNER_CAP: usize = 100_000;

/// Approximate fixed cost of one span.
pub const APPROX_SPAN_FIXED_BYTES: usize = 64;

/// Approximate fixed cost of one attribute entry.
pub const APPROX_ATTR_FIXED_BYTES: usize = 24;

/// The approximate footprint of one span: a fixed cost, its name's UTF-8 byte length (as
/// `str::len` reports it), and a fixed cost per attribute.
pub open spec fn span_bytes(v: SpanView) -> int {
    64 + (vstd::utf8::encode_utf8(v.name).len() as usize) + 24 * v.attrs.len()
}

/// The approximate footprint of the first `k` spans of `t`.
pub open spec fn trace_bytes_upto(t: Trace, k: int) -> int
    decreases k,
{
    if k <= 0 {
        0
    } else {
        trace_bytes_upto(t, k - 1) + span_bytes(t.span(k - 1))
    }
}

/// The approximate footprint of a trace.
pub open spec fn trace_bytes(t: Trace) -> int {
    trace_bytes_upto(t, t.len() as int)
}

/// The approximate footprint of a sequence of traces.
pub open spec fn total_bytes(ts: Seq<Trace>) -> int
    decreases ts.len(),
{
    if ts.len() == 0 {
        0
    } else {
        total_bytes(ts.drop_last()) + trace_bytes(ts.last())
    }
}

/// `g + 1`, held at `u32::MAX`.
pub open spec fn sat_inc32(g: u32) -> u32 {
    if g < u32::MAX {
        (g + 1) as u32
    } else {
        g
    }
}

/// What `Trace::insert` promises for a span inserted into an empty trace.
pub open spec fn inserted_into_empty(
    t: Trace,
    trace_id: TraceId,
    generation: u32,
    span: NewSpan,
    service_name_id: Option<u32>,
    kept: Seq<(u32, types::AttrValue)>,
    now: u64,
) -> bool {
    &&& t.wf()
    &&& t.id() == trace_id
    &&& t.gen() == generation
    &&& t.activity() == now
    &&& t.len() == 1
    &&& t.lookup() == Map::<types::SpanId, usize>::empty().insert(span.span_id, 0)
    &&& t.span(0) == stored_view(span, service_name_id, kept, span.parent_span_id)
}

pub struct StoreInsertOutcome {
    pub local_idx: usize,
    pub is_duplicate: bool,
    pub resurrected: bool,
}

pub struct Store {
    traces: Vec<Trace>,
    trace_index: FxHashMap<TraceId, usize>,
    key_interner: Interner,
    service_interner: Interner,
    max_memory_bytes: usize,
    // last known generation of each evicted trace id, so a late-arriving span resurrects it
    // at generation + 1 instead of looking like a fresh trace
    evicted_generations: FxHashMap<TraceId, u32>,
    pub counters: Counters,
}


impl Store {
    /// The resident traces, in storage order.
    pub closed spec fn resident(&self) -> Seq<Trace> {
        self.traces@
    }

    /// Which storage position each resident trace id has.
    pub closed spec fn index(&self) -> Map<TraceId, usize> {
        self.trace_index@
    }

    /// Last known generation of each evicted trace id.
    pub closed spec fn evicted(&self) -> Map<TraceId, u32> {
        self.evicted_generations@
    }

    /// The attribute-key interner's state.
    pub closed spec fn keys(&self) -> InternState {
        self.key_interner.state()
    }

    /// The service-name interner's state.
    pub closed spec fn services(&self) -> InternState {
        self.service_interner.state()
    }

    /// The counters.
    pub closed spec fn counts(&self) -> Counters {
        self.counters
    }

    /// The retention budget in approximate bytes.
    pub closed spec fn budget(&self) -> nat {
        self.max_memory_bytes as nat
    }

    /// The resident traces by id.
    pub open spec fn trace_map(&self) -> Map<TraceId, Trace> {
        Map::new(|k: TraceId| self.index().contains_key(k), |k: TraceId| self.resident()[self.index()[k] as int])
    }

    /// Well-formedness: every resident trace is well formed and indexed by its own id, evicted
    /// ids are not resident, and every interned id that a span holds resolves.
    pub closed spec fn wf(&self) -> bool {
        &&& self.key_interner.wf()
        &&& self.service_interner.wf()
        &&& forall|i: int| 0 <= i < self.traces@.len() ==> #[trigger] self.traces@[i].wf()
        &&& forall|i: int|
            0 <= i < self.traces@.len() ==> #[trigger] self.trace_index@.contains_key(self.traces@[i].id())
                && self.trace_index@[self.traces@[i].id()] == i
        &&& forall|k: TraceId|
            #[trigger] self.trace_index@.contains_key(k) ==> self.trace_index@[k] < self.traces@.len()
                && self.traces@[self.trace_index@[k] as int].id() == k
        &&& forall|k: TraceId|
            #[trigger] self.evicted_generations@.contains_key(k) ==> !self.trace_index@.contains_key(k)
        &&& forall|i: int, s: int|
            0 <= i < self.traces@.len() && 0 <= s < self.traces@[i].len() ==> ids_resolve(
                #[trigger] self.traces@[i].span(s),
                self.key_interner.state(),
                self.service_interner.state(),
            )
    }
}

/// Every attribute key id and the service id of `v` name an interned string.
pub open spec fn ids_resolve(v: SpanView, keys: InternState, services: InternState) -> bool {
    &&& forall|a: int| 0 <= a < v.attrs.len() ==> (#[trigger] v.attrs[a]).0 < keys.values.len()
    &&& v.service_name_id matches Some(x) ==> x < services.values.len()
}


/// What `Store::insert_span_no_evict` promises: `self` is `old` with `span` added to trace
/// `trace_id` at time `now`, and `out` reports what happened.
pub open spec fn inserted_no_evict(
    self_: Store,
    old: Store,
    trace_id: TraceId,
    span: NewSpan,
    now: u64,
    out: StoreInsertOutcome,
) -> bool {
    let present = old.trace_map().contains_key(trace_id);
    let resurrected = !present && old.evicted().contains_key(trace_id);
    let svc = match span.service_name {
        Some(n) => intern_step(old.services(), n@),
        None => (old.services(), None),
    };
    let ia = intern_attrs(old.keys(), span.attributes@);
    let t = self_.trace_map()[trace_id];
    &&& self_.wf()
    &&& self_.services() == svc.0
    &&& self_.keys() == ia.0
    &&& self_.budget() == old.budget()
    &&& out.resurrected == resurrected
    &&& self_.trace_map().dom() == old.trace_map().dom().insert(trace_id)
    &&& forall|k: TraceId| #[trigger] old.trace_map().contains_key(k) && k != trace_id ==> self_.trace_map()[k] == old.trace_map()[k]
    &&& present ==> t.inserted(
        old.trace_map()[trace_id],
        span,
        svc.1,
        ia.1,
        now,
        InsertOutcome { local_idx: out.local_idx, is_duplicate: out.is_duplicate },
    )
    &&& !present ==> {
        &&& inserted_into_empty(
            t,
            trace_id,
            if resurrected {
                sat_inc32(old.evicted()[trace_id])
            } else {
                0
            },
            span,
            svc.1,
            ia.1,
            now,
        )
        &&& out.local_idx == 0
        &&& !out.is_duplicate
    }
    &&& self_.evicted() == old.evicted().remove(trace_id)
    &&& self_.counts().duplicate_span == sat_add(old.counts().duplicate_span, if out.is_duplicate { 1 } else { 0 })
    &&& self_.counts().late_span_after_eviction == sat_add(
        old.counts().late_span_after_eviction,
        if resurrected { 1 } else { 0 },
    )
    &&& self_.counts().attribute_key_cap_hit == self_.keys().hits
    &&& self_.counts().evicted_traces == old.counts().evicted_traces
    &&& self_.counts().malformed_span == old.counts().malformed_span
}

impl Store {
    /// An empty store with the given retention budget (approximate bytes).
    pub fn new(max_memory_bytes: usize) -> (r: Self)
        ensures
            r.wf(),
            r.trace_map() == Map::<TraceId, Trace>::empty(),
            r.resident().len() == 0,
            r.evicted() == Map::<TraceId, u32>::empty(),
            r.budget() == max_memory_bytes,
            r.keys() == (InternState { values: Seq::empty(), cap: GLOBAL_INTERNER_CAP as nat, hits: 0 }),
            r.services() == (InternState { values: Seq::empty(), cap: GLOBAL_INTERNER_CAP as nat, hits: 0 }),
            r.counts().duplicate_span == 0,
            r.counts().attribute_key_cap_hit == 0,
            r.counts().late_span_after_eviction == 0,
            r.counts().evicted_traces == 0,
            r.counts().malformed_span == 0,
    {
        let r = Store {
            traces: Vec::new(),
            trace_index: FxHashMap::default(),
            key_interner: Interner::new(GLOBAL_INTERNER_CAP),
            service_interner: Interner::new(GLOBAL_INTERNER_CAP),
            max_memory_bytes,
            evicted_generations: FxHashMap::default(),
            counters: Counters::default(),
        };
        assert(r.trace_map() =~= Map::<TraceId, Trace>::empty());
        r
    }

    /// Number of resident traces.
    pub fn trace_count(&self) -> (r: usize)
        ensures
            r == self.resident().len(),
    {
        self.traces.len()
    }

    /// The resident traces, in storage order.
    pub fn traces(&self) -> (r: &[Trace])
        ensures
            r@ == self.resident(),
    {
        self.traces.as_slice()
    }

    /// The resident trace with id `trace_id`, if any.
    pub fn trace(&self, trace_id: TraceId) -> (r: Option<&Trace>)
        requires
            self.wf(),
        ensures
            match r {
                Some(t) => self.trace_map().contains_key(trace_id) && *t == self.trace_map()[trace_id],
                None => !self.trace_map().contains_key(trace_id),
            },
    {
        match fx_get_trace(&self.trace_index, &trace_id) {
            Some(i) => Some(&self.traces[*i]),
            None => None,
        }
    }

    /// Facts about every resident trace: it is well formed, it carries its own id, and every
    /// interned id in it resolves.
    pub proof fn lemma_resident(&self)
        requires
            self.wf(),
        ensures
            forall|i: int| 0 <= i < self.resident().len() ==> #[trigger] self.resident()[i].wf(),
            forall|k: TraceId| #[trigger] self.trace_map().contains_key(k) ==> self.trace_map()[k].wf()
                && self.trace_map()[k].id() == k,
            forall|i: int, s: int|
                0 <= i < self.resident().len() && 0 <= s < self.resident()[i].len() ==> ids_resolve(
                    #[trigger] self.resident()[i].span(s),
                    self.keys(),
                    self.services(),
                ),
            forall|k: TraceId, s: int|
                #[trigger] self.trace_map().contains_key(k) && 0 <= s < self.trace_map()[k].len() ==> ids_resolve(
                    #[trigger] self.trace_map()[k].span(s),
                    self.keys(),
                    self.services(),
                ),
            forall|i: int| 0 <= i < self.resident().len() ==> #[trigger] self.trace_map().contains_key(self.resident()[i].id())
                && self.trace_map()[self.resident()[i].id()] == self.resident()[i],
            self.keys().values.no_duplicates(),
            self.services().values.no_duplicates(),
    {
        self.key_interner.lemma_distinct();
        self.service_interner.lemma_distinct();
    }

    /// The service name interned under `id`.
    pub fn service_name(&self, id: u32) -> (r: &str)
        requires
            self.wf(),
            id < self.services().values.len(),
        ensures
            r@ == self.services().values[id as int],
    {
        self.service_interner.get(id)
    }

    /// The attribute key interned under `id`.
    pub fn attribute_key(&self, id: u32) -> (r: &str)
        requires
            self.wf(),
            id < self.keys().values.len(),
        ensures
            r@ == self.keys().values[id as int],
    {
        self.key_interner.get(id)
    }

    /// The id of an attribute key, if any span ever interned it (nothing is interned here).
    pub fn attribute_key_id(&self, key: &str) -> (r: Option<u32>)
        requires
            self.wf(),
        ensures
            r == (if self.keys().values.contains(key@) {
                Some(self.keys().values.index_of(key@) as u32)
            } else {
                None
            }),
    {
        self.key_interner.lookup(key)
    }

    /// Interns a service name (capped like attribute keys).
    pub fn intern_service_name(&mut self, name: &str) -> (r: Option<u32>)
        requires
            old(self).wf(),
        ensures
            final(self).wf(),
            (final(self).services(), r) == intern_step(old(self).services(), name@),
            final(self).keys() == old(self).keys(),
            final(self).resident() == old(self).resident(),
            final(self).index() == old(self).index(),
            final(self).evicted() == old(self).evicted(),
            final(self).budget() == old(self).budget(),
            final(self).counts() == old(self).counts(),
    {
        let r = self.service_interner.intern(name);
        proof {
            assert forall|i: int, s: int|
                0 <= i < self.traces@.len() && 0 <= s < self.traces@[i].len() implies ids_resolve(
                    #[trigger] self.traces@[i].span(s),
                    self.key_interner.state(),
                    self.service_interner.state(),
                ) by {
                assert(ids_resolve(self.traces@[i].span(s), old(self).key_interner.state(), old(self).service_interner.state()));
            }
        }
        r
    }
}


/// `a + 1`, held at `u64::MAX`.
fn inc(a: u64) -> (r: u64)
    ensures
        r == sat_add(a, 1),
{
    if a < u64::MAX {
        a + 1
    } else {
        a
    }
}

/// A span sent again with the same span id, into a trace that is still resident (whatever
/// happened to other traces in between), overwrites the first copy in place: the second
/// insert is a duplicate at the same index, the trace's span count stays, and the duplicate
/// counter goes up by one.
pub proof fn lemma_retry_dedupes(
    s0: Store,
    s1: Store,
    mid: Store,
    s2: Store,
    trace_id: TraceId,
    first: NewSpan,
    again: NewSpan,
    t1: u64,
    t2: u64,
    o1: StoreInsertOutcome,
    o2: StoreInsertOutcome,
)
    requires
        inserted_no_evict(s1, s0, trace_id, first, t1, o1),
        mid.trace_map().contains_key(trace_id),
        mid.trace_map()[trace_id] == s1.trace_map()[trace_id],
        inserted_no_evict(s2, mid, trace_id, again, t2, o2),
        again.span_id == first.span_id,
    ensures
        o2.is_duplicate,
        o2.local_idx == o1.local_idx,
        !o2.resurrected,
        s2.trace_map()[trace_id].len() == s1.trace_map()[trace_id].len(),
        s2.counts().duplicate_span == sat_add(mid.counts().duplicate_span, 1),
{
    let t = s1.trace_map()[trace_id];
    assert(s1.trace_map().contains_key(trace_id));
    assert(t.lookup().contains_key(first.span_id));
    assert(t.lookup()[first.span_id] == o1.local_idx);
}

/// The number of resident traces is the number of resident trace ids.
pub proof fn lemma_resident_count(s: Store)
    requires
        s.wf(),
    ensures
        s.resident().len() == s.trace_map().dom().len(),
{
    let ids = Seq::new(s.traces@.len(), |i: int| s.traces@[i].id());
    assert(ids.no_duplicates()) by {
        assert forall|i: int, j: int| 0 <= i < ids.len() && 0 <= j < ids.len() && i != j implies ids[i] != ids[j] by {
            assert(s.trace_index@.contains_key(s.traces@[i].id()) && s.trace_index@[s.traces@[i].id()] == i);
            assert(s.trace_index@.contains_key(s.traces@[j].id()) && s.trace_index@[s.traces@[j].id()] == j);
        }
    }
    ids.unique_seq_to_set();
    assert(s.trace_map().dom() =~= ids.to_set()) by {
        assert forall|k: TraceId| s.trace_map().dom().contains(k) implies ids.to_set().contains(k) by {
            let i = s.trace_index@[k] as int;
            assert(ids[i] == k);
        }
        assert forall|k: TraceId| ids.to_set().contains(k) implies s.trace_map().dom().contains(k) by {
            let i = choose|i: int| 0 <= i < ids.len() && ids[i] == k;
            assert(s.trace_index@.contains_key(s.traces@[i].id()));
        }
    }
}

/// Adds the footprint of the trace `m` holds under an id to a running sum.
pub open spec fn add_trace_bytes(m: Map<TraceId, Trace>) -> spec_fn(int, TraceId) -> int {
    |acc: int, k: TraceId| acc + trace_bytes(m[k])
}

/// The footprint of the traces `m` holds under the ids `ids`, in no particular order.
pub open spec fn id_bytes(m: Map<TraceId, Trace>, ids: Set<TraceId>) -> int {
    ids.fold(0int, add_trace_bytes(m))
}

/// The footprint of the resident traces does not depend on their storage order: it is the
/// footprint of the traces under the resident ids, a finite set.
pub proof fn lemma_total_bytes_by_id(s: Store)
    requires
        s.wf(),
    ensures
        s.trace_map().dom().finite(),
        total_bytes(s.resident()) == id_bytes(s.trace_map(), s.trace_map().dom()),
{
    let ids = Seq::new(s.traces@.len(), |i: int| s.traces@[i].id());
    lemma_resident_count(s);
    assert(s.trace_map().dom() =~= ids.to_set()) by {
        assert forall|k: TraceId| s.trace_map().dom().contains(k) implies ids.to_set().contains(k) by {
            let i = s.trace_index@[k] as int;
            assert(ids[i] == k);
        }
        assert forall|k: TraceId| ids.to_set().contains(k) implies s.trace_map().dom().contains(k) by {
            let i = choose|i: int| 0 <= i < ids.len() && ids[i] == k;
            assert(s.trace_index@.contains_key(s.traces@[i].id()));
        }
    }
    lemma_total_bytes_prefix(s, ids, s.traces@.len() as int);
    assert(s.traces@.take(s.traces@.len() as int) =~= s.traces@);
    assert(ids.take(ids.len() as int) =~= ids);
}

proof fn lemma_total_bytes_prefix(s: Store, ids: Seq<TraceId>, n: int)
    requires
        s.wf(),
        ids == Seq::new(s.traces@.len(), |i: int| s.traces@[i].id()),
        0 <= n <= s.traces@.len(),
    ensures
        ids.take(n).to_set().finite(),
        total_bytes(s.traces@.take(n)) == id_bytes(s.trace_map(), ids.take(n).to_set()),
    decreases n,
{
    broadcast use vstd::seq_lib::group_seq_properties;
    broadcast use vstd::set::group_set_axioms;

    let f = add_trace_bytes(s.trace_map());
    assert(vstd::set::fold::is_fun_commutative(f));
    if n == 0 {
        assert(ids.take(0).to_set() =~= Set::<TraceId>::empty());
        vstd::set::fold::lemma_fold_empty(0int, f);
        assert(s.traces@.take(0).len() == 0);
    } else {
        lemma_total_bytes_prefix(s, ids, n - 1);
        let prev = ids.take(n - 1);
        let k = ids[n - 1];
        assert(ids.take(n) =~= prev.push(k));
        prev.lemma_push_to_set_commute(k);
        assert(!prev.to_set().contains(k)) by {
            if prev.to_set().contains(k) {
                let j = choose|j: int| 0 <= j < prev.len() && prev[j] == k;
                assert(prev[j] == ids[j]);
                assert(s.trace_index@.contains_key(s.traces@[j].id()));
                assert(s.trace_index@.contains_key(s.traces@[n - 1].id()));
            }
        }
        vstd::set::fold::lemma_fold_insert(prev.to_set(), 0int, f, k);
        assert(s.traces@.take(n).drop_last() =~= s.traces@.take(n - 1));
        assert(s.trace_index@.contains_key(s.traces@[n - 1].id()));
        assert(s.trace_map()[k] == s.traces@[n - 1]);
    }
}

/// Well-formedness does not depend on the counters.
proof fn lemma_wf_counters(a: Store, b: Store)
    requires
        a.wf(),
        b.traces == a.traces,
        b.trace_index == a.trace_index,
        b.key_interner == a.key_interner,
        b.service_interner == a.service_interner,
        b.evicted_generations == a.evicted_generations,
    ensures
        b.wf(),
{
}

impl Store {
    /// The counters.
    pub fn counters(&self) -> (r: Counters)
        ensures
            r == self.counts(),
    {
        self.counters
    }

    /// Counts `n` more spans dropped as malformed within accepted envelopes (held at
    /// `u64::MAX`); nothing else changes.
    pub fn add_malformed(&mut self, n: u64)
        requires
            old(self).wf(),
        ensures
            final(self).wf(),
            final(self).resident() == old(self).resident(),
            final(self).index() == old(self).index(),
            final(self).evicted() == old(self).evicted(),
            final(self).keys() == old(self).keys(),
            final(self).services() == old(self).services(),
            final(self).budget() == old(self).budget(),
            final(self).counts() == (Counters { malformed_span: sat_add(old(self).counts().malformed_span, n as int), ..old(self).counts() }),
    {
        let ghost before = *self;
        self.counters.malformed_span = self.counters.malformed_span.saturating_add(n);
        proof {
            lemma_wf_counters(before, *self);
        }
    }

    /// Appends `span` to trace `trace_id` (creating or resurrecting the trace as needed)
    /// without running eviction. A trace id seen before only as evicted comes back at its
    /// last generation + 1.
    #[verifier::spinoff_prover]
    #[verifier::rlimit(40)]
    pub fn insert_span_no_evict(&mut self, trace_id: TraceId, span: NewSpan, now_unix_nano: u64) -> (out: StoreInsertOutcome)
        requires
            old(self).wf(),
        ensures
            inserted_no_evict(*final(self), *old(self), trace_id, span, now_unix_nano, out),
    {
        let ghost old_self = *self;
        let ghost sp = span;
        let present = fx_get_trace(&self.trace_index, &trace_id);
        let found: Option<usize> = match present {
            Some(i) => Some(*i),
            None => None,
        };
        let resurrected = found.is_none() && fx_get_trace(&self.evicted_generations, &trace_id).is_some();
        let service_name_id = match &span.service_name {
            Some(name) => self.service_interner.intern(name.as_str()),
            None => None,
        };
        let ghost ks0 = self.key_interner.state();
        let ghost ss1 = self.service_interner.state();
        proof {
            self.key_interner.lemma_distinct();
        }
        let outcome;
        match found {
            Some(i) => {
                let ghost t0 = self.traces@[i as int];
                outcome = self.traces[i].insert(span, service_name_id, &mut self.key_interner, now_unix_nano);
                proof {
                    let t1 = self.traces@[i as int];
                    assert(self.traces@ == old_self.traces@.update(i as int, t1));
                    assert forall|j: int, s: int|
                        0 <= j < self.traces@.len() && 0 <= s < self.traces@[j].len() implies ids_resolve(
                            #[trigger] self.traces@[j].span(s),
                            self.key_interner.state(),
                            self.service_interner.state(),
                        ) by {
                        lemma_intern_attrs_grows(ks0, sp.attributes@);
                        if j == i {
                            if s == outcome.local_idx {
                                lemma_intern_attrs_ids(ks0, sp.attributes@);
                            } else {
                                assert(t1.span(s) == t0.span(s));
                                assert(ids_resolve(t0.span(s), old_self.key_interner.state(), old_self.service_interner.state()));
                            }
                        } else {
                            assert(ids_resolve(self.traces@[j].span(s), old_self.key_interner.state(), old_self.service_interner.state()));
                        }
                    }
                    assert(self.trace_map() =~= old_self.trace_map().insert(trace_id, t1));
                    assert(old_self.evicted() =~= old_self.evicted().remove(trace_id));
                    assert(t1.id() == t0.id());
                    assert(forall|j: int| 0 <= j < self.traces@.len() ==> #[trigger] self.traces@[j].wf());
                    assert(forall|j: int| 0 <= j < self.traces@.len() ==> #[trigger] self.traces@[j].id() == old_self.traces@[j].id());
                    assert(self.wf());
                }
            },
            None => {
                let generation = match fx_remove_trace(&mut self.evicted_generations, &trace_id) {
                    Some(g) => if g < u32::MAX {
                        g + 1
                    } else {
                        g
                    },
                    None => 0,
                };
                let mut t = Trace::new(trace_id, now_unix_nano);
                t.set_generation(generation);
                let ghost t0 = t;
                outcome = t.insert(span, service_name_id, &mut self.key_interner, now_unix_nano);
                proof {
                    assert(t.lookup() =~= Map::<types::SpanId, usize>::empty().insert(sp.span_id, 0));
                }
                let n = self.traces.len();
                self.traces.push(t);
                fx_insert_trace(&mut self.trace_index, trace_id, n);
                proof {
                    assert forall|j: int, s: int|
                        0 <= j < self.traces@.len() && 0 <= s < self.traces@[j].len() implies ids_resolve(
                            #[trigger] self.traces@[j].span(s),
                            self.key_interner.state(),
                            self.service_interner.state(),
                        ) by {
                        lemma_intern_attrs_grows(ks0, sp.attributes@);
                        if j == n {
                            lemma_intern_attrs_ids(ks0, sp.attributes@);
                        } else {
                            assert(ids_resolve(self.traces@[j].span(s), old_self.key_interner.state(), old_self.service_interner.state()));
                        }
                    }
                    assert(self.trace_map() =~= old_self.trace_map().insert(trace_id, t));
                    assert(self.evicted() =~= old_self.evicted().remove(trace_id));
                    assert(forall|j: int| 0 <= j < self.traces@.len() ==> #[trigger] self.traces@[j].wf());
                    assert forall|k: TraceId| #[trigger] self.trace_index@.contains_key(k) implies self.trace_index@[k] < self.traces@.len()
                        && self.traces@[self.trace_index@[k] as int].id() == k by {
                        if k != trace_id {
                            assert(old_self.trace_index@.contains_key(k));
                        }
                    }
                    assert(self.wf());
                }
            },
        }
        let ghost mid = *self;
        if outcome.is_duplicate {
            self.counters.duplicate_span = inc(self.counters.duplicate_span);
        }
        if resurrected {
            self.counters.late_span_after_eviction = inc(self.counters.late_span_after_eviction);
        }
        self.counters.attribute_key_cap_hit = self.key_interner.cap_hit_count();
        let out = StoreInsertOutcome { local_idx: outcome.local_idx, is_duplicate: outcome.is_duplicate, resurrected };
        proof {
            let present = old_self.trace_map().contains_key(trace_id);
            let t = self.trace_map()[trace_id];
            let svc = match sp.service_name {
                Some(n) => intern_step(old_self.services(), n@),
                None => (old_self.services(), None),
            };
            let ia = intern_attrs(old_self.keys(), sp.attributes@);
            lemma_wf_counters(mid, *self);
            assert(present ==> t.inserted(
                old_self.trace_map()[trace_id],
                sp,
                svc.1,
                ia.1,
                now_unix_nano,
                InsertOutcome { local_idx: out.local_idx, is_duplicate: out.is_duplicate },
            ));
        }
        out
    }
}

/// Interning only ever adds strings at the end.
pub proof fn lemma_intern_attrs_grows(st: InternState, attrs: Seq<(String, types::AttrValue)>)
    ensures
        st.values.len() <= intern_attrs(st, attrs).0.values.len(),
        intern_attrs(st, attrs).0.values.subrange(0, st.values.len() as int) == st.values,
        intern_attrs(st, attrs).0.cap == st.cap,
    decreases attrs.len(),
{
    if attrs.len() > 0 {
        lemma_intern_attrs_grows(st, attrs.drop_last());
        let st1 = intern_attrs(st, attrs.drop_last()).0;
        assert(st1.values.subrange(0, st.values.len() as int) == st.values);
        let st2 = intern_step(st1, attrs.last().0@).0;
        assert(st2.values.subrange(0, st.values.len() as int) =~= st.values);
    } else {
        assert(st.values.subrange(0, st.values.len() as int) =~= st.values);
    }
}

/// Every key id that interning keeps names a string of the resulting interner.
pub proof fn lemma_intern_attrs_ids(st: InternState, attrs: Seq<(String, types::AttrValue)>)
    ensures
        forall|a: int|
            0 <= a < intern_attrs(st, attrs).1.len() ==> (#[trigger] intern_attrs(st, attrs).1[a]).0
                < intern_attrs(st, attrs).0.values.len(),
    decreases attrs.len(),
{
    if attrs.len() > 0 {
        lemma_intern_attrs_ids(st, attrs.drop_last());
        let (st1, kept) = intern_attrs(st, attrs.drop_last());
        let s = attrs.last().0@;
        if st1.values.contains(s) {
            let i = choose|i: int| 0 <= i < st1.values.len() && st1.values[i] == s;
            assert(0 <= st1.values.index_of(s) < st1.values.len());
        }
    }
}


/// `min(v, u128::MAX)`.
pub open spec fn cap128(v: int) -> u128 {
    if v <= u128::MAX {
        v as u128
    } else {
        u128::MAX
    }
}

fn add_sat128(a: u128, b: u128) -> (r: u128)
    ensures
        r == cap128(a + b),
{
    if a > u128::MAX - b {
        u128::MAX
    } else {
        a + b
    }
}

/// Footprints are never negative.
pub proof fn lemma_bytes_nonneg(t: Trace, k: int)
    ensures
        trace_bytes_upto(t, k) >= 0,
    decreases k,
{
    if k > 0 {
        lemma_bytes_nonneg(t, k - 1);
    }
}

/// Footprints of trace sequences are never negative.
pub proof fn lemma_total_nonneg(ts: Seq<Trace>)
    ensures
        total_bytes(ts) >= 0,
    decreases ts.len(),
{
    if ts.len() > 0 {
        lemma_total_nonneg(ts.drop_last());
        lemma_bytes_nonneg(ts.last(), ts.last().len() as int);
    }
}

/// The approximate footprint of `trace`, held at `u128::MAX`.
fn approx_bytes(trace: &Trace) -> (r: u128)
    requires
        trace.wf(),
    ensures
        r == cap128(trace_bytes(*trace)),
{
    let n = trace.span_count();
    let mut total: u128 = 0;
    let mut idx: usize = 0;
    while idx < n
        invariant
            trace.wf(),
            n == trace.len(),
            idx <= n,
            total == cap128(trace_bytes_upto(*trace, idx as int)),
        decreases n - idx,
    {
        let name = trace.name(idx);
        let name_len = name.len();
        assert(name_len == (vstd::utf8::encode_utf8(trace.span(idx as int).name).len() as usize));
        let attrs = trace.attributes(idx);
        let nattrs = attrs.len();
        assert(nattrs == trace.span(idx as int).attrs.len());
        let x: u128 = 64 + name_len as u128 + (nattrs as u128) * 24;
        proof {
            lemma_bytes_nonneg(*trace, idx as int);
            assert(x == span_bytes(trace.span(idx as int)));
        }
        total = add_sat128(total, x);
        idx = idx + 1;
    }
    total
}

/// Replacing one trace changes the footprint by the difference.
proof fn lemma_total_update(s: Seq<Trace>, i: int, x: Trace)
    requires
        0 <= i < s.len(),
    ensures
        total_bytes(s.update(i, x)) == total_bytes(s) - trace_bytes(s[i]) + trace_bytes(x),
    decreases s.len(),
{
    if i == s.len() - 1 {
        assert(s.update(i, x).drop_last() =~= s.drop_last());
    } else {
        lemma_total_update(s.drop_last(), i, x);
        assert(s.update(i, x).drop_last() =~= s.drop_last().update(i, x));
    }
}

/// Removing trace `i` by moving the last one into its place takes its footprint off.
proof fn lemma_total_swap_remove(s: Seq<Trace>, i: int)
    requires
        0 <= i < s.len(),
    ensures
        total_bytes(s.update(i, s.last()).drop_last()) == total_bytes(s) - trace_bytes(s[i]),
{
    lemma_total_update(s, i, s.last());
    let u = s.update(i, s.last());
    assert(u.last() == s.last());
}

/// What `Store::evict_over_budget` promises: `self` is `old` with its oldest traces evicted
/// until the resident footprint fits the budget or a single trace is left.
pub open spec fn evicted_from(self_: Store, old: Store) -> bool {
    let gone = |k: TraceId| old.trace_map().contains_key(k) && !self_.trace_map().contains_key(k);
    &&& self_.wf()
    &&& self_.keys() == old.keys()
    &&& self_.services() == old.services()
    &&& self_.budget() == old.budget()
    &&& forall|k: TraceId| #[trigger] self_.trace_map().contains_key(k) ==> old.trace_map().contains_key(k)
        && self_.trace_map()[k] == old.trace_map()[k]
    &&& total_bytes(self_.resident()) <= self_.budget() || self_.resident().len() <= 1
    &&& old.resident().len() >= 1 ==> self_.resident().len() >= 1
    &&& (total_bytes(old.resident()) <= old.budget() || old.resident().len() <= 1) ==> self_ == old
    &&& (exists|e: TraceId| #[trigger] gone(e)) ==> exists|e: TraceId|
        #[trigger] gone(e) && (forall|e2: TraceId| #[trigger] gone(e2) ==> old.trace_map()[e2].activity()
            <= old.trace_map()[e].activity()) && total_bytes(self_.resident()) + trace_bytes(old.trace_map()[e])
            > old.budget()
    &&& forall|e: TraceId, k: TraceId|
        gone(e) && #[trigger] self_.trace_map().contains_key(k) ==> #[trigger] old.trace_map()[e].activity()
            <= old.trace_map()[k].activity()
    &&& forall|e: TraceId|
        #[trigger] gone(e) ==> self_.evicted().contains_key(e) && self_.evicted()[e] == old.trace_map()[e].gen()
    &&& forall|k: TraceId|
        !gone(k) ==> (#[trigger] self_.evicted().contains_key(k) == old.evicted().contains_key(k))
    &&& forall|k: TraceId|
        !gone(k) && #[trigger] old.evicted().contains_key(k) ==> self_.evicted()[k] == old.evicted()[k]
    &&& self_.counts().evicted_traces == sat_add(
        old.counts().evicted_traces,
        old.resident().len() - self_.resident().len(),
    )
    &&& self_.counts().duplicate_span == old.counts().duplicate_span
    &&& self_.counts().attribute_key_cap_hit == old.counts().attribute_key_cap_hit
    &&& self_.counts().late_span_after_eviction == old.counts().late_span_after_eviction
    &&& self_.counts().malformed_span == old.counts().malformed_span
}

impl Store {
    /// The approximate footprint of all resident traces, held at `u128::MAX`.
    fn total_approx_bytes(&self) -> (r: u128)
        requires
            self.wf(),
        ensures
            r == cap128(total_bytes(self.resident())),
    {
        let n = self.traces.len();
        let mut total: u128 = 0;
        let mut i: usize = 0;
        while i < n
            invariant
                self.wf(),
                n == self.traces@.len(),
                i <= n,
                total == cap128(total_bytes(self.traces@.take(i as int))),
            decreases n - i,
        {
            assert(self.traces@.take(i + 1).drop_last() =~= self.traces@.take(i as int));
            proof {
                lemma_total_nonneg(self.traces@.take(i as int));
                lemma_bytes_nonneg(self.traces@[i as int], self.traces@[i as int].len() as int);
            }
            let b = approx_bytes(&self.traces[i]);
            total = add_sat128(total, b);
            i = i + 1;
        }
        assert(self.traces@.take(n as int) =~= self.traces@);
        total
    }

    /// The storage position of the trace with the oldest last activity (the first such).
    fn oldest_position(&self) -> (r: usize)
        requires
            self.wf(),
            self.resident().len() > 0,
        ensures
            r < self.resident().len(),
            forall|j: int| 0 <= j < self.resident().len() ==> self.resident()[r as int].activity()
                <= #[trigger] self.resident()[j].activity(),
    {
        let n = self.traces.len();
        let mut best: usize = 0;
        let mut i: usize = 1;
        while i < n
            invariant
                n == self.traces@.len(),
                1 <= i <= n,
                best < n,
                forall|j: int| 0 <= j < i ==> self.traces@[best as int].activity() <= #[trigger] self.traces@[j].activity(),
            decreases n - i,
        {
            if self.traces[i].last_activity() < self.traces[best].last_activity() {
                best = i;
            }
            i = i + 1;
        }
        best
    }

    /// Evicts the trace with the oldest last activity until the resident footprint fits the
    /// budget or only one trace is left. A trace still receiving spans has a recent last
    /// activity and so is never the oldest.
    #[verifier::spinoff_prover]
    pub fn evict_over_budget(&mut self)
        requires
            old(self).wf(),
        ensures
            evicted_from(*final(self), *old(self)),
    {
        let ghost orig = *self;
        let ghost mut removed = Set::<TraceId>::empty();
        let ghost mut last: Option<TraceId> = None;
        loop
            invariant
                self.wf(),
                orig.wf(),
                self.keys() == orig.keys(),
                self.services() == orig.services(),
                self.budget() == orig.budget(),
                self.resident().len() <= orig.resident().len(),
                forall|k: TraceId| #[trigger] self.trace_map().contains_key(k) ==> orig.trace_map().contains_key(k)
                    && self.trace_map()[k] == orig.trace_map()[k],
                forall|k: TraceId| #[trigger] orig.trace_map().contains_key(k) ==> self.trace_map().contains_key(k)
                    || removed.contains(k),
                forall|e: TraceId| #[trigger] removed.contains(e) ==> orig.trace_map().contains_key(e)
                    && !self.trace_map().contains_key(e) && self.evicted().contains_key(e)
                    && self.evicted()[e] == orig.trace_map()[e].gen(),
                forall|e: TraceId, k: TraceId|
                    removed.contains(e) && #[trigger] self.trace_map().contains_key(k) ==> #[trigger] orig.trace_map()[e].activity()
                        <= orig.trace_map()[k].activity(),
                forall|k: TraceId| !removed.contains(k) ==> (#[trigger] self.evicted().contains_key(k) == orig.evicted().contains_key(k)),
                forall|k: TraceId| !removed.contains(k) && #[trigger] orig.evicted().contains_key(k) ==> self.evicted()[k] == orig.evicted()[k],
                self.counts().evicted_traces == sat_add(
                    orig.counts().evicted_traces,
                    orig.resident().len() - self.resident().len(),
                ),
                self.counts().duplicate_span == orig.counts().duplicate_span,
                self.counts().attribute_key_cap_hit == orig.counts().attribute_key_cap_hit,
                self.counts().late_span_after_eviction == orig.counts().late_span_after_eviction,
                self.counts().malformed_span == orig.counts().malformed_span,
                last is None ==> removed == Set::<TraceId>::empty() && *self == orig,
                last is Some ==> total_bytes(orig.resident()) > orig.budget() && orig.resident().len() > 1,
                orig.resident().len() >= 1 ==> self.resident().len() >= 1,
                last matches Some(e) ==> removed.contains(e) && (forall|e2: TraceId| #[trigger] removed.contains(e2)
                    ==> orig.trace_map()[e2].activity() <= orig.trace_map()[e].activity())
                    && total_bytes(self.resident()) + trace_bytes(orig.trace_map()[e]) > orig.budget(),
            ensures
                evicted_from(*self, orig),
            decreases self.resident().len(),
        {
            let total = self.total_approx_bytes();
            if !(total > self.max_memory_bytes as u128 && self.traces.len() > 1) {
                proof {
                    lemma_total_nonneg(self.traces@);
                    assert forall|e: TraceId|
                        orig.trace_map().contains_key(e) && !self.trace_map().contains_key(e) implies removed.contains(e) by {
                    }
                    let gone = |k: TraceId| orig.trace_map().contains_key(k) && !self.trace_map().contains_key(k);
                    if exists|e: TraceId| #[trigger] gone(e) {
                        let e0 = choose|e: TraceId| #[trigger] gone(e);
                        assert(removed.contains(e0));
                        let e = last->0;
                        assert(gone(e));
                        assert forall|e2: TraceId| #[trigger] gone(e2) implies orig.trace_map()[e2].activity()
                            <= orig.trace_map()[e].activity() by {
                            assert(removed.contains(e2));
                        }
                    }
                }
                break;
            }
            let ghost before = *self;
            let best = self.oldest_position();
            let t = self.traces.swap_remove(best);
            let id = t.trace_id();
            let ghost ev = t;
            fx_remove_trace(&mut self.trace_index, &id);
            if best < self.traces.len() {
                let moved = self.traces[best].trace_id();
                fx_insert_trace(&mut self.trace_index, moved, best);
            }
            fx_insert_trace(&mut self.evicted_generations, id, t.generation());
            self.counters.evicted_traces = inc(self.counters.evicted_traces);
            proof {
                let n0 = before.traces@.len();
                assert(before.trace_index@.contains_key(id) && before.trace_index@[id] == best);
                assert forall|j: int| 0 <= j < self.traces@.len() implies #[trigger] self.traces@[j] == (if j == best {
                    before.traces@[n0 - 1]
                } else {
                    before.traces@[j]
                }) by {
                }
                assert forall|k: TraceId| #[trigger] self.trace_index@.contains_key(k) implies self.trace_index@[k]
                    < self.traces@.len() && self.traces@[self.trace_index@[k] as int].id() == k by {
                    assert(before.trace_index@.contains_key(k));
                    if k != id && best < self.traces@.len() && k != before.traces@[n0 - 1].id() {
                        assert(before.trace_index@[k] != n0 - 1);
                        assert(before.trace_index@[k] != best);
                    }
                }
                assert forall|j: int| 0 <= j < self.traces@.len() implies #[trigger] self.trace_index@.contains_key(self.traces@[j].id())
                    && self.trace_index@[self.traces@[j].id()] == j by {
                    if j != best {
                        assert(before.wf());
                        assert(before.trace_index@.contains_key(before.traces@[j].id()));
                        assert(before.trace_index@.contains_key(before.traces@[n0 - 1].id()));
                        assert(before.trace_index@[before.traces@[j].id()] == j);
                        assert(before.trace_index@[before.traces@[n0 - 1].id()] == n0 - 1);
                        assert(before.traces@[j].id() != id);
                        assert(before.traces@[j].id() != before.traces@[n0 - 1].id());
                    } else {
                        assert(before.wf());
                        assert(before.trace_index@.contains_key(before.traces@[n0 - 1].id()));
                        assert(before.trace_index@[before.traces@[n0 - 1].id()] == n0 - 1);
                        assert(before.traces@[n0 - 1].id() != id);
                    }
                }
                assert(self.trace_index@.dom() =~= before.trace_index@.dom().remove(id)) by {
                    if best < self.traces@.len() {
                        assert(before.trace_index@.contains_key(before.traces@[n0 - 1].id()));
                        assert(before.trace_index@[before.traces@[n0 - 1].id()] == n0 - 1);
                    }
                }
                assert forall|k: TraceId| #[trigger] self.trace_map().contains_key(k) implies before.trace_map().contains_key(k)
                    && self.trace_map()[k] == before.trace_map()[k] by {
                }
                assert forall|k: TraceId| #[trigger] before.trace_map().contains_key(k) implies self.trace_map().contains_key(k)
                    || k == id by {
                    if k != id {
                        let j = before.trace_index@[k];
                        if j == n0 - 1 && best < self.traces@.len() {
                            assert(self.traces@[best as int].id() == k);
                        } else {
                            assert(self.traces@[j as int].id() == k);
                        }
                    }
                }
                assert(before.trace_map()[id] == ev);
                assert forall|k: TraceId| #[trigger] before.trace_map().contains_key(k) implies ev.activity() <= before.trace_map()[k].activity() by {
                    assert(before.traces@[before.trace_index@[k] as int].activity() >= ev.activity());
                }
                assert forall|e: TraceId| #[trigger] removed.contains(e) implies e != id && self.evicted()[e] == orig.trace_map()[e].gen()
                    && !self.trace_map().contains_key(e) by {
                    assert(!before.trace_map().contains_key(e));
                }
                assert(self.traces@ =~= before.traces@.update(best as int, before.traces@[n0 - 1]).drop_last());
                lemma_total_swap_remove(before.traces@, best as int);
                assert(before.traces@[best as int] == ev);
                assert(total_bytes(before.resident()) > orig.budget()) by {
                    lemma_total_nonneg(before.traces@);
                }
                assert forall|e2: TraceId| #[trigger] removed.contains(e2) implies orig.trace_map()[e2].activity()
                    <= ev.activity() by {
                    assert(before.trace_map().contains_key(id));
                }
                let old_removed = removed;
                removed = removed.insert(id);
                last = Some(id);
                assert(before.trace_map().contains_key(id));
                assert(before.trace_map()[id] == orig.trace_map()[id]);
                assert(orig.trace_map()[id] == ev);
                assert(!self.trace_map().contains_key(id));
                assert forall|e: TraceId| #[trigger] removed.contains(e) implies orig.trace_map().contains_key(e)
                    && !self.trace_map().contains_key(e) && self.evicted().contains_key(e)
                    && self.evicted()[e] == orig.trace_map()[e].gen() by {
                    if e != id {
                        assert(old_removed.contains(e));
                    }
                }
                assert forall|e: TraceId, k: TraceId|
                    removed.contains(e) && #[trigger] self.trace_map().contains_key(k) implies #[trigger] orig.trace_map()[e].activity()
                        <= orig.trace_map()[k].activity() by {
                    assert(before.trace_map().contains_key(k));
                    if e == id {
                        assert(ev.activity() <= before.trace_map()[k].activity());
                    } else {
                        assert(old_removed.contains(e));
                    }
                }
                assert(self.evicted() == before.evicted().insert(id, ev.gen()));
                assert forall|k: TraceId| !removed.contains(k) implies (#[trigger] self.evicted().contains_key(k) == orig.evicted().contains_key(k)) by {
                    assert(!old_removed.contains(k));
                    assert(before.evicted().contains_key(k) == orig.evicted().contains_key(k));
                }
                assert forall|k: TraceId| !removed.contains(k) && #[trigger] orig.evicted().contains_key(k) implies self.evicted()[k] == orig.evicted()[k] by {
                    assert(!old_removed.contains(k));
                    assert(before.evicted().contains_key(k));
                }
                assert forall|i: int, s: int|
                    0 <= i < self.traces@.len() && 0 <= s < self.traces@[i].len() implies ids_resolve(
                        #[trigger] self.traces@[i].span(s),
                        self.key_interner.state(),
                        self.service_interner.state(),
                    ) by {
                    if i == best {
                        assert(ids_resolve(before.traces@[n0 - 1].span(s), self.key_interner.state(), self.service_interner.state()));
                    } else {
                        assert(ids_resolve(before.traces@[i].span(s), self.key_interner.state(), self.service_interner.state()));
                    }
                }
                assert(self.wf());
            }
        }
    }

    /// Appends `span` to trace `trace_id`, then evicts the oldest traces while over budget.
    pub fn insert_span(&mut self, trace_id: TraceId, span: NewSpan, now_unix_nano: u64) -> (out: StoreInsertOutcome)
        requires
            old(self).wf(),
        ensures
            exists|mid: Store|
                inserted_no_evict(mid, *old(self), trace_id, span, now_unix_nano, out) && evicted_from(*final(self), mid),
            (forall|k: TraceId|
                #[trigger] old(self).trace_map().contains_key(k) && k != trace_id ==> old(self).trace_map()[k].activity()
                    < now_unix_nano) ==> final(self).trace_map().contains_key(trace_id)
                && final(self).trace_map()[trace_id].activity() == now_unix_nano,
    {
        let ghost before = *self;
        let out = self.insert_span_no_evict(trace_id, span, now_unix_nano);
        let ghost mid = *self;
        self.evict_over_budget();
        proof {
            let t = mid.trace_map()[trace_id];
            assert(mid.trace_map().contains_key(trace_id));
            assert(t.activity() == now_unix_nano);
            if forall|k: TraceId|
                #[trigger] before.trace_map().contains_key(k) && k != trace_id ==> before.trace_map()[k].activity()
                    < now_unix_nano {
                mid.lemma_resident();
                self.lemma_resident();
                assert(mid.resident().len() >= 1) by {
                    assert(mid.index().contains_key(trace_id));
                }
                if !self.trace_map().contains_key(trace_id) {
                    let k = self.resident()[0].id();
                    assert(self.trace_map().contains_key(k));
                    assert(k != trace_id);
                    assert(mid.trace_map().contains_key(k));
                    assert(before.trace_map().contains_key(k));
                    assert(mid.trace_map()[k] == before.trace_map()[k]);
                    assert(mid.trace_map()[trace_id].activity() <= mid.trace_map()[k].activity());
                }
            }
        }
        out
    }
}

} // verus!
