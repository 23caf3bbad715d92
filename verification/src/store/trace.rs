//! One trace's spans, stored struct-of-arrays, with parent linkage and CSR attributes.

use rustc_hash::FxHashMap;
use vstd::prelude::*;
use vstd::slice::slice_subrange;

use super::interner::{intern_step, InternState, Interner};
use super::types::{AttrValue, SpanId, TraceId};
use crate::fxmap::{fx_get_span, fx_insert_span, fx_remove_span};

verus! {

/// A span as it arrives, before interning.
#[derive(Debug)]
pub struct NewSpan {
    pub span_id: SpanId,
    pub parent_span_id: Option<SpanId>,
    pub name: String,
    pub start_time_unix_nano: u64,
    pub end_time_unix_nano: u64,
    pub status_message: String,
    /// OTel status code, mirrored verbatim (0 = Unset, 1 = Ok, 2 = Error).
    pub status_code: i32,
    pub unknown_service: bool,
    /// `None` when `unknown_service` is true.
    pub service_name: Option<String>,
    pub attributes: Vec<(String, AttrValue)>,
}

/// Where an inserted span landed, and whether it overwrote an earlier one with the same id.
pub struct InsertOutcome {
    pub local_idx: usize,
    pub is_duplicate: bool,
}

/// The stored content of one span.
#[verifier::ext_equal]
pub struct SpanView {
    pub span_id: SpanId,
    pub name: Seq<char>,
    pub start_time_unix_nano: u64,
    pub end_time_unix_nano: u64,
    pub status_message: Seq<char>,
    pub status_code: i32,
    pub unknown_service: bool,
    pub service_name_id: Option<u32>,
    pub attrs: Seq<(u32, AttrValue)>,
    /// The parent id the span declared when it first arrived.
    pub declared_parent: Option<SpanId>,
}

/// Pairs up parallel key and value arrays.
pub open spec fn zip_attrs(keys: Seq<u32>, values: Seq<AttrValue>) -> Seq<(u32, AttrValue)> {
    Seq::new(keys.len(), |i: int| (keys[i], values[i]))
}

/// Interning the keys of `attrs` in order: the interner's state afterwards, and the pairs
/// kept (a pair whose key the interner refuses is dropped; the others keep their order).
pub open spec fn intern_attrs(st: InternState, attrs: Seq<(String, AttrValue)>) -> (InternState, Seq<(u32, AttrValue)>)
    decreases attrs.len(),
{
    if attrs.len() == 0 {
        (st, Seq::empty())
    } else {
        let (st1, kept) = intern_attrs(st, attrs.drop_last());
        let (st2, id) = intern_step(st1, attrs.last().0@);
        match id {
            Some(i) => (st2, kept.push((i, attrs.last().1))),
            None => (st2, kept),
        }
    }
}

/// Whether `x` occurs among the first `c` entries of `s`.
pub open spec fn in_prefix(s: Seq<usize>, c: int, x: usize) -> bool {
    exists|w: int| 0 <= w < c && #[trigger] s[w] == x
}

/// The local index that a declared parent id resolves to among the spans present.
pub open spec fn resolve_parent(lookup: Map<SpanId, usize>, pid: Option<SpanId>) -> Option<usize> {
    match pid {
        None => None,
        Some(p) => if lookup.contains_key(p) {
            Some(lookup[p])
        } else {
            None
        },
    }
}

/// The stored content of a span that arrives as `span`.
pub open spec fn stored_view(
    span: NewSpan,
    service_name_id: Option<u32>,
    kept: Seq<(u32, AttrValue)>,
    declared_parent: Option<SpanId>,
) -> SpanView {
    SpanView {
        span_id: span.span_id,
        name: span.name@,
        start_time_unix_nano: span.start_time_unix_nano,
        end_time_unix_nano: span.end_time_unix_nano,
        status_message: span.status_message@,
        status_code: span.status_code,
        unknown_service: span.unknown_service,
        service_name_id,
        attrs: kept,
        declared_parent,
    }
}

/// One trace's spans, struct-of-arrays, indexed by local span index `0..n`.
///
/// Attributes are CSR-ragged: `attr_offsets[i]..attr_offsets[i+1]` is span `i`'s slice into
/// the dense `attr_keys`/`attr_values` arrays, and `attr_offsets.len() == n + 1` always.
pub struct Trace {
    pub trace_id: TraceId,
    pub generation: u32,
    pub last_activity_unix_nano: u64,
    span_ids: Vec<SpanId>,
    names: Vec<String>,
    parent_idx: Vec<Option<usize>>,
    start_time_unix_nano: Vec<u64>,
    end_time_unix_nano: Vec<u64>,
    status_message: Vec<String>,
    status_code: Vec<i32>,
    orphan: Vec<bool>,
    unknown_service: Vec<bool>,
    service_name_id: Vec<Option<u32>>,
    attr_keys: Vec<u32>,
    attr_values: Vec<AttrValue>,
    attr_offsets: Vec<usize>,
    span_index: FxHashMap<SpanId, usize>,
    pending_children: FxHashMap<SpanId, Vec<usize>>,
    declared_parents: Ghost<Seq<Option<SpanId>>>,
}

impl Trace {
    /// The trace's id.
    pub closed spec fn id(&self) -> TraceId {
        self.trace_id
    }

    /// The trace's generation.
    pub closed spec fn gen(&self) -> u32 {
        self.generation
    }

    /// When the trace last received a span.
    pub closed spec fn activity(&self) -> u64 {
        self.last_activity_unix_nano
    }

    /// Number of spans.
    pub closed spec fn len(&self) -> nat {
        self.span_ids@.len()
    }

    /// Which local index each present span id has.
    pub closed spec fn lookup(&self) -> Map<SpanId, usize> {
        self.span_index@
    }

    /// The stored content of span `i`.
    pub closed spec fn span(&self, i: int) -> SpanView {
        SpanView {
            span_id: self.span_ids@[i],
            name: self.names@[i]@,
            start_time_unix_nano: self.start_time_unix_nano@[i],
            end_time_unix_nano: self.end_time_unix_nano@[i],
            status_message: self.status_message@[i]@,
            status_code: self.status_code@[i],
            unknown_service: self.unknown_service@[i],
            service_name_id: self.service_name_id@[i],
            attrs: zip_attrs(self.attr_keys@, self.attr_values@).subrange(
                self.attr_offsets@[i] as int,
                self.attr_offsets@[i + 1] as int,
            ),
            declared_parent: self.declared_parents@[i],
        }
    }

    /// The local index of span `i`'s parent, if it resolved.
    pub closed spec fn parent(&self, i: int) -> Option<usize> {
        self.parent_idx@[i]
    }

    /// Whether span `i` declared a parent that is not (yet) present.
    pub closed spec fn orphan_at(&self, i: int) -> bool {
        self.orphan@[i]
    }

    /// The CSR offsets.
    pub closed spec fn offsets(&self) -> Seq<usize> {
        self.attr_offsets@
    }

    /// Well-formedness of the columnar layout, the span index, and the parent linkage.
    pub closed spec fn wf(&self) -> bool {
        let n = self.span_ids@.len();
        &&& self.names@.len() == n
        &&& self.parent_idx@.len() == n
        &&& self.start_time_unix_nano@.len() == n
        &&& self.end_time_unix_nano@.len() == n
        &&& self.status_message@.len() == n
        &&& self.status_code@.len() == n
        &&& self.orphan@.len() == n
        &&& self.unknown_service@.len() == n
        &&& self.service_name_id@.len() == n
        &&& self.declared_parents@.len() == n
        &&& self.attr_offsets@.len() == n + 1
        &&& self.attr_offsets@[0] == 0
        &&& forall|i: int, j: int|
            0 <= i <= j <= n ==> #[trigger] self.attr_offsets@[i] <= #[trigger] self.attr_offsets@[j]
        &&& self.attr_offsets@[n as int] == self.attr_keys@.len()
        &&& self.attr_keys@.len() == self.attr_values@.len()
        &&& forall|i: int|
            0 <= i < n ==> #[trigger] self.span_index@.contains_key(self.span_ids@[i])
                && self.span_index@[self.span_ids@[i]] == i
        &&& forall|k: SpanId|
            #[trigger] self.span_index@.contains_key(k) ==> self.span_index@[k] < n
                && self.span_ids@[self.span_index@[k] as int] == k
        &&& forall|i: int|
            0 <= i < n ==> #[trigger] self.parent_idx@[i] == resolve_parent(
                self.span_index@,
                self.declared_parents@[i],
            )
        &&& forall|i: int|
            0 <= i < n ==> #[trigger] self.orphan@[i] == (self.declared_parents@[i] is Some
                && resolve_parent(self.span_index@, self.declared_parents@[i]) is None)
        &&& forall|p: SpanId|
            #[trigger] self.pending_children@.contains_key(p) ==> !self.span_index@.contains_key(p)
                && forall|m: int|
                0 <= m < self.pending_children@[p]@.len() ==> #[trigger] self.pending_children@[p]@[m] < n
                    && self.declared_parents@[self.pending_children@[p]@[m] as int] == Some(p)
        &&& forall|i: int|
            0 <= i < n && #[trigger] self.declared_parents@[i] is Some && !self.span_index@.contains_key(
                self.declared_parents@[i]->0,
            ) ==> self.pending_children@.contains_key(self.declared_parents@[i]->0)
                && self.pending_children@[self.declared_parents@[i]->0]@.contains(i as usize)
    }

    /// What `insert` promises: `self` is `old` after inserting `span` (with the given
    /// service id and kept attributes) at time `now`, with outcome `out`.
    pub open spec fn inserted(
        self,
        old: Trace,
        span: NewSpan,
        service_name_id: Option<u32>,
        kept: Seq<(u32, AttrValue)>,
        now: u64,
        out: InsertOutcome,
    ) -> bool {
        let dup = old.lookup().contains_key(span.span_id);
        let idx = if dup {
            old.lookup()[span.span_id] as int
        } else {
            old.len() as int
        };
        &&& self.wf()
        &&& self.id() == old.id()
        &&& self.gen() == old.gen()
        &&& self.activity() == now
        &&& out.is_duplicate == dup
        &&& out.local_idx == idx
        &&& self.len() == (if dup {
            old.len()
        } else {
            old.len() + 1
        })
        &&& self.lookup() == old.lookup().insert(span.span_id, idx as usize)
        &&& self.span(idx) == stored_view(
            span,
            service_name_id,
            kept,
            if dup {
                old.span(idx).declared_parent
            } else {
                span.parent_span_id
            },
        )
        &&& forall|i: int| 0 <= i < old.len() && i != idx ==> #[trigger] self.span(i) == old.span(i)
    }

    /// Parent linkage is a function of the declared parent ids and of which span ids are
    /// present: it does not depend on the order in which the spans arrived. A span whose
    /// parent is present points at it; one whose declared parent is absent is a flagged root.
    pub proof fn lemma_parent_linkage(&self)
        requires
            self.wf(),
        ensures
            forall|i: int|
                0 <= i < self.len() ==> #[trigger] self.parent(i) == resolve_parent(
                    self.lookup(),
                    self.span(i).declared_parent,
                ),
            forall|i: int|
                0 <= i < self.len() ==> #[trigger] self.orphan_at(i) == (self.span(i).declared_parent is Some
                    && resolve_parent(self.lookup(), self.span(i).declared_parent) is None),
            forall|i: int|
                0 <= i < self.len() ==> (#[trigger] self.parent(i) matches Some(p) ==> p < self.len()),
            forall|i: int|
                0 <= i < self.len() ==> #[trigger] self.lookup().contains_key(self.span(i).span_id)
                    && self.lookup()[self.span(i).span_id] == i,
            forall|k: SpanId|
                #[trigger] self.lookup().contains_key(k) ==> self.lookup()[k] < self.len()
                    && self.span(self.lookup()[k] as int).span_id == k,
    {
        assert forall|i: int| 0 <= i < self.len() implies (#[trigger] self.parent(i) matches Some(p) ==> p < self.len()) by {
            let d = self.declared_parents@[i];
            if let Some(pid) = d {
                if self.span_index@.contains_key(pid) {
                }
            }
        }
    }

    /// The CSR layout: `n + 1` offsets, starting at 0, never decreasing.
    pub proof fn lemma_offsets(&self)
        requires
            self.wf(),
        ensures
            self.offsets().len() == self.len() + 1,
            self.offsets()[0] == 0,
            forall|i: int, j: int|
                0 <= i <= j <= self.len() ==> #[trigger] self.offsets()[i] <= #[trigger] self.offsets()[j],
            forall|i: int|
                0 <= i < self.len() ==> #[trigger] self.span(i).attrs.len() == self.offsets()[i + 1]
                    - self.offsets()[i],
    {
        assert forall|i: int| 0 <= i < self.len() implies #[trigger] self.span(i).attrs.len() == self.offsets()[i + 1]
            - self.offsets()[i] by {
            assert(self.attr_offsets@[i] <= self.attr_offsets@[i + 1]);
            assert(self.attr_offsets@[i + 1] <= self.attr_offsets@[self.len() as int]);
        }
    }

    /// An empty trace created at `now`, generation 0.
    pub fn new(trace_id: TraceId, now_unix_nano: u64) -> (t: Self)
        ensures
            t.wf(),
            t.len() == 0,
            t.lookup() == Map::<SpanId, usize>::empty(),
            t.id() == trace_id,
            t.gen() == 0,
            t.activity() == now_unix_nano,
    {
        let mut offsets: Vec<usize> = Vec::new();
        offsets.push(0);
        Trace {
            trace_id,
            generation: 0,
            last_activity_unix_nano: now_unix_nano,
            span_ids: Vec::new(),
            names: Vec::new(),
            parent_idx: Vec::new(),
            start_time_unix_nano: Vec::new(),
            end_time_unix_nano: Vec::new(),
            status_message: Vec::new(),
            status_code: Vec::new(),
            orphan: Vec::new(),
            unknown_service: Vec::new(),
            service_name_id: Vec::new(),
            attr_keys: Vec::new(),
            attr_values: Vec::new(),
            attr_offsets: offsets,
            span_index: FxHashMap::default(),
            pending_children: FxHashMap::default(),
            declared_parents: Ghost(Seq::empty()),
        }
    }
}


/// Points every listed child at its newly arrived parent `idx` and clears its orphan flag.
fn patch_children(parent_idx: &mut Vec<Option<usize>>, orphan: &mut Vec<bool>, children: &Vec<usize>, idx: usize)
    requires
        old(parent_idx)@.len() == old(orphan)@.len(),
        forall|m: int| 0 <= m < children@.len() ==> #[trigger] children@[m] < old(parent_idx)@.len(),
    ensures
        final(parent_idx)@.len() == old(parent_idx)@.len(),
        final(orphan)@.len() == old(orphan)@.len(),
        forall|i: int|
            0 <= i < old(parent_idx)@.len() ==> #[trigger] final(parent_idx)@[i] == (if children@.contains(i as usize) {
                Some(idx)
            } else {
                old(parent_idx)@[i]
            }),
        forall|i: int|
            0 <= i < old(orphan)@.len() ==> #[trigger] final(orphan)@[i] == (if children@.contains(i as usize) {
                false
            } else {
                old(orphan)@[i]
            }),
{
    let ghost pa = parent_idx@;
    let ghost orph = orphan@;
    let _len = parent_idx.len();
    let mut c: usize = 0;
    while c < children.len()
        invariant
            pa.len() <= usize::MAX,
            parent_idx@.len() == pa.len(),
            orphan@.len() == pa.len(),
            orph.len() == pa.len(),
            forall|m: int| 0 <= m < children@.len() ==> #[trigger] children@[m] < pa.len(),
            c <= children@.len(),
            forall|i: int|
                0 <= i < pa.len() ==> #[trigger] parent_idx@[i] == (if in_prefix(children@, c as int, i as usize) {
                    Some(idx)
                } else {
                    pa[i]
                }),
            forall|i: int|
                0 <= i < pa.len() ==> #[trigger] orphan@[i] == (if in_prefix(children@, c as int, i as usize) {
                    false
                } else {
                    orph[i]
                }),
        decreases children@.len() - c,
    {
        let child = children[c];
        parent_idx[child] = Some(idx);
        orphan[child] = false;
        proof {
            assert forall|x: usize| in_prefix(children@, c + 1, x) <==> (in_prefix(children@, c as int, x) || x == child) by {
                if in_prefix(children@, c + 1, x) {
                    let w = choose|w: int| 0 <= w < c + 1 && #[trigger] children@[w] == x;
                    if w < c {
                        assert(in_prefix(children@, c as int, x));
                    }
                }
                if in_prefix(children@, c as int, x) {
                    let w = choose|w: int| 0 <= w < c && #[trigger] children@[w] == x;
                    assert(0 <= w < c + 1 && children@[w] == x);
                }
                if x == child {
                    assert(0 <= c < c + 1 && children@[c as int] == x);
                }
            }
        }
        c = c + 1;
    }
    assert forall|x: usize| in_prefix(children@, children@.len() as int, x) <==> children@.contains(x) by {
        if children@.contains(x) {
            let w = choose|w: int| 0 <= w < children@.len() && children@[w] == x;
            assert(0 <= w < children@.len() && children@[w] == x);
        }
    }
}

/// Moves every offset from position `from` on by `add - sub`.
fn shift_offsets(offs: &mut Vec<usize>, from: usize, sub: usize, add: usize)
    requires
        forall|t: int| from <= t < old(offs)@.len() ==> #[trigger] old(offs)@[t] >= sub
            && old(offs)@[t] - sub + add <= usize::MAX,
    ensures
        final(offs)@.len() == old(offs)@.len(),
        forall|t: int| 0 <= t < from && t < old(offs)@.len() ==> #[trigger] final(offs)@[t] == old(offs)@[t],
        forall|t: int| from <= t < old(offs)@.len() ==> #[trigger] final(offs)@[t] == old(offs)@[t] - sub + add,
{
    let ghost o0 = offs@;
    let mut j = from;
    while j < offs.len()
        invariant
            offs@.len() == o0.len(),
            from <= j || j == from,
            forall|t: int| from <= t < o0.len() ==> #[trigger] o0[t] >= sub && o0[t] - sub + add <= usize::MAX,
            forall|t: int| 0 <= t < from && t < o0.len() ==> #[trigger] offs@[t] == o0[t],
            forall|t: int| from <= t < j && t < o0.len() ==> #[trigger] offs@[t] == o0[t] - sub + add,
            forall|t: int| j <= t < o0.len() ==> #[trigger] offs@[t] == o0[t],
        decreases o0.len() - j,
    {
        let o = offs[j];
        offs[j] = o - sub + add;
        j = j + 1;
    }
}

/// Interns the keys of `attrs` in order, keeping the pairs whose key was interned.
fn intern_attributes(attrs: Vec<(String, AttrValue)>, interner: &mut Interner) -> (r: (Vec<u32>, Vec<AttrValue>))
    requires
        old(interner).wf(),
    ensures
        final(interner).wf(),
        r.0@.len() == r.1@.len(),
        (final(interner).state(), zip_attrs(r.0@, r.1@)) == intern_attrs(old(interner).state(), attrs@),
{
    let ghost st0 = interner.state();
    let ghost all = attrs@;
    let mut keys: Vec<u32> = Vec::new();
    let mut values: Vec<AttrValue> = Vec::new();
    assert(attrs@.len() == attrs.len());
    let mut rest = attrs;
    let mut i: usize = 0;
    assert(all.take(0) =~= Seq::<(String, AttrValue)>::empty());
    assert(zip_attrs(keys@, values@) =~= Seq::<(u32, AttrValue)>::empty());
    while rest.len() > 0
        invariant
            interner.wf(),
            i <= all.len(),
            all.len() <= usize::MAX,
            rest@ == all.subrange(i as int, all.len() as int),
            keys@.len() == values@.len(),
            (interner.state(), zip_attrs(keys@, values@)) == intern_attrs(st0, all.take(i as int)),
        decreases rest@.len(),
    {
        assert(rest@.len() == all.len() - i);
        let pair = rest.remove(0);
        let (k, v) = pair;
        let ghost before = zip_attrs(keys@, values@);
        proof {
            assert(all.take(i + 1).drop_last() =~= all.take(i as int));
            assert(all.take(i + 1).last() == pair);
        }
        match interner.intern(k.as_str()) {
            Some(id) => {
                keys.push(id);
                values.push(v);
                assert(zip_attrs(keys@, values@) =~= before.push((id, pair.1)));
            },
            None => {},
        }
        i = i + 1;
        assert(rest@ =~= all.subrange(i as int, all.len() as int));
    }
    assert(all.take(all.len() as int) =~= all);
    (keys, values)
}


impl Trace {
    /// Replaces span `idx`'s attribute slice with the given pairs, shifting the CSR offsets
    /// of every later span.
    fn replace_attrs(&mut self, idx: usize, keys: Vec<u32>, values: Vec<AttrValue>)
        requires
            old(self).wf(),
            idx < old(self).len(),
            keys@.len() == values@.len(),
        ensures
            final(self).wf(),
            final(self).len() == old(self).len(),
            final(self).lookup() == old(self).lookup(),
            final(self).id() == old(self).id(),
            final(self).gen() == old(self).gen(),
            final(self).activity() == old(self).activity(),
            final(self).span(idx as int) == (SpanView { attrs: zip_attrs(keys@, values@), ..old(self).span(idx as int) }),
            forall|i: int| 0 <= i < old(self).len() && i != idx ==> #[trigger] final(self).span(i) == old(self).span(i),
    {
        let ghost old_self = *self;
        let n = self.span_ids.len();
        let ghost z0 = zip_attrs(self.attr_keys@, self.attr_values@);
        let s = self.attr_offsets[idx];
        let e = self.attr_offsets[idx + 1];
        assert(s <= e);
        assert(e <= self.attr_offsets@[n as int]);
        let m = keys.len();
        let mut keys = keys;
        let mut values = values;
        let ghost znew = zip_attrs(keys@, values@);

        let mut tail_k = self.attr_keys.split_off(e);
        self.attr_keys.truncate(s);
        self.attr_keys.append(&mut keys);
        self.attr_keys.append(&mut tail_k);

        let mut tail_v = self.attr_values.split_off(e);
        self.attr_values.truncate(s);
        self.attr_values.append(&mut values);
        self.attr_values.append(&mut tail_v);

        let ghost z1 = zip_attrs(self.attr_keys@, self.attr_values@);
        assert(z1 =~= z0.subrange(0, s as int) + znew + z0.subrange(e as int, z0.len() as int));
        let ghost new_total = self.attr_keys@.len();
        assert(new_total == old_self.attr_keys@.len() - (e - s) + m);
        let ghost k1 = self.attr_keys@;
        let ghost v1 = self.attr_values@;
        let _offsets_len = self.attr_offsets.len();
        let _keys_len = self.attr_keys.len();

        proof {
            assert forall|t: int| idx + 1 <= t < self.attr_offsets@.len() implies #[trigger] self.attr_offsets@[t] >= e - s
                && self.attr_offsets@[t] - (e - s) + m <= usize::MAX by {
                assert(old_self.attr_offsets@[idx + 1] <= old_self.attr_offsets@[t]);
                assert(old_self.attr_offsets@[t] <= old_self.attr_offsets@[n as int]);
            }
        }
        shift_offsets(&mut self.attr_offsets, idx + 1, e - s, m);

        proof {
            let off0 = old_self.attr_offsets@;
            let off1 = self.attr_offsets@;
            assert forall|a: int, b: int| 0 <= a <= b <= n implies #[trigger] off1[a] <= #[trigger] off1[b] by {
                assert(off0[a] <= off0[b]);
                if a <= idx && b > idx {
                    assert(off0[a] <= off0[idx as int]);
                    assert(off0[idx + 1] <= off0[b]);
                }
            }
            assert(off1[n as int] == self.attr_keys@.len());
            assert forall|i: int| 0 <= i < n && i != idx implies #[trigger] self.span(i) == old_self.span(i) by {
                assert(off0[i] <= off0[i + 1]);
                if i < idx {
                    assert(off0[i + 1] <= off0[idx as int]);
                    assert(self.span(i).attrs =~= old_self.span(i).attrs);
                } else {
                    assert(off0[idx + 1] <= off0[i]);
                    assert(off0[i + 1] <= off0[n as int]);
                    assert(self.span(i).attrs =~= old_self.span(i).attrs);
                }
            }
            assert(self.span(idx as int).attrs =~= znew);
        }
    }

    /// Inserts `span`, or, when a span with the same id is already present, overwrites it in
    /// place (last write wins; the span keeps its index and its parent linkage).
    ///
    /// Attribute keys are interned via `key_interner`; a key refused by a full interner drops
    /// that one attribute pair and keeps the rest of the span.
    #[verifier::spinoff_prover]
    #[verifier::rlimit(60)]
    pub fn insert(
        &mut self,
        span: NewSpan,
        service_name_id: Option<u32>,
        key_interner: &mut Interner,
        now_unix_nano: u64,
    ) -> (out: InsertOutcome)
        requires
            old(self).wf(),
            old(key_interner).wf(),
        ensures
            final(key_interner).wf(),
            final(key_interner).state() == intern_attrs(old(key_interner).state(), span.attributes@).0,
            final(self).inserted(
                *old(self),
                span,
                service_name_id,
                intern_attrs(old(key_interner).state(), span.attributes@).1,
                now_unix_nano,
                out,
            ),
    {
        let ghost old_self = *self;
        let ghost sp = span;
        self.last_activity_unix_nano = now_unix_nano;
        let NewSpan {
            span_id,
            parent_span_id,
            name,
            start_time_unix_nano,
            end_time_unix_nano,
            status_message,
            status_code,
            unknown_service,
            service_name: _,
            attributes,
        } = span;
        let (keys, values) = intern_attributes(attributes, key_interner);
        let ghost kept = zip_attrs(keys@, values@);

        if let Some(found) = fx_get_span(&self.span_index, &span_id) {
            let idx = *found;
            self.names[idx] = name;
            self.start_time_unix_nano[idx] = start_time_unix_nano;
            self.end_time_unix_nano[idx] = end_time_unix_nano;
            self.status_message[idx] = status_message;
            self.status_code[idx] = status_code;
            self.unknown_service[idx] = unknown_service;
            self.service_name_id[idx] = service_name_id;
            proof {
                assert forall|i: int| 0 <= i < old_self.len() && i != idx implies #[trigger] self.span(i) == old_self.span(i) by {
                }
            }
            self.replace_attrs(idx, keys, values);
            proof {
                assert(self.lookup() =~= old_self.lookup().insert(span_id, idx));
                assert(self.span(idx as int) =~= stored_view(sp, service_name_id, kept, old_self.span(idx as int).declared_parent));
            }
            return InsertOutcome { local_idx: idx, is_duplicate: true };
        }

        let idx = self.span_ids.len();
        let ghost pending0 = self.pending_children@;
        self.span_ids.push(span_id);
        self.names.push(name);
        self.start_time_unix_nano.push(start_time_unix_nano);
        self.end_time_unix_nano.push(end_time_unix_nano);
        self.status_message.push(status_message);
        self.status_code.push(status_code);
        self.unknown_service.push(unknown_service);
        self.service_name_id.push(service_name_id);
        proof {
            self.declared_parents@ = self.declared_parents@.push(parent_span_id);
        }

        let mut orphan = false;
        let mut parent: Option<usize> = None;
        match parent_span_id {
            None => {},
            Some(pid) => match fx_get_span(&self.span_index, &pid) {
                Some(p) => {
                    parent = Some(*p);
                },
                None => {
                    let mut children = match fx_remove_span(&mut self.pending_children, &pid) {
                        Some(c) => c,
                        None => Vec::new(),
                    };
                    children.push(idx);
                    fx_insert_span(&mut self.pending_children, pid, children);
                    orphan = true;
                },
            },
        }
        self.parent_idx.push(parent);
        self.orphan.push(orphan);

        let ghost z0 = zip_attrs(self.attr_keys@, self.attr_values@);
        let mut keys = keys;
        let mut values = values;
        self.attr_keys.append(&mut keys);
        self.attr_values.append(&mut values);
        self.attr_offsets.push(self.attr_keys.len());
        proof {
            assert(zip_attrs(self.attr_keys@, self.attr_values@) =~= z0 + kept);
        }

        let ghost before_index = self.span_index@;
        fx_insert_span(&mut self.span_index, span_id, idx);

        let ghost pa = self.parent_idx@;
        let ghost orph = self.orphan@;
        let ghost p1 = self.pending_children@;
        if let Some(children) = fx_remove_span(&mut self.pending_children, &span_id) {
            patch_children(&mut self.parent_idx, &mut self.orphan, &children, idx);
        }
        proof {
            let idx0 = old_self.span_index@;
            let idx1 = self.span_index@;
            let decl = self.declared_parents@;
            let p2 = self.pending_children@;
            assert(!idx0.contains_key(span_id));
            assert(idx1 == idx0.insert(span_id, idx));
            assert(p2 == p1.remove(span_id));
            assert(decl == old_self.declared_parents@.push(parent_span_id));
            // what the parent match did to the pending map
            assert forall|p: SpanId| #[trigger] p1.contains_key(p) implies !idx0.contains_key(p)
                && forall|m: int| 0 <= m < p1[p]@.len() ==> #[trigger] p1[p]@[m] < idx + 1 && decl[p1[p]@[m] as int] == Some(p) by {
                {
                    if parent_span_id == Some(p) && !idx0.contains_key(p) {
                        if pending0.contains_key(p) {
                            assert(p1[p]@ == pending0[p]@.push(idx));
                        } else {
                            assert(p1[p]@ == seq![idx]);
                        }
                    } else {
                        assert(p1[p] == pending0[p]);
                    }
                }
            }
            assert forall|i: int| 0 <= i < idx + 1 && #[trigger] decl[i] is Some && !idx0.contains_key(decl[i]->0)
                implies p1.contains_key(decl[i]->0) && p1[decl[i]->0]@.contains(i as usize) by {
                let q = decl[i]->0;
                if i < idx {
                    assert(old_self.declared_parents@[i] == decl[i]);
                    assert(pending0.contains_key(q) && pending0[q]@.contains(i as usize));
                    if parent_span_id == Some(q) {
                        assert(p1[q]@ == pending0[q]@.push(idx));
                        let w = choose|w: int| 0 <= w < pending0[q]@.len() && pending0[q]@[w] == i as usize;
                        assert(p1[q]@[w] == i as usize);
                    } else {
                        assert(p1[q] == pending0[q]);
                    }
                } else {
                    assert(parent_span_id == Some(q));
                    if pending0.contains_key(q) {
                        assert(p1[q]@ == pending0[q]@.push(idx));
                        assert(p1[q]@[pending0[q]@.len() as int] == idx);
                    } else {
                        assert(p1[q]@ == seq![idx]);
                        assert(p1[q]@[0] == idx);
                    }
                }
            }
            let kids = if p1.contains_key(span_id) { p1[span_id]@ } else { Seq::<usize>::empty() };
            assert forall|i: int| 0 <= i < idx + 1 implies #[trigger] self.parent_idx@[i] == resolve_parent(idx1, decl[i])
                && self.orphan@[i] == (decl[i] is Some && resolve_parent(idx1, decl[i]) is None) by {
                if kids.contains(i as usize) {
                    let w = choose|w: int| 0 <= w < kids.len() && kids[w] == i as usize;
                    assert(p1[span_id]@[w] == i as usize);
                    assert(decl[i] == Some(span_id));
                } else {
                    assert(self.parent_idx@[i] == pa[i]);
                    assert(self.orphan@[i] == orph[i]);
                    if decl[i] == Some(span_id) {
                        assert(p1.contains_key(span_id) && p1[span_id]@.contains(i as usize));
                    }
                    if i < idx {
                        assert(old_self.declared_parents@[i] == decl[i]);
                        assert(pa[i] == old_self.parent_idx@[i]);
                    }
                }
            }
            assert forall|p: SpanId| #[trigger] p2.contains_key(p) implies !idx1.contains_key(p)
                && forall|m: int| 0 <= m < p2[p]@.len() ==> #[trigger] p2[p]@[m] < idx + 1 && decl[p2[p]@[m] as int] == Some(p) by {
                assert(p1.contains_key(p) && p != span_id);
            }
            assert forall|i: int| 0 <= i < idx + 1 && #[trigger] decl[i] is Some && !idx1.contains_key(decl[i]->0)
                implies p2.contains_key(decl[i]->0) && p2[decl[i]->0]@.contains(i as usize) by {
                assert(p1.contains_key(decl[i]->0) && p1[decl[i]->0]@.contains(i as usize));
            }
            let z1 = zip_attrs(self.attr_keys@, self.attr_values@);
            assert forall|i: int| 0 <= i < idx implies #[trigger] self.span(i) == old_self.span(i) by {
                assert(old_self.attr_offsets@[i] <= old_self.attr_offsets@[i + 1]);
                assert(old_self.attr_offsets@[i + 1] <= old_self.attr_offsets@[idx as int]);
                assert(self.span(i).attrs =~= old_self.span(i).attrs);
                assert(self.span(i) =~= old_self.span(i));
            }
            assert(self.span(idx as int).attrs =~= kept);
            assert(self.span(idx as int) =~= stored_view(sp, service_name_id, kept, parent_span_id));
            assert forall|i: int, j: int| 0 <= i <= j <= idx + 1 implies #[trigger] self.attr_offsets@[i] <= #[trigger] self.attr_offsets@[j] by {
                if j == idx + 1 && i < idx + 1 {
                    assert(old_self.attr_offsets@[i] <= old_self.attr_offsets@[idx as int]);
                }
            }
            assert(self.lookup() =~= old_self.lookup().insert(span_id, idx));
            assert(self.wf());
        }
        InsertOutcome { local_idx: idx, is_duplicate: false }
    }
}


/// The smallest value of a non-empty sequence.
pub open spec fn seq_min(s: Seq<u64>) -> u64
    decreases s.len(),
{
    if s.len() <= 1 {
        s[0]
    } else if seq_min(s.drop_last()) <= s.last() {
        seq_min(s.drop_last())
    } else {
        s.last()
    }
}

/// The largest value of a non-empty sequence.
pub open spec fn seq_max(s: Seq<u64>) -> u64
    decreases s.len(),
{
    if s.len() <= 1 {
        s[0]
    } else if seq_max(s.drop_last()) >= s.last() {
        seq_max(s.drop_last())
    } else {
        s.last()
    }
}

/// `latest end - earliest start` across the spans; `None` for no spans, or when the latest
/// end lies before the earliest start.
pub open spec fn duration_of(starts: Seq<u64>, ends: Seq<u64>) -> Option<u64> {
    if starts.len() == 0 {
        None
    } else if seq_max(ends) >= seq_min(starts) {
        Some((seq_max(ends) - seq_min(starts)) as u64)
    } else {
        None
    }
}

proof fn lemma_seq_min_max(s: Seq<u64>)
    requires
        s.len() > 0,
    ensures
        exists|i: int| 0 <= i < s.len() && s[i] == seq_min(s),
        exists|i: int| 0 <= i < s.len() && s[i] == seq_max(s),
        forall|i: int| 0 <= i < s.len() ==> seq_min(s) <= #[trigger] s[i] <= seq_max(s),
    decreases s.len(),
{
    if s.len() <= 1 {
        assert(s[0] == seq_min(s) && s[0] == seq_max(s));
    } else {
        let p = s.drop_last();
        lemma_seq_min_max(p);
        let a = choose|i: int| 0 <= i < p.len() && p[i] == seq_min(p);
        let b = choose|i: int| 0 <= i < p.len() && p[i] == seq_max(p);
        assert(s[a] == p[a] && s[b] == p[b]);
        let l = s.len() - 1;
        if seq_min(p) <= s.last() {
            assert(s[a] == seq_min(s));
        } else {
            assert(s[l] == seq_min(s));
        }
        if seq_max(p) >= s.last() {
            assert(s[b] == seq_max(s));
        } else {
            assert(s[l] == seq_max(s));
        }
        assert forall|i: int| 0 <= i < s.len() implies seq_min(s) <= #[trigger] s[i] <= seq_max(s) by {
            if i < p.len() {
                assert(s[i] == p[i]);
            }
        }
    }
}

/// A trace's duration is the widest span of time its spans cover: the largest `end - start`
/// over every pair of one span's end and another's (or the same) span's start. It is
/// present exactly when the trace has a span that ends no earlier than some span starts, and
/// it does not depend on the order in which the spans arrived.
pub proof fn lemma_duration_covers_all_spans(t: Trace)
    ensures
        duration_of(t.starts(), t.ends()) is Some <==> exists|i: int, j: int|
            0 <= i < t.len() && 0 <= j < t.len() && #[trigger] t.span(i).start_time_unix_nano <= #[trigger] t.span(j).end_time_unix_nano,
        duration_of(t.starts(), t.ends()) matches Some(d) ==> {
            &&& forall|i: int, j: int| 0 <= i < t.len() && 0 <= j < t.len() ==>
                #[trigger] t.span(j).end_time_unix_nano - #[trigger] t.span(i).start_time_unix_nano <= d
            &&& exists|i: int, j: int| 0 <= i < t.len() && 0 <= j < t.len()
                && d == #[trigger] t.span(j).end_time_unix_nano - #[trigger] t.span(i).start_time_unix_nano
        },
{
    let st = t.starts();
    let en = t.ends();
    if t.len() > 0 {
        lemma_seq_min_max(st);
        lemma_seq_min_max(en);
        let a = choose|i: int| 0 <= i < st.len() && st[i] == seq_min(st);
        let b = choose|i: int| 0 <= i < en.len() && en[i] == seq_max(en);
        assert(st[a] == t.span(a).start_time_unix_nano);
        assert(en[b] == t.span(b).end_time_unix_nano);
        assert forall|i: int, j: int| 0 <= i < t.len() && 0 <= j < t.len() implies
            #[trigger] t.span(j).end_time_unix_nano - #[trigger] t.span(i).start_time_unix_nano <= seq_max(en) - seq_min(st) by {
            assert(st[i] == t.span(i).start_time_unix_nano);
            assert(en[j] == t.span(j).end_time_unix_nano);
        }
    }
}

/// Whether two traces hold the same spans, linkage and identity.
pub open spec fn same_spans(a: Trace, b: Trace) -> bool {
    &&& a.wf() == b.wf()
    &&& a.len() == b.len()
    &&& a.lookup() == b.lookup()
    &&& a.id() == b.id()
    &&& forall|i: int| 0 <= i < a.len() ==> #[trigger] a.span(i) == b.span(i)
    &&& forall|i: int| 0 <= i < a.len() ==> #[trigger] a.parent(i) == b.parent(i)
    &&& forall|i: int| 0 <= i < a.len() ==> #[trigger] a.orphan_at(i) == b.orphan_at(i)
}

impl Trace {
    /// The start times, in span order.
    pub open spec fn starts(&self) -> Seq<u64> {
        Seq::new(self.len(), |i: int| self.span(i).start_time_unix_nano)
    }

    /// The end times, in span order.
    pub open spec fn ends(&self) -> Seq<u64> {
        Seq::new(self.len(), |i: int| self.span(i).end_time_unix_nano)
    }

    /// Number of spans.
    pub fn span_count(&self) -> (r: usize)
        ensures
            r == self.len(),
    {
        self.span_ids.len()
    }

    /// Sets the generation.
    pub fn set_generation(&mut self, generation: u32)
        ensures
            final(self).gen() == generation,
            final(self).activity() == old(self).activity(),
            same_spans(*final(self), *old(self)),
    {
        self.generation = generation;
    }

    /// Increments the generation (held at `u32::MAX`).
    pub fn bump_generation(&mut self)
        ensures
            final(self).gen() == (if old(self).gen() < u32::MAX {
                (old(self).gen() + 1) as u32
            } else {
                old(self).gen()
            }),
            final(self).activity() == old(self).activity(),
            same_spans(*final(self), *old(self)),
    {
        if self.generation < u32::MAX {
            self.generation = self.generation + 1;
        }
    }

    /// The trace id.
    pub fn trace_id(&self) -> (r: TraceId)
        ensures
            r == self.id(),
    {
        self.trace_id
    }

    /// The generation.
    pub fn generation(&self) -> (r: u32)
        ensures
            r == self.gen(),
    {
        self.generation
    }

    /// When the trace last received a span.
    pub fn last_activity(&self) -> (r: u64)
        ensures
            r == self.activity(),
    {
        self.last_activity_unix_nano
    }

    /// Whether span `idx` declared a parent that is not present.
    pub fn is_orphan(&self, idx: usize) -> (r: bool)
        requires
            self.wf(),
            idx < self.len(),
        ensures
            r == self.orphan_at(idx as int),
    {
        self.orphan[idx]
    }

    /// The local index of span `idx`'s parent, if present.
    pub fn parent_idx(&self, idx: usize) -> (r: Option<usize>)
        requires
            self.wf(),
            idx < self.len(),
        ensures
            r == self.parent(idx as int),
    {
        self.parent_idx[idx]
    }

    /// Span `idx`'s name.
    pub fn name(&self, idx: usize) -> (r: &str)
        requires
            self.wf(),
            idx < self.len(),
        ensures
            r@ == self.span(idx as int).name,
    {
        self.names[idx].as_str()
    }

    /// Span `idx`'s id.
    pub fn span_id(&self, idx: usize) -> (r: SpanId)
        requires
            self.wf(),
            idx < self.len(),
        ensures
            r == self.span(idx as int).span_id,
    {
        self.span_ids[idx]
    }

    /// Span `idx`'s interned service name id (`None` for an unknown or refused name).
    pub fn service_name_id(&self, idx: usize) -> (r: Option<u32>)
        requires
            self.wf(),
            idx < self.len(),
        ensures
            r == self.span(idx as int).service_name_id,
    {
        self.service_name_id[idx]
    }

    /// Span `idx`'s start time.
    pub fn start_time_unix_nano(&self, idx: usize) -> (r: u64)
        requires
            self.wf(),
            idx < self.len(),
        ensures
            r == self.span(idx as int).start_time_unix_nano,
    {
        self.start_time_unix_nano[idx]
    }

    /// Span `idx`'s end time.
    pub fn end_time_unix_nano(&self, idx: usize) -> (r: u64)
        requires
            self.wf(),
            idx < self.len(),
        ensures
            r == self.span(idx as int).end_time_unix_nano,
    {
        self.end_time_unix_nano[idx]
    }

    /// Span `idx`'s status message.
    pub fn status_message(&self, idx: usize) -> (r: &str)
        requires
            self.wf(),
            idx < self.len(),
        ensures
            r@ == self.span(idx as int).status_message,
    {
        self.status_message[idx].as_str()
    }

    /// Span `idx`'s status code.
    pub fn status_code(&self, idx: usize) -> (r: i32)
        requires
            self.wf(),
            idx < self.len(),
        ensures
            r == self.span(idx as int).status_code,
    {
        self.status_code[idx]
    }

    /// Whether span `idx` arrived without a service name.
    pub fn unknown_service(&self, idx: usize) -> (r: bool)
        requires
            self.wf(),
            idx < self.len(),
        ensures
            r == self.span(idx as int).unknown_service,
    {
        self.unknown_service[idx]
    }

    /// The CSR offsets, `span_count() + 1` of them.
    pub fn attr_offsets(&self) -> (r: &[usize])
        ensures
            r@ == self.offsets(),
    {
        self.attr_offsets.as_slice()
    }

    /// `latest end - earliest start` across all spans, checked: `None` for an empty trace or
    /// if the subtraction would underflow (end before start).
    pub fn duration_nanos(&self) -> (r: Option<u64>)
        requires
            self.wf(),
        ensures
            r == duration_of(self.starts(), self.ends()),
    {
        let n = self.span_ids.len();
        if n == 0 {
            return None;
        }
        let ghost st = self.starts();
        let ghost en = self.ends();
        assert(st == self.start_time_unix_nano@);
        assert(en == self.end_time_unix_nano@);
        let mut lo = self.start_time_unix_nano[0];
        let mut hi = self.end_time_unix_nano[0];
        let mut i: usize = 1;
        assert(st.take(1).len() == 1);
        while i < n
            invariant
                1 <= i <= n,
                n == st.len(),
                n == en.len(),
                st == self.start_time_unix_nano@,
                en == self.end_time_unix_nano@,
                lo == seq_min(st.take(i as int)),
                hi == seq_max(en.take(i as int)),
            decreases n - i,
        {
            assert(st.take(i + 1).drop_last() =~= st.take(i as int));
            assert(en.take(i + 1).drop_last() =~= en.take(i as int));
            let s = self.start_time_unix_nano[i];
            let e = self.end_time_unix_nano[i];
            if s < lo {
                lo = s;
            }
            if e > hi {
                hi = e;
            }
            i = i + 1;
        }
        assert(st.take(n as int) =~= st);
        assert(en.take(n as int) =~= en);
        hi.checked_sub(lo)
    }

    /// Span `idx`'s attribute values, in order.
    pub fn attributes(&self, idx: usize) -> (r: &[AttrValue])
        requires
            self.wf(),
            idx < self.len(),
        ensures
            r@ == self.span(idx as int).attrs.map_values(|p: (u32, AttrValue)| p.1),
    {
        let _n = self.attr_offsets.len();
        let s = self.attr_offsets[idx];
        let e = self.attr_offsets[idx + 1];
        assert(s <= e);
        assert(e <= self.attr_offsets@[self.len() as int]);
        let r = slice_subrange(self.attr_values.as_slice(), s, e);
        assert(r@ =~= self.span(idx as int).attrs.map_values(|p: (u32, AttrValue)| p.1));
        r
    }

    /// Span `idx`'s interned attribute key ids, parallel to `attributes(idx)`.
    pub fn attribute_keys(&self, idx: usize) -> (r: &[u32])
        requires
            self.wf(),
            idx < self.len(),
        ensures
            r@ == self.span(idx as int).attrs.map_values(|p: (u32, AttrValue)| p.0),
    {
        let _n = self.attr_offsets.len();
        let s = self.attr_offsets[idx];
        let e = self.attr_offsets[idx + 1];
        assert(s <= e);
        assert(e <= self.attr_offsets@[self.len() as int]);
        let r = slice_subrange(self.attr_keys.as_slice(), s, e);
        assert(r@ =~= self.span(idx as int).attrs.map_values(|p: (u32, AttrValue)| p.0));
        r
    }
}

} // verus!
