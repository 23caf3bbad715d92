//! Trace lookup by hex id, the trace list summaries, and the columnar trace payload.

use rustc_hash::FxHashMap;
use vstd::prelude::*;

use crate::store::interner::InternState;
use crate::store::trace::{duration_of, Trace};
use crate::store::types::{hex_of, parse_trace_hex, TraceId};
use crate::store::Store;
use crate::fxmap::{fx_get_str, fx_insert_str};
use crate::text::{chars_of, lex_less, lex_lt, lemma_lex_order, string_of};
use vstd::string::StringSliceAdditionalSpecFns;

verus! {

/// Why a request for one trace (or one of its spans) cannot be answered.
#[derive(Debug, Clone, Copy, PartialEq, Eq, Structural)]
pub enum TraceLookupError {
    /// The id is not 32 hex characters (answered with 400).
    BadTraceId,
    /// No resident trace has that id, or the span index is past its last span (404).
    NotFound,
}

/// The resident trace whose id the hex text `id` denotes.
pub fn find_trace<'a>(store: &'a Store, id: &str) -> (r: Result<&'a Trace, TraceLookupError>)
    requires
        store.wf(),
    ensures
        match r {
            Ok(t) => parse_trace_hex(id.spec_bytes()) == Some(t.id().0@) && store.trace_map().contains_key(t.id())
                && *t == store.trace_map()[t.id()] && t.wf(),
            Err(TraceLookupError::BadTraceId) => parse_trace_hex(id.spec_bytes()) is None,
            Err(TraceLookupError::NotFound) => parse_trace_hex(id.spec_bytes()) is Some && forall|k: TraceId|
                #[trigger] store.trace_map().contains_key(k) ==> Some(k.0@) != parse_trace_hex(id.spec_bytes()),
        },
{
    let trace_id = match TraceId::from_hex(id) {
        Some(t) => t,
        None => return Err(TraceLookupError::BadTraceId),
    };
    proof {
        store.lemma_resident();
    }
    match store.trace(trace_id) {
        Some(t) => Ok(t),
        None => {
            proof {
                assert forall|k: TraceId| #[trigger] store.trace_map().contains_key(k) implies Some(k.0@)
                    != parse_trace_hex(id.spec_bytes()) by {
                    if k.0@ == trace_id.0@ {
                        assert(k.0 =~= trace_id.0);
                    }
                }
            }
            Err(TraceLookupError::NotFound)
        },
    }
}


/// The characters of each string of a list.
pub open spec fn char_views(s: Seq<Vec<char>>) -> Seq<Seq<char>> {
    s.map_values(|c: Vec<char>| c@)
}

/// The characters of each string of a list.
pub open spec fn string_views(s: Seq<String>) -> Seq<Seq<char>> {
    s.map_values(|c: String| c@)
}

/// Strictly increasing in `lex_lt` order (so also free of repeats).
pub open spec fn sorted_strict(s: Seq<Seq<char>>) -> bool {
    forall|i: int, j: int| 0 <= i < j < s.len() ==> lex_lt(#[trigger] s[i], #[trigger] s[j])
}

/// Whether `x` is the name of the service of one of the first `n` spans of `t`.
pub open spec fn names_service(t: Trace, services: InternState, n: int, x: Seq<char>) -> bool {
    exists|i: int| 0 <= i < n && #[trigger] t.span(i).service_name_id is Some
        && services.values[t.span(i).service_name_id->0 as int] == x
}

/// Adds `x` to a strictly sorted list, keeping it strictly sorted; nothing changes when `x`
/// is already there.
fn insert_sorted(v: &mut Vec<Vec<char>>, x: Vec<char>)
    requires
        sorted_strict(char_views(old(v)@)),
    ensures
        sorted_strict(char_views(final(v)@)),
        forall|y: Seq<char>| #[trigger] char_views(final(v)@).contains(y) <==> char_views(old(v)@).contains(y) || y == x@,
{
    let ghost old_v = char_views(v@);
    let mut p: usize = 0;
    while p < v.len() && lex_less(v[p].as_slice(), x.as_slice())
        invariant
            p <= v@.len(),
            old_v == char_views(v@),
            forall|i: int| 0 <= i < p ==> lex_lt(#[trigger] old_v[i], x@),
        decreases v@.len() - p,
    {
        p = p + 1;
    }
    if p < v.len() && crate::text::chars_eq(v[p].as_slice(), x.as_slice()) {
        assert(old_v[p as int] == x@);
        assert(forall|y: Seq<char>| #[trigger] old_v.contains(y) <==> old_v.contains(y) || y == x@);
        return;
    }
    proof {
        if p < old_v.len() {
            lemma_lex_order(old_v[p as int], x@, x@);
            assert(lex_lt(x@, old_v[p as int]));
        }
    }
    let ghost xv = x@;
    v.insert(p, x);
    let ghost nv = char_views(v@);
    assert(nv =~= old_v.insert(p as int, xv));
    assert forall|i: int, j: int| 0 <= i < j < nv.len() implies lex_lt(#[trigger] nv[i], #[trigger] nv[j]) by {
        if j < p {
        } else if j == p {
        } else if i < p {
            lemma_lex_order(nv[i], xv, nv[j]);
            if j > p + 1 {
                lemma_lex_order(xv, old_v[p as int], old_v[j - 1]);
            }
        } else if i == p {
            if j > p + 1 {
                lemma_lex_order(xv, old_v[p as int], old_v[j - 1]);
            }
        } else {
        }
    }
    assert forall|y: Seq<char>| #[trigger] nv.contains(y) <==> old_v.contains(y) || y == xv by {
        if nv.contains(y) {
            let k = choose|k: int| 0 <= k < nv.len() && nv[k] == y;
            if k < p {
                assert(old_v[k] == y);
            } else if k > p {
                assert(old_v[k - 1] == y);
            }
        }
        if old_v.contains(y) {
            let k = choose|k: int| 0 <= k < old_v.len() && old_v[k] == y;
            if k < p {
                assert(nv[k] == y);
            } else {
                assert(nv[k + 1] == y);
            }
        }
        if y == xv {
            assert(nv[p as int] == y);
        }
    }
}

/// One row of the trace list.
pub struct TraceSummary {
    pub trace_id: String,
    pub span_count: usize,
    /// `None` for an empty trace, or when the latest end lies before the earliest start.
    pub duration_nanos: Option<u64>,
    /// The distinct service names of the trace's spans, sorted.
    pub services: Vec<String>,
}

/// What a summary of trace `t` holds.
pub open spec fn summarizes(r: TraceSummary, t: Trace, services: InternState) -> bool {
    &&& r.trace_id@ == hex_of(t.id().0@)
    &&& r.span_count == t.len()
    &&& r.duration_nanos == duration_of(t.starts(), t.ends())
    &&& sorted_strict(string_views(r.services@))
    &&& forall|x: Seq<char>| #[trigger] string_views(r.services@).contains(x) <==> names_service(t, services, t.len() as int, x)
}

/// The summary row of one trace.
pub fn trace_summary(store: &Store, trace: &Trace) -> (r: TraceSummary)
    requires
        store.wf(),
        trace.wf(),
        forall|s: int| 0 <= s < trace.len() ==> crate::store::ids_resolve(#[trigger] trace.span(s), store.keys(), store.services()),
    ensures
        summarizes(r, *trace, store.services()),
{
    let n = trace.span_count();
    let mut names: Vec<Vec<char>> = Vec::new();
    let mut idx: usize = 0;
    while idx < n
        invariant
            n == trace.len(),
            store.wf(),
            trace.wf(),
            forall|s: int| 0 <= s < trace.len() ==> crate::store::ids_resolve(#[trigger] trace.span(s), store.keys(), store.services()),
            idx <= n,
            sorted_strict(char_views(names@)),
            forall|x: Seq<char>| #[trigger] char_views(names@).contains(x) <==> names_service(*trace, store.services(), idx as int, x),
        decreases n - idx,
    {
        assert(crate::store::ids_resolve(trace.span(idx as int), store.keys(), store.services()));
        match trace.service_name_id(idx) {
            Some(sid) => {
                let name = store.service_name(sid);
                insert_sorted(&mut names, chars_of(name));
                assert forall|x: Seq<char>| #[trigger] char_views(names@).contains(x) <==> names_service(*trace, store.services(), idx + 1, x) by {
                    if names_service(*trace, store.services(), idx + 1, x) && x != name@ {
                        let i = choose|i: int| 0 <= i < idx + 1 && #[trigger] trace.span(i).service_name_id is Some
                            && store.services().values[trace.span(i).service_name_id->0 as int] == x;
                        assert(i < idx);
                    }
                }
            },
            None => {
                assert forall|x: Seq<char>| #[trigger] char_views(names@).contains(x) <==> names_service(*trace, store.services(), idx + 1, x) by {
                    if names_service(*trace, store.services(), idx + 1, x) {
                        let i = choose|i: int| 0 <= i < idx + 1 && #[trigger] trace.span(i).service_name_id is Some
                            && store.services().values[trace.span(i).service_name_id->0 as int] == x;
                        assert(i < idx);
                    }
                }
            },
        }
        idx = idx + 1;
    }
    let mut services: Vec<String> = Vec::new();
    let mut k: usize = 0;
    while k < names.len()
        invariant
            k <= names@.len(),
            string_views(services@) == char_views(names@).take(k as int),
        decreases names@.len() - k,
    {
        let ghost before = string_views(services@);
        let one = string_of(names[k].as_slice());
        assert(one@ == char_views(names@)[k as int]);
        services.push(one);
        assert(string_views(services@) =~= before.push(one@));
        assert(string_views(services@) =~= char_views(names@).take(k + 1));
        k = k + 1;
    }
    assert(char_views(names@).take(names@.len() as int) =~= char_views(names@));
    TraceSummary {
        trace_id: trace.trace_id().to_hex(),
        span_count: n,
        duration_nanos: trace.duration_nanos(),
        services,
    }
}

/// `GET /api/traces`: one summary row per resident trace, in storage order.
pub fn list_traces(store: &Store) -> (r: Vec<TraceSummary>)
    requires
        store.wf(),
    ensures
        r@.len() == store.resident().len(),
        forall|i: int| 0 <= i < r@.len() ==> summarizes(#[trigger] r@[i], store.resident()[i], store.services()),
{
    proof {
        store.lemma_resident();
    }
    let traces = store.traces();
    let mut rows: Vec<TraceSummary> = Vec::new();
    let mut i: usize = 0;
    while i < traces.len()
        invariant
            store.wf(),
            traces@ == store.resident(),
            forall|j: int| 0 <= j < store.resident().len() ==> #[trigger] store.resident()[j].wf(),
            forall|j: int, s: int|
                0 <= j < store.resident().len() && 0 <= s < store.resident()[j].len() ==> crate::store::ids_resolve(
                    #[trigger] store.resident()[j].span(s),
                    store.keys(),
                    store.services(),
                ),
            i <= traces@.len(),
            rows@.len() == i,
            forall|j: int| 0 <= j < i ==> summarizes(#[trigger] rows@[j], store.resident()[j], store.services()),
        decreases traces@.len() - i,
    {
        let t = &traces[i];
        assert(forall|s: int| 0 <= s < t.len() ==> crate::store::ids_resolve(#[trigger] t.span(s), store.keys(), store.services()));
        let row = trace_summary(store, t);
        rows.push(row);
        i = i + 1;
    }
    rows
}


/// Repeated strings (span names, status messages, service names) stored once and referenced
/// by index.
struct StringTable {
    strings: Vec<String>,
    index: FxHashMap<String, usize>,
}

impl StringTable {
    /// The stored strings, in index order.
    closed spec fn table(&self) -> Seq<Seq<char>> {
        string_views(self.strings@)
    }

    /// Strings are distinct and the index agrees with their positions.
    closed spec fn wf(&self) -> bool {
        &&& forall|i: int, j: int|
            0 <= i < j < self.strings@.len() ==> #[trigger] self.strings@[i]@ != #[trigger] self.strings@[j]@
        &&& forall|k: String|
            #[trigger] self.index@.contains_key(k) ==> self.index@[k] < self.strings@.len()
                && self.strings@[self.index@[k] as int]@ == k@
        &&& forall|i: int|
            0 <= i < self.strings@.len() ==> #[trigger] self.index@.contains_key(self.strings@[i])
                && self.index@[self.strings@[i]] == i
    }

    fn new() -> (r: Self)
        ensures
            r.wf(),
            r.table() == Seq::<Seq<char>>::empty(),
    {
        let r = StringTable { strings: Vec::new(), index: FxHashMap::default() };
        assert(r.table() =~= Seq::<Seq<char>>::empty());
        r
    }

    /// The index of `s`, adding it at the end if it is new.
    #[verifier::spinoff_prover]
    #[verifier::rlimit(30)]
    fn intern(&mut self, s: &str) -> (r: usize)
        requires
            old(self).wf(),
        ensures
            final(self).wf(),
            final(self).table() == (if old(self).table().contains(s@) {
                old(self).table()
            } else {
                old(self).table().push(s@)
            }),
            r < final(self).table().len(),
            final(self).table()[r as int] == s@,
    {
        let ghost st = self.table();
        if let Some(id) = fx_get_str(&self.index, s) {
            proof {
                let k = choose|key: String| #[trigger] self.index@.contains_key(key) && key@ == s@ && self.index@[key] == id;
                assert(st[id as int] == s@);
            }
            return id;
        }
        proof {
            if st.contains(s@) {
                let i = choose|i: int| 0 <= i < st.len() && st[i] == s@;
                assert(self.index@.contains_key(self.strings@[i]));
            }
        }
        let id = self.strings.len();
        let key: String = s.to_owned();
        let stored = key.clone();
        self.strings.push(stored);
        fx_insert_str(&mut self.index, key, id);
        proof {
            assert(self.table() =~= st.push(s@));
            assert forall|i: int| 0 <= i < self.strings@.len() - 1 implies self.strings@[i]@ != s@ by {
                assert(st[i] == self.strings@[i]@);
            }
            assert forall|i: int|
                0 <= i < self.strings@.len() implies #[trigger] self.index@.contains_key(self.strings@[i])
                && self.index@[self.strings@[i]] == i by {
                if i < self.strings@.len() - 1 {
                    assert(self.strings@[i]@ != key@);
                }
            }
            assert forall|i: int, j: int|
                0 <= i < j < self.strings@.len() implies #[trigger] self.strings@[i]@ != #[trigger] self.strings@[j]@ by {
                if j < self.strings@.len() - 1 {
                    assert(st[i] == self.strings@[i]@);
                    assert(st[j] == self.strings@[j]@);
                }
            }
            assert forall|k: String| #[trigger] self.index@.contains_key(k) implies self.index@[k] < self.strings@.len()
                && self.strings@[self.index@[k] as int]@ == k@ by {
                if k != key {
                    assert(old(self).index@.contains_key(k));
                    assert(self.strings@[self.index@[k] as int] == old(self).strings@[self.index@[k] as int]);
                }
            }
        }
        id
    }
}

/// One trace as columns indexed by local span index, with every span name, status message
/// and service name stored once in `string_table` and referenced by index. It carries no
/// attributes: those are fetched one span at a time.
pub struct TracePayload {
    pub trace_id: String,
    pub generation: u32,
    pub string_table: Vec<String>,
    pub name_idx: Vec<usize>,
    pub parent_idx: Vec<Option<usize>>,
    pub start_time_unix_nano: Vec<u64>,
    pub end_time_unix_nano: Vec<u64>,
    pub status_message_idx: Vec<usize>,
    pub status_code: Vec<i32>,
    pub orphan: Vec<bool>,
    pub unknown_service: Vec<bool>,
    pub service_idx: Vec<Option<usize>>,
}

/// The service name of span `i` of `t`, if it has one.
pub open spec fn service_of(t: Trace, services: InternState, i: int) -> Option<Seq<char>> {
    match t.span(i).service_name_id {
        Some(id) => Some(services.values[id as int]),
        None => None,
    }
}

/// `d` with `x` appended unless it already holds it.
pub open spec fn uniq_push(d: Seq<Seq<char>>, x: Seq<char>) -> Seq<Seq<char>> {
    if d.contains(x) {
        d
    } else {
        d.push(x)
    }
}

/// The distinct strings of `s`, in order of first occurrence.
pub open spec fn first_uses(s: Seq<Seq<char>>) -> Seq<Seq<char>>
    decreases s.len(),
{
    if s.len() == 0 {
        Seq::empty()
    } else {
        uniq_push(first_uses(s.drop_last()), s.last())
    }
}

/// The strings the first `n` spans put in the table, in the order they are added: each
/// span's name, then its status message, then its service name if it has one.
pub open spec fn span_strings(t: Trace, services: InternState, n: int) -> Seq<Seq<char>>
    decreases n,
{
    if n <= 0 {
        Seq::empty()
    } else {
        let with = span_strings(t, services, n - 1).push(t.span(n - 1).name).push(t.span(n - 1).status_message);
        match service_of(t, services, n - 1) {
            Some(x) => with.push(x),
            None => with,
        }
    }
}

proof fn lemma_first_uses_push(s: Seq<Seq<char>>, x: Seq<char>)
    ensures
        first_uses(s.push(x)) == uniq_push(first_uses(s), x),
{
    assert(s.push(x).drop_last() =~= s);
}

/// Span `i`'s row of the payload columns, for the first `n` entries of each column.
pub open spec fn payload_row(p: TracePayload, t: Trace, services: InternState, i: int) -> bool {
    let table = string_views(p.string_table@);
    &&& p.name_idx@[i] < table.len() && table[p.name_idx@[i] as int] == t.span(i).name
    &&& p.status_message_idx@[i] < table.len() && table[p.status_message_idx@[i] as int] == t.span(i).status_message
    &&& match p.service_idx@[i] {
        Some(k) => k < table.len() && service_of(t, services, i) == Some(table[k as int]),
        None => service_of(t, services, i) is None,
    }
    &&& p.parent_idx@[i] == t.parent(i)
    &&& p.start_time_unix_nano@[i] == t.span(i).start_time_unix_nano
    &&& p.end_time_unix_nano@[i] == t.span(i).end_time_unix_nano
    &&& p.status_code@[i] == t.span(i).status_code
    &&& p.orphan@[i] == t.orphan_at(i)
    &&& p.unknown_service@[i] == t.span(i).unknown_service
}

/// What the payload of trace `t` holds: its id and generation, one row per span, and a
/// string table of the spans' strings, each once, in order of first use.
pub open spec fn payload_of(p: TracePayload, t: Trace, services: InternState) -> bool {
    let n = t.len() as int;
    let table = string_views(p.string_table@);
    &&& p.trace_id@ == hex_of(t.id().0@)
    &&& p.generation == t.gen()
    &&& p.name_idx@.len() == n && p.parent_idx@.len() == n && p.start_time_unix_nano@.len() == n
    &&& p.end_time_unix_nano@.len() == n && p.status_message_idx@.len() == n && p.status_code@.len() == n
    &&& p.orphan@.len() == n && p.unknown_service@.len() == n && p.service_idx@.len() == n
    &&& forall|i: int| 0 <= i < n ==> #[trigger] payload_row(p, t, services, i)
    &&& table.no_duplicates()
    &&& table == first_uses(span_strings(t, services, n))
}

/// Two traces that agree in everything the payload shows: identity, generation, and each
/// span's name, times, status, service, parent and orphan flag. Span attributes may differ.
pub open spec fn agree_but_attributes(t1: Trace, t2: Trace) -> bool {
    &&& t1.id() == t2.id()
    &&& t1.gen() == t2.gen()
    &&& t1.len() == t2.len()
    &&& forall|i: int| 0 <= i < t1.len() ==> {
        let (a, b) = (#[trigger] t1.span(i), t2.span(i));
        &&& a.name == b.name
        &&& a.start_time_unix_nano == b.start_time_unix_nano
        &&& a.end_time_unix_nano == b.end_time_unix_nano
        &&& a.status_message == b.status_message
        &&& a.status_code == b.status_code
        &&& a.unknown_service == b.unknown_service
        &&& a.service_name_id == b.service_name_id
        &&& t1.parent(i) == t2.parent(i)
        &&& t1.orphan_at(i) == t2.orphan_at(i)
    }
}

proof fn lemma_span_strings_agree(t1: Trace, t2: Trace, services: InternState, n: int)
    requires
        agree_but_attributes(t1, t2),
        n <= t1.len(),
    ensures
        span_strings(t1, services, n) == span_strings(t2, services, n),
    decreases n,
{
    if n > 0 {
        lemma_span_strings_agree(t1, t2, services, n - 1);
        assert(t1.span(n - 1).name == t2.span(n - 1).name);
    }
}

/// Span attributes never reach the trace payload: the payloads of two traces that differ
/// only in their spans' attributes are the same, column for column and string for string.
pub proof fn lemma_payload_ignores_attributes(
    p1: TracePayload,
    p2: TracePayload,
    t1: Trace,
    t2: Trace,
    services: InternState,
)
    requires
        payload_of(p1, t1, services),
        payload_of(p2, t2, services),
        agree_but_attributes(t1, t2),
    ensures
        p1.trace_id@ == p2.trace_id@,
        p1.generation == p2.generation,
        string_views(p1.string_table@) == string_views(p2.string_table@),
        p1.name_idx@ == p2.name_idx@,
        p1.parent_idx@ == p2.parent_idx@,
        p1.start_time_unix_nano@ == p2.start_time_unix_nano@,
        p1.end_time_unix_nano@ == p2.end_time_unix_nano@,
        p1.status_message_idx@ == p2.status_message_idx@,
        p1.status_code@ == p2.status_code@,
        p1.orphan@ == p2.orphan@,
        p1.unknown_service@ == p2.unknown_service@,
        p1.service_idx@ == p2.service_idx@,
{
    let n = t1.len() as int;
    lemma_span_strings_agree(t1, t2, services, n);
    let table = string_views(p1.string_table@);
    assert(table == string_views(p2.string_table@));
    assert forall|i: int| 0 <= i < n implies p1.name_idx@[i] == p2.name_idx@[i] && p1.status_message_idx@[i]
        == p2.status_message_idx@[i] && p1.service_idx@[i] == p2.service_idx@[i] && p1.parent_idx@[i]
        == p2.parent_idx@[i] && p1.start_time_unix_nano@[i] == p2.start_time_unix_nano@[i]
        && p1.end_time_unix_nano@[i] == p2.end_time_unix_nano@[i] && p1.status_code@[i] == p2.status_code@[i]
        && p1.orphan@[i] == p2.orphan@[i] && p1.unknown_service@[i] == p2.unknown_service@[i] by {
        assert(payload_row(p1, t1, services, i));
        assert(payload_row(p2, t2, services, i));
        let (a, b) = (t1.span(i), t2.span(i));
        assert(a.name == b.name);
        assert(service_of(t1, services, i) == service_of(t2, services, i));
        if p1.name_idx@[i] != p2.name_idx@[i] {
            assert(table[p1.name_idx@[i] as int] == table[p2.name_idx@[i] as int]);
        }
        if p1.status_message_idx@[i] != p2.status_message_idx@[i] {
            assert(table[p1.status_message_idx@[i] as int] == table[p2.status_message_idx@[i] as int]);
        }
        match (p1.service_idx@[i], p2.service_idx@[i]) {
            (Some(x), Some(y)) => {
                if x != y {
                    assert(table[x as int] == table[y as int]);
                }
            },
            _ => {},
        }
    }
    assert(p1.name_idx@ =~= p2.name_idx@);
    assert(p1.parent_idx@ =~= p2.parent_idx@);
    assert(p1.start_time_unix_nano@ =~= p2.start_time_unix_nano@);
    assert(p1.end_time_unix_nano@ =~= p2.end_time_unix_nano@);
    assert(p1.status_message_idx@ =~= p2.status_message_idx@);
    assert(p1.status_code@ =~= p2.status_code@);
    assert(p1.orphan@ =~= p2.orphan@);
    assert(p1.unknown_service@ =~= p2.unknown_service@);
    assert(p1.service_idx@ =~= p2.service_idx@);
}

/// The columnar payload of one trace.
#[verifier::spinoff_prover]
#[verifier::rlimit(40)]
pub fn trace_payload(store: &Store, trace: &Trace) -> (r: TracePayload)
    requires
        store.wf(),
        trace.wf(),
        forall|s: int| 0 <= s < trace.len() ==> crate::store::ids_resolve(#[trigger] trace.span(s), store.keys(), store.services()),
    ensures
        payload_of(r, *trace, store.services()),
{
    let n = trace.span_count();
    let mut table = StringTable::new();
    let mut p = TracePayload {
        trace_id: trace.trace_id().to_hex(),
        generation: trace.generation(),
        string_table: Vec::new(),
        name_idx: Vec::new(),
        parent_idx: Vec::new(),
        start_time_unix_nano: Vec::new(),
        end_time_unix_nano: Vec::new(),
        status_message_idx: Vec::new(),
        status_code: Vec::new(),
        orphan: Vec::new(),
        unknown_service: Vec::new(),
        service_idx: Vec::new(),
    };
    let ghost services = store.services();
    let mut idx: usize = 0;
    while idx < n
        invariant
            n == trace.len(),
            store.wf(),
            trace.wf(),
            services == store.services(),
            forall|s: int| 0 <= s < trace.len() ==> crate::store::ids_resolve(#[trigger] trace.span(s), store.keys(), store.services()),
            table.wf(),
            p.string_table@.len() == 0,
            p.trace_id@ == hex_of(trace.id().0@),
            p.generation == trace.gen(),
            idx <= n,
            p.name_idx@.len() == idx && p.parent_idx@.len() == idx && p.start_time_unix_nano@.len() == idx,
            p.end_time_unix_nano@.len() == idx && p.status_message_idx@.len() == idx && p.status_code@.len() == idx,
            p.orphan@.len() == idx && p.unknown_service@.len() == idx && p.service_idx@.len() == idx,
            forall|i: int| 0 <= i < idx ==> #[trigger] payload_row(
                TracePayload { string_table: table.strings, ..p },
                *trace,
                services,
                i,
            ),
            table.table() == first_uses(span_strings(*trace, services, idx as int)),
        decreases n - idx,
    {
        let ghost t0 = table.table();
        let ghost p0 = p;
        let ghost s0 = table.strings;
        let name_id = table.intern(trace.name(idx));
        let ghost ta = table.table();
        let msg_id = table.intern(trace.status_message(idx));
        let ghost tb = table.table();
        assert(crate::store::ids_resolve(trace.span(idx as int), store.keys(), store.services()));
        let svc = match trace.service_name_id(idx) {
            Some(sid) => Some(table.intern(store.service_name(sid))),
            None => None,
        };
        let ghost t1 = table.table();
        assert(tb == t1 || (service_of(*trace, services, idx as int) is Some && t1 == tb.push(
            service_of(*trace, services, idx as int)->0)));
        p.name_idx.push(name_id);
        p.parent_idx.push(trace.parent_idx(idx));
        p.start_time_unix_nano.push(trace.start_time_unix_nano(idx));
        p.end_time_unix_nano.push(trace.end_time_unix_nano(idx));
        p.status_message_idx.push(msg_id);
        p.status_code.push(trace.status_code(idx));
        p.orphan.push(trace.is_orphan(idx));
        p.unknown_service.push(trace.unknown_service(idx));
        p.service_idx.push(svc);
        proof {
            let full = TracePayload { string_table: table.strings, ..p };
            let full0 = TracePayload { string_table: s0, ..p0 };
            assert forall|i: int| 0 <= i < idx + 1 implies #[trigger] payload_row(full, *trace, services, i) by {
                if i < idx {
                    assert(payload_row(full0, *trace, services, i));
                    assert(string_views(full.string_table@)[full.name_idx@[i] as int] == t0[full.name_idx@[i] as int]);
                    assert(string_views(full.string_table@)[full.status_message_idx@[i] as int]
                        == t0[full.status_message_idx@[i] as int]);
                    match full.service_idx@[i] {
                        Some(k) => {
                            assert(string_views(full.string_table@)[k as int] == t0[k as int]);
                        },
                        None => {},
                    }
                }
            }
            let prev = span_strings(*trace, services, idx as int);
            let sa = prev.push(trace.span(idx as int).name);
            let sb = sa.push(trace.span(idx as int).status_message);
            lemma_first_uses_push(prev, trace.span(idx as int).name);
            lemma_first_uses_push(sa, trace.span(idx as int).status_message);
            assert(ta == first_uses(sa));
            assert(tb == first_uses(sb));
            match service_of(*trace, services, idx as int) {
                Some(x) => {
                    lemma_first_uses_push(sb, x);
                    assert(span_strings(*trace, services, idx + 1) == sb.push(x));
                },
                None => {
                    assert(span_strings(*trace, services, idx + 1) == sb);
                },
            }
        }
        idx = idx + 1;
    }
    let ghost p_cols = p;
    let ghost tt = table.table();
    p.string_table = table.strings;
    proof {
        assert(p == TracePayload { string_table: p.string_table, ..p_cols });
        assert(string_views(p.string_table@) == tt);
        let tv = string_views(p.string_table@);
        assert forall|i: int, j: int| 0 <= i < tv.len() && 0 <= j < tv.len() && i != j implies tv[i] != tv[j] by {
            if i < j {
                assert(p.string_table@[i]@ != p.string_table@[j]@);
            } else {
                assert(p.string_table@[j]@ != p.string_table@[i]@);
            }
        }
    }
    p
}

/// `GET /api/traces/:id`: the columnar payload of the trace with hex id `id`.
pub fn get_trace(store: &Store, id: &str) -> (r: Result<TracePayload, TraceLookupError>)
    requires
        store.wf(),
    ensures
        match r {
            Ok(p) => exists|t: Trace| #[trigger] store.trace_map().contains_key(t.id()) && t == store.trace_map()[t.id()]
                && parse_trace_hex(id.spec_bytes()) == Some(t.id().0@) && payload_of(p, t, store.services()),
            Err(TraceLookupError::BadTraceId) => parse_trace_hex(id.spec_bytes()) is None,
            Err(TraceLookupError::NotFound) => parse_trace_hex(id.spec_bytes()) is Some && forall|k: TraceId|
                #[trigger] store.trace_map().contains_key(k) ==> Some(k.0@) != parse_trace_hex(id.spec_bytes()),
        },
{
    let trace = match find_trace(store, id) {
        Ok(t) => t,
        Err(e) => return Err(e),
    };
    proof {
        store.lemma_resident();
        assert forall|s: int| 0 <= s < trace.len() implies crate::store::ids_resolve(#[trigger] trace.span(s), store.keys(), store.services()) by {
            assert(store.trace_map().contains_key(trace.id()));
        }
    }
    let p = trace_payload(store, trace);
    assert(store.trace_map().contains_key(trace.id()));
    Ok(p)
}

} // verus!
