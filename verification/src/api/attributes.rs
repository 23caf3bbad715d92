//! One span's attributes, resolved to key strings, fetched one span at a time.

use vstd::prelude::*;

use crate::api::traces::{find_trace, TraceLookupError};
use crate::store::trace::Trace;
use crate::store::types::{parse_trace_hex, same_value, AttrValue, TraceId};
use crate::store::Store;
use vstd::string::StringSliceAdditionalSpecFns;

verus! {

/// One attribute of a span: its key and its value.
pub struct AttributeEntry {
    pub key: String,
    pub value: AttrValue,
}

/// What the attribute list of span `idx` of `t` holds: one entry per stored attribute, in
/// order, with the key resolved through the key interner.
pub open spec fn lists_attributes(r: Seq<AttributeEntry>, t: Trace, keys: crate::store::interner::InternState, idx: int) -> bool {
    let attrs = t.span(idx).attrs;
    &&& r.len() == attrs.len()
    &&& forall|j: int| 0 <= j < attrs.len() ==> (#[trigger] r[j]).key@ == keys.values[attrs[j].0 as int]
        && same_value(r[j].value, attrs[j].1)
}

/// The attributes of span `idx` of `trace`.
pub fn span_attributes(store: &Store, trace: &Trace, idx: usize) -> (r: Vec<AttributeEntry>)
    requires
        store.wf(),
        trace.wf(),
        idx < trace.len(),
        crate::store::ids_resolve(trace.span(idx as int), store.keys(), store.services()),
    ensures
        lists_attributes(r@, *trace, store.keys(), idx as int),
{
    let keys = trace.attribute_keys(idx);
    let values = trace.attributes(idx);
    let ghost attrs = trace.span(idx as int).attrs;
    let mut entries: Vec<AttributeEntry> = Vec::new();
    let mut j: usize = 0;
    while j < keys.len()
        invariant
            store.wf(),
            keys@ == attrs.map_values(|p: (u32, AttrValue)| p.0),
            values@ == attrs.map_values(|p: (u32, AttrValue)| p.1),
            forall|a: int| 0 <= a < attrs.len() ==> (#[trigger] attrs[a]).0 < store.keys().values.len(),
            j <= attrs.len(),
            entries@.len() == j,
            forall|m: int| 0 <= m < j ==> (#[trigger] entries@[m]).key@ == store.keys().values[attrs[m].0 as int]
                && same_value(entries@[m].value, attrs[m].1),
        decreases attrs.len() - j,
    {
        assert(keys@[j as int] == attrs[j as int].0);
        let key = store.attribute_key(keys[j]).to_owned();
        let value = values[j].copied();
        entries.push(AttributeEntry { key, value });
        j = j + 1;
    }
    entries
}

/// `GET /api/traces/:id/spans/:idx/attributes`: the attributes of span `idx` of the trace
/// with hex id `id`; an index past the trace's last span is `NotFound`.
pub fn get_attributes(store: &Store, id: &str, idx: usize) -> (r: Result<Vec<AttributeEntry>, TraceLookupError>)
    requires
        store.wf(),
    ensures
        match r {
            Ok(v) => exists|t: Trace| #[trigger] store.trace_map().contains_key(t.id()) && t == store.trace_map()[t.id()]
                && parse_trace_hex(id.spec_bytes()) == Some(t.id().0@) && idx < t.len()
                && lists_attributes(v@, t, store.keys(), idx as int),
            Err(TraceLookupError::BadTraceId) => parse_trace_hex(id.spec_bytes()) is None,
            Err(TraceLookupError::NotFound) => parse_trace_hex(id.spec_bytes()) is Some && forall|k: TraceId|
                #[trigger] store.trace_map().contains_key(k) && Some(k.0@) == parse_trace_hex(id.spec_bytes())
                ==> idx >= store.trace_map()[k].len(),
        },
{
    let trace = match find_trace(store, id) {
        Ok(t) => t,
        Err(e) => return Err(e),
    };
    proof {
        store.lemma_resident();
        assert(store.trace_map().contains_key(trace.id()));
    }
    if idx >= trace.span_count() {
        proof {
            assert forall|k: TraceId| #[trigger] store.trace_map().contains_key(k) && Some(k.0@) == parse_trace_hex(id.spec_bytes())
                implies idx >= store.trace_map()[k].len() by {
                assert(k.0 =~= trace.id().0);
            }
        }
        return Err(TraceLookupError::NotFound);
    }
    let v = span_attributes(store, trace, idx);
    Ok(v)
}

} // verus!
