//! The `rustc_hash::FxHashMap` operations that the store uses, with what each one does to
//! the map's contents. An `FxHashMap` is std's `HashMap` with the deterministic `FxBuildHasher`;
//! its contents are the map view `m@` that vstd gives every `HashMap`.

use rustc_hash::{FxBuildHasher, FxHashMap};
use vstd::prelude::*;

use crate::store::types::{SpanId, TraceId};

verus! {

/// `rustc_hash::FxBuildHasher`, the hash builder of an `FxHashMap`.
#[verifier::external_type_specification]
#[verifier::external_body]
pub struct ExFxBuildHasher(FxBuildHasher);

/// `HashMap::get` on a map keyed by trace id: the value stored under `k`, if any.
#[verifier::external_body]
pub(crate) fn fx_get_trace<'a, V>(m: &'a FxHashMap<TraceId, V>, k: &TraceId) -> (r: Option<&'a V>)
    ensures
        match r {
            Some(v) => m@.contains_key(*k) && *v == m@[*k],
            None => !m@.contains_key(*k),
        },
{
    m.get(k)
}

/// `HashMap::insert` on a map keyed by trace id: `k` now maps to `v`.
#[verifier::external_body]
pub(crate) fn fx_insert_trace<V>(m: &mut FxHashMap<TraceId, V>, k: TraceId, v: V)
    ensures
        final(m)@ == old(m)@.insert(k, v),
{
    m.insert(k, v);
}

/// `HashMap::remove` on a map keyed by trace id: removes `k` and hands back its value.
#[verifier::external_body]
pub(crate) fn fx_remove_trace<V>(m: &mut FxHashMap<TraceId, V>, k: &TraceId) -> (r: Option<V>)
    ensures
        final(m)@ == old(m)@.remove(*k),
        match r {
            Some(v) => old(m)@.contains_key(*k) && v == old(m)@[*k],
            None => !old(m)@.contains_key(*k),
        },
{
    m.remove(k)
}

/// `HashMap::get` on a map keyed by span id: the value stored under `k`, if any.
#[verifier::external_body]
pub(crate) fn fx_get_span<'a, V>(m: &'a FxHashMap<SpanId, V>, k: &SpanId) -> (r: Option<&'a V>)
    ensures
        match r {
            Some(v) => m@.contains_key(*k) && *v == m@[*k],
            None => !m@.contains_key(*k),
        },
{
    m.get(k)
}

/// `HashMap::insert` on a map keyed by span id: `k` now maps to `v`.
#[verifier::external_body]
pub(crate) fn fx_insert_span<V>(m: &mut FxHashMap<SpanId, V>, k: SpanId, v: V)
    ensures
        final(m)@ == old(m)@.insert(k, v),
{
    m.insert(k, v);
}

/// `HashMap::remove` on a map keyed by span id: removes `k` and hands back its value.
#[verifier::external_body]
pub(crate) fn fx_remove_span<V>(m: &mut FxHashMap<SpanId, V>, k: &SpanId) -> (r: Option<V>)
    ensures
        final(m)@ == old(m)@.remove(*k),
        match r {
            Some(v) => old(m)@.contains_key(*k) && v == old(m)@[*k],
            None => !old(m)@.contains_key(*k),
        },
{
    m.remove(k)
}

/// `HashMap::get` on a map keyed by `String`, looked up by `&str`: finds the key whose
/// characters are those of `k`.
#[verifier::external_body]
pub(crate) fn fx_get_str<V: Copy>(m: &FxHashMap<String, V>, k: &str) -> (r: Option<V>)
    ensures
        match r {
            Some(v) => exists|key: String| #[trigger] m@.contains_key(key) && key@ == k@ && m@[key] == v,
            None => forall|key: String| #[trigger] m@.contains_key(key) ==> key@ != k@,
        },
{
    m.get(k).copied()
}

/// `HashMap::insert` on a map keyed by `String`, for a key whose characters no present key has.
#[verifier::external_body]
pub(crate) fn fx_insert_str<V>(m: &mut FxHashMap<String, V>, k: String, v: V)
    requires
        forall|key: String| #[trigger] old(m)@.contains_key(key) ==> key@ != k@,
    ensures
        final(m)@ == old(m)@.insert(k, v),
{
    m.insert(k, v);
}

} // verus!
