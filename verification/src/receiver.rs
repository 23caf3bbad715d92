//! Counters produced as a byproduct of store mutations.

use vstd::prelude::*;

verus! {

/// Store-layer counters. Each counts events and holds at `u64::MAX` rather than wrapping.
#[derive(Debug, Clone, Copy)]
pub struct Counters {
    pub duplicate_span: u64,
    pub attribute_key_cap_hit: u64,
    pub late_span_after_eviction: u64,
    pub evicted_traces: u64,
    /// Per-span decode failures within an otherwise-parseable envelope: the span is dropped,
    /// the rest of the batch is kept.
    pub malformed_span: u64,
}

impl Default for Counters {
    fn default() -> (r: Self)
        ensures
            r.duplicate_span == 0,
            r.attribute_key_cap_hit == 0,
            r.late_span_after_eviction == 0,
            r.evicted_traces == 0,
            r.malformed_span == 0,
    {
        Counters {
            duplicate_span: 0,
            attribute_key_cap_hit: 0,
            late_span_after_eviction: 0,
            evicted_traces: 0,
            malformed_span: 0,
        }
    }
}

/// `a + b`, held at `u64::MAX`.
pub open spec fn sat_add(a: u64, b: int) -> u64 {
    if a + b <= u64::MAX {
        (a + b) as u64
    } else {
        u64::MAX
    }
}

} // verus!
