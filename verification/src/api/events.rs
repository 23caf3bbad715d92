//! The change feed: invalidation-only events that carry a sequence number and no span data.

use vstd::prelude::*;

use crate::text::{append_str, nat_decimal, nat_decimal_exec, string_of};

verus! {

/// The data line of the change event for sequence number `seq`:
/// `{"type":"changed","seq":N}`.
pub fn event_data(seq: u64) -> (r: String)
    ensures
        r@ == "{\"type\":\"changed\",\"seq\":"@ + nat_decimal(seq as nat) + "}"@,
{
    let mut r = String::new();
    append_str(&mut r, "{\"type\":\"changed\",\"seq\":");
    let digits = string_of(nat_decimal_exec(seq).as_slice());
    append_str(&mut r, digits.as_str());
    append_str(&mut r, "}");
    r
}

} // verus!
