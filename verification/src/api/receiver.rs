//! The receiver panel: arrivals and counters first, then the recent envelope rejects.

use vstd::prelude::*;

use crate::ingest::receiver_state::{ArrivalCounts, RejectRecord, ReceiverState};
use crate::receiver::Counters;
use crate::store::Store;

verus! {

/// The receiver panel's data: arrival counts and store counters lead, the recent rejects
/// (oldest first) trail.
pub struct ReceiverResponse {
    pub arrivals: ArrivalCounts,
    pub counters: Counters,
    pub recent_rejects: Vec<RejectRecord>,
}

/// The reason text and time of each reject record.
pub open spec fn reject_views(s: Seq<RejectRecord>) -> Seq<(Seq<char>, u64)> {
    s.map_values(|r: RejectRecord| (r.reason@, r.at_unix_nano))
}

/// `GET /api/receiver`: the store's counters, the arrival counts and a copy of the reject ring.
pub fn get_receiver(store: &Store, receiver: &ReceiverState) -> (r: ReceiverResponse)
    ensures
        r.arrivals == receiver.arrivals,
        r.counters == store.counts(),
        reject_views(r.recent_rejects@) == reject_views(receiver.rejects@),
{
    let ring = receiver.rejects.recent();
    let mut recent_rejects: Vec<RejectRecord> = Vec::new();
    let mut i: usize = 0;
    while i < ring.len()
        invariant
            ring@ == receiver.rejects@,
            i <= ring@.len(),
            reject_views(recent_rejects@) == reject_views(ring@.take(i as int)),
        decreases ring@.len() - i,
    {
        let rec = &ring[i];
        let copy = RejectRecord { reason: rec.reason.clone(), at_unix_nano: rec.at_unix_nano };
        let ghost before = reject_views(recent_rejects@);
        recent_rejects.push(copy);
        assert(reject_views(recent_rejects@) =~= before.push((copy.reason@, copy.at_unix_nano)));
        assert(reject_views(ring@.take(i + 1)) =~= reject_views(ring@.take(i as int)).push((rec.reason@, rec.at_unix_nano)));
        i = i + 1;
    }
    assert(ring@.take(ring@.len() as int) =~= ring@);
    ReceiverResponse { arrivals: receiver.arrivals, counters: store.counters(), recent_rejects }
}

} // verus!
