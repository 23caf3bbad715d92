//! Receiver diagnostics kept by the ingest layer: recent envelope rejects and per-transport
//! span arrival counts.

use std::collections::VecDeque;
use vstd::prelude::*;

use crate::receiver::sat_add;

verus! {

/// How many envelope rejects the ring keeps; older ones are pushed out first.
pub const REJECT_RING_CAPACITY: usize = 100;

/// One envelope-level reject, recorded for the receiver panel.
#[derive(Debug, Clone)]
pub struct RejectRecord {
    pub reason: String,
    pub at_unix_nano: u64,
}

/// Which listener accepted a batch.
#[derive(Debug, Clone, Copy, PartialEq, Eq, Structural)]
pub enum Transport {
    GrpcV4317,
    HttpProtobufV4318,
    HttpJsonV4318,
}

/// Per-transport span arrival counts (each held at `u64::MAX`).
#[derive(Debug, Clone, Copy)]
pub struct ArrivalCounts {
    pub grpc_v4317: u64,
    pub http_protobuf_v4318: u64,
    pub http_json_v4318: u64,
}

impl Default for ArrivalCounts {
    fn default() -> (r: Self)
        ensures
            r.grpc_v4317 == 0,
            r.http_protobuf_v4318 == 0,
            r.http_json_v4318 == 0,
    {
        ArrivalCounts { grpc_v4317: 0, http_protobuf_v4318: 0, http_json_v4318: 0 }
    }
}

impl ArrivalCounts {
    /// Adds `span_count` to the count of `transport` only.
    pub fn record(&mut self, transport: Transport, span_count: u64)
        ensures
            final(self).grpc_v4317 == (if transport == Transport::GrpcV4317 {
                sat_add(old(self).grpc_v4317, span_count as int)
            } else {
                old(self).grpc_v4317
            }),
            final(self).http_protobuf_v4318 == (if transport == Transport::HttpProtobufV4318 {
                sat_add(old(self).http_protobuf_v4318, span_count as int)
            } else {
                old(self).http_protobuf_v4318
            }),
            final(self).http_json_v4318 == (if transport == Transport::HttpJsonV4318 {
                sat_add(old(self).http_json_v4318, span_count as int)
            } else {
                old(self).http_json_v4318
            }),
    {
        match transport {
            Transport::GrpcV4317 => self.grpc_v4317 = self.grpc_v4317.saturating_add(span_count),
            Transport::HttpProtobufV4318 => self.http_protobuf_v4318 = self.http_protobuf_v4318.saturating_add(span_count),
            Transport::HttpJsonV4318 => self.http_json_v4318 = self.http_json_v4318.saturating_add(span_count),
        }
    }
}

/// The recent envelope rejects, oldest first, at most `REJECT_RING_CAPACITY` of them.
#[derive(Debug)]
pub struct RejectLog {
    ring: VecDeque<RejectRecord>,
}

/// The ring after recording `r`: appended at the back, the oldest pushed out when full.
pub open spec fn ring_push(ring: Seq<RejectRecord>, r: RejectRecord) -> Seq<RejectRecord> {
    if ring.len() >= REJECT_RING_CAPACITY {
        ring.drop_first().push(r)
    } else {
        ring.push(r)
    }
}

impl Default for RejectLog {
    fn default() -> (r: Self)
        ensures
            r@ == Seq::<RejectRecord>::empty(),
    {
        RejectLog { ring: VecDeque::new() }
    }
}

impl View for RejectLog {
    type V = Seq<RejectRecord>;

    closed spec fn view(&self) -> Seq<RejectRecord> {
        self.ring@
    }
}

impl RejectLog {
    #[verifier::type_invariant]
    spec fn bounded(&self) -> bool {
        self.ring@.len() <= REJECT_RING_CAPACITY
    }

    /// Records a reject, pushing out the oldest one when the ring is full.
    pub fn push(&mut self, reason: String, at_unix_nano: u64)
        ensures
            final(self)@ == ring_push(old(self)@, RejectRecord { reason, at_unix_nano }),
            final(self)@.len() <= REJECT_RING_CAPACITY,
    {
        proof {
            use_type_invariant(&*self);
        }
        let mut ring: VecDeque<RejectRecord> = VecDeque::new();
        std::mem::swap(&mut ring, &mut self.ring);
        if ring.len() == REJECT_RING_CAPACITY {
            ring.pop_front();
        }
        ring.push_back(RejectRecord { reason, at_unix_nano });
        self.ring = ring;
        proof {
            if old(self)@.len() >= REJECT_RING_CAPACITY {
                assert(old(self)@.drop_first() =~= old(self)@.subrange(1, old(self)@.len() as int));
            }
        }
    }

    /// The recorded rejects, oldest first.
    pub fn recent(&self) -> (r: &VecDeque<RejectRecord>)
        ensures
            r@ == self@,
    {
        &self.ring
    }

    /// How many rejects are held.
    pub fn len(&self) -> (r: usize)
        ensures
            r == self@.len(),
            r <= REJECT_RING_CAPACITY,
    {
        proof {
            use_type_invariant(self);
        }
        self.ring.len()
    }

    /// Whether no reject is held.
    pub fn is_empty(&self) -> (r: bool)
        ensures
            r == (self@.len() == 0),
    {
        self.ring.len() == 0
    }
}

/// The ingest-layer half of the receiver data: rejects plus arrival counts.
#[derive(Debug)]
pub struct ReceiverState {
    pub rejects: RejectLog,
    pub arrivals: ArrivalCounts,
}

impl Default for ReceiverState {
    fn default() -> (r: Self)
        ensures
            r.rejects@ == Seq::<RejectRecord>::empty(),
            r.arrivals.grpc_v4317 == 0,
            r.arrivals.http_protobuf_v4318 == 0,
            r.arrivals.http_json_v4318 == 0,
    {
        ReceiverState { rejects: RejectLog::default(), arrivals: ArrivalCounts::default() }
    }
}

} // verus!
