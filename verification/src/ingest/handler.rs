//! The transport-agnostic accept-or-reject decision shared by the gRPC and HTTP listeners.

use vstd::prelude::*;

use super::convert::{
    batch_converts, convert, malformed_count, request_flat, OtlpRequest, RejectReason, SpanBatch,
};
use super::receiver_state::{ring_push, ReceiverState, RejectRecord};
use crate::text::string_of;

verus! {

/// Outcome of the shared decision when a request is not accepted. Each transport maps it to
/// its own wire error.
#[derive(Debug)]
pub enum IngestError {
    Reject(RejectReason),
    /// Conversion panicked; the panic was caught at the handler boundary.
    ConversionPanicked,
    /// The writer's queue stayed full past the ingest timeout (retryable).
    Backpressure,
    /// The writer is gone; retrying will not help.
    WriterGone,
}

/// The text recorded for an empty request.
pub open spec fn empty_payload_text() -> Seq<char> {
    seq!['E', 'm', 'p', 't', 'y', 'P', 'a', 'y', 'l', 'o', 'a', 'd']
}

/// The text recorded for a conversion that panicked.
pub open spec fn panic_text() -> Seq<char> {
    seq!['p', 'a', 'n', 'i', 'c', ' ', 'd', 'u', 'r', 'i', 'n', 'g', ' ', 'c', 'o', 'n', 'v', 'e', 'r', 's', 'i', 'o', 'n']
}

/// `receiver` after recording a reject with reason text `reason` at time `now`.
pub open spec fn reject_recorded(after: ReceiverState, before: ReceiverState, reason: Seq<char>, now: u64) -> bool {
    &&& after.rejects@.len() > 0
    &&& after.rejects@ == ring_push(before.rejects@, after.rejects@.last())
    &&& after.rejects@.last().reason@ == reason
    &&& after.rejects@.last().at_unix_nano == now
    &&& after.arrivals == before.arrivals
}

/// Runs the conversion of a decoded request. An accepted batch is handed back for the writer;
/// an envelope reject is recorded in the receiver's reject ring (at time `now`) and returned.
pub fn accept(receiver: &mut ReceiverState, request: OtlpRequest, now: u64) -> (r: Result<SpanBatch, IngestError>)
    requires
        request_flat(request.resource_spans@).len() <= usize::MAX,
    ensures
        match r {
            Ok(batch) => {
                &&& request_flat(request.resource_spans@).len() > 0
                &&& batch_converts(request_flat(request.resource_spans@), batch.spans@)
                &&& batch.malformed_span_count == malformed_count(request_flat(request.resource_spans@))
                &&& batch.partial == (batch.malformed_span_count > 0)
                &&& final(receiver).rejects@ == old(receiver).rejects@
                &&& final(receiver).arrivals == old(receiver).arrivals
            },
            Err(e) => {
                &&& request_flat(request.resource_spans@).len() == 0
                &&& e == IngestError::Reject(RejectReason::EmptyPayload)
                &&& reject_recorded(*final(receiver), *old(receiver), empty_payload_text(), now)
            },
        },
{
    match convert(request) {
        Ok(batch) => Ok(batch),
        Err(reason) => {
            let text = string_of(vec!['E', 'm', 'p', 't', 'y', 'P', 'a', 'y', 'l', 'o', 'a', 'd'].as_slice());
            receiver.rejects.push(text, now);
            Err(IngestError::Reject(reason))
        },
    }
}

/// Records a conversion that panicked, at time `now`.
pub fn conversion_panicked(receiver: &mut ReceiverState, now: u64) -> (r: IngestError)
    ensures
        r == IngestError::ConversionPanicked,
        reject_recorded(*final(receiver), *old(receiver), panic_text(), now),
{
    let text = string_of(
        vec!['p', 'a', 'n', 'i', 'c', ' ', 'd', 'u', 'r', 'i', 'n', 'g', ' ', 'c', 'o', 'n', 'v', 'e', 'r', 's', 'i', 'o', 'n'].as_slice(),
    );
    receiver.rejects.push(text, now);
    IngestError::ConversionPanicked
}

} // verus!
