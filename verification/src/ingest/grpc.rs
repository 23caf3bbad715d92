//! The OTLP/gRPC listener's decision: which gRPC status answers each ingest outcome.

use vstd::prelude::*;

use super::convert::RejectReason;
use super::handler::IngestError;

verus! {

/// The gRPC answer to an ingest outcome.
#[derive(Debug, Clone, Copy, PartialEq, Eq, Structural)]
pub enum GrpcReply {
    /// A normal, empty export response.
    Success,
    /// `INVALID_ARGUMENT`, carrying the reject reason.
    InvalidArgument,
    /// `INTERNAL`: a conversion panicked or the writer is gone.
    Internal,
    /// `RESOURCE_EXHAUSTED`: the writer's queue stayed full past the ingest timeout (retry).
    ResourceExhausted,
}

/// Accepted, or an empty request (a named, expected condition reported through the reject
/// ring), is answered normally; any other reject is an invalid argument; a full writer
/// queue is resource exhaustion; a panicked conversion or a missing writer is internal.
pub open spec fn grpc_reply_of(outcome: Result<(), IngestError>) -> GrpcReply {
    match outcome {
        Ok(()) => GrpcReply::Success,
        Err(IngestError::Reject(RejectReason::EmptyPayload)) => GrpcReply::Success,
        Err(IngestError::Reject(_)) => GrpcReply::InvalidArgument,
        Err(IngestError::ConversionPanicked) => GrpcReply::Internal,
        Err(IngestError::Backpressure) => GrpcReply::ResourceExhausted,
        Err(IngestError::WriterGone) => GrpcReply::Internal,
    }
}

/// The gRPC answer for an ingest outcome (see `grpc_reply_of`).
pub fn grpc_reply(outcome: &Result<(), IngestError>) -> (r: GrpcReply)
    ensures
        r == grpc_reply_of(*outcome),
{
    match outcome {
        Ok(()) => GrpcReply::Success,
        Err(IngestError::Reject(RejectReason::EmptyPayload)) => GrpcReply::Success,
        Err(IngestError::Reject(_)) => GrpcReply::InvalidArgument,
        Err(IngestError::ConversionPanicked) => GrpcReply::Internal,
        Err(IngestError::Backpressure) => GrpcReply::ResourceExhausted,
        Err(IngestError::WriterGone) => GrpcReply::Internal,
    }
}

} // verus!
