//! The OTLP/HTTP listener's decisions: which encoding a body is in, and which HTTP status
//! answers each ingest outcome.

use vstd::prelude::*;

use super::convert::{ContentType, RejectReason};
use super::handler::IngestError;
use super::receiver_state::Transport;
use crate::text::{chars_of, starts_with_chars};

verus! {

/// The media type that marks an OTLP/JSON body.
pub open spec fn json_media_type() -> Seq<char> {
    seq!['a', 'p', 'p', 'l', 'i', 'c', 'a', 't', 'i', 'o', 'n', '/', 'j', 's', 'o', 'n']
}

/// The encoding of a body with the given `Content-Type` value (`None` when the header is
/// missing or not text), and the transport its spans are counted under: a value starting
/// `application/json` is JSON; anything else, or nothing, is protobuf.
pub fn classify_content_type(header: Option<&str>) -> (r: (ContentType, Transport))
    ensures
        r == (if header matches Some(ct) && ct@.len() >= 16 && ct@.take(16) == json_media_type() {
            (ContentType::Json, Transport::HttpJsonV4318)
        } else {
            (ContentType::Protobuf, Transport::HttpProtobufV4318)
        }),
{
    match header {
        Some(ct) => {
            let cs = chars_of(ct);
            let json = vec!['a', 'p', 'p', 'l', 'i', 'c', 'a', 't', 'i', 'o', 'n', '/', 'j', 's', 'o', 'n'];
            assert(json@ == json_media_type());
            if starts_with_chars(cs.as_slice(), json.as_slice()) {
                (ContentType::Json, Transport::HttpJsonV4318)
            } else {
                (ContentType::Protobuf, Transport::HttpProtobufV4318)
            }
        },
        None => (ContentType::Protobuf, Transport::HttpProtobufV4318),
    }
}

/// The HTTP status answering an ingest outcome: accepted, or an empty request (a named,
/// expected condition), is 200; any other reject 400; a full writer queue 429 (retry); a
/// panicked conversion or a missing writer 500.
pub open spec fn status_of(outcome: Result<(), IngestError>) -> u16 {
    match outcome {
        Ok(()) => 200,
        Err(IngestError::Reject(RejectReason::EmptyPayload)) => 200,
        Err(IngestError::Reject(_)) => 400,
        Err(IngestError::ConversionPanicked) => 500,
        Err(IngestError::Backpressure) => 429,
        Err(IngestError::WriterGone) => 500,
    }
}

/// The HTTP status for an ingest outcome (see `status_of`).
pub fn http_status(outcome: &Result<(), IngestError>) -> (r: u16)
    ensures
        r == status_of(*outcome),
{
    match outcome {
        Ok(()) => 200,
        Err(IngestError::Reject(RejectReason::EmptyPayload)) => 200,
        Err(IngestError::Reject(_)) => 400,
        Err(IngestError::ConversionPanicked) => 500,
        Err(IngestError::Backpressure) => 429,
        Err(IngestError::WriterGone) => 500,
    }
}

} // verus!
