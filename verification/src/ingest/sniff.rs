//! The OTLP/gRPC port's first-bytes check: an HTTP/2 connection preface goes on to the gRPC
//! server; anything else (most often an OTLP/HTTP exporter pointed at the gRPC port) gets a
//! canned 400 that names the fix.

use vstd::prelude::*;

use crate::text::{append_str, nat_decimal, nat_decimal_exec, push_char, string_of};
use vstd::string::StringSliceAdditionalSpecFns;

verus! {

/// How many times the first bytes are peeked before giving up on a slow preface.
pub const PREFACE_ATTEMPTS: usize = 5;

/// What one peek at a connection's first four bytes decides.
#[derive(Debug, Clone, Copy, PartialEq, Eq, Structural)]
pub enum PeekVerdict {
    /// The bytes start an HTTP/2 connection preface (`PRI `).
    Grpc,
    /// Anything else: an HTTP/1.x request line, a closed or failed connection.
    Misdirected,
    /// Fewer than four bytes so far: peek again.
    Retry,
}

/// The verdict of a peek that returned `peeked` (`None` for an error) with `buf` holding the
/// bytes: four bytes decide by whether they are `PRI `; none (the peer closed) or an error
/// is misdirected; a short read is retried.
pub open spec fn peek_verdict_spec(peeked: Option<usize>, buf: [u8; 4]) -> PeekVerdict {
    match peeked {
        Some(n) => if n == 4 {
            if buf@ == seq![0x50u8, 0x52u8, 0x49u8, 0x20u8] {
                PeekVerdict::Grpc
            } else {
                PeekVerdict::Misdirected
            }
        } else if n == 0 {
            PeekVerdict::Misdirected
        } else {
            PeekVerdict::Retry
        },
        None => PeekVerdict::Misdirected,
    }
}

/// Decides one peek (see `peek_verdict_spec`).
pub fn peek_verdict(peeked: Option<usize>, buf: &[u8; 4]) -> (r: PeekVerdict)
    ensures
        r == peek_verdict_spec(peeked, *buf),
{
    match peeked {
        Some(n) => if n == 4 {
            if buf[0] == 0x50 && buf[1] == 0x52 && buf[2] == 0x49 && buf[3] == 0x20 {
                assert(buf@ =~= seq![0x50u8, 0x52u8, 0x49u8, 0x20u8]);
                PeekVerdict::Grpc
            } else {
                PeekVerdict::Misdirected
            }
        } else if n == 0 {
            PeekVerdict::Misdirected
        } else {
            PeekVerdict::Retry
        },
        None => PeekVerdict::Misdirected,
    }
}

/// What the `attempt`-th peek (counting from 0) decides: `Some(true)` hands the connection
/// to the gRPC server, `Some(false)` answers it with the canned 400, `None` peeks again. A
/// connection still short of four bytes after `PREFACE_ATTEMPTS` peeks is answered with the
/// 400.
pub open spec fn preface_step_spec(attempt: usize, verdict: PeekVerdict) -> Option<bool> {
    match verdict {
        PeekVerdict::Grpc => Some(true),
        PeekVerdict::Misdirected => Some(false),
        PeekVerdict::Retry => if attempt + 1 >= PREFACE_ATTEMPTS {
            Some(false)
        } else {
            None
        },
    }
}

/// Decides one peek in the sequence (see `preface_step_spec`).
pub fn preface_step(attempt: usize, verdict: PeekVerdict) -> (r: Option<bool>)
    ensures
        r == preface_step_spec(attempt, verdict),
{
    match verdict {
        PeekVerdict::Grpc => Some(true),
        PeekVerdict::Misdirected => Some(false),
        PeekVerdict::Retry => if attempt >= PREFACE_ATTEMPTS - 1 {
            Some(false)
        } else {
            None
        },
    }
}

/// The text of the canned reply's body.
pub open spec fn misdirect_text() -> Seq<char> {
    "This is the OTLP/gRPC port (4317). Point your OTLP/HTTP exporter at :4318 instead."@
}

/// The body of the canned reply to a misdirected connection.
pub fn misdirect_body() -> (r: &'static str)
    ensures
        r@ == misdirect_text(),
{
    "This is the OTLP/gRPC port (4317). Point your OTLP/HTTP exporter at :4318 instead."
}

/// The whole canned reply: a `400 Bad Request` with a plain-text body naming the OTLP/HTTP
/// port, its `Content-Length` the body's length in bytes, closing the connection.
pub fn misdirect_response() -> (r: String)
    ensures
        r@ == "HTTP/1.1 400 Bad Request\r\nContent-Type: text/plain\r\nContent-Length: "@ + nat_decimal(
            vstd::utf8::encode_utf8(misdirect_text()).len() as nat,
        ) + "\r\nConnection: close\r\n\r\n"@ + misdirect_text(),
{
    let body = misdirect_body();
    proof {
        reveal_strlit("This is the OTLP/gRPC port (4317). Point your OTLP/HTTP exporter at :4318 instead.");
        assert(vstd::string::is_ascii(body));
        broadcast use vstd::string::is_ascii_spec_bytes;
        assert(body.spec_bytes().len() == body@.len());
    }
    let mut r = String::new();
    append_str(&mut r, "HTTP/1.1 400 Bad Request\r\nContent-Type: text/plain\r\nContent-Length: ");
    let len_text = string_of(nat_decimal_exec(body.len() as u64).as_slice());
    append_str(&mut r, len_text.as_str());
    append_str(&mut r, "\r\nConnection: close\r\n\r\n");
    append_str(&mut r, body);
    r
}

} // verus!
