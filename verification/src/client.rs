//! Reading the raw HTTP/1.1 response that the `list` and `--dump` client gets back from a
//! running instance's read API: where the headers end, the status line, and the body.

use vstd::prelude::*;

use crate::ingest::convert::json_error_text;

verus! {

/// A failed read-API request, with a message for the user.
pub struct ApiError(pub String);

/// Whether the four bytes at `i` are `\r\n\r\n`.
pub open spec fn blank_line_at(raw: Seq<u8>, i: int) -> bool {
    0 <= i && i + 4 <= raw.len() && raw[i] == 13 && raw[i + 1] == 10 && raw[i + 2] == 13 && raw[i + 3] == 10
}

/// The first position of `\r\n\r\n` at or after `i`, if any.
pub open spec fn header_end_from(raw: Seq<u8>, i: int) -> Option<int>
    decreases raw.len() - i,
{
    if i < 0 || i + 4 > raw.len() {
        None
    } else if blank_line_at(raw, i) {
        Some(i)
    } else {
        header_end_from(raw, i + 1)
    }
}

/// The first position of byte `b` at or after `i`, or `s.len()`.
pub open spec fn byte_from(s: Seq<u8>, b: u8, i: int) -> int
    decreases s.len() - i,
{
    if i < 0 || i >= s.len() {
        s.len() as int
    } else if s[i] == b {
        i
    } else {
        byte_from(s, b, i + 1)
    }
}

/// Where the first line of `head` ends, as `str::lines` cuts it: at the first `\n`, less a
/// `\r` right before it.
pub open spec fn first_line_end(head: Seq<u8>) -> int {
    let n = byte_from(head, 10, 0);
    if n < head.len() && n > 0 && head[n - 1] == 13 {
        n - 1
    } else {
        n
    }
}

/// Whether ` 200 ` occurs in `line`.
pub open spec fn says_200(line: Seq<u8>) -> bool {
    exists|i: int| 0 <= i && i + 5 <= line.len() && #[trigger] line.subrange(i, i + 5) == seq![32u8, 50u8, 48u8, 48u8, 32u8]
}

/// A raw response split into its parts.
#[derive(Debug, Clone, Copy, PartialEq, Eq, Structural)]
pub enum RawResponse {
    /// No blank line ends the headers.
    Malformed,
    /// The status line is `raw[..status_line_end]`; `ok` tells whether it says ` 200 `; the
    /// body is `raw[body_start..]`.
    Parsed { status_line_end: usize, ok: bool, body_start: usize },
}

/// How a raw response splits (see `RawResponse`).
pub open spec fn parse_spec(raw: Seq<u8>) -> RawResponse {
    match header_end_from(raw, 0) {
        None => RawResponse::Malformed,
        Some(h) => {
            let head = raw.take(h);
            let e = first_line_end(head);
            RawResponse::Parsed {
                status_line_end: e as usize,
                ok: says_200(head.take(e)),
                body_start: (h + 4) as usize,
            }
        },
    }
}

proof fn lemma_byte_from_bounds(s: Seq<u8>, b: u8, i: int)
    requires
        0 <= i <= s.len(),
    ensures
        i <= byte_from(s, b, i) <= s.len(),
    decreases s.len() - i,
{
    if i < s.len() && s[i] != b {
        lemma_byte_from_bounds(s, b, i + 1);
    }
}

proof fn lemma_header_end_bounds(raw: Seq<u8>, i: int)
    requires
        0 <= i,
    ensures
        header_end_from(raw, i) matches Some(h) ==> i <= h && h + 4 <= raw.len(),
    decreases raw.len() - i,
{
    if i + 4 <= raw.len() && !blank_line_at(raw, i) {
        lemma_header_end_bounds(raw, i + 1);
    }
}

/// Splits a raw HTTP/1.1 response (see `parse_spec`).
pub fn parse_raw_response(raw: &[u8]) -> (r: RawResponse)
    ensures
        r == parse_spec(raw@),
{
    let len = raw.len();
    let mut i: usize = 0;
    let mut found = false;
    while !found && i < len && len - i >= 4
        invariant
            len == raw@.len(),
            i <= raw@.len(),
            header_end_from(raw@, 0) == (if found {
                Some(i as int)
            } else {
                header_end_from(raw@, i as int)
            }),
        decreases raw@.len() - i + (if found { 0int } else { 1int }),
    {
        if raw[i] == 13 && raw[i + 1] == 10 && raw[i + 2] == 13 && raw[i + 3] == 10 {
            found = true;
        } else {
            i = i + 1;
        }
    }
    if !found {
        return RawResponse::Malformed;
    }
    proof {
        lemma_header_end_bounds(raw@, 0);
    }
    let h = i;
    let head = vstd::slice::slice_subrange(raw, 0, h);
    assert(head@ =~= raw@.take(h as int));
    let mut n: usize = 0;
    while n < head.len() && head[n] != 10
        invariant
            n <= head@.len(),
            byte_from(head@, 10, 0) == byte_from(head@, 10, n as int),
        decreases head@.len() - n,
    {
        n = n + 1;
    }
    proof {
        lemma_byte_from_bounds(head@, 10, 0);
    }
    let e = if n < head.len() && n > 0 && head[n - 1] == 13 {
        n - 1
    } else {
        n
    };
    let mut ok = false;
    let mut k: usize = 0;
    while !ok && k < e && e - k >= 5
        invariant
            e <= head@.len(),
            k <= e,
            ok ==> says_200(head@.take(e as int)),
            !ok ==> forall|j: int| 0 <= j < k ==> #[trigger] head@.take(e as int).subrange(j, j + 5) != seq![32u8, 50u8, 48u8, 48u8, 32u8],
        decreases e - k + (if ok { 0int } else { 1int }),
    {
        if head[k] == 32 && head[k + 1] == 50 && head[k + 2] == 48 && head[k + 3] == 48 && head[k + 4] == 32 {
            assert(head@.take(e as int).subrange(k as int, k + 5) =~= seq![32u8, 50u8, 48u8, 48u8, 32u8]);
            ok = true;
        } else {
            assert(head@.take(e as int).subrange(k as int, k + 5)[0] == head@[k as int]);
            assert(head@.take(e as int).subrange(k as int, k + 5)[1] == head@[k + 1]);
            assert(head@.take(e as int).subrange(k as int, k + 5)[2] == head@[k + 2]);
            assert(head@.take(e as int).subrange(k as int, k + 5)[3] == head@[k + 3]);
            assert(head@.take(e as int).subrange(k as int, k + 5)[4] == head@[k + 4]);
            k = k + 1;
        }
    }
    RawResponse::Parsed { status_line_end: e, ok, body_start: h + 4 }
}


/// `serde_json::Value`, the parsed JSON body.
#[verifier::external_type_specification]
#[verifier::external_body]
pub struct ExJsonValue(serde_json::Value);

/// A JSON value as plain values: numbers are kept as the text `serde_json` gives them,
/// object members in the order `serde_json` keeps them.
#[derive(Debug, PartialEq)]
pub enum JsonValue {
    Null,
    Bool(bool),
    Number(String),
    Str(String),
    Array(Vec<JsonValue>),
    Object(Vec<(String, JsonValue)>),
}

/// Whether `bytes` is one JSON document.
pub uninterp spec fn json_value_parses(bytes: Seq<u8>) -> bool;

/// The JSON value that `bytes` hold.
pub uninterp spec fn json_value_of(bytes: Seq<u8>) -> JsonValue;

/// The plain form of a parsed `serde_json::Value`, member for member. Used by the parsing
/// wrapper below to convert what it returns.
#[verifier::external_body]
fn json_model(v: serde_json::Value) -> JsonValue {
    match v {
        serde_json::Value::Null => JsonValue::Null,
        serde_json::Value::Bool(b) => JsonValue::Bool(b),
        serde_json::Value::Number(n) => JsonValue::Number(n.to_string()),
        serde_json::Value::String(s) => JsonValue::Str(s),
        serde_json::Value::Array(a) => JsonValue::Array(a.into_iter().map(json_model).collect()),
        serde_json::Value::Object(m) => JsonValue::Object(m.into_iter().map(|(k, v)| (k, json_model(v))).collect()),
    }
}

/// `serde_json::from_slice` into a `serde_json::Value`, converted to `JsonValue`: succeeds
/// exactly on the bytes that hold one JSON document, and what it returns is a deterministic
/// function of the bytes, named `json_value_of`.
#[verifier::external_body]
fn parse_json_value(bytes: &[u8]) -> (r: Result<JsonValue, serde_json::Error>)
    ensures
        r is Ok <==> json_value_parses(bytes@),
        r matches Ok(v) ==> v == json_value_of(bytes@),
{
    serde_json::from_slice::<serde_json::Value>(bytes).map(json_model)
}

/// Why a raw response yields no JSON body.
#[derive(Debug)]
pub enum ResponseError {
    /// No blank line ends the headers.
    Malformed,
    /// The status line, `raw[..status_line_end]`, does not say ` 200 `.
    Status { status_line_end: usize },
    /// The body is not JSON; the parser's message.
    Body(String),
}

/// The JSON body of a raw `200` response (see `parse_spec`).
pub fn response_json(raw: &[u8]) -> (r: Result<JsonValue, ResponseError>)
    ensures
        match parse_spec(raw@) {
            RawResponse::Malformed => r matches Err(ResponseError::Malformed),
            RawResponse::Parsed { status_line_end, ok, body_start } => if !ok {
                r matches Err(ResponseError::Status { status_line_end: e }) && e == status_line_end
            } else {
                &&& body_start <= raw@.len()
                &&& r is Ok <==> json_value_parses(raw@.subrange(body_start as int, raw@.len() as int))
                &&& r matches Ok(v) ==> v == json_value_of(raw@.subrange(body_start as int, raw@.len() as int))
                &&& r is Err ==> r matches Err(ResponseError::Body(_))
            },
        },
{
    match parse_raw_response(raw) {
        RawResponse::Malformed => Err(ResponseError::Malformed),
        RawResponse::Parsed { status_line_end, ok, body_start } => {
            if !ok {
                return Err(ResponseError::Status { status_line_end });
            }
            proof {
                lemma_header_end_bounds(raw@, 0);
            }
            let body = vstd::slice::slice_subrange(raw, body_start, raw.len());
            assert(body@ =~= raw@.subrange(body_start as int, raw@.len() as int));
            match parse_json_value(body) {
                Ok(v) => Ok(v),
                Err(e) => Err(ResponseError::Body(json_error_text(&e))),
            }
        },
    }
}

} // verus!
