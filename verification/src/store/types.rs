//! Identifiers and attribute values.

use vstd::prelude::*;

use crate::text::push_char;
use vstd::string::StringSliceAdditionalSpecFns;

verus! {

/// A 16-byte OTLP trace id.
#[derive(Debug, Clone, Copy, PartialEq, Eq, Hash)]
pub struct TraceId(pub [u8; 16]);

/// An 8-byte OTLP span id.
#[derive(Debug, Clone, Copy, PartialEq, Eq, Hash)]
pub struct SpanId(pub [u8; 8]);

/// A scalar attribute value. `Double` holds the IEEE-754 bit pattern of the value
/// (`f64::to_bits`), so that the value is carried through the store unchanged.
#[derive(Debug, Clone, PartialEq)]
pub enum AttrValue {
    Str(String),
    Int(i64),
    Double(u64),
    Bool(bool),
}

/// Two attribute values are the same kind and carry the same value.
pub open spec fn same_value(a: AttrValue, b: AttrValue) -> bool {
    match (a, b) {
        (AttrValue::Str(x), AttrValue::Str(y)) => x@ == y@,
        (AttrValue::Int(x), AttrValue::Int(y)) => x == y,
        (AttrValue::Double(x), AttrValue::Double(y)) => x == y,
        (AttrValue::Bool(x), AttrValue::Bool(y)) => x == y,
        _ => false,
    }
}

impl AttrValue {
    /// A copy of this value.
    pub fn copied(&self) -> (r: AttrValue)
        ensures
            same_value(r, *self),
    {
        match self {
            AttrValue::Str(s) => AttrValue::Str(s.clone()),
            AttrValue::Int(i) => AttrValue::Int(*i),
            AttrValue::Double(d) => AttrValue::Double(*d),
            AttrValue::Bool(b) => AttrValue::Bool(*b),
        }
    }
}

/// The lower-case hex digit for `n` (`0 <= n < 16`).
pub open spec fn hex_digit(n: int) -> char {
    if n < 10 {
        (48 + n) as char
    } else {
        (87 + n) as char
    }
}

/// Lower-case hex encoding: two digits per byte, high nibble first.
pub open spec fn hex_of(bytes: Seq<u8>) -> Seq<char> {
    Seq::new(
        2 * bytes.len(),
        |i: int|
            if i % 2 == 0 {
                hex_digit((bytes[i / 2] / 16) as int)
            } else {
                hex_digit((bytes[i / 2] % 16) as int)
            },
    )
}

/// The value of one ASCII hex digit (either case), or `None`.
pub open spec fn hex_value(b: u8) -> Option<u8> {
    if 48 <= b <= 57 {
        Some((b - 48) as u8)
    } else if 97 <= b <= 102 {
        Some((b - 87) as u8)
    } else if 65 <= b <= 70 {
        Some((b - 55) as u8)
    } else {
        None
    }
}

/// The byte that two hex digits denote, high digit first; `None` unless both are hex digits.
pub open spec fn pair_value(hi: u8, lo: u8) -> Option<u8> {
    match (hex_value(hi), hex_value(lo)) {
        (Some(h), Some(l)) => Some((16 * h + l) as u8),
        _ => None,
    }
}

/// Whether `b` is exactly 32 ASCII hex digits (either case).
pub open spec fn is_trace_hex(b: Seq<u8>) -> bool {
    b.len() == 32 && forall|k: int| 0 <= k < 32 ==> #[trigger] hex_value(b[k]) is Some
}

/// The lower-case form of a text of hex digits.
pub open spec fn lower_hex(b: Seq<u8>) -> Seq<char> {
    Seq::new(b.len(), |k: int| hex_digit(hex_value(b[k])->0 as int))
}

/// The trace id that a 32-byte text denotes, parsed as 16 two-character chunks.
pub open spec fn parse_trace_hex(b: Seq<u8>) -> Option<Seq<u8>> {
    if b.len() == 32 && forall|i: int| 0 <= i < 16 ==> #[trigger] pair_value(b[2 * i], b[2 * i + 1]) is Some {
        Some(Seq::new(16, |i: int| pair_value(b[2 * i], b[2 * i + 1])->0))
    } else {
        None
    }
}

fn hex_digit_exec(n: u8) -> (c: char)
    requires
        n < 16,
    ensures
        c == hex_digit(n as int),
{
    if n < 10 {
        (48 + n) as char
    } else {
        (87 + n) as char
    }
}

fn hex_value_exec(b: u8) -> (r: Option<u8>)
    ensures
        r == hex_value(b),
{
    if 48 <= b && b <= 57 {
        Some(b - 48)
    } else if 97 <= b && b <= 102 {
        Some(b - 87)
    } else if 65 <= b && b <= 70 {
        Some(b - 55)
    } else {
        None
    }
}

fn pair_value_exec(hi: u8, lo: u8) -> (r: Option<u8>)
    ensures
        r == pair_value(hi, lo),
{
    match (hex_value_exec(hi), hex_value_exec(lo)) {
        (Some(h), Some(l)) => Some(16 * h + l),
        _ => None,
    }
}

/// Parsing succeeds exactly on 32 hex digits, and the id's hex text is their lower-case form.
proof fn lemma_trace_hex(b: Seq<u8>)
    ensures
        parse_trace_hex(b) is Some <==> is_trace_hex(b),
        parse_trace_hex(b) matches Some(v) ==> hex_of(v) == lower_hex(b),
{
    if b.len() == 32 {
        if is_trace_hex(b) {
            assert forall|i: int| 0 <= i < 16 implies #[trigger] pair_value(b[2 * i], b[2 * i + 1]) is Some by {
                assert(hex_value(b[2 * i]) is Some);
                assert(hex_value(b[2 * i + 1]) is Some);
            }
        }
        if parse_trace_hex(b) is Some {
            assert forall|k: int| 0 <= k < 32 implies #[trigger] hex_value(b[k]) is Some by {
                let i = k / 2;
                assert(pair_value(b[2 * i], b[2 * i + 1]) is Some);
                assert(k == 2 * i || k == 2 * i + 1);
            }
            let v = parse_trace_hex(b)->0;
            assert forall|k: int| 0 <= k < 32 implies #[trigger] hex_of(v)[k] == lower_hex(b)[k] by {
                let i = k / 2;
                assert(pair_value(b[2 * i], b[2 * i + 1]) is Some);
                let h = hex_value(b[2 * i])->0;
                let l = hex_value(b[2 * i + 1])->0;
                assert(h < 16 && l < 16);
                assert(v[i] == (16 * h + l) as u8);
                assert((16 * h + l) / 16 == h && (16 * h + l) % 16 == l) by (nonlinear_arith)
                    requires
                        h < 16,
                        l < 16,
                ;
                assert(k == 2 * i || k == 2 * i + 1);
            }
            assert(hex_of(v) =~= lower_hex(b));
        }
    }
}

impl TraceId {
    /// Lower-case hex, two digits per byte.
    pub fn to_hex(self) -> (s: String)
        ensures
            s@ == hex_of(self.0@),
    {
        let mut s = String::new();
        let mut i: usize = 0;
        while i < 16
            invariant
                i <= 16,
                s@ == hex_of(self.0@.take(i as int)),
            decreases 16 - i,
        {
            let b = self.0[i];
            push_char(&mut s, hex_digit_exec(b / 16));
            push_char(&mut s, hex_digit_exec(b % 16));
            i = i + 1;
            assert(s@ =~= hex_of(self.0@.take(i as int)));
        }
        assert(self.0@.take(16) =~= self.0@);
        s
    }

    /// The id that 32 hex characters (either case) denote; `None` on anything else.
    pub fn from_hex(s: &str) -> (r: Option<TraceId>)
        ensures
            r is Some <==> is_trace_hex(s.spec_bytes()),
            r matches Some(id) ==> parse_trace_hex(s.spec_bytes()) == Some(id.0@),
            r matches Some(id) ==> hex_of(id.0@) == lower_hex(s.spec_bytes()),
            r is None <==> parse_trace_hex(s.spec_bytes()) is None,
    {
        proof {
            lemma_trace_hex(s.spec_bytes());
        }
        let b = s.as_bytes();
        if b.len() != 32 {
            return None;
        }
        let mut bytes = [0u8; 16];
        let mut i: usize = 0;
        while i < 16
            invariant
                b@ == s.spec_bytes(),
                b@.len() == 32,
                i <= 16,
                forall|j: int| 0 <= j < i ==> #[trigger] pair_value(b@[2 * j], b@[2 * j + 1]) == Some(bytes@[j]),
            decreases 16 - i,
        {
            match pair_value_exec(b[2 * i], b[2 * i + 1]) {
                Some(v) => {
                    bytes[i] = v;
                },
                None => {
                    return None;
                },
            }
            i = i + 1;
        }
        assert(bytes@ =~= Seq::new(16, |j: int| pair_value(b@[2 * j], b@[2 * j + 1])->0));
        Some(TraceId(bytes))
    }
}


/// Hex round trip: the text that `TraceId::to_hex` produces for an id is parsed by
/// `TraceId::from_hex` back to exactly that id.
pub proof fn lemma_hex_round_trip(id: TraceId)
    ensures
        parse_trace_hex(vstd::utf8::encode_utf8(hex_of(id.0@))) == Some(id.0@),
{
    let h = hex_of(id.0@);
    assert(vstd::utf8::is_ascii_chars(h));
    vstd::utf8::is_ascii_chars_encode_utf8(h);
    let b = vstd::utf8::encode_utf8(h);
    assert forall|i: int| 0 <= i < 16 implies #[trigger] pair_value(b[2 * i], b[2 * i + 1]) == Some(
        id.0@[i],
    ) by {
        assert(h[2 * i] as u8 == b[2 * i]);
        assert(h[2 * i + 1] as u8 == b[2 * i + 1]);
        let x = id.0@[i];
        assert((2 * i) / 2 == i && (2 * i) % 2 == 0);
        assert((2 * i + 1) / 2 == i && (2 * i + 1) % 2 == 1);
        assert(16 * (x / 16) + x % 16 == x);
    }
    assert(parse_trace_hex(b)->0 =~= id.0@);
}

} // verus!
