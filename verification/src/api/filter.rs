//! The span filter query language: `query := term (WS term)*`,
//! `term := KEY OP VALUE | bareword`. A malformed term (unknown operator, unterminated quote,
//! bad value) is dropped and reported back rather than failing the query.

use vstd::prelude::*;

use crate::store::interner::InternState;
use crate::store::trace::Trace;
use crate::store::types::AttrValue;
use crate::store::Store;
use crate::store::types::{parse_trace_hex, TraceId};
use crate::api::traces::{find_trace, TraceLookupError};
use vstd::string::StringSliceAdditionalSpecFns;
use crate::text::{
    chars_eq, chars_of, contains, contains_chars, int_decimal, int_to_decimal, is_whitespace, is_ws, parse_i64,
    parse_i64_spec, parse_u64, parse_u64_spec, string_of, all_digits, digits_value,
};

verus! {

/// A comparison operator.
#[derive(Debug, Clone, Copy, PartialEq, Eq, Structural)]
pub enum Op {
    Eq,
    Ne,
    Gt,
    Gte,
    Lt,
    Lte,
}

/// A parsed filter term.
#[derive(Debug)]
pub enum Term {
    Service(Op, String),
    Status(Op, i32),
    Duration(Op, u64),
    /// `None` key id: the key was never interned by any span, so the term matches nothing.
    Attr(Op, Option<u32>, String),
    Substring(String),
}

/// The abstract form of a term.
pub enum TermView {
    Service(Op, Seq<char>),
    Status(Op, i32),
    Duration(Op, u64),
    Attr(Op, Option<u32>, Seq<char>),
    Substring(Seq<char>),
}

impl View for Term {
    type V = TermView;

    open spec fn view(&self) -> TermView {
        match self {
            Term::Service(op, s) => TermView::Service(*op, s@),
            Term::Status(op, c) => TermView::Status(*op, *c),
            Term::Duration(op, d) => TermView::Duration(*op, *d),
            Term::Attr(op, k, v) => TermView::Attr(*op, *k, v@),
            Term::Substring(s) => TermView::Substring(s@),
        }
    }
}

/// `c` may start a key.
pub open spec fn key_start(c: char) -> bool {
    ('a' <= c <= 'z') || ('A' <= c <= 'Z') || c == '_'
}

/// `c` may continue a key.
pub open spec fn key_char(c: char) -> bool {
    ('a' <= c <= 'z') || ('A' <= c <= 'Z') || ('0' <= c <= '9') || c == '_' || c == '.'
}

/// Whether `c` may start a key (ASCII letter or `_`).
pub fn is_key_start(c: char) -> (r: bool)
    ensures
        r == key_start(c),
{
    ('a' <= c && c <= 'z') || ('A' <= c && c <= 'Z') || c == '_'
}

/// Whether `c` may continue a key (ASCII letter, digit, `_` or `.`).
pub fn is_key_char(c: char) -> (r: bool)
    ensures
        r == key_char(c),
{
    ('a' <= c && c <= 'z') || ('A' <= c && c <= 'Z') || ('0' <= c && c <= '9') || c == '_' || c == '.'
}

/// The tokenizer, as a step function over the characters of the query: `toks` are the tokens
/// so far, `cur` the token being built, `in_q` whether inside quotes, `sq` whether the current
/// token's first character was a quote. A `"..."` run is never split on the white space it
/// contains; inside quotes, backslash-quote is the only escape. Each token carries whether its
/// quote was left open and whether it started quoted.
pub open spec fn tokenize_from(
    q: Seq<char>,
    i: int,
    toks: Seq<(Seq<char>, bool, bool)>,
    cur: Seq<char>,
    in_q: bool,
    sq: bool,
) -> Seq<(Seq<char>, bool, bool)>
    decreases q.len() - i,
{
    if i < 0 || i >= q.len() {
        if cur.len() > 0 {
            toks.push((cur, in_q, sq))
        } else {
            toks
        }
    } else {
        let c = q[i];
        if in_q && c == '\\' && i + 1 < q.len() && q[i + 1] == '"' {
            tokenize_from(q, i + 2, toks, cur.push('"'), in_q, sq)
        } else if c == '"' {
            tokenize_from(q, i + 1, toks, cur, !in_q, if cur.len() == 0 && !in_q { true } else { sq })
        } else if is_ws(c) && !in_q {
            if cur.len() > 0 {
                tokenize_from(q, i + 1, toks.push((cur, false, sq)), Seq::empty(), in_q, false)
            } else {
                tokenize_from(q, i + 1, toks, cur, in_q, sq)
            }
        } else {
            tokenize_from(q, i + 1, toks, cur.push(c), in_q, sq)
        }
    }
}

/// The tokens of a query.
pub open spec fn tokenize_spec(q: Seq<char>) -> Seq<(Seq<char>, bool, bool)> {
    tokenize_from(q, 0, Seq::empty(), Seq::empty(), false, false)
}

/// The abstract form of a token list.
pub open spec fn tokens_view(v: Seq<(Vec<char>, bool, bool)>) -> Seq<(Seq<char>, bool, bool)> {
    v.map_values(|t: (Vec<char>, bool, bool)| (t.0@, t.1, t.2))
}

/// Splits a query into tokens (see `tokenize_from`).
pub fn tokenize(q: &[char]) -> (r: Vec<(Vec<char>, bool, bool)>)
    ensures
        tokens_view(r@) == tokenize_spec(q@),
{
    let mut tokens: Vec<(Vec<char>, bool, bool)> = Vec::new();
    let mut cur: Vec<char> = Vec::new();
    let mut in_quotes = false;
    let mut starts_quoted = false;
    let mut i: usize = 0;
    assert(tokens_view(tokens@) =~= Seq::<(Seq<char>, bool, bool)>::empty());
    while i < q.len()
        invariant
            i <= q@.len(),
            tokenize_spec(q@) == tokenize_from(q@, i as int, tokens_view(tokens@), cur@, in_quotes, starts_quoted),
        decreases q@.len() - i,
    {
        let c = q[i];
        if in_quotes && c == '\\' && i + 1 < q.len() && q[i + 1] == '"' {
            cur.push('"');
            i = i + 2;
        } else if c == '"' {
            if cur.len() == 0 && !in_quotes {
                starts_quoted = true;
            }
            in_quotes = !in_quotes;
            i = i + 1;
        } else if is_whitespace(c) && !in_quotes {
            if cur.len() > 0 {
                let ghost tv = tokens_view(tokens@);
                let text = cur;
                cur = Vec::new();
                tokens.push((text, false, starts_quoted));
                assert(tokens_view(tokens@) =~= tv.push((text@, false, starts_quoted)));
                starts_quoted = false;
            }
            i = i + 1;
        } else {
            cur.push(c);
            i = i + 1;
        }
    }
    if cur.len() > 0 {
        let ghost tv = tokens_view(tokens@);
        tokens.push((cur, in_quotes, starts_quoted));
        assert(tokens_view(tokens@) =~= tv.push((cur@, in_quotes, starts_quoted)));
    }
    tokens
}


/// Where a duration value's number ends, and the unit (in nanoseconds) of its suffix:
/// `ms`, `us`, `ns` or `s`; no suffix means nanoseconds.
pub open spec fn duration_split(raw: Seq<char>) -> (int, u64) {
    let n = raw.len() as int;
    if n >= 2 && raw[n - 2] == 'm' && raw[n - 1] == 's' {
        (n - 2, 1_000_000u64)
    } else if n >= 2 && raw[n - 2] == 'u' && raw[n - 1] == 's' {
        (n - 2, 1_000u64)
    } else if n >= 2 && raw[n - 2] == 'n' && raw[n - 1] == 's' {
        (n - 2, 1u64)
    } else if n >= 1 && raw[n - 1] == 's' {
        (n - 1, 1_000_000_000u64)
    } else {
        (n, 1u64)
    }
}

/// A duration value in nanoseconds: the number times its unit; `None` when the number does
/// not parse or the product overflows.
pub open spec fn parse_duration_spec(raw: Seq<char>) -> Option<u64> {
    let (cut, unit) = duration_split(raw);
    match parse_u64_spec(raw.take(cut)) {
        Some(v) => if v * unit <= u64::MAX {
            Some((v * unit) as u64)
        } else {
            None
        },
        None => None,
    }
}

/// Parses a duration value (see `parse_duration_spec`).
pub fn parse_duration(raw: &[char]) -> (r: Option<u64>)
    ensures
        r == parse_duration_spec(raw@),
{
    let n = raw.len();
    let (cut, unit): (usize, u64) = if n >= 2 && raw[n - 2] == 'm' && raw[n - 1] == 's' {
        (n - 2, 1_000_000)
    } else if n >= 2 && raw[n - 2] == 'u' && raw[n - 1] == 's' {
        (n - 2, 1_000)
    } else if n >= 2 && raw[n - 2] == 'n' && raw[n - 1] == 's' {
        (n - 2, 1)
    } else if n >= 1 && raw[n - 1] == 's' {
        (n - 1, 1_000_000_000)
    } else {
        (n, 1)
    };
    let num = vstd::slice::slice_subrange(raw, 0, cut);
    assert(num@ =~= raw@.take(cut as int));
    match parse_u64(num) {
        Some(v) => v.checked_mul(unit),
        None => None,
    }
}

/// The operator a term's remainder starts with, longest first (`>=` before `=`), and its
/// length.
pub open spec fn op_match(rest: Seq<char>) -> Option<(Op, int)> {
    if rest.len() >= 2 && rest[0] == '>' && rest[1] == '=' {
        Some((Op::Gte, 2))
    } else if rest.len() >= 2 && rest[0] == '<' && rest[1] == '=' {
        Some((Op::Lte, 2))
    } else if rest.len() >= 2 && rest[0] == '!' && rest[1] == '=' {
        Some((Op::Ne, 2))
    } else if rest.len() >= 1 && rest[0] == '=' {
        Some((Op::Eq, 1))
    } else if rest.len() >= 1 && rest[0] == '>' {
        Some((Op::Gt, 1))
    } else if rest.len() >= 1 && rest[0] == '<' {
        Some((Op::Lt, 1))
    } else {
        None
    }
}

fn match_op(rest: &[char]) -> (r: Option<(Op, usize)>)
    ensures
        match r {
            Some((op, len)) => op_match(rest@) == Some((op, len as int)),
            None => op_match(rest@) is None,
        },
{
    let n = rest.len();
    if n >= 2 && rest[0] == '>' && rest[1] == '=' {
        Some((Op::Gte, 2))
    } else if n >= 2 && rest[0] == '<' && rest[1] == '=' {
        Some((Op::Lte, 2))
    } else if n >= 2 && rest[0] == '!' && rest[1] == '=' {
        Some((Op::Ne, 2))
    } else if n >= 1 && rest[0] == '=' {
        Some((Op::Eq, 1))
    } else if n >= 1 && rest[0] == '>' {
        Some((Op::Gt, 1))
    } else if n >= 1 && rest[0] == '<' {
        Some((Op::Lt, 1))
    } else {
        None
    }
}

/// Where the run of key characters starting at `i` ends.
pub open spec fn key_run(t: Seq<char>, i: int) -> int
    decreases t.len() - i,
{
    if 0 <= i < t.len() && key_char(t[i]) {
        key_run(t, i + 1)
    } else {
        i
    }
}

/// The length of the key a term starts with: the leading run of key characters, or 0 when
/// the first character cannot start a key.
pub open spec fn key_len(t: Seq<char>) -> int {
    if t.len() > 0 && key_start(t[0]) {
        key_run(t, 0)
    } else {
        0
    }
}

proof fn lemma_key_run_bounds(t: Seq<char>, i: int)
    requires
        0 <= i <= t.len(),
    ensures
        i <= key_run(t, i) <= t.len(),
    decreases t.len() - i,
{
    if i < t.len() && key_char(t[i]) {
        lemma_key_run_bounds(t, i + 1);
    }
}

fn key_length(t: &[char]) -> (r: usize)
    ensures
        r == key_len(t@),
        r <= t@.len(),
{
    if t.len() == 0 || !is_key_start(t[0]) {
        return 0;
    }
    let mut i: usize = 0;
    while i < t.len() && is_key_char(t[i])
        invariant
            i <= t@.len(),
            key_run(t@, 0) == key_run(t@, i as int),
        decreases t@.len() - i,
    {
        i = i + 1;
    }
    i
}

/// The interned id of `key`, if any span interned it.
pub open spec fn key_lookup(keys: InternState, key: Seq<char>) -> Option<u32> {
    if keys.values.contains(key) {
        Some(keys.values.index_of(key) as u32)
    } else {
        None
    }
}

/// What a token parses to: `Err(())` drops it.
pub open spec fn parse_term_spec(text: Seq<char>, starts_quoted: bool, keys: InternState) -> Result<TermView, ()> {
    let kl = key_len(text);
    if starts_quoted || kl == 0 || kl == text.len() {
        Ok(TermView::Substring(text))
    } else {
        let key = text.take(kl);
        let rest = text.skip(kl);
        match op_match(rest) {
            None => Err(()),
            Some((op, plen)) => {
                let value = rest.skip(plen);
                if key == seq!['s', 'e', 'r', 'v', 'i', 'c', 'e'] {
                    if op == Op::Eq || op == Op::Ne {
                        Ok(TermView::Service(op, value))
                    } else {
                        Err(())
                    }
                } else if key == seq!['s', 't', 'a', 't', 'u', 's'] {
                    if op == Op::Eq || op == Op::Ne {
                        if value == seq!['u', 'n', 's', 'e', 't'] {
                            Ok(TermView::Status(op, 0))
                        } else if value == seq!['o', 'k'] {
                            Ok(TermView::Status(op, 1))
                        } else if value == seq!['e', 'r', 'r', 'o', 'r'] {
                            Ok(TermView::Status(op, 2))
                        } else {
                            Err(())
                        }
                    } else {
                        Err(())
                    }
                } else if key == seq!['d', 'u', 'r', 'a', 't', 'i', 'o', 'n'] {
                    match parse_duration_spec(value) {
                        Some(n) => Ok(TermView::Duration(op, n)),
                        None => Err(()),
                    }
                } else {
                    Ok(TermView::Attr(op, key_lookup(keys, key), value))
                }
            },
        }
    }
}

fn literal_eq(a: &[char], lit: Vec<char>) -> (r: bool)
    ensures
        r == (a@ == lit@),
{
    chars_eq(a, lit.as_slice())
}

/// Parses one token: `KEY OP VALUE`, or a bareword substring term (a token that starts quoted
/// is always a literal substring, never re-parsed). `Err(())` drops the token.
pub fn parse_term(text: &[char], starts_quoted: bool, store: &Store) -> (r: Result<Term, ()>)
    requires
        store.wf(),
    ensures
        match r {
            Ok(t) => parse_term_spec(text@, starts_quoted, store.keys()) == Ok::<TermView, ()>(t@),
            Err(_) => parse_term_spec(text@, starts_quoted, store.keys()) is Err,
        },
{
    let kl = key_length(text);
    if starts_quoted || kl == 0 || kl == text.len() {
        return Ok(Term::Substring(string_of(text)));
    }
    let key = vstd::slice::slice_subrange(text, 0, kl);
    let rest = vstd::slice::slice_subrange(text, kl, text.len());
    assert(key@ =~= text@.take(kl as int));
    assert(rest@ =~= text@.skip(kl as int));
    let (op, plen) = match match_op(rest) {
        Some(m) => m,
        None => return Err(()),
    };
    let value = vstd::slice::slice_subrange(rest, plen, rest.len());
    assert(value@ =~= rest@.skip(plen as int));
    if literal_eq(key, vec!['s', 'e', 'r', 'v', 'i', 'c', 'e']) {
        if op == Op::Eq || op == Op::Ne {
            Ok(Term::Service(op, string_of(value)))
        } else {
            Err(())
        }
    } else if literal_eq(key, vec!['s', 't', 'a', 't', 'u', 's']) {
        if op == Op::Eq || op == Op::Ne {
            if literal_eq(value, vec!['u', 'n', 's', 'e', 't']) {
                Ok(Term::Status(op, 0))
            } else if literal_eq(value, vec!['o', 'k']) {
                Ok(Term::Status(op, 1))
            } else if literal_eq(value, vec!['e', 'r', 'r', 'o', 'r']) {
                Ok(Term::Status(op, 2))
            } else {
                Err(())
            }
        } else {
            Err(())
        }
    } else if literal_eq(key, vec!['d', 'u', 'r', 'a', 't', 'i', 'o', 'n']) {
        match parse_duration(value) {
            Some(n) => Ok(Term::Duration(op, n)),
            None => Err(()),
        }
    } else {
        let key_str = string_of(key);
        let id = store.attribute_key_id(key_str.as_str());
        Ok(Term::Attr(op, id, string_of(value)))
    }
}

/// The terms and the dropped token texts of a token list, in order: an unterminated token or
/// one that does not parse is dropped.
pub open spec fn query_spec(toks: Seq<(Seq<char>, bool, bool)>, keys: InternState) -> (Seq<TermView>, Seq<Seq<char>>)
    decreases toks.len(),
{
    if toks.len() == 0 {
        (Seq::empty(), Seq::empty())
    } else {
        let (terms, dropped) = query_spec(toks.drop_last(), keys);
        let t = toks.last();
        if t.1 {
            (terms, dropped.push(t.0))
        } else {
            match parse_term_spec(t.0, t.2, keys) {
                Ok(tv) => (terms.push(tv), dropped),
                Err(_) => (terms, dropped.push(t.0)),
            }
        }
    }
}

/// Parses a whole query into its terms and the texts of the dropped ones.
pub fn parse_query(q: &str, store: &Store) -> (r: (Vec<Term>, Vec<String>))
    requires
        store.wf(),
    ensures
        (r.0@.map_values(|t: Term| t@), r.1@.map_values(|s: String| s@)) == query_spec(tokenize_spec(q@), store.keys()),
{
    let chars = chars_of(q);
    let tokens = tokenize(chars.as_slice());
    let ghost tv = tokens_view(tokens@);
    let mut terms: Vec<Term> = Vec::new();
    let mut dropped: Vec<String> = Vec::new();
    let mut i: usize = 0;
    assert(tv.take(0) =~= Seq::<(Seq<char>, bool, bool)>::empty());
    assert(terms@.map_values(|t: Term| t@) =~= Seq::<TermView>::empty());
    assert(dropped@.map_values(|s: String| s@) =~= Seq::<Seq<char>>::empty());
    while i < tokens.len()
        invariant
            i <= tokens@.len(),
            tv == tokens_view(tokens@),
            store.wf(),
            (terms@.map_values(|t: Term| t@), dropped@.map_values(|s: String| s@)) == query_spec(tv.take(i as int), store.keys()),
        decreases tokens@.len() - i,
    {
        let ghost t0 = terms@.map_values(|t: Term| t@);
        let ghost d0 = dropped@.map_values(|s: String| s@);
        assert(tv.take(i + 1).drop_last() =~= tv.take(i as int));
        assert(tv.take(i + 1).last() == tv[i as int]);
        let tok = &tokens[i];
        if tok.1 {
            dropped.push(string_of(tok.0.as_slice()));
            assert(dropped@.map_values(|s: String| s@) =~= d0.push(tv[i as int].0));
        } else {
            match parse_term(tok.0.as_slice(), tok.2, store) {
                Ok(term) => {
                    let ghost v = term@;
                    terms.push(term);
                    assert(terms@.map_values(|t: Term| t@) =~= t0.push(v));
                },
                Err(_) => {
                    dropped.push(string_of(tok.0.as_slice()));
                    assert(dropped@.map_values(|s: String| s@) =~= d0.push(tv[i as int].0));
                },
            }
        }
        i = i + 1;
    }
    assert(tv.take(tokens@.len() as int) =~= tv);
    (terms, dropped)
}


/// `got OP want` on unsigned integers.
pub open spec fn compare_spec(op: Op, got: u64, want: u64) -> bool {
    match op {
        Op::Eq => got == want,
        Op::Ne => got != want,
        Op::Gt => got > want,
        Op::Gte => got >= want,
        Op::Lt => got < want,
        Op::Lte => got <= want,
    }
}

/// Compares `got OP want`.
pub fn compare(op: Op, got: u64, want: u64) -> (r: bool)
    ensures
        r == compare_spec(op, got, want),
{
    match op {
        Op::Eq => got == want,
        Op::Ne => got != want,
        Op::Gt => got > want,
        Op::Gte => got >= want,
        Op::Lt => got < want,
        Op::Lte => got <= want,
    }
}

/// Whether one attribute value satisfies `OP raw`. Numbers are ordered as doubles; `None`
/// where that takes a floating-point comparison this module does not make: a double on
/// either side, or an integer or value beyond `2^53` in magnitude, where the doubles are
/// rounded. (A value that does not parse as a number at all also yields `None`: whether it
/// parses as a double is decided outside.)
pub open spec fn attr_verdict(op: Op, attr: AttrValue, raw: Seq<char>) -> Option<bool> {
    if op == Op::Eq || op == Op::Ne {
        let eq = match attr {
            AttrValue::Str(s) => Some(s@ == raw),
            AttrValue::Int(i) => Some(parse_i64_spec(raw) == Some(i)),
            AttrValue::Double(_) => None,
            AttrValue::Bool(b) => Some(
                if b {
                    raw == seq!['t', 'r', 'u', 'e']
                } else {
                    raw == seq!['f', 'a', 'l', 's', 'e']
                },
            ),
        };
        match eq {
            Some(e) => Some(if op == Op::Eq {
                e
            } else {
                !e
            }),
            None => None,
        }
    } else {
        match attr {
            AttrValue::Int(i) => match parse_i64_spec(raw) {
                Some(w) => if exact_in_double(i) && exact_in_double(w) {
                    Some(compare_signed_spec(op, i, w))
                } else {
                    None
                },
                None => None,
            },
            AttrValue::Double(_) => None,
            _ => Some(false),
        }
    }
}

/// Whether a double holds `x` exactly (`|x| <= 2^53`), so that comparing the doubles of two
/// such integers gives what comparing the integers gives.
pub open spec fn exact_in_double(x: i64) -> bool {
    -0x20_0000_0000_0000 <= x <= 0x20_0000_0000_0000
}

/// `got OP want` on signed integers.
pub open spec fn compare_signed_spec(op: Op, got: i64, want: i64) -> bool {
    match op {
        Op::Eq => got == want,
        Op::Ne => got != want,
        Op::Gt => got > want,
        Op::Gte => got >= want,
        Op::Lt => got < want,
        Op::Lte => got <= want,
    }
}

/// Compares `got OP want` on signed integers.
pub fn compare_signed(op: Op, got: i64, want: i64) -> (r: bool)
    ensures
        r == compare_signed_spec(op, got, want),
{
    match op {
        Op::Eq => got == want,
        Op::Ne => got != want,
        Op::Gt => got > want,
        Op::Gte => got >= want,
        Op::Lt => got < want,
        Op::Lte => got <= want,
    }
}

/// Whether an attribute value's text contains `needle`; `None` for a double, whose text
/// is a floating-point rendering.
pub open spec fn contains_verdict(attr: AttrValue, needle: Seq<char>) -> Option<bool> {
    match attr {
        AttrValue::Str(s) => Some(contains_chars(s@, needle)),
        AttrValue::Int(i) => Some(contains_chars(int_decimal(i as int), needle)),
        AttrValue::Bool(b) => Some(contains_chars(
            if b {
                seq!['t', 'r', 'u', 'e']
            } else {
                seq!['f', 'a', 'l', 's', 'e']
            },
            needle,
        )),
        AttrValue::Double(_) => None,
    }
}

/// "Any of these holds": `Some(true)` if one does, `None` if none does but some are
/// undecided, `Some(false)` otherwise.
pub open spec fn any_verdict(vs: Seq<Option<bool>>) -> Option<bool> {
    if exists|i: int| 0 <= i < vs.len() && #[trigger] vs[i] == Some(true) {
        Some(true)
    } else if exists|i: int| 0 <= i < vs.len() && #[trigger] vs[i] is None {
        None
    } else {
        Some(false)
    }
}

/// Whether a span satisfies a term (`None` where a floating-point comparison decides).
pub open spec fn term_verdict(t: TermView, v: crate::store::trace::SpanView, services: InternState) -> Option<bool> {
    match t {
        TermView::Service(op, want) => match v.service_name_id {
            Some(id) => if op == Op::Eq {
                Some(services.values[id as int] == want)
            } else if op == Op::Ne {
                Some(services.values[id as int] != want)
            } else {
                Some(false)
            },
            None => Some(op == Op::Ne),
        },
        TermView::Status(op, want) => if op == Op::Eq {
            Some(v.status_code == want)
        } else if op == Op::Ne {
            Some(v.status_code != want)
        } else {
            Some(false)
        },
        TermView::Duration(op, want) => if v.end_time_unix_nano >= v.start_time_unix_nano {
            Some(compare_spec(op, (v.end_time_unix_nano - v.start_time_unix_nano) as u64, want))
        } else {
            Some(false)
        },
        TermView::Attr(op, Some(kid), raw) => any_verdict(
            v.attrs.map_values(
                |p: (u32, AttrValue)|
                    if p.0 == kid {
                        attr_verdict(op, p.1, raw)
                    } else {
                        Some(false)
                    },
            ),
        ),
        TermView::Attr(_, None, _) => Some(false),
        TermView::Substring(needle) => if contains_chars(v.name, needle) {
            Some(true)
        } else {
            any_verdict(v.attrs.map_values(|p: (u32, AttrValue)| contains_verdict(p.1, needle)))
        },
    }
}

/// One attribute value against `OP raw` (see `attr_verdict`).
pub fn attr_matches(op: Op, attr: &AttrValue, raw: &[char]) -> (r: Option<bool>)
    ensures
        r == attr_verdict(op, *attr, raw@),
{
    if op == Op::Eq || op == Op::Ne {
        let eq = match attr {
            AttrValue::Str(s) => {
                let sc = chars_of(s.as_str());
                Some(chars_eq(sc.as_slice(), raw))
            },
            AttrValue::Int(i) => Some(
                match parse_i64(raw) {
                    Some(v) => v == *i,
                    None => false,
                },
            ),
            AttrValue::Double(_) => None,
            AttrValue::Bool(b) => Some(
                if *b {
                    literal_eq(raw, vec!['t', 'r', 'u', 'e'])
                } else {
                    literal_eq(raw, vec!['f', 'a', 'l', 's', 'e'])
                },
            ),
        };
        match eq {
            Some(e) => Some(if op == Op::Eq {
                e
            } else {
                !e
            }),
            None => None,
        }
    } else {
        match attr {
            AttrValue::Int(i) => match parse_i64(raw) {
                Some(w) => {
                    let bound: i64 = 0x20_0000_0000_0000;
                    if -bound <= *i && *i <= bound && -bound <= w && w <= bound {
                        Some(compare_signed(op, *i, w))
                    } else {
                        None
                    }
                },
                None => None,
            },
            AttrValue::Double(_) => None,
            _ => Some(false),
        }
    }
}

/// One attribute value's text against a substring (see `contains_verdict`).
pub fn attr_contains(attr: &AttrValue, needle: &[char]) -> (r: Option<bool>)
    ensures
        r == contains_verdict(*attr, needle@),
{
    match attr {
        AttrValue::Str(s) => {
            let sc = chars_of(s.as_str());
            Some(contains(sc.as_slice(), needle))
        },
        AttrValue::Int(i) => {
            let d = int_to_decimal(*i);
            Some(contains(d.as_slice(), needle))
        },
        AttrValue::Bool(b) => {
            let t = if *b {
                vec!['t', 'r', 'u', 'e']
            } else {
                vec!['f', 'a', 'l', 's', 'e']
            };
            Some(contains(t.as_slice(), needle))
        },
        AttrValue::Double(_) => None,
    }
}

/// Folds verdicts with "any".
fn any_of(vs: &Vec<Option<bool>>) -> (r: Option<bool>)
    ensures
        r == any_verdict(vs@),
{
    let mut found_none = false;
    let mut i: usize = 0;
    while i < vs.len()
        invariant
            i <= vs@.len(),
            forall|j: int| 0 <= j < i ==> vs@[j] != Some(true),
            found_none == exists|j: int| 0 <= j < i && #[trigger] vs@[j] is None,
        decreases vs@.len() - i,
    {
        match vs[i] {
            Some(true) => {
                return Some(true);
            },
            None => {
                found_none = true;
            },
            Some(false) => {},
        }
        i = i + 1;
    }
    if found_none {
        None
    } else {
        Some(false)
    }
}

impl Term {
    /// Whether span `idx` of `trace` satisfies this term (see `term_verdict`).
    pub fn matches(&self, trace: &Trace, store: &Store, idx: usize) -> (r: Option<bool>)
        requires
            store.wf(),
            trace.wf(),
            idx < trace.len(),
            crate::store::ids_resolve(trace.span(idx as int), store.keys(), store.services()),
        ensures
            r == term_verdict(self@, trace.span(idx as int), store.services()),
    {
        match self {
            Term::Service(op, want) => match trace.service_name_id(idx) {
                Some(id) => {
                    let name = store.service_name(id);
                    let eq = crate::text::str_eq(name, want.as_str());
                    if *op == Op::Eq {
                        Some(eq)
                    } else if *op == Op::Ne {
                        Some(!eq)
                    } else {
                        Some(false)
                    }
                },
                None => Some(*op == Op::Ne),
            },
            Term::Status(op, want) => {
                let code = trace.status_code(idx);
                if *op == Op::Eq {
                    Some(code == *want)
                } else if *op == Op::Ne {
                    Some(code != *want)
                } else {
                    Some(false)
                }
            },
            Term::Duration(op, want) => {
                let start = trace.start_time_unix_nano(idx);
                let end = trace.end_time_unix_nano(idx);
                match end.checked_sub(start) {
                    Some(d) => Some(compare(*op, d, *want)),
                    None => Some(false),
                }
            },
            Term::Attr(op, Some(kid), raw) => {
                let keys = trace.attribute_keys(idx);
                let values = trace.attributes(idx);
                let raw_chars = chars_of(raw.as_str());
                let ghost attrs = trace.span(idx as int).attrs;
                let ghost target = attrs.map_values(
                    |p: (u32, AttrValue)|
                        if p.0 == *kid {
                            attr_verdict(*op, p.1, raw@)
                        } else {
                            Some(false)
                        },
                );
                let mut vs: Vec<Option<bool>> = Vec::new();
                let mut j: usize = 0;
                while j < keys.len()
                    invariant
                        keys@.len() == attrs.len(),
                        values@.len() == attrs.len(),
                        forall|m: int| 0 <= m < attrs.len() ==> keys@[m] == attrs[m].0 && values@[m] == attrs[m].1,
                        raw_chars@ == raw@,
                        target.len() == attrs.len(),
                        forall|m: int| 0 <= m < attrs.len() ==> target[m] == (if attrs[m].0 == *kid {
                            attr_verdict(*op, attrs[m].1, raw@)
                        } else {
                            Some(false)
                        }),
                        j <= attrs.len(),
                        vs@ == target.take(j as int),
                    decreases attrs.len() - j,
                {
                    let v = if keys[j] == *kid {
                        attr_matches(*op, &values[j], raw_chars.as_slice())
                    } else {
                        Some(false)
                    };
                    vs.push(v);
                    assert(vs@ =~= target.take(j + 1));
                    j = j + 1;
                }
                assert(target.take(attrs.len() as int) =~= target);
                any_of(&vs)
            },
            Term::Attr(_, None, _) => Some(false),
            Term::Substring(needle) => {
                let needle_chars = chars_of(needle.as_str());
                let name_chars = chars_of(trace.name(idx));
                if contains(name_chars.as_slice(), needle_chars.as_slice()) {
                    return Some(true);
                }
                let values = trace.attributes(idx);
                let ghost attrs = trace.span(idx as int).attrs;
                let ghost target = attrs.map_values(|p: (u32, AttrValue)| contains_verdict(p.1, needle@));
                let mut vs: Vec<Option<bool>> = Vec::new();
                let mut j: usize = 0;
                while j < values.len()
                    invariant
                        values@.len() == attrs.len(),
                        forall|m: int| 0 <= m < attrs.len() ==> values@[m] == attrs[m].1,
                        needle_chars@ == needle@,
                        target.len() == attrs.len(),
                        forall|m: int| 0 <= m < attrs.len() ==> target[m] == contains_verdict(attrs[m].1, needle@),
                        j <= attrs.len(),
                        vs@ == target.take(j as int),
                    decreases attrs.len() - j,
                {
                    let v = attr_contains(&values[j], needle_chars.as_slice());
                    vs.push(v);
                    assert(vs@ =~= target.take(j + 1));
                    j = j + 1;
                }
                assert(target.take(attrs.len() as int) =~= target);
                any_of(&vs)
            },
        }
    }
}


/// "All of these hold": `Some(false)` if one fails, `None` if none fails but some are
/// undecided, `Some(true)` otherwise.
pub open spec fn all_verdict(vs: Seq<Option<bool>>) -> Option<bool> {
    if exists|i: int| 0 <= i < vs.len() && #[trigger] vs[i] == Some(false) {
        Some(false)
    } else if exists|i: int| 0 <= i < vs.len() && #[trigger] vs[i] is None {
        None
    } else {
        Some(true)
    }
}

/// Whether a span satisfies every term (terms are joined by an implicit AND).
pub open spec fn span_verdict(terms: Seq<TermView>, v: crate::store::trace::SpanView, services: InternState) -> Option<bool> {
    all_verdict(terms.map_values(|t: TermView| term_verdict(t, v, services)))
}

/// A missing (empty) query has no terms and drops nothing, so it matches every span.
pub proof fn lemma_empty_query_matches_all(keys: InternState, services: InternState, v: crate::store::trace::SpanView)
    ensures
        query_spec(tokenize_spec(Seq::empty()), keys).0.len() == 0,
        query_spec(tokenize_spec(Seq::empty()), keys).1.len() == 0,
        span_verdict(query_spec(tokenize_spec(Seq::empty()), keys).0, v, services) == Some(true),
{
    assert(tokenize_spec(Seq::empty()) =~= Seq::<(Seq<char>, bool, bool)>::empty());
    let ts = query_spec(tokenize_spec(Seq::empty()), keys).0;
    assert(ts.map_values(|t: TermView| term_verdict(t, v, services)) =~= Seq::<Option<bool>>::empty());
}

/// Folds verdicts with "all".
fn all_of(vs: &Vec<Option<bool>>) -> (r: Option<bool>)
    ensures
        r == all_verdict(vs@),
{
    let mut found_none = false;
    let mut i: usize = 0;
    while i < vs.len()
        invariant
            i <= vs@.len(),
            forall|j: int| 0 <= j < i ==> vs@[j] != Some(false),
            found_none == exists|j: int| 0 <= j < i && #[trigger] vs@[j] is None,
        decreases vs@.len() - i,
    {
        match vs[i] {
            Some(false) => {
                return Some(false);
            },
            None => {
                found_none = true;
            },
            Some(true) => {},
        }
        i = i + 1;
    }
    if found_none {
        None
    } else {
        Some(true)
    }
}

/// A filter query applied to one trace: the parsed terms, each span's verdict (by local
/// index), and the texts of the dropped terms. A `None` verdict is left to a floating-point
/// comparison of the terms (see `attr_verdict`).
pub struct FilterResult {
    pub terms: Vec<Term>,
    pub verdicts: Vec<Option<bool>>,
    pub dropped_terms: Vec<String>,
}

/// Applies the query `q` to every span of `trace`.
pub fn filter_trace(store: &Store, trace: &Trace, q: &str) -> (r: FilterResult)
    requires
        store.wf(),
        trace.wf(),
        forall|s: int| 0 <= s < trace.len() ==> crate::store::ids_resolve(#[trigger] trace.span(s), store.keys(), store.services()),
    ensures
        (r.terms@.map_values(|t: Term| t@), r.dropped_terms@.map_values(|s: String| s@)) == query_spec(tokenize_spec(q@), store.keys()),
        r.verdicts@.len() == trace.len(),
        forall|i: int| 0 <= i < trace.len() ==> #[trigger] r.verdicts@[i] == span_verdict(
            r.terms@.map_values(|t: Term| t@), trace.span(i), store.services()),
{
    let (terms, dropped_terms) = parse_query(q, store);
    let ghost tv = terms@.map_values(|t: Term| t@);
    let n = trace.span_count();
    let mut verdicts: Vec<Option<bool>> = Vec::new();
    let mut idx: usize = 0;
    while idx < n
        invariant
            n == trace.len(),
            store.wf(),
            trace.wf(),
            forall|s: int| 0 <= s < trace.len() ==> crate::store::ids_resolve(#[trigger] trace.span(s), store.keys(), store.services()),
            tv == terms@.map_values(|t: Term| t@),
            idx <= n,
            verdicts@.len() == idx,
            forall|i: int| 0 <= i < idx ==> #[trigger] verdicts@[i] == span_verdict(tv, trace.span(i), store.services()),
        decreases n - idx,
    {
        let ghost target = tv.map_values(|t: TermView| term_verdict(t, trace.span(idx as int), store.services()));
        let mut vs: Vec<Option<bool>> = Vec::new();
        let mut j: usize = 0;
        while j < terms.len()
            invariant
                idx < n,
                n == trace.len(),
                store.wf(),
                trace.wf(),
                crate::store::ids_resolve(trace.span(idx as int), store.keys(), store.services()),
                tv == terms@.map_values(|t: Term| t@),
                target == tv.map_values(|t: TermView| term_verdict(t, trace.span(idx as int), store.services())),
                j <= terms@.len(),
                vs@ == target.take(j as int),
            decreases terms@.len() - j,
        {
            let v = terms[j].matches(trace, store, idx);
            vs.push(v);
            assert(vs@ =~= target.take(j + 1));
            j = j + 1;
        }
        assert(target.take(terms@.len() as int) =~= target);
        let verdict = all_of(&vs);
        verdicts.push(verdict);
        idx = idx + 1;
    }
    FilterResult { terms, verdicts, dropped_terms }
}

/// `GET /api/traces/:id/filter?q=...`: the filter applied to the trace with hex id `id`.
pub fn get_filter(store: &Store, id: &str, q: &str) -> (r: Result<FilterResult, TraceLookupError>)
    requires
        store.wf(),
    ensures
        match r {
            Ok(f) => exists|t: Trace| #[trigger] store.trace_map().contains_key(t.id()) && t == store.trace_map()[t.id()]
                && parse_trace_hex(id.spec_bytes()) == Some(t.id().0@)
                && (f.terms@.map_values(|x: Term| x@), f.dropped_terms@.map_values(|s: String| s@)) == query_spec(tokenize_spec(q@), store.keys())
                && f.verdicts@.len() == t.len()
                && forall|i: int| 0 <= i < t.len() ==> #[trigger] f.verdicts@[i] == span_verdict(
                    f.terms@.map_values(|x: Term| x@), t.span(i), store.services()),
            Err(TraceLookupError::BadTraceId) => parse_trace_hex(id.spec_bytes()) is None,
            Err(TraceLookupError::NotFound) => parse_trace_hex(id.spec_bytes()) is Some && forall|k: TraceId|
                #[trigger] store.trace_map().contains_key(k) ==> Some(k.0@) != parse_trace_hex(id.spec_bytes()),
        },
{
    let trace = match find_trace(store, id) {
        Ok(t) => t,
        Err(e) => return Err(e),
    };
    proof {
        store.lemma_resident();
        assert forall|s: int| 0 <= s < trace.len() implies crate::store::ids_resolve(#[trigger] trace.span(s), store.keys(), store.services()) by {
            assert(store.trace_map().contains_key(trace.id()));
        }
    }
    let f = filter_trace(store, trace, q);
    assert(store.trace_map().contains_key(trace.id()));
    Ok(f)
}


/// The text of a comparison operator as a query writes it.
pub open spec fn op_text(op: Op) -> Seq<char> {
    match op {
        Op::Eq => seq!['='],
        Op::Ne => seq!['!', '='],
        Op::Gt => seq!['>'],
        Op::Gte => seq!['>', '='],
        Op::Lt => seq!['<'],
        Op::Lte => seq!['<', '='],
    }
}

/// The word OpenTelemetry gives a span status code: 0 is unset, 1 ok, 2 error.
pub open spec fn otel_status_word(code: i32) -> Seq<char> {
    if code == 0 {
        seq!['u', 'n', 's', 'e', 't']
    } else if code == 1 {
        seq!['o', 'k']
    } else {
        seq!['e', 'r', 'r', 'o', 'r']
    }
}

/// A duration term orders the span's length, end minus start, against the bound: `>=` and
/// `<=` hold for a span exactly as long as the bound, `>` and `<` do not, `=` and `!=` test
/// equality. A span that ends before it starts satisfies no duration term.
pub proof fn lemma_duration_term_orders(v: crate::store::trace::SpanView, services: InternState, want: u64)
    ensures
        v.end_time_unix_nano >= v.start_time_unix_nano ==> {
            let d = v.end_time_unix_nano - v.start_time_unix_nano;
            &&& term_verdict(TermView::Duration(Op::Eq, want), v, services) == Some(d == want)
            &&& term_verdict(TermView::Duration(Op::Ne, want), v, services) == Some(d != want)
            &&& term_verdict(TermView::Duration(Op::Gt, want), v, services) == Some(d > want)
            &&& term_verdict(TermView::Duration(Op::Gte, want), v, services) == Some(d >= want)
            &&& term_verdict(TermView::Duration(Op::Lt, want), v, services) == Some(d < want)
            &&& term_verdict(TermView::Duration(Op::Lte, want), v, services) == Some(d <= want)
        },
        v.end_time_unix_nano < v.start_time_unix_nano ==> forall|op: Op|
            #[trigger] term_verdict(TermView::Duration(op, want), v, services) == Some(false),
{
}

/// Comparing an integer attribute with an integer bound, both within `2^53` (where doubles
/// hold them exactly), is decided and is integer order: `<=` and `>=` hold for an attribute
/// equal to the bound, `<` and `>` do not, and `=`/`!=` test equality.
pub proof fn lemma_int_attribute_orders(i: i64, raw: Seq<char>)
    requires
        parse_i64_spec(raw) is Some,
        exact_in_double(i),
        exact_in_double(parse_i64_spec(raw)->0),
    ensures
        ({
            let w = parse_i64_spec(raw)->0;
            &&& attr_verdict(Op::Eq, AttrValue::Int(i), raw) == Some(i == w)
            &&& attr_verdict(Op::Ne, AttrValue::Int(i), raw) == Some(i != w)
            &&& attr_verdict(Op::Gt, AttrValue::Int(i), raw) == Some(i > w)
            &&& attr_verdict(Op::Gte, AttrValue::Int(i), raw) == Some(i >= w)
            &&& attr_verdict(Op::Lt, AttrValue::Int(i), raw) == Some(i < w)
            &&& attr_verdict(Op::Lte, AttrValue::Int(i), raw) == Some(i <= w)
        }),
{
}

/// Every status term is written `status=WORD` or `status!=WORD` and tests the code that
/// OpenTelemetry gives that word: a query term parsed as a status test for code `c` is
/// exactly `status`, the operator, and the word for `c` (`unset` 0, `ok` 1, `error` 2).
pub proof fn lemma_status_terms_use_otel_codes(text: Seq<char>, starts_quoted: bool, keys: InternState, op: Op, code: i32)
    requires
        parse_term_spec(text, starts_quoted, keys) == Ok::<TermView, ()>(TermView::Status(op, code)),
    ensures
        op == Op::Eq || op == Op::Ne,
        0 <= code <= 2,
        text == seq!['s', 't', 'a', 't', 'u', 's'] + op_text(op) + otel_status_word(code),
{
    let kl = key_len(text);
    let key = text.take(kl);
    let rest = text.skip(kl);
    let (o, plen) = op_match(rest)->0;
    let value = rest.skip(plen);
    if text.len() > 0 {
        lemma_key_run_bounds(text, 0);
    }
    assert(text =~= key + rest);
    assert(o == op);
    if op == Op::Eq {
        assert(rest.take(plen) =~= op_text(op));
    } else {
        assert(rest.take(plen) =~= op_text(op));
    }
    assert(rest =~= rest.take(plen) + value);
    assert(value =~= otel_status_word(code));
}

/// Each status word parses, with `=` or `!=`, to the status test for its OpenTelemetry code.
pub proof fn lemma_status_words_parse(keys: InternState, op: Op, code: i32)
    requires
        op == Op::Eq || op == Op::Ne,
        0 <= code <= 2,
    ensures
        parse_term_spec(seq!['s', 't', 'a', 't', 'u', 's'] + op_text(op) + otel_status_word(code), false, keys)
            == Ok::<TermView, ()>(TermView::Status(op, code)),
{
    let text = seq!['s', 't', 'a', 't', 'u', 's'] + op_text(op) + otel_status_word(code);
    assert(text[0] == 's' && text[1] == 't' && text[2] == 'a' && text[3] == 't' && text[4] == 'u' && text[5] == 's');
    assert(text[6] == op_text(op)[0]);
    assert(!key_char(text[6]));
    reveal_with_fuel(key_run, 8);
    assert(key_run(text, 0) == 6);
    let rest = text.skip(6);
    assert(rest =~= op_text(op) + otel_status_word(code));
    assert(text.take(6) =~= seq!['s', 't', 'a', 't', 'u', 's']);
    assert(rest.skip(op_text(op).len() as int) =~= otel_status_word(code));
}


/// A status query selects spans by their OpenTelemetry code: `status=WORD` holds for exactly
/// the spans whose code is the word's, `status!=WORD` for exactly the others.
pub proof fn lemma_status_query_selects(v: crate::store::trace::SpanView, services: InternState, keys: InternState, code: i32)
    requires
        0 <= code <= 2,
    ensures
        parse_term_spec(seq!['s', 't', 'a', 't', 'u', 's'] + op_text(Op::Eq) + otel_status_word(code), false, keys) matches Ok(t)
            && term_verdict(t, v, services) == Some(v.status_code == code),
        parse_term_spec(seq!['s', 't', 'a', 't', 'u', 's'] + op_text(Op::Ne) + otel_status_word(code), false, keys) matches Ok(t)
            && term_verdict(t, v, services) == Some(v.status_code != code),
{
    lemma_status_words_parse(keys, Op::Eq, code);
    lemma_status_words_parse(keys, Op::Ne, code);
}

/// A service term compares the span's service name: `=` holds when it is the name, `!=` when
/// it is another name or the span has none.
pub proof fn lemma_service_term(v: crate::store::trace::SpanView, services: InternState, want: Seq<char>)
    ensures
        v.service_name_id matches Some(id) ==> {
            &&& term_verdict(TermView::Service(Op::Eq, want), v, services) == Some(services.values[id as int] == want)
            &&& term_verdict(TermView::Service(Op::Ne, want), v, services) == Some(services.values[id as int] != want)
        },
        v.service_name_id is None ==> {
            &&& term_verdict(TermView::Service(Op::Eq, want), v, services) == Some(false)
            &&& term_verdict(TermView::Service(Op::Ne, want), v, services) == Some(true)
        },
{
}

/// Duration units scale the number: no suffix and `ns` are nanoseconds, and each of `us`,
/// `ms` and `s` is a thousand times the one before, as long as the product fits in `u64`.
pub proof fn lemma_duration_units(d: Seq<char>)
    requires
        d.len() > 0,
        all_digits(d),
        digits_value(d) <= u64::MAX,
    ensures
        parse_duration_spec(d) == Some(digits_value(d) as u64),
        parse_duration_spec(d + seq!['n', 's']) == Some(digits_value(d) as u64),
        digits_value(d) * 1_000 <= u64::MAX ==> parse_duration_spec(d + seq!['u', 's']) == Some((digits_value(d) * 1_000) as u64),
        digits_value(d) * 1_000_000 <= u64::MAX ==> parse_duration_spec(d + seq!['m', 's']) == Some((digits_value(d) * 1_000_000) as u64),
        digits_value(d) * 1_000_000_000 <= u64::MAX ==> parse_duration_spec(d + seq!['s']) == Some((digits_value(d) * 1_000_000_000) as u64),
        digits_value(d) * 1_000 > u64::MAX ==> parse_duration_spec(d + seq!['u', 's']) is None,
        digits_value(d) * 1_000_000 > u64::MAX ==> parse_duration_spec(d + seq!['m', 's']) is None,
        digits_value(d) * 1_000_000_000 > u64::MAX ==> parse_duration_spec(d + seq!['s']) is None,
{
    let n = d.len() as int;
    assert(crate::text::is_digit(d[n - 1]));
    assert(crate::text::is_digit(d[0]));
    crate::text::lemma_digits_nonneg(d);
    assert(parse_u64_spec(d) == Some(digits_value(d) as u64));
    let ns = d + seq!['n', 's'];
    let us = d + seq!['u', 's'];
    let ms = d + seq!['m', 's'];
    let sec = d + seq!['s'];
    assert(ns.take(n) =~= d);
    assert(us.take(n) =~= d);
    assert(ms.take(n) =~= d);
    assert(sec.take(n) =~= d);
    assert(sec[n - 1] == d[n - 1] && sec[n] == 's' && sec.len() == n + 1);
    assert(ns[n] == 'n' && ns[n + 1] == 's' && ns.len() == n + 2);
    assert(us[n] == 'u' && us[n + 1] == 's' && us.len() == n + 2);
    assert(ms[n] == 'm' && ms[n + 1] == 's' && ms.len() == n + 2);
    assert(duration_split(ns) == (n, 1u64));
    assert(duration_split(us) == (n, 1_000u64));
    assert(duration_split(ms) == (n, 1_000_000u64));
    assert(duration_split(sec) == (n, 1_000_000_000u64));
    assert(duration_split(d) == (n, 1u64));
    assert(d.take(n) =~= d);
    assert(parse_u64_spec(d.take(n)) == Some(digits_value(d) as u64));
    let v = digits_value(d) as u64;
    assert(v * 1u64 == v) by (nonlinear_arith);
    assert(d.take(n) =~= d);
}


/// The comparison operators are the integer order: `>` is order, `=` is equality, `>=` and
/// `<=` add equality to `>` and `<`, and `<`, `<=`, `!=` are the negations of `>=`, `>`, `=`.
pub proof fn lemma_comparisons_are_integer_order(got: u64, want: u64, sgot: i64, swant: i64)
    ensures
        compare_spec(Op::Eq, got, want) == (got == want),
        compare_spec(Op::Gt, got, want) == (got > want),
        compare_spec(Op::Gte, got, want) == (compare_spec(Op::Gt, got, want) || compare_spec(Op::Eq, got, want)),
        compare_spec(Op::Lte, got, want) == (compare_spec(Op::Lt, got, want) || compare_spec(Op::Eq, got, want)),
        compare_spec(Op::Lt, got, want) == !compare_spec(Op::Gte, got, want),
        compare_spec(Op::Lte, got, want) == !compare_spec(Op::Gt, got, want),
        compare_spec(Op::Ne, got, want) == !compare_spec(Op::Eq, got, want),
        compare_signed_spec(Op::Eq, sgot, swant) == (sgot == swant),
        compare_signed_spec(Op::Gt, sgot, swant) == (sgot > swant),
        compare_signed_spec(Op::Gte, sgot, swant) == (compare_signed_spec(Op::Gt, sgot, swant) || compare_signed_spec(Op::Eq, sgot, swant)),
        compare_signed_spec(Op::Lte, sgot, swant) == (compare_signed_spec(Op::Lt, sgot, swant) || compare_signed_spec(Op::Eq, sgot, swant)),
        compare_signed_spec(Op::Lt, sgot, swant) == !compare_signed_spec(Op::Gte, sgot, swant),
        compare_signed_spec(Op::Lte, sgot, swant) == !compare_signed_spec(Op::Gt, sgot, swant),
        compare_signed_spec(Op::Ne, sgot, swant) == !compare_signed_spec(Op::Eq, sgot, swant),
{
}


/// `key` is a key as a query writes it: a letter or `_`, then letters, digits, `_` or `.`.
pub open spec fn is_key(key: Seq<char>) -> bool {
    &&& key.len() > 0
    &&& key_start(key[0])
    &&& forall|i: int| 0 <= i < key.len() ==> #[trigger] key_char(key[i])
}

proof fn lemma_key_run_over(key: Seq<char>, rest: Seq<char>, i: int)
    requires
        is_key(key),
        rest.len() > 0,
        !key_char(rest[0]),
        0 <= i <= key.len(),
    ensures
        key_run(key + rest, i) == key.len(),
    decreases key.len() - i,
{
    let t = key + rest;
    if i < key.len() {
        assert(t[i] == key[i]);
        lemma_key_run_over(key, rest, i + 1);
    } else {
        assert(t[i] == rest[0]);
    }
}

/// A `KEY OP VALUE` term is read as written: its key, its operator (a value that starts with
/// `=` after `>` or `<` would make the operator `>=` or `<=`), and the rest as the value. A key
/// other than `service`, `status` and `duration` names an attribute; `duration` takes the value
/// as a length of time.
pub proof fn lemma_term_reads_as_written(key: Seq<char>, op: Op, value: Seq<char>, keys: InternState)
    requires
        is_key(key),
        (op == Op::Gt || op == Op::Lt) ==> value.len() == 0 || value[0] != '=',
    ensures
        key != seq!['s', 'e', 'r', 'v', 'i', 'c', 'e'] && key != seq!['s', 't', 'a', 't', 'u', 's']
            && key != seq!['d', 'u', 'r', 'a', 't', 'i', 'o', 'n']
            ==> parse_term_spec(key + op_text(op) + value, false, keys)
                == Ok::<TermView, ()>(TermView::Attr(op, key_lookup(keys, key), value)),
        key == seq!['d', 'u', 'r', 'a', 't', 'i', 'o', 'n'] && parse_duration_spec(value) is Some
            ==> parse_term_spec(key + op_text(op) + value, false, keys)
                == Ok::<TermView, ()>(TermView::Duration(op, parse_duration_spec(value)->0)),
{
    let rest = op_text(op) + value;
    let text = key + rest;
    assert(key + op_text(op) + value =~= text);
    assert(rest[0] == op_text(op)[0]);
    lemma_key_run_over(key, rest, 0);
    assert(text[0] == key[0]);
    assert(key_len(text) == key.len());
    assert(text.take(key.len() as int) =~= key);
    assert(text.skip(key.len() as int) =~= rest);
    assert(rest.len() >= 1);
    if op_text(op).len() == 2 {
        assert(rest[1] == op_text(op)[1]);
    } else if value.len() > 0 {
        assert(rest[1] == value[0]);
    }
    assert(op_match(rest) == Some((op, op_text(op).len() as int)));
    assert(rest.skip(op_text(op).len() as int) =~= value);
}


/// Text and boolean attributes: `=` is equality of the text (a boolean reads as `true` or
/// `false`), `!=` its negation, and no ordering comparison holds for them.
pub proof fn lemma_text_attribute_terms(t: String, b: bool, raw: Seq<char>, op: Op)
    ensures
        attr_verdict(Op::Eq, AttrValue::Str(t), raw) == Some(t@ == raw),
        attr_verdict(Op::Ne, AttrValue::Str(t), raw) == Some(t@ != raw),
        attr_verdict(Op::Eq, AttrValue::Bool(b), raw) == Some(raw == (if b { seq!['t', 'r', 'u', 'e'] } else { seq!['f', 'a', 'l', 's', 'e'] })),
        attr_verdict(Op::Ne, AttrValue::Bool(b), raw) == Some(raw != (if b { seq!['t', 'r', 'u', 'e'] } else { seq!['f', 'a', 'l', 's', 'e'] })),
        op != Op::Eq && op != Op::Ne ==> attr_verdict(op, AttrValue::Str(t), raw) == Some(false)
            && attr_verdict(op, AttrValue::Bool(b), raw) == Some(false),
{
}

} // verus!
