//! `list`: what one row of `GET /api/traces` shows, read from the parsed JSON body. Each field
//! falls back as the listing does when the body lacks it: `?` for the trace id, 0 spans, `-`
//! for the duration, and only the string entries of `services`, joined by commas.

use vstd::prelude::*;

use crate::client::JsonValue;
use crate::ingest::convert::opt_view;
use crate::text::{chars_of, nat_decimal, nat_decimal_exec, parse_u64, parse_u64_spec, str_eq, string_of, append_str};

verus! {

/// The first member named `key` among the members `m`.
pub open spec fn first_member(m: Seq<(String, JsonValue)>, key: Seq<char>) -> Option<JsonValue>
    decreases m.len(),
{
    if m.len() == 0 {
        None
    } else if m[0].0@ == key {
        Some(m[0].1)
    } else {
        first_member(m.drop_first(), key)
    }
}

/// The member `key` of an object; nothing for any other value.
pub open spec fn member_spec(v: JsonValue, key: Seq<char>) -> Option<JsonValue> {
    match v {
        JsonValue::Object(m) => first_member(m@, key),
        _ => None,
    }
}

/// The text of member `key` when it is a string.
pub open spec fn str_member(v: JsonValue, key: Seq<char>) -> Option<Seq<char>> {
    match member_spec(v, key) {
        Some(JsonValue::Str(s)) => Some(s@),
        _ => None,
    }
}

/// The value of a JSON number's text when it is a non-negative integer that fits in `u64`.
pub open spec fn number_u64(t: Seq<char>) -> Option<u64> {
    if t.len() > 0 && t[0] == '+' {
        None
    } else {
        parse_u64_spec(t)
    }
}

/// The value of member `key` when it is a number that is a `u64`.
pub open spec fn u64_member(v: JsonValue, key: Seq<char>) -> Option<u64> {
    match member_spec(v, key) {
        Some(JsonValue::Number(t)) => number_u64(t@),
        _ => None,
    }
}

/// The texts of the string entries of `items`, in order.
pub open spec fn string_entries(items: Seq<JsonValue>) -> Seq<Seq<char>>
    decreases items.len(),
{
    if items.len() == 0 {
        Seq::empty()
    } else {
        let rest = string_entries(items.drop_last());
        match items.last() {
            JsonValue::Str(s) => rest.push(s@),
            _ => rest,
        }
    }
}

/// `parts` joined by commas.
pub open spec fn comma_joined(parts: Seq<Seq<char>>) -> Seq<char>
    decreases parts.len(),
{
    if parts.len() == 0 {
        Seq::empty()
    } else if parts.len() == 1 {
        parts[0]
    } else {
        comma_joined(parts.drop_last()) + seq![','] + parts.last()
    }
}

/// The services text of a row: the string entries of its `services` array, joined.
pub open spec fn services_text(row: JsonValue) -> Seq<char> {
    match member_spec(row, "services"@) {
        Some(JsonValue::Array(items)) => comma_joined(string_entries(items@)),
        _ => Seq::empty(),
    }
}

/// One row of the listing.
#[derive(Debug)]
pub struct ListRow {
    pub trace_id: String,
    pub span_count: u64,
    pub duration: String,
    pub services: String,
}

/// `r` shows `row`.
pub open spec fn shows_row(r: ListRow, row: JsonValue) -> bool {
    &&& r.trace_id@ == match str_member(row, "trace_id"@) {
        Some(t) => t,
        None => "?"@,
    }
    &&& r.span_count == match u64_member(row, "span_count"@) {
        Some(n) => n,
        None => 0,
    }
    &&& r.duration@ == match u64_member(row, "duration_nanos"@) {
        Some(d) => nat_decimal(d as nat),
        None => "-"@,
    }
    &&& r.services@ == services_text(row)
}

/// The member `key` of `v`, if `v` is an object that has one.
pub fn member<'a>(v: &'a JsonValue, key: &str) -> (r: Option<&'a JsonValue>)
    ensures
        match r {
            Some(x) => member_spec(*v, key@) == Some(*x),
            None => member_spec(*v, key@) is None,
        },
{
    match v {
        JsonValue::Object(m) => {
            let mut i: usize = 0;
            assert(m@.skip(0) =~= m@);
            while i < m.len()
                invariant
                    i <= m@.len(),
                    *v == JsonValue::Object(*m),
                    first_member(m@, key@) == first_member(m@.skip(i as int), key@),
                decreases m@.len() - i,
            {
                assert(m@.skip(i as int).drop_first() =~= m@.skip(i + 1));
                assert(m@.skip(i as int)[0] == m@[i as int]);
                if str_eq(m[i].0.as_str(), key) {
                    return Some(&m[i].1);
                }
                i = i + 1;
            }
            assert(m@.skip(i as int).len() == 0);
            None
        },
        _ => None,
    }
}

/// The text of member `key` of `v` when it is a string.
pub fn member_str(v: &JsonValue, key: &str) -> (r: Option<String>)
    ensures
        opt_view(r) == str_member(*v, key@),
{
    match member(v, key) {
        Some(JsonValue::Str(s)) => Some(s.clone()),
        _ => None,
    }
}

/// The value of member `key` of `v` when it is a number that is a `u64`.
pub fn member_u64(v: &JsonValue, key: &str) -> (r: Option<u64>)
    ensures
        r == u64_member(*v, key@),
{
    match member(v, key) {
        Some(JsonValue::Number(t)) => {
            let cs = chars_of(t.as_str());
            if cs.len() > 0 && cs[0] == '+' {
                None
            } else {
                parse_u64(cs.as_slice())
            }
        },
        _ => None,
    }
}

/// The services text of `row`.
fn services_of(row: &JsonValue) -> (r: String)
    ensures
        r@ == services_text(*row),
{
    let mut out = String::new();
    match member(row, "services") {
        Some(JsonValue::Array(items)) => {
            let mut i: usize = 0;
            let mut seen = false;
            while i < items.len()
                invariant
                    i <= items@.len(),
                    out@ == comma_joined(string_entries(items@.take(i as int))),
                    seen == (string_entries(items@.take(i as int)).len() > 0),
                decreases items@.len() - i,
            {
                assert(items@.take(i + 1).drop_last() =~= items@.take(i as int));
                match &items[i] {
                    JsonValue::Str(s) => {
                        let ghost parts = string_entries(items@.take(i as int));
                        if seen {
                            append_str(&mut out, ",");
                            proof {
                                reveal_strlit(",");
                            }
                        }
                        append_str(&mut out, s.as_str());
                        assert(parts.push(s@).drop_last() =~= parts);
                        assert(out@ =~= comma_joined(parts.push(s@)));
                        seen = true;
                    },
                    _ => {},
                }
                i = i + 1;
            }
            assert(items@.take(items@.len() as int) =~= items@);
        },
        _ => {},
    }
    out
}

/// The listing row for one entry of `GET /api/traces`.
pub fn list_row(row: &JsonValue) -> (r: ListRow)
    ensures
        shows_row(r, *row),
{
    let trace_id = match member_str(row, "trace_id") {
        Some(t) => t,
        None => "?".to_owned(),
    };
    let span_count = match member_u64(row, "span_count") {
        Some(n) => n,
        None => 0,
    };
    let duration = match member_u64(row, "duration_nanos") {
        Some(d) => string_of(nat_decimal_exec(d).as_slice()),
        None => "-".to_owned(),
    };
    ListRow { trace_id, span_count, duration, services: services_of(row) }
}

/// The rows of a `GET /api/traces` body: one per entry when the body is an array, nothing
/// when it has another shape.
pub fn list_rows(body: &JsonValue) -> (r: Option<Vec<ListRow>>)
    ensures
        match *body {
            JsonValue::Array(items) => r matches Some(rows) && rows@.len() == items@.len()
                && forall|i: int| 0 <= i < items@.len() ==> shows_row(#[trigger] rows@[i], items@[i]),
            _ => r is None,
        },
{
    match body {
        JsonValue::Array(items) => {
            let mut rows: Vec<ListRow> = Vec::new();
            let mut i: usize = 0;
            while i < items.len()
                invariant
                    i <= items@.len(),
                    rows@.len() == i,
                    forall|k: int| 0 <= k < i ==> shows_row(#[trigger] rows@[k], items@[k]),
                decreases items@.len() - i,
            {
                rows.push(list_row(&items[i]));
                i = i + 1;
            }
            Some(rows)
        },
        _ => None,
    }
}

} // verus!
