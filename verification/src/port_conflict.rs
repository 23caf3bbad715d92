//! Naming the process that holds a listen port, from `lsof -nP -iTCP:<port> -sTCP:LISTEN`
//! output: the first data line's command and pid.

use vstd::prelude::*;

use crate::text::{append_str, chars_of, is_whitespace, is_ws, string_of};

verus! {

/// The first index at or after `i` where `t` holds `c`, or `t.len()`.
pub open spec fn find_from(t: Seq<char>, c: char, i: int) -> int
    decreases t.len() - i,
{
    if i < 0 || i >= t.len() {
        t.len() as int
    } else if t[i] == c {
        i
    } else {
        find_from(t, c, i + 1)
    }
}

/// The second line of `t` as `str::lines` yields it: lines end at `\n` (a `\r` right before
/// it is dropped too), and an empty remainder after the last `\n` is no line.
pub open spec fn second_line(t: Seq<char>) -> Option<Seq<char>> {
    let p = find_from(t, '\n', 0);
    if p >= t.len() {
        None
    } else {
        let rest = t.skip(p + 1);
        if rest.len() == 0 {
            None
        } else {
            let q = find_from(rest, '\n', 0);
            let l = rest.take(q);
            if q < rest.len() && l.len() > 0 && l.last() == '\r' {
                Some(l.drop_last())
            } else {
                Some(l)
            }
        }
    }
}

/// The first index at or after `i` that is not white space, or `s.len()`.
pub open spec fn skip_ws(s: Seq<char>, i: int) -> int
    decreases s.len() - i,
{
    if i < 0 || i >= s.len() {
        s.len() as int
    } else if is_ws(s[i]) {
        skip_ws(s, i + 1)
    } else {
        i
    }
}

/// The first index at or after `i` that is white space, or `s.len()`.
pub open spec fn word_end(s: Seq<char>, i: int) -> int
    decreases s.len() - i,
{
    if i < 0 || i >= s.len() {
        s.len() as int
    } else if is_ws(s[i]) {
        i
    } else {
        word_end(s, i + 1)
    }
}

/// The first two white-space-separated words of `s` (as `str::split_whitespace` yields
/// them), if it has two.
pub open spec fn first_two_words(s: Seq<char>) -> Option<(Seq<char>, Seq<char>)> {
    let a = skip_ws(s, 0);
    let b = word_end(s, a);
    let c = skip_ws(s, b);
    let d = word_end(s, c);
    if a >= s.len() || c >= s.len() {
        None
    } else {
        Some((s.subrange(a, b), s.subrange(c, d)))
    }
}

/// `command (pid N)` from the first two words of the second line of `lsof` output.
pub open spec fn holder_spec(t: Seq<char>) -> Option<Seq<char>> {
    match second_line(t) {
        Some(line) => match first_two_words(line) {
            Some((command, pid)) => Some(command + " (pid "@ + pid + ")"@),
            None => None,
        },
        None => None,
    }
}

proof fn lemma_find_bounds(t: Seq<char>, c: char, i: int)
    requires
        0 <= i <= t.len(),
    ensures
        i <= find_from(t, c, i) <= t.len(),
        find_from(t, c, i) < t.len() ==> t[find_from(t, c, i)] == c,
    decreases t.len() - i,
{
    if i < t.len() && t[i] != c {
        lemma_find_bounds(t, c, i + 1);
    }
}

proof fn lemma_skip_bounds(s: Seq<char>, i: int)
    requires
        0 <= i <= s.len(),
    ensures
        i <= skip_ws(s, i) <= s.len(),
        i <= word_end(s, i) <= s.len(),
    decreases s.len() - i,
{
    if i < s.len() {
        lemma_skip_bounds(s, i + 1);
    }
}

fn find_char(t: &[char], c: char, from: usize) -> (r: usize)
    requires
        from <= t@.len(),
    ensures
        r == find_from(t@, c, from as int),
{
    let mut i = from;
    while i < t.len() && t[i] != c
        invariant
            from <= i <= t@.len(),
            find_from(t@, c, from as int) == find_from(t@, c, i as int),
        decreases t@.len() - i,
    {
        i = i + 1;
    }
    i
}

fn skip_spaces(s: &[char], from: usize) -> (r: usize)
    requires
        from <= s@.len(),
    ensures
        r == skip_ws(s@, from as int),
{
    let mut i = from;
    while i < s.len() && is_whitespace(s[i])
        invariant
            from <= i <= s@.len(),
            skip_ws(s@, from as int) == skip_ws(s@, i as int),
        decreases s@.len() - i,
    {
        i = i + 1;
    }
    i
}

fn end_of_word(s: &[char], from: usize) -> (r: usize)
    requires
        from <= s@.len(),
    ensures
        r == word_end(s@, from as int),
{
    let mut i = from;
    while i < s.len() && !is_whitespace(s[i])
        invariant
            from <= i <= s@.len(),
            word_end(s@, from as int) == word_end(s@, i as int),
        decreases s@.len() - i,
    {
        i = i + 1;
    }
    i
}

/// Names the holder of a port from `lsof` output (see `holder_spec`); `None` when the output
/// has no data line or the line lacks a command and a pid.
pub fn holder_from_lsof(text: &str) -> (r: Option<String>)
    ensures
        match r {
            Some(s) => holder_spec(text@) == Some(s@),
            None => holder_spec(text@) is None,
        },
{
    let t = chars_of(text);
    let p = find_char(t.as_slice(), '\n', 0);
    proof {
        lemma_find_bounds(t@, '\n', 0);
    }
    if p >= t.len() {
        return None;
    }
    let rest = vstd::slice::slice_subrange(t.as_slice(), p + 1, t.len());
    assert(rest@ =~= t@.skip(p + 1));
    if rest.len() == 0 {
        return None;
    }
    let q = find_char(rest, '\n', 0);
    proof {
        lemma_find_bounds(rest@, '\n', 0);
    }
    let cut = if q < rest.len() && q > 0 && rest[q - 1] == '\r' {
        q - 1
    } else {
        q
    };
    let line = vstd::slice::slice_subrange(rest, 0, cut);
    assert(line@ =~= (if q < rest@.len() && rest@.take(q as int).len() > 0 && rest@.take(q as int).last() == '\r' {
        rest@.take(q as int).drop_last()
    } else {
        rest@.take(q as int)
    }));
    let a = skip_spaces(line, 0);
    proof {
        lemma_skip_bounds(line@, 0);
    }
    if a >= line.len() {
        return None;
    }
    let b = end_of_word(line, a);
    proof {
        lemma_skip_bounds(line@, a as int);
    }
    let c = skip_spaces(line, b);
    proof {
        lemma_skip_bounds(line@, b as int);
    }
    if c >= line.len() {
        return None;
    }
    let d = end_of_word(line, c);
    proof {
        lemma_skip_bounds(line@, c as int);
    }
    let command = vstd::slice::slice_subrange(line, a, b);
    let pid = vstd::slice::slice_subrange(line, c, d);
    let mut out = string_of(command);
    append_str(&mut out, " (pid ");
    let pid_text = string_of(pid);
    append_str(&mut out, pid_text.as_str());
    append_str(&mut out, ")");
    Some(out)
}

} // verus!
