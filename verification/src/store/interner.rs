//! A capped string interner.

use rustc_hash::FxHashMap;
use vstd::prelude::*;

use crate::fxmap::{fx_get_str, fx_insert_str};

verus! {

/// The abstract state of an interner: the interned strings in id order, the cap, and the
/// number of refusals so far.
pub struct InternState {
    pub values: Seq<Seq<char>>,
    pub cap: nat,
    pub hits: u64,
}

/// `n + 1`, held at `u64::MAX`.
pub open spec fn sat_inc(n: u64) -> u64 {
    if n < u64::MAX {
        (n + 1) as u64
    } else {
        n
    }
}

/// One `intern` call: an already interned string keeps its id; a new one gets the next id
/// while under the cap, and is refused (and counted) once the cap is full.
pub open spec fn intern_step(st: InternState, s: Seq<char>) -> (InternState, Option<u32>) {
    if st.values.contains(s) {
        (st, Some(st.values.index_of(s) as u32))
    } else if st.values.len() >= st.cap {
        (InternState { values: st.values, cap: st.cap, hits: sat_inc(st.hits) }, None)
    } else {
        (InternState { values: st.values.push(s), cap: st.cap, hits: st.hits }, Some(st.values.len() as u32))
    }
}

/// Interning is stable: once `s` has an id, interning it again returns that same id and
/// changes nothing, and the id names `s`.
pub proof fn lemma_intern_stable(st: InternState, s: Seq<char>)
    requires
        st.values.no_duplicates(),
        st.values.len() <= st.cap,
        st.cap <= 0x1_0000_0000,
        intern_step(st, s).1 is Some,
    ensures
        intern_step(st, s).0.values[intern_step(st, s).1->0 as int] == s,
        intern_step(intern_step(st, s).0, s) == (intern_step(st, s).0, intern_step(st, s).1),
{
    let (st1, id) = intern_step(st, s);
    if st.values.contains(s) {
        let k = st.values.index_of(s);
        assert(0 <= k < st.values.len() && st.values[k] == s);
        assert(id->0 as int == k);
    } else {
        assert(st1.values.last() == s);
        assert(st1.values.contains(s)) by {
            assert(st1.values[st1.values.len() - 1] == s);
        }
        assert(st1.values.index_of(s) == st.values.len()) by {
            let k = st1.values.index_of(s);
            if k < st.values.len() {
                assert(st.values[k] == s);
                assert(st.values.contains(s));
            }
        }
    }
}

/// The state after interning each of `xs` in order.
pub open spec fn intern_all(st: InternState, xs: Seq<Seq<char>>) -> InternState
    decreases xs.len(),
{
    if xs.len() == 0 {
        st
    } else {
        intern_step(intern_all(st, xs.drop_last()), xs.last()).0
    }
}

/// Interning never removes or reorders strings: the old ones stay a prefix.
pub proof fn lemma_intern_all_grows(st: InternState, xs: Seq<Seq<char>>)
    ensures
        st.values.is_prefix_of(intern_all(st, xs).values),
    decreases xs.len(),
{
    if xs.len() > 0 {
        lemma_intern_all_grows(st, xs.drop_last());
        let mid = intern_all(st, xs.drop_last());
        assert(mid.values.is_prefix_of(intern_step(mid, xs.last()).0.values));
    }
}

/// An id once returned keeps naming its string: however many strings are interned (or
/// refused) afterwards, the id still resolves to the string it was returned for.
pub proof fn lemma_id_keeps_resolving(st: InternState, s: Seq<char>, later: Seq<Seq<char>>)
    requires
        st.values.no_duplicates(),
        st.values.len() <= st.cap,
        st.cap <= 0x1_0000_0000,
        intern_step(st, s).1 is Some,
    ensures
        intern_all(intern_step(st, s).0, later).values[intern_step(st, s).1->0 as int] == s,
{
    lemma_intern_stable(st, s);
    let st1 = intern_step(st, s).0;
    let id = intern_step(st, s).1->0;
    lemma_intern_all_grows(st1, later);
    assert(id < st1.values.len()) by {
        if st.values.contains(s) {
            let k = st.values.index_of(s);
            assert(0 <= k < st.values.len() && st.values[k] == s);
        }
    }
}

/// A full interner refuses every new string, keeps its strings, and counts the refusal;
/// strings it already holds keep their ids.
pub proof fn lemma_intern_full(st: InternState, s: Seq<char>)
    requires
        st.values.len() >= st.cap,
    ensures
        intern_step(st, s).0.values == st.values,
        st.values.contains(s) ==> intern_step(st, s) == (st, Some(st.values.index_of(s) as u32)),
        !st.values.contains(s) ==> intern_step(st, s).1 is None && intern_step(st, s).0.hits == sat_inc(st.hits),
{
}

/// Global interner for attribute keys and service names, hard-capped: once `cap` distinct
/// strings are interned, further new strings are refused rather than growing unbounded.
pub struct Interner {
    map: FxHashMap<String, u32>,
    values: Vec<String>,
    cap: usize,
    cap_hit_count: u64,
}

impl Interner {
    /// The abstract state.
    pub closed spec fn state(&self) -> InternState {
        InternState {
            values: self.values@.map_values(|s: String| s@),
            cap: self.cap as nat,
            hits: self.cap_hit_count,
        }
    }

    /// Well-formedness: ids are dense, strings are distinct, and the lookup map agrees with
    /// the id order.
    pub closed spec fn wf(&self) -> bool {
        &&& self.values@.len() <= self.cap
        &&& self.cap <= 0x1_0000_0000
        &&& forall|i: int, j: int|
            0 <= i < j < self.values@.len() ==> #[trigger] self.values@[i]@ != #[trigger] self.values@[j]@
        &&& forall|k: String|
            #[trigger] self.map@.contains_key(k) ==> self.map@[k] < self.values@.len()
                && self.values@[self.map@[k] as int]@ == k@
        &&& forall|i: int|
            0 <= i < self.values@.len() ==> #[trigger] self.map@.contains_key(self.values@[i])
                && self.map@[self.values@[i]] == i
    }

    /// Distinct interned strings (the `wf` fact callers may need).
    pub proof fn lemma_distinct(&self)
        requires
            self.wf(),
        ensures
            self.state().values.no_duplicates(),
            self.state().values.len() <= self.state().cap,
            self.state().cap <= 0x1_0000_0000,
    {
    }

    /// An empty interner with the given cap. Ids are `u32`, so at most `2^32` strings can
    /// ever hold distinct ids.
    pub fn new(cap: usize) -> (r: Self)
        requires
            cap <= 0x1_0000_0000,
        ensures
            r.wf(),
            r.state() == (InternState { values: Seq::empty(), cap: cap as nat, hits: 0 }),
    {
        let r = Interner { map: FxHashMap::default(), values: Vec::new(), cap, cap_hit_count: 0 };
        assert(r.state().values =~= Seq::empty());
        r
    }

    /// Returns the id for `s`, interning it if new and under cap; `None` if `s` is new and
    /// the cap is already full (the refusal is counted).
    #[verifier::spinoff_prover]
    #[verifier::rlimit(30)]
    pub fn intern(&mut self, s: &str) -> (r: Option<u32>)
        requires
            old(self).wf(),
        ensures
            final(self).wf(),
            (final(self).state(), r) == intern_step(old(self).state(), s@),
    {
        let ghost st = self.state();
        if let Some(id) = fx_get_str(&self.map, s) {
            proof {
                let k = choose|key: String| #[trigger] self.map@.contains_key(key) && key@ == s@ && self.map@[key] == id;
                assert(st.values[id as int] == s@);
                assert(st.values.contains(s@));
                self.lemma_distinct();
                assert(st.values.index_of(s@) == id);
            }
            return Some(id);
        }
        proof {
            if st.values.contains(s@) {
                let i = choose|i: int| 0 <= i < st.values.len() && st.values[i] == s@;
                assert(self.map@.contains_key(self.values@[i]));
            }
        }
        if self.values.len() >= self.cap {
            if self.cap_hit_count < u64::MAX {
                self.cap_hit_count = self.cap_hit_count + 1;
            }
            return None;
        }
        let id = self.values.len() as u32;
        let key: String = s.to_owned();
        let stored = key.clone();
        self.values.push(stored);
        fx_insert_str(&mut self.map, key, id);
        proof {
            assert(self.state().values =~= st.values.push(s@));
            assert(!st.values.contains(s@));
            assert forall|i: int| 0 <= i < self.values@.len() - 1 implies self.values@[i]@ != s@ by {
                assert(st.values[i] == self.values@[i]@);
            }
            assert forall|i: int|
                0 <= i < self.values@.len() implies #[trigger] self.map@.contains_key(self.values@[i])
                && self.map@[self.values@[i]] == i by {
                if i < self.values@.len() - 1 {
                    assert(self.values@[i]@ != key@);
                }
            }
            assert forall|i: int, j: int|
                0 <= i < j < self.values@.len() implies #[trigger] self.values@[i]@ != #[trigger] self.values@[j]@ by {
                if j < self.values@.len() - 1 {
                    assert(st.values[i] == self.values@[i]@);
                    assert(st.values[j] == self.values@[j]@);
                }
            }
            assert forall|k: String| #[trigger] self.map@.contains_key(k) implies self.map@[k] < self.values@.len()
                && self.values@[self.map@[k] as int]@ == k@ by {
                if k != key {
                    assert(old(self).map@.contains_key(k));
                    assert(self.values@[self.map@[k] as int] == old(self).values@[self.map@[k] as int]);
                }
            }
            assert(self.values@.len() <= self.cap);
            assert(self.wf());
        }
        Some(id)
    }

    /// The string interned under `id`.
    pub fn get(&self, id: u32) -> (r: &str)
        requires
            self.wf(),
            id < self.state().values.len(),
        ensures
            r@ == self.state().values[id as int],
    {
        self.values[id as usize].as_str()
    }

    /// The id of `s` if it is interned, without interning it.
    pub fn lookup(&self, s: &str) -> (r: Option<u32>)
        requires
            self.wf(),
        ensures
            r == (if self.state().values.contains(s@) {
                Some(self.state().values.index_of(s@) as u32)
            } else {
                None
            }),
    {
        let ghost st = self.state();
        match fx_get_str(&self.map, s) {
            Some(id) => {
                proof {
                    let k = choose|key: String| #[trigger] self.map@.contains_key(key) && key@ == s@ && self.map@[key] == id;
                    assert(st.values[id as int] == s@);
                    self.lemma_distinct();
                }
                Some(id)
            },
            None => {
                proof {
                    if st.values.contains(s@) {
                        let i = choose|i: int| 0 <= i < st.values.len() && st.values[i] == s@;
                        assert(self.map@.contains_key(self.values@[i]));
                    }
                }
                None
            },
        }
    }

    /// How many new strings were refused because the cap was full.
    pub fn cap_hit_count(&self) -> (r: u64)
        ensures
            r == self.state().hits,
    {
        self.cap_hit_count
    }

    /// How many strings are interned.
    pub fn len(&self) -> (r: usize)
        ensures
            r == self.state().values.len(),
    {
        self.values.len()
    }

    /// Whether nothing is interned.
    pub fn is_empty(&self) -> (r: bool)
        ensures
            r == (self.state().values.len() == 0),
    {
        self.values.len() == 0
    }
}

} // verus!
