//! The media index: maps the exact request path of a media part to the
//! absolute file path the origin reported for it. Entries are upserted when
//! a metadata capture reveals them and are never evicted; the last write for
//! a key wins.

use vstd::prelude::*;
use crate::assoc::{assoc_map, keys_distinct, lemma_assoc_map_contains, lemma_assoc_map_value};
use crate::strutil::str_eq;

verus! {

pub struct MediaIndex {
    entries: Vec<(String, String)>,
}

impl View for MediaIndex {
    type V = Map<Seq<char>, Seq<char>>;

    closed spec fn view(&self) -> Map<Seq<char>, Seq<char>> {
        Map::new(
            |k: Seq<char>| assoc_map(self.entries@).contains_key(k),
            |k: Seq<char>| assoc_map(self.entries@)[k]@,
        )
    }
}

impl MediaIndex {
    pub closed spec fn wf(&self) -> bool {
        keys_distinct(self.entries@)
    }

    pub fn new() -> (m: MediaIndex)
        ensures
            m.wf(),
            m@ == Map::<Seq<char>, Seq<char>>::empty(),
    {
        let m = MediaIndex { entries: Vec::new() };
        proof {
            assert(m@ =~= Map::<Seq<char>, Seq<char>>::empty());
        }
        m
    }

    /// Unconditional upsert: the key now maps to `file`, everything else is
    /// untouched.
    pub fn put(&mut self, key: String, file: String)
        requires
            old(self).wf(),
        ensures
            final(self).wf(),
            final(self)@ == old(self)@.insert(key@, file@),
    {
        let ghost s0 = self.entries@;
        let ghost kv = key@;
        let ghost fv = file@;
        let n = self.entries.len();
        let mut i: usize = 0;
        while i < n
            invariant
                s0 == self.entries@,
                s0 == old(self).entries@,
                keys_distinct(s0),
                n == s0.len(),
                0 <= i <= n,
                kv == key@,
                fv == file@,
                forall|j: int| 0 <= j < i ==> s0[j].0@ != kv,
            decreases n - i,
        {
            if str_eq(self.entries[i].0.as_str(), key.as_str()) {
                proof {
                    assert(s0[i as int].0@ == kv);
                }
                self.entries.set(i, (key, file));
                proof {
                    let s1 = self.entries@;
                    assert(s1[i as int].0@ == kv && s1[i as int].1@ == fv);
                    assert(keys_distinct(s1)) by {
                        assert(forall|j: int| 0 <= j < s1.len() && j != i ==> s1[j] == s0[j]);
                        assert(s1[i as int].0@ == s0[i as int].0@);
                    }
                    lemma_view_insert(s0, s1, i as int, kv, fv);
                }
                return ;
            }
            i = i + 1;
        }
        let ghost oldv = self@;
        self.entries.push((key, file));
        proof {
            let s1 = self.entries@;
            assert(s1.drop_last() =~= s0);
            assert(s1[n as int].0@ == kv && s1[n as int].1@ == fv);
            assert(keys_distinct(s1)) by {
                assert(forall|j: int| 0 <= j < n ==> s1[j] == s0[j]);
            }
            lemma_view_insert(s0, s1, n as int, kv, fv);
        }
    }

    /// Exact-match lookup; never modifies the index.
    pub fn get<'a>(&'a self, key: &str) -> (r: Option<&'a String>)
        requires
            self.wf(),
        ensures
            r is Some <==> self@.contains_key(key@),
            r matches Some(f) ==> self@[key@] == f@,
    {
        proof {
            lemma_assoc_map_contains(self.entries@, key@);
        }
        let n = self.entries.len();
        let mut i: usize = 0;
        while i < n
            invariant
                0 <= i <= n,
                n == self.entries@.len(),
                keys_distinct(self.entries@),
                forall|j: int| 0 <= j < i ==> self.entries@[j].0@ != key@,
            decreases n - i,
        {
            if str_eq(self.entries[i].0.as_str(), key) {
                proof {
                    assert(self.entries@[i as int].0@ == key@);
                    lemma_assoc_map_value(self.entries@, i as int);
                }
                return Some(&self.entries[i].1);
            }
            i = i + 1;
        }
        None
    }
}

/// When `s1` has the same keys as `s0` except that position `i` now carries
/// `(kv, fv)` (a key `s0` either carried at `i` or not at all), the denoted
/// map is the old one with `kv` bound to `fv`.
proof fn lemma_view_insert(s0: Seq<(String, String)>, s1: Seq<(String, String)>, i: int, kv: Seq<char>, fv: Seq<char>)
    requires
        keys_distinct(s0),
        keys_distinct(s1),
        0 <= i < s1.len(),
        s1[i].0@ == kv,
        s1[i].1@ == fv,
        forall|j: int| 0 <= j < s1.len() && j != i ==> 0 <= j < s0.len() && s1[j] == s0[j],
        forall|j: int| 0 <= j < s0.len() && j != i ==> 0 <= j < s1.len() && s0[j] == s1[j],
        forall|j: int| 0 <= j < s0.len() && j != i ==> s0[j].0@ != kv,
        i < s0.len() ==> s0[i].0@ == kv,
    ensures
        Map::new(
            |k: Seq<char>| assoc_map(s1).contains_key(k),
            |k: Seq<char>| assoc_map(s1)[k]@,
        ) == Map::new(
            |k: Seq<char>| assoc_map(s0).contains_key(k),
            |k: Seq<char>| assoc_map(s0)[k]@,
        ).insert(kv, fv),
{
    let m1 = Map::new(
        |k: Seq<char>| assoc_map(s1).contains_key(k),
        |k: Seq<char>| assoc_map(s1)[k]@,
    );
    let m0 = Map::new(
        |k: Seq<char>| assoc_map(s0).contains_key(k),
        |k: Seq<char>| assoc_map(s0)[k]@,
    );
    assert forall|k: Seq<char>|
        #![trigger assoc_map(s1).dom().contains(k)]
        assoc_map(s1).contains_key(k) implies m0.insert(kv, fv).contains_key(k) && m1[k]
        == m0.insert(kv, fv)[k] by {
        lemma_assoc_map_contains(s1, k);
        let j = choose|j: int| 0 <= j < s1.len() && s1[j].0@ == k;
        lemma_assoc_map_value(s1, j);
        if j == i {
            assert(k == kv);
            assert(m1[k] == fv);
        } else {
            assert(s1[j] == s0[j]);
            lemma_assoc_map_value(s0, j);
            assert(k != kv);
        }
    }
    assert forall|k: Seq<char>|
        #![trigger m0.insert(kv, fv).dom().contains(k)]
        m0.insert(kv, fv).contains_key(k) implies assoc_map(s1).contains_key(k) by {
        lemma_assoc_map_contains(s1, k);
        if k == kv {
            assert(s1[i].0@ == k);
        } else {
            lemma_assoc_map_contains(s0, k);
            let j = choose|j: int| 0 <= j < s0.len() && s0[j].0@ == k;
            assert(j != i);
            assert(s1[j].0@ == k);
        }
    }
    assert(m1 =~= m0.insert(kv, fv));
}

/// `put(k, v)` then `get(k)` yields `v`; a later `put(k, v2)` makes `get(k)`
/// yield `v2`.
pub proof fn lemma_put_then_get(m: Map<Seq<char>, Seq<char>>, k: Seq<char>, v: Seq<char>, v2: Seq<char>)
    ensures
        m.insert(k, v).contains_key(k),
        m.insert(k, v)[k] == v,
        m.insert(k, v).insert(k, v2)[k] == v2,
{
}

/// Upserts under distinct keys lose nothing: both bindings are observable
/// afterwards, whichever order the two operations took.
pub proof fn lemma_distinct_puts_observable(
    m: Map<Seq<char>, Seq<char>>,
    k1: Seq<char>,
    v1: Seq<char>,
    k2: Seq<char>,
    v2: Seq<char>,
)
    requires
        k1 != k2,
    ensures
        m.insert(k1, v1).insert(k2, v2)[k1] == v1,
        m.insert(k1, v1).insert(k2, v2)[k2] == v2,
        m.insert(k1, v1).insert(k2, v2) == m.insert(k2, v2).insert(k1, v1),
{
    assert(m.insert(k1, v1).insert(k2, v2) =~= m.insert(k2, v2).insert(k1, v1));
}

} // verus!
