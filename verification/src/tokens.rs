//! The token-scoped authorization cache: tokens observed during successful
//! metadata captures, refreshed on insert and swept of stale entries only as
//! a side effect of `add`. A pure `contains` never evicts, so a token can
//! outlive its TTL until the next `add` — that is the intended contract.

use vstd::prelude::*;
use crate::assoc::{assoc_map, keys_distinct, lemma_assoc_map_contains, lemma_assoc_map_value};
use crate::strutil::str_eq;
use crate::TOKEN_TTL_SECONDS;

verus! {

/// A token whose timestamp is within the TTL, measured at `now`.
pub open spec fn fresh_at(ts: u64, now: u64) -> bool {
    now <= ts + TOKEN_TTL_SECONDS
}

/// Every key of `m` whose timestamp is still fresh at `now`, with its value.
pub open spec fn sweep(m: Map<Seq<char>, u64>, now: u64) -> Map<Seq<char>, u64> {
    Map::new(|k: Seq<char>| m.contains_key(k) && fresh_at(m[k], now), |k: Seq<char>| m[k])
}

/// What one `add` call does to the cache: record the token at `now`, then
/// drop every entry that is stale as of `now`.
pub open spec fn add_spec(m: Map<Seq<char>, u64>, t: Seq<char>, now: u64) -> Map<Seq<char>, u64> {
    sweep(m.insert(t, now), now)
}

pub struct TokenCache {
    entries: Vec<(String, u64)>,
}

impl View for TokenCache {
    type V = Map<Seq<char>, u64>;

    closed spec fn view(&self) -> Map<Seq<char>, u64> {
        assoc_map(self.entries@)
    }
}

impl TokenCache {
    pub closed spec fn wf(&self) -> bool {
        keys_distinct(self.entries@)
    }

    pub fn new() -> (c: TokenCache)
        ensures
            c.wf(),
            c@ == Map::<Seq<char>, u64>::empty(),
    {
        TokenCache { entries: Vec::new() }
    }

    /// Pure membership read; never evicts.
    pub fn contains(&self, token: &str) -> (b: bool)
        requires
            self.wf(),
        ensures
            b == self@.contains_key(token@),
    {
        proof {
            lemma_assoc_map_contains(self.entries@, token@);
        }
        let n = self.entries.len();
        let mut i: usize = 0;
        while i < n
            invariant
                0 <= i <= n,
                n == self.entries@.len(),
                keys_distinct(self.entries@),
                forall|j: int| 0 <= j < i ==> self.entries@[j].0@ != token@,
            decreases n - i,
        {
            if str_eq(self.entries[i].0.as_str(), token) {
                proof {
                    assert(self.entries@[i as int].0@ == token@);
                    lemma_assoc_map_value(self.entries@, i as int);
                }
                return true;
            }
            i = i + 1;
        }
        false
    }

    /// Insert or refresh `token` at `now`, then drop every entry whose age
    /// exceeds the TTL as of `now`.
    #[verifier::rlimit(60)]
    pub fn add(&mut self, token: String, now: u64)
        requires
            old(self).wf(),
        ensures
            final(self).wf(),
            final(self)@ == add_spec(old(self)@, token@, now),
    {
        let ghost s0 = self.entries@;
        let ghost tv = token@;
        let n = self.entries.len();
        let mut kept: Vec<(String, u64)> = Vec::new();
        let ghost mut wit: Seq<int> = Seq::empty();
        let mut i: usize = 0;
        while i < n
            invariant
                self.entries@ == s0,
                keys_distinct(s0),
                n == s0.len(),
                0 <= i <= n,
                tv == token@,
                keys_distinct(kept@),
                wit.len() == kept@.len(),
                forall|j: int| 0 <= j < kept@.len() ==> 0 <= #[trigger] wit[j] < i,
                forall|j: int| 0 <= j < kept@.len() ==> s0[wit[j]] == #[trigger] kept@[j],
                forall|j: int| 0 <= j < kept@.len() ==> fresh_at(#[trigger] kept@[j].1, now),
                forall|j: int| 0 <= j < kept@.len() ==> #[trigger] kept@[j].0@ != tv,
                forall|x: int|
                    #![trigger s0[x]]
                    0 <= x < i && s0[x].0@ != tv && fresh_at(s0[x].1, now) ==> exists|j: int|
                        0 <= j < kept@.len() && #[trigger] kept@[j] == s0[x],
            decreases n - i,
        {
            let same_key = str_eq(self.entries[i].0.as_str(), token.as_str());
            let ts = self.entries[i].1;
            let fresh = if now <= TOKEN_TTL_SECONDS {
                true
            } else {
                ts >= now - TOKEN_TTL_SECONDS
            };
            proof {
                assert(fresh == fresh_at(ts, now));
                assert(same_key == (s0[i as int].0@ == tv));
            }
            if !same_key && fresh {
                let ghost prev = kept@;
                proof {
                    assert forall|j: int| 0 <= j < prev.len() implies prev[j].0@
                        != s0[i as int].0@ by {
                        assert(s0[wit[j]] == prev[j]);
                        assert(wit[j] < i);
                    }
                }
                let k = self.entries[i].0.clone();
                kept.push((k, ts));
                proof {
                    wit = wit.push(i as int);
                    assert(kept@[prev.len() as int] == s0[i as int]);
                    assert(keys_distinct(kept@)) by {
                        assert(forall|j: int| 0 <= j < prev.len() ==> kept@[j] == prev[j]);
                    }
                    assert forall|x: int|
                        #![trigger s0[x]]
                        0 <= x < i + 1 && s0[x].0@ != tv && fresh_at(s0[x].1, now) implies exists|
                        j: int,
                    |
                        0 <= j < kept@.len() && #[trigger] kept@[j] == s0[x] by {
                        if x < i {
                            let j = choose|j: int| 0 <= j < prev.len() && prev[j] == s0[x];
                            assert(kept@[j] == s0[x]);
                        } else {
                            assert(kept@[prev.len() as int] == s0[x]);
                        }
                    }
                }
            } else {
                proof {
                    assert forall|x: int|
                        #![trigger s0[x]]
                        0 <= x < i + 1 && s0[x].0@ != tv && fresh_at(s0[x].1, now) implies exists|
                        j: int,
                    |
                        0 <= j < kept@.len() && #[trigger] kept@[j] == s0[x] by {
                        assert(x < i);
                    }
                }
            }
            i = i + 1;
        }
        let ghost kb = kept@;
        kept.push((token, now));
        proof {
            let m0 = assoc_map(s0);
            let tgt = add_spec(m0, tv, now);
            let fin = kept@;
            assert(fin.drop_last() =~= kb);
            assert(fin[kb.len() as int].0@ == tv);
            assert(fin[kb.len() as int].1 == now);
            assert(keys_distinct(fin)) by {
                assert(forall|j: int| 0 <= j < kb.len() ==> fin[j] == kb[j]);
            }
            let fm = assoc_map(fin);
            assert forall|k: Seq<char>|
                #![trigger fm.dom().contains(k)]
                fm.contains_key(k) implies tgt.contains_key(k) && fm[k] == tgt[k] by {
                lemma_assoc_map_contains(fin, k);
                let j = choose|j: int| 0 <= j < fin.len() && fin[j].0@ == k;
                lemma_assoc_map_value(fin, j);
                if j == kb.len() {
                    assert(k == tv);
                    assert(fm[k] == now);
                    assert(fresh_at(now, now));
                } else {
                    assert(fin[j] == kb[j]);
                    let x = wit[j];
                    assert(s0[x] == kb[j]);
                    lemma_assoc_map_value(s0, x);
                    assert(m0[k] == s0[x].1);
                    assert(k != tv);
                    assert(fresh_at(s0[x].1, now));
                }
            }
            assert forall|k: Seq<char>|
                #![trigger tgt.dom().contains(k)]
                tgt.contains_key(k) implies fm.contains_key(k) by {
                lemma_assoc_map_contains(fin, k);
                if k == tv {
                    assert(fin[kb.len() as int].0@ == k);
                } else {
                    lemma_assoc_map_contains(s0, k);
                    let x = choose|x: int| 0 <= x < s0.len() && s0[x].0@ == k;
                    lemma_assoc_map_value(s0, x);
                    assert(fresh_at(s0[x].1, now));
                    let j = choose|j: int| 0 <= j < kb.len() && kb[j] == s0[x];
                    assert(fin[j].0@ == k);
                }
            }
            assert(fm =~= tgt);
        }
        self.entries = kept;
    }
}

/// A token inserted before the TTL window and not refreshed is gone after a
/// later `add`, while the newly added token is present with its timestamp.
pub proof fn lemma_ttl_expiry(
    m: Map<Seq<char>, u64>,
    t1: Seq<char>,
    t2: Seq<char>,
    n1: u64,
    n2: u64,
)
    requires
        t1 != t2,
        n1 + TOKEN_TTL_SECONDS < n2,
    ensures
        !add_spec(add_spec(m, t1, n1), t2, n2).contains_key(t1),
        add_spec(add_spec(m, t1, n1), t2, n2).contains_key(t2),
        add_spec(add_spec(m, t1, n1), t2, n2)[t2] == n2,
{
    let m1 = add_spec(m, t1, n1);
    assert(m1.contains_key(t1) && m1[t1] == n1);
    assert(!fresh_at(n1, n2));
}

/// Two `add` calls for the same token collapse to the later one: membership
/// is idempotent and the timestamp is refreshed.
pub proof fn lemma_add_refreshes(m: Map<Seq<char>, u64>, t: Seq<char>, n1: u64, n2: u64)
    requires
        n1 <= n2,
    ensures
        add_spec(add_spec(m, t, n1), t, n2) == add_spec(m, t, n2),
        add_spec(add_spec(m, t, n1), t, n2).contains_key(t),
        add_spec(add_spec(m, t, n1), t, n2)[t] == n2,
{
    assert(add_spec(add_spec(m, t, n1), t, n2) =~= add_spec(m, t, n2));
}

/// Two adds of distinct tokens at the same instant lose neither: both are
/// present afterwards, whichever order the two operations took.
pub proof fn lemma_distinct_adds_observable(
    m: Map<Seq<char>, u64>,
    t1: Seq<char>,
    t2: Seq<char>,
    now: u64,
)
    requires
        t1 != t2,
    ensures
        add_spec(add_spec(m, t1, now), t2, now).contains_key(t1),
        add_spec(add_spec(m, t1, now), t2, now).contains_key(t2),
        add_spec(add_spec(m, t1, now), t2, now) == add_spec(add_spec(m, t2, now), t1, now),
{
    assert(fresh_at(now, now));
    assert(add_spec(add_spec(m, t1, now), t2, now) =~= add_spec(add_spec(m, t2, now), t1, now));
}

} // verus!
