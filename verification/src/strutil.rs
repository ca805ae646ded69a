//! Verified character-level string operations used by the routing policy:
//! equality, prefix and suffix tests, prefix stripping, slash trimming and
//! URL joining, all specified over `Seq<char>` views.

use vstd::prelude::*;
use vstd::string::*;

verus! {

/// `p` is a prefix of `s`.
pub open spec fn starts_with(s: Seq<char>, p: Seq<char>) -> bool {
    p.len() <= s.len() && s.subrange(0, p.len() as int) == p
}

/// `p` is a suffix of `s`.
pub open spec fn ends_with(s: Seq<char>, p: Seq<char>) -> bool {
    p.len() <= s.len() && s.subrange(s.len() - p.len(), s.len() as int) == p
}

pub fn str_starts_with(s: &str, p: &str) -> (b: bool)
    ensures
        b == starts_with(s@, p@),
{
    let sl = s.unicode_len();
    let pl = p.unicode_len();
    if pl > sl {
        return false;
    }
    let mut i: usize = 0;
    while i < pl
        invariant
            0 <= i <= pl,
            pl <= sl,
            sl == s@.len(),
            pl == p@.len(),
            forall|j: int| 0 <= j < i ==> s@[j] == p@[j],
        decreases pl - i,
    {
        if s.get_char(i) != p.get_char(i) {
            proof {
                assert(s@.subrange(0, pl as int)[i as int] == s@[i as int]);
            }
            return false;
        }
        i = i + 1;
    }
    proof {
        assert(s@.subrange(0, pl as int) =~= p@);
    }
    true
}

pub fn str_ends_with(s: &str, p: &str) -> (b: bool)
    ensures
        b == ends_with(s@, p@),
{
    let sl = s.unicode_len();
    let pl = p.unicode_len();
    if pl > sl {
        return false;
    }
    let off: usize = sl - pl;
    let mut i: usize = 0;
    while i < pl
        invariant
            0 <= i <= pl,
            off == sl - pl,
            pl <= sl,
            sl == s@.len(),
            pl == p@.len(),
            forall|j: int| 0 <= j < i ==> s@[off + j] == p@[j],
        decreases pl - i,
    {
        if s.get_char(off + i) != p.get_char(i) {
            proof {
                assert(s@.subrange(s@.len() - p@.len(), s@.len() as int)[i as int]
                    == s@[off + i]);
            }
            return false;
        }
        i = i + 1;
    }
    proof {
        assert(s@.subrange(s@.len() - p@.len(), s@.len() as int) =~= p@);
    }
    true
}

pub fn str_eq(a: &str, b: &str) -> (r: bool)
    ensures
        r == (a@ == b@),
{
    let al = a.unicode_len();
    let bl = b.unicode_len();
    if al != bl {
        return false;
    }
    let r = str_starts_with(a, b);
    proof {
        if r {
            assert(a@.subrange(0, b@.len() as int) =~= a@);
        } else {
            if a@ == b@ {
                assert(a@.subrange(0, b@.len() as int) =~= a@);
            }
        }
    }
    r
}

/// Strips `p` from the front of `s`; returns the remainder exactly when `p`
/// is a prefix.
pub fn str_strip_prefix<'a>(s: &'a str, p: &str) -> (r: Option<&'a str>)
    ensures
        r is Some <==> starts_with(s@, p@),
        r matches Some(rest) ==> rest@ == s@.subrange(p@.len() as int, s@.len() as int),
{
    if str_starts_with(s, p) {
        let sl = s.unicode_len();
        let pl = p.unicode_len();
        Some(s.substring_char(pl, sl))
    } else {
        None
    }
}

/// `s` with every trailing `'/'` removed.
pub open spec fn trim_end_slashes(s: Seq<char>) -> Seq<char>
    decreases s.len(),
{
    if s.len() > 0 && s.last() == '/' {
        trim_end_slashes(s.drop_last())
    } else {
        s
    }
}

/// `s` with every leading `'/'` removed.
pub open spec fn trim_start_slashes(s: Seq<char>) -> Seq<char>
    decreases s.len(),
{
    if s.len() > 0 && s[0] == '/' {
        trim_start_slashes(s.drop_first())
    } else {
        s
    }
}

pub fn str_trim_end_slashes<'a>(s: &'a str) -> (r: &'a str)
    ensures
        r@ == trim_end_slashes(s@),
{
    let mut end = s.unicode_len();
    proof {
        assert(s@.subrange(0, end as int) =~= s@);
    }
    loop
        invariant
            end <= s@.len(),
            trim_end_slashes(s@) == trim_end_slashes(s@.subrange(0, end as int)),
        ensures
            end <= s@.len(),
            trim_end_slashes(s@) == trim_end_slashes(s@.subrange(0, end as int)),
            end == 0 || s@[end - 1] != '/',
        decreases end,
    {
        if end == 0 {
            break;
        }
        if s.get_char(end - 1) != '/' {
            break;
        }
        proof {
            assert(s@.subrange(0, end as int).last() == s@[end - 1]);
            assert(s@.subrange(0, end as int).drop_last() =~= s@.subrange(0, end - 1));
        }
        end = end - 1;
    }
    let r = s.substring_char(0, end);
    proof {
        if end > 0 {
            assert(s@.subrange(0, end as int).last() == s@[end - 1]);
        }
        assert(trim_end_slashes(s@.subrange(0, end as int)) == s@.subrange(0, end as int));
    }
    r
}

pub fn str_trim_start_slashes<'a>(s: &'a str) -> (r: &'a str)
    ensures
        r@ == trim_start_slashes(s@),
{
    let len = s.unicode_len();
    let mut start: usize = 0;
    proof {
        assert(s@.subrange(0, s@.len() as int) =~= s@);
    }
    loop
        invariant
            start <= s@.len(),
            len == s@.len(),
            trim_start_slashes(s@) == trim_start_slashes(s@.subrange(start as int, s@.len() as int)),
        ensures
            start <= s@.len(),
            trim_start_slashes(s@) == trim_start_slashes(
                s@.subrange(start as int, s@.len() as int),
            ),
            start == s@.len() || s@[start as int] != '/',
        decreases s@.len() - start,
    {
        if start == len {
            break;
        }
        if s.get_char(start) != '/' {
            break;
        }
        proof {
            assert(s@.subrange(start as int, s@.len() as int)[0] == s@[start as int]);
            assert(s@.subrange(start as int, s@.len() as int).drop_first() =~= s@.subrange(
                start + 1,
                s@.len() as int,
            ));
        }
        start = start + 1;
    }
    let r = s.substring_char(start, len);
    proof {
        if start < s@.len() {
            assert(s@.subrange(start as int, s@.len() as int)[0] == s@[start as int]);
        }
        assert(trim_start_slashes(s@.subrange(start as int, s@.len() as int)) == s@.subrange(
            start as int,
            s@.len() as int,
        ));
    }
    r
}

/// The gateway target: `base` without trailing slashes, one `'/'`, and `rel`
/// without leading slashes.
pub open spec fn join_url(base: Seq<char>, rel: Seq<char>) -> Seq<char> {
    trim_end_slashes(base) + "/"@ + trim_start_slashes(rel)
}

pub fn make_join_url(base: &str, rel: &str) -> (r: String)
    ensures
        r@ == join_url(base@, rel@),
{
    let b = str_trim_end_slashes(base);
    let p = str_trim_start_slashes(rel);
    let mut u = String::from_str(b);
    u.append("/");
    u.append(p);
    u
}

} // verus!
