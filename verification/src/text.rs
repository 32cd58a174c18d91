//! Small verified text helpers the rest of the crate builds on.

use vstd::prelude::*;

verus! {

use vstd::string::StrSliceExecFns;

/// Character-for-character equality of two string slices.
pub fn str_eq(a: &str, b: &str) -> (r: bool)
    ensures
        r == (a@ == b@),
{
    let na = a.unicode_len();
    let nb = b.unicode_len();
    if na != nb {
        proof {
            assert(a@ != b@);
        }
        return false;
    }
    let mut i: usize = 0;
    while i < na
        invariant
            0 <= i <= na,
            na == a@.len(),
            na == b@.len(),
            forall|j: int| 0 <= j < i ==> a@[j] == b@[j],
        decreases na - i,
    {
        if a.get_char(i) != b.get_char(i) {
            proof {
                assert(a@[i as int] != b@[i as int]);
            }
            return false;
        }
        i = i + 1;
    }
    proof {
        assert(a@ =~= b@);
    }
    true
}

/// Whether `prefix` is a prefix of `s`.
pub open spec fn is_prefix_of(prefix: Seq<char>, s: Seq<char>) -> bool {
    prefix.len() <= s.len() && s.subrange(0, prefix.len() as int) == prefix
}

/// Whether `needle` occurs contiguously anywhere in `hay`.
pub open spec fn contains_seq(hay: Seq<char>, needle: Seq<char>) -> bool {
    exists|i: int|
        0 <= i <= hay.len() - needle.len() && #[trigger] hay.subrange(i, i + needle.len())
            == needle
}

/// Whether `s` starts with `prefix`, checked character by character.
pub fn str_starts_with(s: &str, prefix: &str) -> (r: bool)
    ensures
        r == is_prefix_of(prefix@, s@),
{
    let np = prefix.unicode_len();
    let ns = s.unicode_len();
    if np > ns {
        return false;
    }
    let mut i: usize = 0;
    while i < np
        invariant
            0 <= i <= np,
            np == prefix@.len(),
            ns == s@.len(),
            np <= ns,
            forall|j: int| 0 <= j < i ==> s@[j] == prefix@[j],
        decreases np - i,
    {
        if s.get_char(i) != prefix.get_char(i) {
            proof {
                assert(s@.subrange(0, np as int)[i as int] != prefix@[i as int]);
            }
            return false;
        }
        i = i + 1;
    }
    proof {
        assert(s@.subrange(0, np as int) =~= prefix@);
    }
    true
}

/// Whether `needle` occurs contiguously anywhere in `hay`, by checking a
/// prefix match at every start position.
pub fn str_contains(hay: &str, needle: &str) -> (r: bool)
    ensures
        r == contains_seq(hay@, needle@),
{
    let nh = hay.unicode_len();
    let nn = needle.unicode_len();
    if nn > nh {
        proof {
            assert(!contains_seq(hay@, needle@));
        }
        return false;
    }
    if nn == 0 {
        proof {
            assert(hay@.subrange(0, 0 + needle@.len() as int) =~= needle@);
            assert(contains_seq(hay@, needle@));
        }
        return true;
    }
    let mut start: usize = 0;
    while start <= nh - nn
        invariant
            0 <= start <= nh - nn + 1,
            0 < nn <= nh,
            nh == hay@.len(),
            nn == needle@.len(),
            forall|k: int|
                0 <= k < start ==> #[trigger] hay@.subrange(k, k + needle@.len()) != needle@,
        decreases nh - nn - start + 1,
    {
        let mut i: usize = 0;
        let mut matches_here = true;
        while i < nn
            invariant
                0 <= i <= nn,
                0 <= start <= nh - nn,
                nn <= nh,
                nh == hay@.len(),
                nn == needle@.len(),
                matches_here ==> forall|j: int|
                    0 <= j < i ==> hay@[start + j] == needle@[j],
                !matches_here ==> hay@.subrange(start as int, start + nn) != needle@,
            decreases nn - i,
        {
            if hay.get_char(start + i) != needle.get_char(i) {
                proof {
                    assert(hay@.subrange(start as int, start + nn)[i as int] != needle@[i as int]);
                }
                matches_here = false;
                i = nn;
            } else {
                i = i + 1;
            }
        }
        if matches_here {
            proof {
                assert(hay@.subrange(start as int, start + nn) =~= needle@);
            }
            return true;
        }
        proof {
            assert(hay@.subrange(start as int, start + nn) != needle@);
        }
        start = start + 1;
    }
    proof {
        assert forall|k: int|
            0 <= k <= hay@.len() - needle@.len() implies #[trigger] hay@.subrange(
            k,
            k + needle@.len(),
        ) != needle@ by {
            assert(k < start);
        }
    }
    false
}

} // verus!
