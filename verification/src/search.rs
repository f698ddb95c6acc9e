//! Leftmost substring matching over character sequences.
//!
//! The splitter needs exactly one primitive: the position of the leftmost
//! occurrence of a needle inside a haystack.  [`is_match_at`] says what an
//! occurrence is, [`first_match_from`] singles out the leftmost one, and
//! [`find_first`] computes it.

use vstd::prelude::*;

verus! {

/// `needle` occurs in `hay` at character position `i`.
pub open spec fn is_match_at(hay: Seq<char>, needle: Seq<char>, i: int) -> bool {
    &&& 0 <= i
    &&& i + needle.len() <= hay.len()
    &&& hay.subrange(i, i + needle.len()) == needle
}

/// The position of the leftmost occurrence of `needle` in `hay` at or
/// after position `from`, if any.
pub open spec fn first_match_from(hay: Seq<char>, needle: Seq<char>, from: int) -> Option<int>
    decreases hay.len() - from,
{
    if from + needle.len() > hay.len() {
        None
    } else if is_match_at(hay, needle, from) {
        Some(from)
    } else {
        proof {
            if needle.len() == 0 && 0 <= from {
                assert(hay.subrange(from, from + needle.len()) =~= needle);
            }
        }
        first_match_from(hay, needle, from + 1)
    }
}

/// What `first_match_from` returns is the leftmost occurrence: a `Some`
/// is an occurrence with none before it, a `None` means there is no
/// occurrence at all.
pub proof fn lemma_first_match_from(hay: Seq<char>, needle: Seq<char>, from: int)
    requires
        0 <= from,
    ensures
        match first_match_from(hay, needle, from) {
            Some(i) => {
                &&& from <= i
                &&& is_match_at(hay, needle, i)
                &&& forall|k: int| from <= k < i ==> !is_match_at(hay, needle, k)
            }
            None => forall|k: int| from <= k ==> !is_match_at(hay, needle, k),
        },
    decreases hay.len() - from,
{
    if from + needle.len() > hay.len() {
        assert forall|k: int| from <= k implies !is_match_at(hay, needle, k) by {
            assert(k + needle.len() > hay.len());
        }
    } else if is_match_at(hay, needle, from) {
    } else {
        if needle.len() == 0 {
            assert(hay.subrange(from, from + needle.len()) =~= needle);
        }
        lemma_first_match_from(hay, needle, from + 1);
        match first_match_from(hay, needle, from + 1) {
            Some(i) => {
                assert forall|k: int| from <= k < i implies !is_match_at(hay, needle, k) by {
                    if k != from {
                        assert(from + 1 <= k < i);
                    }
                }
            }
            None => {
                assert forall|k: int| from <= k implies !is_match_at(hay, needle, k) by {
                    if k != from {
                        assert(from + 1 <= k);
                    }
                }
            }
        }
    }
}

/// Does `needle` occur in `hay` at character position `i`?
pub(crate) fn matches_at(hay: &str, needle: &str, i: usize) -> (b: bool)
    requires
        i + needle@.len() <= hay@.len(),
        hay@.len() <= usize::MAX,
    ensures
        b == is_match_at(hay@, needle@, i as int),
{
    let needle_len = needle.unicode_len();
    let mut j: usize = 0;
    while j < needle_len
        invariant
            needle_len == needle@.len(),
            i + needle_len <= hay@.len() <= usize::MAX,
            j <= needle_len,
            forall|t: int| 0 <= t < j ==> hay@[i + t] == needle@[t],
        decreases needle_len - j,
    {
        if hay.get_char(i + j) != needle.get_char(j) {
            proof {
                assert(hay@.subrange(i as int, i + needle@.len())[j as int] != needle@[j as int]);
            }
            return false;
        }
        j += 1;
    }
    proof {
        assert(hay@.subrange(i as int, i + needle@.len()) =~= needle@);
    }
    true
}

/// The position of the leftmost occurrence of `needle` in `hay`, if any.
pub(crate) fn find_first(hay: &str, needle: &str) -> (r: Option<usize>)
    requires
        needle@.len() >= 1,
    ensures
        match r {
            Some(i) => first_match_from(hay@, needle@, 0) == Some(i as int),
            None => first_match_from(hay@, needle@, 0) == None::<int>,
        },
{
    let hay_len = hay.unicode_len();
    let needle_len = needle.unicode_len();
    if needle_len > hay_len {
        proof {
            lemma_first_match_from(hay@, needle@, 0);
        }
        return None;
    }
    let bound = hay_len - needle_len;
    let mut i: usize = 0;
    while i <= bound
        invariant
            hay_len == hay@.len(),
            needle_len == needle@.len(),
            needle_len >= 1,
            bound == hay_len - needle_len,
            i <= bound + 1,
            forall|k: int| 0 <= k < i ==> !is_match_at(hay@, needle@, k),
        decreases bound + 1 - i,
    {
        if matches_at(hay, needle, i) {
            proof {
                lemma_first_match_from(hay@, needle@, 0);
                match first_match_from(hay@, needle@, 0) {
                    Some(m) => {
                        assert(!(m < i));
                        assert(!(i < m));
                    }
                    None => {
                        assert(!is_match_at(hay@, needle@, i as int));
                    }
                }
            }
            return Some(i);
        }
        i += 1;
    }
    proof {
        assert forall|k: int| 0 <= k implies !is_match_at(hay@, needle@, k) by {
            if k > bound {
                assert(k + needle@.len() > hay@.len());
            }
        }
        lemma_first_match_from(hay@, needle@, 0);
    }
    None
}

} // verus!
