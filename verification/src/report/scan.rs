//! Character-vector helpers for reading lines of test output: first and last
//! occurrences, and copies of ranges.
use vstd::prelude::*;

use crate::text::{find_from, first_at, last_at, occurs_at, rfind};

verus! {

/// A position that is the first occurrence is the one `first_at` names.
pub proof fn lemma_first_at(hay: Seq<char>, needle: Seq<char>, i: int)
    requires
        occurs_at(hay, needle, i),
        forall|k: int| 0 <= k < i ==> !#[trigger] occurs_at(hay, needle, k),
    ensures
        first_at(hay, needle) == i,
{
    reveal(first_at);
    let p = first_at(hay, needle);
    assert(occurs_at(hay, needle, p) && forall|k: int| 0 <= k < p ==> !#[trigger] occurs_at(hay, needle, k));
    if p < i {
        assert(!occurs_at(hay, needle, p));
    }
    if i < p {
        assert(!occurs_at(hay, needle, i));
    }
}

/// A position that is the last occurrence is the one `last_at` names.
pub proof fn lemma_last_at(hay: Seq<char>, needle: Seq<char>, i: int)
    requires
        occurs_at(hay, needle, i),
        forall|k: int| i < k ==> !#[trigger] occurs_at(hay, needle, k),
    ensures
        last_at(hay, needle) == i,
{
    reveal(last_at);
    let p = last_at(hay, needle);
    assert(occurs_at(hay, needle, p) && forall|k: int| p < k ==> !#[trigger] occurs_at(hay, needle, k));
    if p < i {
        assert(!occurs_at(hay, needle, i));
    }
    if i < p {
        assert(!occurs_at(hay, needle, p));
    }
}

/// The first occurrence of `needle` in `hay`.
pub fn find_first(hay: &Vec<char>, needle: &Vec<char>) -> (r: Option<usize>)
    ensures
        match r {
            Some(i) => crate::text::contains_sub(hay@, needle@) && i == first_at(hay@, needle@)
                && occurs_at(hay@, needle@, i as int),
            None => !crate::text::contains_sub(hay@, needle@),
        },
{
    let r = find_from(hay, needle, 0);
    proof {
        match r {
            Some(i) => {
                lemma_first_at(hay@, needle@, i as int);
            },
            None => {},
        }
    }
    r
}

/// The last occurrence of `needle` in `hay`.
pub fn find_last(hay: &Vec<char>, needle: &Vec<char>) -> (r: Option<usize>)
    ensures
        match r {
            Some(i) => crate::text::contains_sub(hay@, needle@) && i == last_at(hay@, needle@)
                && occurs_at(hay@, needle@, i as int),
            None => !crate::text::contains_sub(hay@, needle@),
        },
{
    let r = rfind(hay, needle);
    proof {
        match r {
            Some(i) => {
                lemma_last_at(hay@, needle@, i as int);
            },
            None => {},
        }
    }
    r
}

/// A copy of `v[lo..hi]`.
pub fn slice_of(v: &Vec<char>, lo: usize, hi: usize) -> (r: Vec<char>)
    requires
        lo <= hi <= v@.len(),
    ensures
        r@ == v@.subrange(lo as int, hi as int),
{
    let mut r: Vec<char> = Vec::new();
    let mut i = lo;
    while i < hi
        invariant
            lo <= i <= hi <= v@.len(),
            r@ == v@.subrange(lo as int, i as int),
        decreases hi - i,
    {
        r.push(v[i]);
        i = i + 1;
        assert(r@ =~= v@.subrange(lo as int, i as int));
    }
    r
}

/// Whether `a` and `b` hold the same characters.
pub fn same_chars(a: &Vec<char>, b: &Vec<char>) -> (r: bool)
    ensures
        r == (a@ == b@),
{
    if a.len() != b.len() {
        return false;
    }
    let r = crate::text::matches_at(a, b, 0);
    proof {
        assert(a@.subrange(0, a@.len() as int) =~= a@);
    }
    r
}

} // verus!
