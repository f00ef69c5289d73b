//! Occurrence counts, and the multiset comparisons built on them.
use vstd::laws_eq::obeys_concrete_eq;
use vstd::prelude::*;

verus! {

/// The number of elements of `s` equal to `x`.
pub open spec fn count_of<T>(s: Seq<T>, x: T) -> nat
    decreases s.len(),
{
    if s.len() == 0 {
        0
    } else {
        count_of(s.drop_last(), x) + if s.last() == x {
            1nat
        } else {
            0nat
        }
    }
}

/// Every element occurs in `sub` at most as often as in `sup`.
pub open spec fn sub_multiset<T>(sub: Seq<T>, sup: Seq<T>) -> bool {
    forall|x: T| #[trigger] count_of(sub, x) <= count_of(sup, x)
}

/// Every element occurs equally often in `a` and `b`.
pub open spec fn same_multiset<T>(a: Seq<T>, b: Seq<T>) -> bool {
    forall|x: T| #[trigger] count_of(a, x) == count_of(b, x)
}

/// At position `j` of `right`, the element `right[j]` has occurred (counting
/// position `j`) more often than it occurs in `left`.
pub open spec fn excess_at<T>(left: Seq<T>, right: Seq<T>, j: int) -> bool {
    count_of(right.take(j + 1), right[j]) > count_of(left, right[j])
}

/// Position `j` is the first excess position of `right` against `left`.
pub open spec fn first_excess_at<T>(left: Seq<T>, right: Seq<T>, j: int) -> bool {
    &&& 0 <= j < right.len()
    &&& excess_at(left, right, j)
    &&& forall|k: int| 0 <= k < j ==> !#[trigger] excess_at(left, right, k)
}

/// A prefix holds no more copies of `x` than the whole sequence.
pub proof fn lemma_count_take_le<T>(s: Seq<T>, k: int, x: T)
    requires
        0 <= k <= s.len(),
    ensures
        count_of(s.take(k), x) <= count_of(s, x),
    decreases s.len(),
{
    if k < s.len() {
        lemma_count_take_le(s.drop_last(), k, x);
        assert(s.drop_last().take(k) =~= s.take(k));
    } else {
        assert(s.take(k) =~= s);
    }
}

/// With no excess position, `right` is a sub-multiset of `left`.
pub proof fn lemma_no_excess_sub<T>(left: Seq<T>, right: Seq<T>)
    requires
        forall|j: int| 0 <= j < right.len() ==> !#[trigger] excess_at(left, right, j),
    ensures
        sub_multiset(right, left),
    decreases right.len(),
{
    if right.len() > 0 {
        let r = right.drop_last();
        assert forall|j: int| 0 <= j < r.len() implies !#[trigger] excess_at(left, r, j) by {
            assert(r.take(j + 1) =~= right.take(j + 1));
            assert(!excess_at(left, right, j));
        }
        lemma_no_excess_sub(left, r);
        let n = right.len() - 1;
        assert(right.take(n + 1) =~= right);
        assert(!excess_at(left, right, n));
        assert forall|x: T| #[trigger] count_of(right, x) <= count_of(left, x) by {
            assert(count_of(r, x) <= count_of(left, x));
        }
    }
}

/// An excess position shows that `right` is not a sub-multiset of `left`.
pub proof fn lemma_excess_not_sub<T>(left: Seq<T>, right: Seq<T>, j: int)
    requires
        0 <= j < right.len(),
        excess_at(left, right, j),
    ensures
        !sub_multiset(right, left),
{
    lemma_count_take_le(right, j + 1, right[j]);
    assert(count_of(right, right[j]) > count_of(left, right[j]));
}

/// Sequences with the same multiset have the same length.
pub proof fn lemma_same_multiset_len<T>(a: Seq<T>, b: Seq<T>)
    requires
        same_multiset(a, b),
    ensures
        a.len() == b.len(),
    decreases a.len() + b.len(),
{
    if a.len() > 0 {
        let x = a.last();
        lemma_count_positive(a, a.len() - 1);
        assert(count_of(b, x) > 0);
        let i = lemma_index_of(b, x);
        let b2 = b.remove(i);
        lemma_count_remove(b, i);
        let a2 = a.drop_last();
        assert forall|y: T| #[trigger] count_of(a2, y) == count_of(b2, y) by {
            assert(count_of(a, y) == count_of(b, y));
        }
        lemma_same_multiset_len(a2, b2);
    } else if b.len() > 0 {
        lemma_count_positive(b, b.len() - 1);
        assert(count_of(a, b.last()) == 0);
    }
}

/// An element at a position is counted.
pub proof fn lemma_count_positive<T>(s: Seq<T>, i: int)
    requires
        0 <= i < s.len(),
    ensures
        count_of(s, s[i]) > 0,
    decreases s.len(),
{
    if i < s.len() - 1 {
        lemma_count_positive(s.drop_last(), i);
    }
}

/// A counted element occurs at some position.
pub proof fn lemma_index_of<T>(s: Seq<T>, x: T) -> (i: int)
    requires
        count_of(s, x) > 0,
    ensures
        0 <= i < s.len(),
        s[i] == x,
    decreases s.len(),
{
    if s.last() == x {
        s.len() - 1
    } else {
        lemma_index_of(s.drop_last(), x)
    }
}

/// Removing position `i` removes one copy of `s[i]` and nothing else.
pub proof fn lemma_count_remove<T>(s: Seq<T>, i: int)
    requires
        0 <= i < s.len(),
    ensures
        forall|y: T|
            #[trigger] count_of(s.remove(i), y) == count_of(s, y) - if y == s[i] {
                1int
            } else {
                0int
            },
    decreases s.len(),
{
    if i == s.len() - 1 {
        assert(s.remove(i) =~= s.drop_last());
        assert forall|y: T| #[trigger] count_of(s.remove(i), y) == count_of(s, y) - if y == s[i] {
            1int
        } else {
            0int
        } by {
            assert(count_of(s, y) == count_of(s.drop_last(), y) + if s.last() == y {
                1nat
            } else {
                0nat
            });
        }
    } else {
        let t = s.drop_last();
        lemma_count_remove(t, i);
        assert(s.remove(i).drop_last() =~= t.remove(i));
        assert(s.remove(i).last() == s.last());
        assert(t[i] == s[i]);
        assert forall|y: T| #[trigger] count_of(s.remove(i), y) == count_of(s, y) - if y == s[i] {
            1int
        } else {
            0int
        } by {
            assert(count_of(t.remove(i), y) == count_of(t, y) - if y == t[i] {
                1int
            } else {
                0int
            });
        }
    }
}

/// A sub-multiset of the same length is the same multiset.
pub proof fn lemma_sub_same_len<T>(a: Seq<T>, b: Seq<T>)
    requires
        sub_multiset(a, b),
        a.len() == b.len(),
    ensures
        same_multiset(a, b),
    decreases a.len(),
{
    if a.len() > 0 {
        let x = a.last();
        lemma_count_positive(a, a.len() - 1);
        assert(count_of(a, x) <= count_of(b, x));
        let i = lemma_index_of(b, x);
        let b2 = b.remove(i);
        lemma_count_remove(b, i);
        let a2 = a.drop_last();
        assert forall|y: T| #[trigger] count_of(a2, y) <= count_of(b2, y) by {
            assert(count_of(a, y) <= count_of(b, y));
        }
        lemma_sub_same_len(a2, b2);
        assert forall|y: T| #[trigger] count_of(a, y) == count_of(b, y) by {
            assert(count_of(a2, y) == count_of(b2, y));
        }
    } else {
        assert forall|y: T| #[trigger] count_of(a, y) == count_of(b, y) by {}
    }
}

/// How many of the first `end` elements of `s` equal `x`.
pub fn count_in<T: PartialEq>(s: &[T], x: &T, end: usize) -> (n: usize)
    requires
        end <= s@.len(),
    ensures
        n <= end,
        obeys_concrete_eq::<T>() ==> n == count_of(s@.take(end as int), *x),
{
    let mut n: usize = 0;
    let mut i: usize = 0;
    while i < end
        invariant
            end <= s@.len(),
            i <= end,
            n <= i,
            obeys_concrete_eq::<T>() ==> n == count_of(s@.take(i as int), *x),
        decreases end - i,
    {
        let same = s[i] == *x;
        proof {
            assert(s@.take(i + 1).drop_last() =~= s@.take(i as int));
            if obeys_concrete_eq::<T>() {
                reveal(obeys_concrete_eq);
            }
        }
        if same {
            n = n + 1;
        }
        i = i + 1;
    }
    n
}

/// The first position where `right` holds an element more often than
/// `left` does, counting up to that position.
pub fn first_excess<T: PartialEq>(left: &[T], right: &[T]) -> (r: Option<usize>)
    ensures
        r matches Some(j) ==> j < right@.len(),
        obeys_concrete_eq::<T>() ==> match r {
            Some(j) => first_excess_at(left@, right@, j as int),
            None => forall|j: int| 0 <= j < right@.len() ==> !#[trigger] excess_at(left@, right@, j),
        },
{
    let mut j: usize = 0;
    while j < right.len()
        invariant
            j <= right@.len(),
            obeys_concrete_eq::<T>() ==> forall|k: int|
                0 <= k < j ==> !#[trigger] excess_at(left@, right@, k),
        decreases right.len() - j,
    {
        let in_right = count_in(right, &right[j], j + 1);
        let in_left = count_in(left, &right[j], left.len());
        proof {
            assert(left@.take(left@.len() as int) =~= left@);
        }
        if in_right > in_left {
            return Some(j);
        }
        j = j + 1;
    }
    None
}

/// `elements_match` and `subset` agree: two slices hold the same elements
/// with the same multiplicities exactly when each is a multiset subset of
/// the other.
pub proof fn law_same_multiset_iff_mutual_subset<T>(a: Seq<T>, b: Seq<T>)
    ensures
        same_multiset(a, b) <==> (sub_multiset(a, b) && sub_multiset(b, a)),
{
    if sub_multiset(a, b) && sub_multiset(b, a) {
        assert forall|x: T| #[trigger] count_of(a, x) == count_of(b, x) by {
            assert(count_of(a, x) <= count_of(b, x));
            assert(count_of(b, x) <= count_of(a, x));
        }
    }
    if same_multiset(a, b) {
        assert forall|x: T| #[trigger] count_of(a, x) <= count_of(b, x) by {
            assert(count_of(a, x) == count_of(b, x));
        }
        assert forall|x: T| #[trigger] count_of(b, x) <= count_of(a, x) by {
            assert(count_of(a, x) == count_of(b, x));
        }
    }
}

/// Order does not matter to `elements_match`: the relation is symmetric.
pub proof fn law_same_multiset_symmetric<T>(a: Seq<T>, b: Seq<T>)
    ensures
        same_multiset(a, b) <==> same_multiset(b, a),
{
    if same_multiset(a, b) {
        assert forall|x: T| #[trigger] count_of(b, x) == count_of(a, x) by {
            assert(count_of(a, x) == count_of(b, x));
        }
    }
    if same_multiset(b, a) {
        assert forall|x: T| #[trigger] count_of(a, x) == count_of(b, x) by {
            assert(count_of(b, x) == count_of(a, x));
        }
    }
}

} // verus!
