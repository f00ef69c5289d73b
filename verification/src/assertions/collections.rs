//! Assertions on strings, slices and maps, including multiset comparisons.
use std::collections::HashMap;
use std::hash::Hash;
use vstd::laws_eq::obeys_concrete_eq;
use vstd::prelude::*;
use vstd::std_specs::hash::obeys_key_model;

use super::counting::{
    count_in, count_of, excess_at, first_excess, first_excess_at, lemma_excess_not_sub,
    lemma_no_excess_sub, lemma_same_multiset_len, lemma_sub_same_len, same_multiset, sub_multiset,
};
use super::{debug_text, wrap_debug, wraps, wraps2};
use crate::text::{contains_sub, decimal, push_decimal, str_contains};

verus! {

broadcast use vstd::std_specs::hash::group_hash_axioms;

/// Checks that `haystack` contains `needle`.
pub fn contains_str(haystack: &str, needle: &str) -> (r: Result<(), String>)
    ensures
        r is Ok <==> contains_sub(haystack@, needle@),
        r matches Err(m) ==> m@ == "assertion failed: `contains_str`\n  haystack: `"@ + haystack@
            + "`\n    needle: `"@ + needle@ + "`"@,
{
    if str_contains(haystack, needle) {
        return Ok(());
    }
    let mut m = String::from_str("assertion failed: `contains_str`\n  haystack: `");
    m.append(haystack);
    m.append("`\n    needle: `");
    m.append(needle);
    m.append("`");
    Err(m)
}

/// Checks that `haystack` does not contain `needle`.
pub fn not_contains_str(haystack: &str, needle: &str) -> (r: Result<(), String>)
    ensures
        r is Ok <==> !contains_sub(haystack@, needle@),
        r matches Err(m) ==> m@ == "assertion failed: `not_contains_str`\n  haystack: `"@
            + haystack@ + "`\n contains: `"@ + needle@ + "`"@,
{
    if !str_contains(haystack, needle) {
        return Ok(());
    }
    let mut m = String::from_str("assertion failed: `not_contains_str`\n  haystack: `");
    m.append(haystack);
    m.append("`\n contains: `");
    m.append(needle);
    m.append("`");
    Err(m)
}

/// Whether some element of `slice` equals `item`.
fn slice_has<T: PartialEq>(slice: &[T], item: &T) -> (r: bool)
    ensures
        obeys_concrete_eq::<T>() ==> (r <==> slice@.contains(*item)),
{
    let mut i: usize = 0;
    while i < slice.len()
        invariant
            i <= slice@.len(),
            obeys_concrete_eq::<T>() ==> forall|k: int| 0 <= k < i ==> slice@[k] != *item,
        decreases slice.len() - i,
    {
        let same = slice[i] == *item;
        proof {
            if obeys_concrete_eq::<T>() {
                reveal(obeys_concrete_eq);
            }
        }
        if same {
            return true;
        }
        i = i + 1;
    }
    false
}

/// Checks that `slice` contains an element equal to `item`.
pub fn contains<T: PartialEq + core::fmt::Debug>(slice: &[T], item: &T) -> (r: Result<(), String>)
    ensures
        obeys_concrete_eq::<T>() ==> (r is Ok <==> slice@.contains(*item)),
        r matches Err(m) ==> wraps2(
            m@,
            "assertion failed: `contains`\n  slice: `"@,
            "`\n missing: `"@,
            "`"@,
        ),
{
    if slice_has(slice, item) {
        return Ok(());
    }
    let s = debug_text(slice);
    let d = debug_text(item);
    let mut m = String::from_str("assertion failed: `contains`\n  slice: `");
    m.append(s.as_str());
    m.append("`\n missing: `");
    m.append(d.as_str());
    m.append("`");
    proof {
        assert(m@ == "assertion failed: `contains`\n  slice: `"@ + s@ + "`\n missing: `"@ + d@
            + "`"@);
    }
    Err(m)
}

/// Checks that no element of `slice` equals `item`.
pub fn not_contains<T: PartialEq + core::fmt::Debug>(slice: &[T], item: &T) -> (r: Result<(), String>)
    ensures
        obeys_concrete_eq::<T>() ==> (r is Ok <==> !slice@.contains(*item)),
        r matches Err(m) ==> wraps2(
            m@,
            "assertion failed: `not_contains`\n  slice: `"@,
            "`\n has: `"@,
            "`"@,
        ),
{
    if !slice_has(slice, item) {
        return Ok(());
    }
    let s = debug_text(slice);
    let d = debug_text(item);
    let mut m = String::from_str("assertion failed: `not_contains`\n  slice: `");
    m.append(s.as_str());
    m.append("`\n has: `");
    m.append(d.as_str());
    m.append("`");
    proof {
        assert(m@ == "assertion failed: `not_contains`\n  slice: `"@ + s@ + "`\n has: `"@ + d@
            + "`"@);
    }
    Err(m)
}

/// Checks that `map` has an entry for `key`.
pub fn contains_key<K: Eq + Hash + core::fmt::Debug, V>(map: &HashMap<K, V>, key: &K) -> (r: Result<
    (),
    String,
>)
    ensures
        obeys_key_model::<K>() ==> (r is Ok <==> map@.contains_key(*key)),
        r matches Err(m) ==> wraps(m@, "assertion failed: `contains_key`\n  missing key: `"@, "`"@),
{
    if map.contains_key(key) {
        return Ok(());
    }
    Err(wrap_debug("assertion failed: `contains_key`\n  missing key: `", key, "`"))
}

/// Checks that `slice` has `n` elements.
pub fn len<T>(slice: &[T], n: usize) -> (r: Result<(), String>)
    ensures
        r is Ok <==> slice@.len() == n,
        r matches Err(m) ==> m@ == "assertion failed: `len`\n  expected: "@ + decimal(n as nat)
            + "\n    actual: "@ + decimal(slice@.len()),
{
    if slice.len() == n {
        return Ok(());
    }
    let mut m = String::from_str("assertion failed: `len`\n  expected: ");
    push_decimal(&mut m, n as u128);
    m.append("\n    actual: ");
    push_decimal(&mut m, slice.len() as u128);
    Err(m)
}

/// Checks that `s` is `n` bytes long in UTF-8.
pub fn len_string(s: &str, n: usize) -> (r: Result<(), String>)
    ensures
        r is Ok <==> s.len() == n,
        r matches Err(m) ==> m@ == "assertion failed: `len_string`\n  expected byte len: "@
            + decimal(n as nat) + "\n    actual: "@ + decimal(s.len() as nat),
{
    let actual = s.len();
    if actual == n {
        return Ok(());
    }
    let mut m = String::from_str("assertion failed: `len_string`\n  expected byte len: ");
    push_decimal(&mut m, n as u128);
    m.append("\n    actual: ");
    push_decimal(&mut m, actual as u128);
    Err(m)
}

/// Checks that `s` is empty.
pub fn empty_str(s: &str) -> (r: Result<(), String>)
    ensures
        r is Ok <==> s@.len() == 0,
        r matches Err(m) ==> m@ == "assertion failed: `empty_str`: expected empty, got `"@ + s@
            + "`"@,
{
    if s.is_empty() {
        return Ok(());
    }
    let mut m = String::from_str("assertion failed: `empty_str`: expected empty, got `");
    m.append(s);
    m.append("`");
    Err(m)
}

/// Checks that `s` is not empty.
pub fn not_empty_str(s: &str) -> (r: Result<(), String>)
    ensures
        r is Ok <==> s@.len() != 0,
        r matches Err(m) ==> m@ == "assertion failed: `not_empty_str`: expected non-empty"@,
{
    if !s.is_empty() {
        return Ok(());
    }
    Err(String::from_str("assertion failed: `not_empty_str`: expected non-empty"))
}

/// Checks that `s` has no elements.
pub fn empty_slice<T>(s: &[T]) -> (r: Result<(), String>)
    ensures
        r is Ok <==> s@.len() == 0,
        r matches Err(m) ==> m@ == "assertion failed: `empty_slice`: expected len 0, got "@
            + decimal(s@.len()),
{
    if s.len() == 0 {
        return Ok(());
    }
    let mut m = String::from_str("assertion failed: `empty_slice`: expected len 0, got ");
    push_decimal(&mut m, s.len() as u128);
    Err(m)
}

/// Checks that `s` has at least one element.
pub fn not_empty_slice<T>(s: &[T]) -> (r: Result<(), String>)
    ensures
        r is Ok <==> s@.len() != 0,
        r matches Err(m) ==> m@ == "assertion failed: `not_empty_slice`: expected non-empty slice"@,
{
    if s.len() != 0 {
        return Ok(());
    }
    Err(String::from_str("assertion failed: `not_empty_slice`: expected non-empty slice"))
}

/// Checks that `items` is contained in `superset` as a multiset: each
/// element occurs in `superset` at least as often as in `items`. The
/// failure names the first element of `items` (in order) that runs out:
/// `missing element` when `superset` has none of it, else `insufficient
/// multiplicity`.
pub fn subset<T: Eq + Hash + core::fmt::Debug>(superset: &[T], items: &[T]) -> (r: Result<
    (),
    String,
>)
    ensures
        obeys_concrete_eq::<T>() ==> (r is Ok <==> sub_multiset(items@, superset@)),
        obeys_concrete_eq::<T>() ==> (r matches Err(m) ==> exists|j: int|
            first_excess_at(superset@, items@, j) && if count_of(superset@, items@[j]) == 0 {
                wraps(m@, "assertion failed: `subset`: missing element `"@, "` in superset"@)
            } else {
                wraps(m@, "assertion failed: `subset`: insufficient multiplicity for `"@, "`"@)
            }),
{
    match first_excess(superset, items) {
        None => {
            proof {
                if obeys_concrete_eq::<T>() {
                    lemma_no_excess_sub(superset@, items@);
                }
            }
            Ok(())
        },
        Some(j) => {
            let x = &items[j];
            let have = count_in(superset, x, superset.len());
            proof {
                assert(superset@.take(superset@.len() as int) =~= superset@);
                if obeys_concrete_eq::<T>() {
                    lemma_excess_not_sub(superset@, items@, j as int);
                }
            }
            if have == 0 {
                Err(wrap_debug("assertion failed: `subset`: missing element `", x, "` in superset"))
            } else {
                Err(wrap_debug("assertion failed: `subset`: insufficient multiplicity for `", x, "`"))
            }
        },
    }
}

/// Checks that `items` is not contained in `superset` as a multiset.
pub fn not_subset<T: Eq + Hash + core::fmt::Debug>(superset: &[T], items: &[T]) -> (r: Result<
    (),
    String,
>)
    ensures
        obeys_concrete_eq::<T>() ==> (r is Ok <==> !sub_multiset(items@, superset@)),
        r matches Err(m) ==> wraps(
            m@,
            "assertion failed: `not_subset`: `"@,
            "` is a multiset subset of the superset"@,
        ),
{
    match first_excess(superset, items) {
        Some(j) => {
            proof {
                if obeys_concrete_eq::<T>() {
                    lemma_excess_not_sub(superset@, items@, j as int);
                }
            }
            Ok(())
        },
        None => {
            proof {
                if obeys_concrete_eq::<T>() {
                    lemma_no_excess_sub(superset@, items@);
                }
            }
            Err(wrap_debug("assertion failed: `not_subset`: `", items, "` is a multiset subset of the superset"))
        },
    }
}

/// Checks that `left` and `right` hold the same elements with the same
/// multiplicities, in any order. The failure reports a length mismatch,
/// or the first element of `right` (in order) that runs out in `left`:
/// `extra element` when `left` has none of it, else `multiplicity mismatch`.
pub fn elements_match<T: Eq + Hash + core::fmt::Debug>(left: &[T], right: &[T]) -> (r: Result<
    (),
    String,
>)
    ensures
        obeys_concrete_eq::<T>() ==> (r is Ok <==> same_multiset(left@, right@)),
        left@.len() != right@.len() ==> (r matches Err(m) && m@
            == "assertion failed: `elements_match` length mismatch\n  left: "@ + decimal(
            left@.len(),
        ) + "\n right: "@ + decimal(right@.len())),
        obeys_concrete_eq::<T>() && left@.len() == right@.len() ==> (r matches Err(m) ==> exists|
            j: int,
        |
            first_excess_at(left@, right@, j) && if count_of(left@, right@[j]) == 0 {
                wraps(m@, "assertion failed: `elements_match` extra element `"@, "`"@)
            } else {
                wraps(m@, "assertion failed: `elements_match` multiplicity mismatch for `"@, "`"@)
            }),
{
    if left.len() != right.len() {
        let mut m = String::from_str("assertion failed: `elements_match` length mismatch\n  left: ");
        push_decimal(&mut m, left.len() as u128);
        m.append("\n right: ");
        push_decimal(&mut m, right.len() as u128);
        proof {
            if obeys_concrete_eq::<T>() {
                if same_multiset(left@, right@) {
                    lemma_same_multiset_len(left@, right@);
                }
            }
        }
        return Err(m);
    }
    match first_excess(left, right) {
        None => {
            proof {
                if obeys_concrete_eq::<T>() {
                    lemma_no_excess_sub(left@, right@);
                    lemma_sub_same_len(right@, left@);
                }
            }
            Ok(())
        },
        Some(j) => {
            let x = &right[j];
            let have = count_in(left, x, left.len());
            proof {
                assert(left@.take(left@.len() as int) =~= left@);
                if obeys_concrete_eq::<T>() {
                    lemma_excess_not_sub(left@, right@, j as int);
                }
            }
            if have == 0 {
                Err(wrap_debug("assertion failed: `elements_match` extra element `", x, "`"))
            } else {
                Err(wrap_debug("assertion failed: `elements_match` multiplicity mismatch for `", x, "`"))
            }
        },
    }
}

/// Checks that `left` and `right` do not hold the same elements with the
/// same multiplicities.
pub fn not_elements_match<T: Eq + Hash + core::fmt::Debug>(left: &[T], right: &[T]) -> (r: Result<
    (),
    String,
>)
    ensures
        obeys_concrete_eq::<T>() ==> (r is Ok <==> !same_multiset(left@, right@)),
        r matches Err(m) ==> m@ == "assertion failed: `not_elements_match`: multisets match"@,
{
    if left.len() != right.len() {
        proof {
            if obeys_concrete_eq::<T>() && same_multiset(left@, right@) {
                lemma_same_multiset_len(left@, right@);
            }
        }
        return Ok(());
    }
    match first_excess(left, right) {
        Some(j) => {
            proof {
                if obeys_concrete_eq::<T>() {
                    lemma_excess_not_sub(left@, right@, j as int);
                }
            }
            Ok(())
        },
        None => {
            proof {
                if obeys_concrete_eq::<T>() {
                    lemma_no_excess_sub(left@, right@);
                    lemma_sub_same_len(right@, left@);
                }
            }
            Err(String::from_str("assertion failed: `not_elements_match`: multisets match"))
        },
    }
}

} // verus!
