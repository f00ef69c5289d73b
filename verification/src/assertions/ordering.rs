//! Comparison and monotonicity assertions.
use core::cmp::Ordering;
use vstd::prelude::*;
use vstd::std_specs::cmp::{OrdSpec, PartialOrdSpec};

use super::{debug_text, wrap_debug, wraps, wraps2};

verus! {

/// `pre + rendering of a + mid + rendering of b + post`.
fn wrap_debug2<T: core::fmt::Debug>(pre: &str, a: &T, mid: &str, b: &T, post: &str) -> (m: String)
    ensures
        wraps2(m@, pre@, mid@, post@),
{
    let da = debug_text(a);
    let db = debug_text(b);
    let mut m = String::from_str(pre);
    m.append(da.as_str());
    m.append(mid);
    m.append(db.as_str());
    m.append(post);
    proof {
        assert(m@ == pre@ + da@ + mid@ + db@ + post@);
    }
    m
}

/// Checks that `a > b` by `Ord::cmp`.
pub fn greater<T: Ord + core::fmt::Debug>(a: &T, b: &T) -> (r: Result<(), String>)
    ensures
        T::obeys_cmp_spec() ==> (r is Ok <==> a.cmp_spec(b) == Ordering::Greater),
        r matches Err(m) ==> wraps2(m@, "assertion failed: `greater`\n  expected `"@, "` > `"@, "`"@),
{
    match a.cmp(b) {
        Ordering::Greater => Ok(()),
        _ => Err(wrap_debug2("assertion failed: `greater`\n  expected `", a, "` > `", b, "`")),
    }
}

/// Checks that `a >= b` by `Ord::cmp`.
pub fn greater_or_equal<T: Ord + core::fmt::Debug>(a: &T, b: &T) -> (r: Result<(), String>)
    ensures
        T::obeys_cmp_spec() ==> (r is Ok <==> a.cmp_spec(b) != Ordering::Less),
        r matches Err(m) ==> wraps2(
            m@,
            "assertion failed: `greater_or_equal`\n  expected `"@,
            "` >= `"@,
            "`"@,
        ),
{
    match a.cmp(b) {
        Ordering::Less => Err(
            wrap_debug2("assertion failed: `greater_or_equal`\n  expected `", a, "` >= `", b, "`"),
        ),
        _ => Ok(()),
    }
}

/// Checks that `a < b` by `Ord::cmp`.
pub fn less<T: Ord + core::fmt::Debug>(a: &T, b: &T) -> (r: Result<(), String>)
    ensures
        T::obeys_cmp_spec() ==> (r is Ok <==> a.cmp_spec(b) == Ordering::Less),
        r matches Err(m) ==> wraps2(m@, "assertion failed: `less`\n  expected `"@, "` < `"@, "`"@),
{
    match a.cmp(b) {
        Ordering::Less => Ok(()),
        _ => Err(wrap_debug2("assertion failed: `less`\n  expected `", a, "` < `", b, "`")),
    }
}

/// Checks that `a <= b` by `Ord::cmp`.
pub fn less_or_equal<T: Ord + core::fmt::Debug>(a: &T, b: &T) -> (r: Result<(), String>)
    ensures
        T::obeys_cmp_spec() ==> (r is Ok <==> a.cmp_spec(b) != Ordering::Greater),
        r matches Err(m) ==> wraps2(
            m@,
            "assertion failed: `less_or_equal`\n  expected `"@,
            "` <= `"@,
            "`"@,
        ),
{
    match a.cmp(b) {
        Ordering::Greater => Err(
            wrap_debug2("assertion failed: `less_or_equal`\n  expected `", a, "` <= `", b, "`"),
        ),
        _ => Ok(()),
    }
}

/// Checks that `v > T::default()` (as [`greater`] reports it): for some `z`
/// that a call of `T::default()` gives, the check passes exactly when `v`
/// compares greater than `z`.
pub fn positive<T: Ord + core::fmt::Debug + Default>(v: &T) -> (r: Result<(), String>)
    ensures
        exists|z: T|
            #[trigger] call_ensures(T::default, (), z) && (T::obeys_cmp_spec() ==> (r is Ok
                <==> v.cmp_spec(&z) == Ordering::Greater)),
        r matches Err(m) ==> wraps2(m@, "assertion failed: `greater`\n  expected `"@, "` > `"@, "`"@),
{
    let z = T::default();
    greater(v, &z)
}

/// Checks that `v < T::default()` (as [`less`] reports it): for some `z`
/// that a call of `T::default()` gives, the check passes exactly when `v`
/// compares less than `z`.
pub fn negative<T: Ord + core::fmt::Debug + Default>(v: &T) -> (r: Result<(), String>)
    ensures
        exists|z: T|
            #[trigger] call_ensures(T::default, (), z) && (T::obeys_cmp_spec() ==> (r is Ok
                <==> v.cmp_spec(&z) == Ordering::Less)),
        r matches Err(m) ==> wraps2(m@, "assertion failed: `less`\n  expected `"@, "` < `"@, "`"@),
{
    let z = T::default();
    less(v, &z)
}

/// Each adjacent pair `(s[i], s[i + 1])` satisfies `rel` on `partial_cmp`.
pub open spec fn adjacent<T: PartialOrd>(s: Seq<T>, rel: spec_fn(Option<Ordering>) -> bool) -> bool {
    forall|i: int| 0 <= i < s.len() - 1 ==> #[trigger] rel(s[i].partial_cmp_spec(&s[i + 1]))
}

/// Whether every adjacent pair satisfies `pair_rule(strict, upward)`.
fn adjacent_all<T: PartialOrd>(s: &[T], strict: bool, upward: bool) -> (r: bool)
    ensures
        T::obeys_partial_cmp_spec() ==> (r <==> adjacent(s@, pair_rule(strict, upward))),
{
    if s.len() < 2 {
        return true;
    }
    let mut i: usize = 0;
    while i + 1 < s.len()
        invariant
            s@.len() >= 2,
            i + 1 <= s@.len(),
            T::obeys_partial_cmp_spec() ==> forall|k: int|
                0 <= k < i ==> #[trigger] pair_rule(strict, upward)(s@[k].partial_cmp_spec(&s@[k + 1])),
        decreases s.len() - i,
    {
        let ok = if strict && upward {
            s[i] < s[i + 1]
        } else if strict {
            s[i] > s[i + 1]
        } else if upward {
            s[i] <= s[i + 1]
        } else {
            s[i] >= s[i + 1]
        };
        if !ok {
            proof {
                let k: int = i + 0;
                if T::obeys_partial_cmp_spec() {
                    assert(!pair_rule(strict, upward)(s@[k].partial_cmp_spec(&s@[k + 1])));
                }
            }
            return false;
        }
        i = i + 1;
    }
    true
}

/// The relation between neighbours: `<`, `>`, `<=` or `>=` on `partial_cmp`.
pub open spec fn pair_rule(strict: bool, upward: bool) -> spec_fn(Option<Ordering>) -> bool {
    |o: Option<Ordering>|
        if strict && upward {
            o == Some(Ordering::Less)
        } else if strict {
            o == Some(Ordering::Greater)
        } else if upward {
            o == Some(Ordering::Less) || o == Some(Ordering::Equal)
        } else {
            o == Some(Ordering::Greater) || o == Some(Ordering::Equal)
        }
}

/// Checks that every element is `<` the next.
pub fn is_increasing<T: Ord + core::fmt::Debug>(s: &[T]) -> (r: Result<(), String>)
    ensures
        T::obeys_partial_cmp_spec() ==> (r is Ok <==> adjacent(s@, pair_rule(true, true))),
        r matches Err(m) ==> wraps(m@, "assertion failed: `is_increasing`: "@, ""@),
{
    if adjacent_all(s, true, true) {
        return Ok(());
    }
    Err(wrap_debug("assertion failed: `is_increasing`: ", s, ""))
}

/// Checks that every element is `>` the next.
pub fn is_decreasing<T: Ord + core::fmt::Debug>(s: &[T]) -> (r: Result<(), String>)
    ensures
        T::obeys_partial_cmp_spec() ==> (r is Ok <==> adjacent(s@, pair_rule(true, false))),
        r matches Err(m) ==> wraps(m@, "assertion failed: `is_decreasing`: "@, ""@),
{
    if adjacent_all(s, true, false) {
        return Ok(());
    }
    Err(wrap_debug("assertion failed: `is_decreasing`: ", s, ""))
}

/// Checks that every element is `<=` the next.
pub fn is_non_decreasing<T: Ord + core::fmt::Debug>(s: &[T]) -> (r: Result<(), String>)
    ensures
        T::obeys_partial_cmp_spec() ==> (r is Ok <==> adjacent(s@, pair_rule(false, true))),
        r matches Err(m) ==> wraps(m@, "assertion failed: `is_non_decreasing`: "@, ""@),
{
    if adjacent_all(s, false, true) {
        return Ok(());
    }
    Err(wrap_debug("assertion failed: `is_non_decreasing`: ", s, ""))
}

/// Checks that every element is `>=` the next.
pub fn is_non_increasing<T: Ord + core::fmt::Debug>(s: &[T]) -> (r: Result<(), String>)
    ensures
        T::obeys_partial_cmp_spec() ==> (r is Ok <==> adjacent(s@, pair_rule(false, false))),
        r matches Err(m) ==> wraps(m@, "assertion failed: `is_non_increasing`: "@, ""@),
{
    if adjacent_all(s, false, false) {
        return Ok(());
    }
    Err(wrap_debug("assertion failed: `is_non_increasing`: ", s, ""))
}

} // verus!
