//! Assertions on identity: whether two handles point to the same allocation.
use std::sync::Arc;
use vstd::prelude::*;

verus! {

/// Whether `a` and `b` have the same address (`std::ptr::eq`). Addresses
/// depend on where values were placed, so nothing is claimed of the result.
#[verifier::external_body]
fn same_address<T: ?Sized>(a: &T, b: &T) -> bool {
    std::ptr::eq(a, b)
}

/// Whether `a` and `b` share one allocation (`Arc::ptr_eq`). As with
/// `same_address`, nothing is claimed of the result.
#[verifier::external_body]
fn same_allocation<T: ?Sized>(a: &Arc<T>, b: &Arc<T>) -> bool {
    Arc::ptr_eq(a, b)
}

/// The verdict of an identity check: it passes exactly when the identity
/// found (`same`) is the one wanted (`want_same`), and otherwise fails with
/// `msg`.
pub fn identity_verdict(same: bool, want_same: bool, msg: &str) -> (r: Result<(), String>)
    ensures
        r is Ok <==> (same == want_same),
        r matches Err(m) ==> m@ == msg@,
{
    if same == want_same {
        Ok(())
    } else {
        Err(String::from_str(msg))
    }
}

/// `r` is the verdict on some answer that `std::ptr::eq(a, b)` gave: `Ok`
/// exactly when that answer equals `want_same`.
pub closed spec fn address_verdict<T: ?Sized>(a: &T, b: &T, want_same: bool, r: Result<(), String>) -> bool {
    exists|s: bool| #[trigger] call_ensures(same_address::<T>, (a, b), s) && (r is Ok <==> s == want_same)
}

/// `r` is the verdict on some answer that `Arc::ptr_eq(a, b)` gave: `Ok`
/// exactly when the two share one allocation.
pub closed spec fn allocation_verdict<T: ?Sized>(a: &Arc<T>, b: &Arc<T>, r: Result<(), String>) -> bool {
    exists|s: bool| #[trigger] call_ensures(same_allocation::<T>, (a, b), s) && (r is Ok <==> s)
}

/// Checks that `a` and `b` point to the same place: passes exactly when
/// `std::ptr::eq(a, b)` answered `true`.
pub fn same_ref<T: ?Sized>(a: &T, b: &T) -> (r: Result<(), String>)
    ensures
        address_verdict(a, b, true, r),
        r matches Err(m) ==> m@
            == "assertion failed: `same_ref`: references do not point to the same allocation"@,
{
    let s = same_address(a, b);
    identity_verdict(s, true, "assertion failed: `same_ref`: references do not point to the same allocation")
}

/// Checks that `a` and `b` point to different places: passes exactly when
/// `std::ptr::eq(a, b)` answered `false`.
pub fn not_same_ref<T: ?Sized>(a: &T, b: &T) -> (r: Result<(), String>)
    ensures
        address_verdict(a, b, false, r),
        r matches Err(m) ==> m@
            == "assertion failed: `not_same_ref`: references point to the same allocation"@,
{
    let s = same_address(a, b);
    identity_verdict(s, false, "assertion failed: `not_same_ref`: references point to the same allocation")
}

/// Checks that two `Arc`s share one allocation: passes exactly when
/// `Arc::ptr_eq(a, b)` answered `true`.
pub fn same_arc<T: ?Sized>(a: &Arc<T>, b: &Arc<T>) -> (r: Result<(), String>)
    ensures
        allocation_verdict(a, b, r),
        r matches Err(m) ==> m@ == "assertion failed: `same_arc`: Arc pointers differ"@,
{
    let s = same_allocation(a, b);
    identity_verdict(s, true, "assertion failed: `same_arc`: Arc pointers differ")
}

} // verus!
