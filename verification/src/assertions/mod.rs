//! Named assertions for tests. Each check returns `Ok` when its condition
//! holds and otherwise `Err` with the failure message a test reports.
use vstd::prelude::*;

pub mod boolean;
pub mod collections;
pub mod counting;
pub mod equality;
pub mod errors;
pub mod fs;
pub mod option_result;
pub mod ordering;
pub mod pointer;
pub mod time;

verus! {

/// Renders `value` with its `Debug` implementation (`format!("{:?}", value)`).
/// What the text holds depends on that implementation, so nothing is claimed
/// of it.
#[verifier::external_body]
pub(crate) fn debug_text<T: core::fmt::Debug + ?Sized>(value: &T) -> String {
    format!("{:?}", value)
}

/// `pre + d + post` for some rendering `d`.
pub open spec fn wraps(m: Seq<char>, pre: Seq<char>, post: Seq<char>) -> bool {
    exists|d: Seq<char>| m == pre + d + post
}

/// `pre + d1 + mid + d2 + post` for some renderings `d1`, `d2`.
pub open spec fn wraps2(m: Seq<char>, pre: Seq<char>, mid: Seq<char>, post: Seq<char>) -> bool {
    exists|d1: Seq<char>, d2: Seq<char>| m == pre + d1 + mid + d2 + post
}

/// `pre + rendered + post`, with `rendered` as `Debug` writes `value`.
pub(crate) fn wrap_debug<T: core::fmt::Debug + ?Sized>(pre: &str, value: &T, post: &str) -> (m: String)
    ensures
        wraps(m@, pre@, post@),
{
    let d = debug_text(value);
    let mut m = String::from_str(pre);
    m.append(d.as_str());
    m.append(post);
    proof {
        assert(m@ == pre@ + d@ + post@);
    }
    m
}

/// Fails with `msg`: always `Err("assertion failed: " + msg)`.
pub fn fail(msg: &str) -> (r: Result<(), String>)
    ensures
        r matches Err(m) && m@ == "assertion failed: "@ + msg@,
{
    let mut m = String::from_str("assertion failed: ");
    m.append(msg);
    Err(m)
}

/// Checks that `ok` holds; otherwise fails with `msg` as [`fail`] does.
pub fn condition(ok: bool, msg: &str) -> (r: Result<(), String>)
    ensures
        r is Ok <==> ok,
        r matches Err(m) ==> m@ == "assertion failed: "@ + msg@,
{
    if ok {
        Ok(())
    } else {
        fail(msg)
    }
}

/// Checks that `f()` returns `true`; otherwise fails with `msg` as [`fail`]
/// does.
pub fn condition_fn<F: FnOnce() -> bool>(f: F, msg: &str) -> (r: Result<(), String>)
    requires
        f.requires(()),
    ensures
        exists|b: bool| f.ensures((), b) && (r is Ok <==> b),
        r matches Err(m) ==> m@ == "assertion failed: "@ + msg@,
{
    let b = f();
    condition(b, msg)
}

/// Checks that `a` and `b` point to the same place (see [`pointer::same_ref`]).
pub fn same<T: ?Sized>(a: &T, b: &T) -> (r: Result<(), String>)
    ensures
        pointer::address_verdict(a, b, true, r),
        r matches Err(m) ==> m@
            == "assertion failed: `same_ref`: references do not point to the same allocation"@,
{
    pointer::same_ref(a, b)
}

/// Checks that `a` and `b` point to different places (see
/// [`pointer::not_same_ref`]).
pub fn not_same<T: ?Sized>(a: &T, b: &T) -> (r: Result<(), String>)
    ensures
        pointer::address_verdict(a, b, false, r),
        r matches Err(m) ==> m@
            == "assertion failed: `not_same_ref`: references point to the same allocation"@,
{
    pointer::not_same_ref(a, b)
}

} // verus!
