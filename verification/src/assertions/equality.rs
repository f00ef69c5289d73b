//! Equality assertions.
use vstd::prelude::*;
use vstd::std_specs::cmp::PartialEqSpec;
use vstd::std_specs::convert::IntoSpec;

use super::boolean::named_failure;
use super::debug_text;

verus! {

/// The failure message of `equal` for the rendered values `e` and `a`.
pub open spec fn equal_message(msg: Seq<char>, e: Seq<char>, a: Seq<char>) -> Seq<char> {
    named_failure("equal"@, msg) + "\n  expected: `"@ + e + "`\n    actual: `"@ + a + "`"@
}

/// The failure message of `not_equal` for the rendered value `v`.
pub open spec fn not_equal_message(msg: Seq<char>, v: Seq<char>) -> Seq<char> {
    named_failure("not_equal"@, msg) + "\n  both values: `"@ + v + "`"@
}

/// `"assertion failed: `name`"`, followed by `": " + msg` when `msg` is not
/// empty.
fn failure_head(name: &str, msg: &str) -> (m: String)
    ensures
        m@ == named_failure(name@, msg@),
{
    let mut m = String::from_str("assertion failed: `");
    m.append(name);
    if msg.is_empty() {
        m.append("`");
    } else {
        m.append("`: ");
        m.append(msg);
    }
    m
}

/// Checks that `expected == actual`.
pub fn equal<T: PartialEq + core::fmt::Debug + ?Sized>(expected: &T, actual: &T) -> (r: Result<
    (),
    String,
>)
    ensures
        T::obeys_eq_spec() ==> (r is Ok <==> expected.eq_spec(actual)),
        r matches Err(m) ==> exists|e: Seq<char>, a: Seq<char>| m@ == equal_message(""@, e, a),
{
    equal_msg(expected, actual, "")
}

/// Checks that `expected == actual`; on failure, the message shows `msg` (when
/// non-empty) and both values as `Debug` renders them.
pub fn equal_msg<T: PartialEq + core::fmt::Debug + ?Sized>(expected: &T, actual: &T, msg: &str) -> (r:
    Result<(), String>)
    ensures
        T::obeys_eq_spec() ==> (r is Ok <==> expected.eq_spec(actual)),
        r matches Err(m) ==> exists|e: Seq<char>, a: Seq<char>| m@ == equal_message(msg@, e, a),
{
    if expected.eq(actual) {
        return Ok(());
    }
    let e = debug_text(expected);
    let a = debug_text(actual);
    let mut m = failure_head("equal", msg);
    m.append("\n  expected: `");
    m.append(e.as_str());
    m.append("`\n    actual: `");
    m.append(a.as_str());
    m.append("`");
    proof {
        assert(m@ =~= equal_message(msg@, e@, a@));
    }
    Err(m)
}

/// Checks that `expected != actual`.
pub fn not_equal<T: PartialEq + core::fmt::Debug + ?Sized>(expected: &T, actual: &T) -> (r: Result<
    (),
    String,
>)
    ensures
        T::obeys_eq_spec() ==> (r is Ok <==> !expected.eq_spec(actual)),
        r matches Err(m) ==> exists|v: Seq<char>| m@ == not_equal_message(""@, v),
{
    not_equal_msg(expected, actual, "")
}

/// Checks that `expected != actual`; on failure, the message shows `msg`
/// (when non-empty) and the value as `Debug` renders it.
pub fn not_equal_msg<T: PartialEq + core::fmt::Debug + ?Sized>(expected: &T, actual: &T, msg: &str) -> (r:
    Result<(), String>)
    ensures
        T::obeys_eq_spec() ==> (r is Ok <==> !expected.eq_spec(actual)),
        r matches Err(m) ==> exists|v: Seq<char>| m@ == not_equal_message(msg@, v),
{
    if !expected.eq(actual) {
        return Ok(());
    }
    let v = debug_text(expected);
    let mut m = failure_head("not_equal", msg);
    m.append("\n  both values: `");
    m.append(v.as_str());
    m.append("`");
    proof {
        assert(m@ =~= not_equal_message(msg@, v@));
    }
    Err(m)
}

/// Converts both values into `V` and checks that the results are equal.
pub fn equal_values<T: Into<V>, U: Into<V>, V: PartialEq + core::fmt::Debug>(expected: T, actual: U) -> (r:
    Result<(), String>)
    ensures
        T::obeys_into_spec() && U::obeys_into_spec() && V::obeys_eq_spec() ==> (r is Ok
            <==> expected.into_spec().eq_spec(&actual.into_spec())),
        r matches Err(m) ==> exists|e: Seq<char>, a: Seq<char>| m@ == equal_message(""@, e, a),
{
    equal_values_msg(expected, actual, "")
}

/// Like [`equal_values`], with `msg` in the failure message.
pub fn equal_values_msg<T: Into<V>, U: Into<V>, V: PartialEq + core::fmt::Debug>(
    expected: T,
    actual: U,
    msg: &str,
) -> (r: Result<(), String>)
    ensures
        T::obeys_into_spec() && U::obeys_into_spec() && V::obeys_eq_spec() ==> (r is Ok
            <==> expected.into_spec().eq_spec(&actual.into_spec())),
        r matches Err(m) ==> exists|e: Seq<char>, a: Seq<char>| m@ == equal_message(msg@, e, a),
{
    let e: V = expected.into();
    let a: V = actual.into();
    equal_msg(&e, &a, msg)
}

} // verus!
