//! Assertions on `Option`, `Result` and default ("zero") values.
use vstd::prelude::*;
use vstd::std_specs::cmp::PartialEqSpec;

use super::{wrap_debug, wraps};

verus! {

/// Checks that `opt` is `None`.
pub fn is_none<T>(opt: &Option<T>) -> (r: Result<(), String>)
    ensures
        r is Ok <==> opt is None,
        r matches Err(m) ==> m@ == "assertion failed: `is_none`: expected None, got Some(...)"@,
{
    match opt {
        None => Ok(()),
        Some(_) => Err(String::from_str("assertion failed: `is_none`: expected None, got Some(...)")),
    }
}

/// Checks that `opt` is `Some`.
pub fn is_some<T>(opt: &Option<T>) -> (r: Result<(), String>)
    ensures
        r is Ok <==> opt is Some,
        r matches Err(m) ==> m@ == "assertion failed: `is_some`: expected Some, got None"@,
{
    match opt {
        Some(_) => Ok(()),
        None => Err(String::from_str("assertion failed: `is_some`: expected Some, got None")),
    }
}

/// The value inside `opt`, or the failure for `None`.
pub fn unwrap_some<T>(opt: Option<T>) -> (r: Result<T, String>)
    ensures
        match opt {
            Some(v) => r == Ok::<T, String>(v),
            None => r matches Err(m) && m@ == "assertion failed: `unwrap_some`"@,
        },
{
    match opt {
        Some(v) => Ok(v),
        None => Err(String::from_str("assertion failed: `unwrap_some`")),
    }
}

/// Checks that `value` equals `T::default()`: for some `z` that a call of
/// `T::default()` gives, the check passes exactly when `value == z`.
pub fn zero<T: Default + PartialEq + core::fmt::Debug>(value: &T) -> (r: Result<(), String>)
    ensures
        exists|z: T|
            #[trigger] call_ensures(T::default, (), z) && (T::obeys_eq_spec() ==> (r is Ok
                <==> value.eq_spec(&z))),
        r matches Err(m) ==> exists|d1: Seq<char>, d2: Seq<char>|
            m@ == "assertion failed: `zero`\n  expected default: `"@ + d1 + "`\n    actual: `"@ + d2
                + "`"@,
{
    let z = T::default();
    if value.eq(&z) {
        return Ok(());
    }
    let d1 = super::debug_text(&z);
    let d2 = super::debug_text(value);
    let mut m = String::from_str("assertion failed: `zero`\n  expected default: `");
    m.append(d1.as_str());
    m.append("`\n    actual: `");
    m.append(d2.as_str());
    m.append("`");
    proof {
        assert(m@ == "assertion failed: `zero`\n  expected default: `"@ + d1@ + "`\n    actual: `"@
            + d2@ + "`"@);
    }
    Err(m)
}

/// Checks that `value` differs from `T::default()`: for some `z` that a
/// call of `T::default()` gives, the check passes exactly when `value != z`.
pub fn not_zero<T: Default + PartialEq + core::fmt::Debug>(value: &T) -> (r: Result<(), String>)
    ensures
        exists|z: T|
            #[trigger] call_ensures(T::default, (), z) && (T::obeys_eq_spec() ==> (r is Ok
                <==> !value.eq_spec(&z))),
        r matches Err(m) ==> wraps(m@, "assertion failed: `not_zero`: value is default `"@, "`"@),
{
    let z = T::default();
    if !value.eq(&z) {
        return Ok(());
    }
    Err(wrap_debug("assertion failed: `not_zero`: value is default `", &z, "`"))
}

/// The `Ok` value of `result`, or the failure showing the error.
pub fn assert_ok<T, E: core::fmt::Debug>(result: Result<T, E>) -> (r: Result<T, String>)
    ensures
        match result {
            Ok(v) => r == Ok::<T, String>(v),
            Err(_) => r matches Err(m) && wraps(m@, "assertion failed: `assert_ok`: "@, ""@),
        },
{
    match result {
        Ok(v) => Ok(v),
        Err(e) => Err(wrap_debug("assertion failed: `assert_ok`: ", &e, "")),
    }
}

/// Same as [`assert_ok`].
pub fn no_error<T, E: core::fmt::Debug>(result: Result<T, E>) -> (r: Result<T, String>)
    ensures
        match result {
            Ok(v) => r == Ok::<T, String>(v),
            Err(_) => r matches Err(m) && wraps(m@, "assertion failed: `assert_ok`: "@, ""@),
        },
{
    assert_ok(result)
}

/// The `Err` value of `result`, or the failure showing the `Ok` value.
pub fn assert_err<T: core::fmt::Debug, E>(result: Result<T, E>) -> (r: Result<E, String>)
    ensures
        match result {
            Err(e) => r == Ok::<E, String>(e),
            Ok(_) => r matches Err(m) && wraps(
                m@,
                "assertion failed: `assert_err`: expected Err, got Ok("@,
                ")"@,
            ),
        },
{
    match result {
        Err(e) => Ok(e),
        Ok(v) => Err(wrap_debug("assertion failed: `assert_err`: expected Err, got Ok(", &v, ")")),
    }
}

} // verus!
