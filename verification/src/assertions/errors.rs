//! Assertions on errors: `Err` results, display text and cause chains.
use vstd::prelude::*;
use vstd::string::to_string_from_display_ensures;

use super::{wrap_debug, wraps};
use vstd::std_specs::cmp::PartialEqSpec;
use crate::text::{contains_sub, str_contains, str_eq};

verus! {

/// Checks that `result` is an `Err`.
pub fn is_error<T: core::fmt::Debug, E>(result: &Result<T, E>) -> (r: Result<(), String>)
    ensures
        r is Ok <==> result is Err,
        r matches Err(m) ==> wraps(
            m@,
            "assertion failed: `is_error`: expected Err, got Ok(Some("@,
            "))"@,
        ),
{
    match result {
        Err(_) => Ok(()),
        Ok(v) => Err(wrap_debug("assertion failed: `is_error`: expected Err, got Ok(Some(", v, "))")),
    }
}

/// Checks that `err` displays exactly as `expected`.
pub fn equal_error_display<E: core::fmt::Display + ?Sized>(err: &E, expected: &str) -> (r: Result<
    (),
    String,
>)
    ensures
        exists|s: String|
            {
                &&& to_string_from_display_ensures::<E>(err, s)
                &&& r is Ok <==> s@ == expected@
                &&& r matches Err(m) ==> m@ == "assertion failed: `equal_error_display`\n  expected: `"@
                    + expected@ + "`\n    actual: `"@ + s@ + "`"@
            },
{
    let s = err.to_string();
    if str_eq(s.as_str(), expected) {
        return Ok(());
    }
    let mut m = String::from_str("assertion failed: `equal_error_display`\n  expected: `");
    m.append(expected);
    m.append("`\n    actual: `");
    m.append(s.as_str());
    m.append("`");
    Err(m)
}

/// Checks that the display text of `err` contains `needle`.
pub fn error_contains<E: core::fmt::Display + ?Sized>(err: &E, needle: &str) -> (r: Result<
    (),
    String,
>)
    ensures
        exists|s: String|
            {
                &&& to_string_from_display_ensures::<E>(err, s)
                &&& r is Ok <==> contains_sub(s@, needle@)
                &&& r matches Err(m) ==> m@ == "assertion failed: `error_contains`\n  needle: `"@
                    + needle@ + "`\n  display: `"@ + s@ + "`"@
            },
{
    let s = err.to_string();
    if str_contains(s.as_str(), needle) {
        return Ok(());
    }
    let mut m = String::from_str("assertion failed: `error_contains`\n  needle: `");
    m.append(needle);
    m.append("`\n  display: `");
    m.append(s.as_str());
    m.append("`");
    Err(m)
}

/// The display texts of an error chain joined with `": "`.
pub open spec fn joined(texts: Seq<Seq<char>>) -> Seq<char>
    decreases texts.len(),
{
    if texts.len() == 0 {
        Seq::empty()
    } else if texts.len() == 1 {
        texts[0]
    } else {
        joined(texts.drop_last()) + ": "@ + texts.last()
    }
}

/// Checks that the display texts of an error and its causes (outermost
/// first), joined with `": "`, contain `needle`.
pub fn error_chain_contains(chain: &[String], needle: &str) -> (r: Result<(), String>)
    ensures
        r is Ok <==> contains_sub(joined(chain@.map_values(|s: String| s@)), needle@),
        r matches Err(m) ==> m@ == "assertion failed: `error_chain_contains`\n  needle: `"@
            + needle@ + "`\n  chain: `"@ + joined(chain@.map_values(|s: String| s@)) + "`"@,
{
    let ghost texts = chain@.map_values(|s: String| s@);
    let mut buf = String::new();
    let mut i: usize = 0;
    while i < chain.len()
        invariant
            i <= chain@.len(),
            texts == chain@.map_values(|s: String| s@),
            buf@ == joined(texts.take(i as int)),
        decreases chain.len() - i,
    {
        proof {
            assert(texts.take(i + 1).drop_last() =~= texts.take(i as int));
        }
        if i > 0 {
            buf.append(": ");
        }
        buf.append(chain[i].as_str());
        i = i + 1;
    }
    proof {
        assert(texts.take(i as int) =~= texts);
    }
    if str_contains(buf.as_str(), needle) {
        return Ok(());
    }
    let mut m = String::from_str("assertion failed: `error_chain_contains`\n  needle: `");
    m.append(needle);
    m.append("`\n  chain: `");
    m.append(buf.as_str());
    m.append("`");
    Err(m)
}

/// An error of the chain, viewed as an `E` when it is one, equals `target`.
pub open spec fn item_is<E: PartialEq>(item: Option<&E>, target: &E) -> bool {
    match item {
        Some(x) => x.eq_spec(target),
        None => false,
    }
}

/// Some error of the chain, viewed as an `E`, equals `target`.
pub open spec fn chain_has<E: PartialEq>(chain: Seq<Option<&E>>, target: &E) -> bool {
    exists|i: int| 0 <= i < chain.len() && #[trigger] item_is(chain[i], target)
}

/// Whether some error of `chain` (outermost first, each given as an `E`
/// when it is one) equals `target`.
fn chain_contains<E: PartialEq>(chain: &[Option<&E>], target: &E) -> (r: bool)
    ensures
        E::obeys_eq_spec() ==> (r <==> chain_has(chain@, target)),
{
    let mut i: usize = 0;
    while i < chain.len()
        invariant
            i <= chain@.len(),
            E::obeys_eq_spec() ==> forall|k: int|
                0 <= k < i ==> !#[trigger] item_is(chain@[k], target),
        decreases chain.len() - i,
    {
        match chain[i] {
            Some(x) => {
                if x.eq(target) {
                    assert(E::obeys_eq_spec() ==> item_is(chain@[i as int], target));
                    return true;
                }
            },
            None => {},
        }
        i = i + 1;
    }
    false
}

/// Checks that the error chain holds an error equal to `target`. The chain
/// lists the error and its causes, outermost first, each as an `E` when it
/// is one.
pub fn error_is<E: PartialEq + core::fmt::Debug>(chain: &[Option<&E>], target: &E) -> (r: Result<
    (),
    String,
>)
    ensures
        E::obeys_eq_spec() ==> (r is Ok <==> chain_has(chain@, target)),
        r matches Err(m) ==> wraps(
            m@,
            "assertion failed: `error_is`: chain does not contain matching `"@,
            "`"@,
        ),
{
    if chain_contains(chain, target) {
        return Ok(());
    }
    Err(wrap_debug("assertion failed: `error_is`: chain does not contain matching `", target, "`"))
}

/// Checks that no error of the chain equals `target` (the chain as for
/// [`error_is`]).
pub fn not_error_is<E: PartialEq + core::fmt::Debug>(chain: &[Option<&E>], target: &E) -> (r:
    Result<(), String>)
    ensures
        E::obeys_eq_spec() ==> (r is Ok <==> !chain_has(chain@, target)),
        r matches Err(m) ==> wraps(
            m@,
            "assertion failed: `not_error_is`: chain unexpectedly contains `"@,
            "`"@,
        ),
{
    if !chain_contains(chain, target) {
        return Ok(());
    }
    Err(wrap_debug("assertion failed: `not_error_is`: chain unexpectedly contains `", target, "`"))
}

/// The error as a `T`, when it is one; `kind_name` names `T` in the failure.
pub fn error_as<'a, T>(err: Option<&'a T>, kind_name: &str) -> (r: Result<&'a T, String>)
    ensures
        match err {
            Some(x) => r == Ok::<&'a T, String>(x),
            None => r matches Err(m) && m@ == "assertion failed: `error_as`: could not downcast to `"@
                + kind_name@ + "`"@,
        },
{
    match err {
        Some(x) => Ok(x),
        None => {
            let mut m = String::from_str("assertion failed: `error_as`: could not downcast to `");
            m.append(kind_name);
            m.append("`");
            Err(m)
        },
    }
}

/// The first error of the chain that is a `T` (the chain as for
/// [`error_is`]); `kind_name` names `T` in the failure.
pub fn error_as_chain<'a, T>(chain: &[Option<&'a T>], kind_name: &str) -> (r: Result<&'a T, String>)
    ensures
        match r {
            Ok(x) => exists|i: int|
                0 <= i < chain@.len() && chain@[i] == Some(x) && forall|k: int|
                    0 <= k < i ==> #[trigger] chain@[k] is None,
            Err(m) => (forall|k: int| 0 <= k < chain@.len() ==> #[trigger] chain@[k] is None) && m@
                == "assertion failed: `error_as_chain`: could not downcast to `"@ + kind_name@ + "`"@,
        },
{
    let mut i: usize = 0;
    while i < chain.len()
        invariant
            i <= chain@.len(),
            forall|k: int| 0 <= k < i ==> #[trigger] chain@[k] is None,
        decreases chain.len() - i,
    {
        match chain[i] {
            Some(x) => {
                return Ok(x);
            },
            None => {},
        }
        i = i + 1;
    }
    let mut m = String::from_str("assertion failed: `error_as_chain`: could not downcast to `");
    m.append(kind_name);
    m.append("`");
    Err(m)
}

/// Checks that no error of the chain is a `T`; `is_t[i]` tells whether the
/// `i`-th error (outermost first) is one, and `kind_name` names `T`.
pub fn not_error_as(is_t: &[bool], kind_name: &str) -> (r: Result<(), String>)
    ensures
        r is Ok <==> forall|k: int| 0 <= k < is_t@.len() ==> !#[trigger] is_t@[k],
        r matches Err(m) ==> m@ == "assertion failed: `not_error_as`: unexpectedly `"@ + kind_name@
            + "`"@,
{
    let mut i: usize = 0;
    while i < is_t.len()
        invariant
            i <= is_t@.len(),
            forall|k: int| 0 <= k < i ==> !#[trigger] is_t@[k],
        decreases is_t.len() - i,
    {
        if is_t[i] {
            let mut m = String::from_str("assertion failed: `not_error_as`: unexpectedly `");
            m.append(kind_name);
            m.append("`");
            return Err(m);
        }
        i = i + 1;
    }
    Ok(())
}

/// Checks that an I/O error's kind (`actual`) is `expected`.
pub fn io_error_kind<K: PartialEq + core::fmt::Debug>(actual: &K, expected: &K) -> (r: Result<
    (),
    String,
>)
    ensures
        K::obeys_eq_spec() ==> (r is Ok <==> actual.eq_spec(expected)),
        r matches Err(m) ==> super::wraps2(
            m@,
            "assertion failed: `io_error_kind`\n  expected: `"@,
            "`\n    actual: `"@,
            "`"@,
        ),
{
    if actual.eq(expected) {
        return Ok(());
    }
    let e = super::debug_text(expected);
    let a = super::debug_text(actual);
    let mut m = String::from_str("assertion failed: `io_error_kind`\n  expected: `");
    m.append(e.as_str());
    m.append("`\n    actual: `");
    m.append(a.as_str());
    m.append("`");
    proof {
        assert(m@ == "assertion failed: `io_error_kind`\n  expected: `"@ + e@ + "`\n    actual: `"@
            + a@ + "`"@);
    }
    Err(m)
}

} // verus!
