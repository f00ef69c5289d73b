//! Assertions on booleans.
use vstd::prelude::*;

verus! {

/// The failure message of the assertion called `name`, with `msg` appended
/// after `": "` when it is not empty.
pub open spec fn named_failure(name: Seq<char>, msg: Seq<char>) -> Seq<char> {
    if msg.len() == 0 {
        "assertion failed: `"@ + name + "`"@
    } else {
        "assertion failed: `"@ + name + "`: "@ + msg
    }
}

/// Checks that `value` is `true`.
pub fn true_(value: bool) -> (r: Result<(), String>)
    ensures
        r is Ok <==> value,
        r matches Err(m) ==> m@ == named_failure("true_"@, ""@),
{
    true_with_msg(value, "")
}

/// Checks that `value` is `true`; the failure includes `msg` when it is not
/// empty.
pub fn true_with_msg(value: bool, msg: &str) -> (r: Result<(), String>)
    ensures
        r is Ok <==> value,
        r matches Err(m) ==> m@ == named_failure("true_"@, msg@),
{
    if value {
        return Ok(());
    }
    let mut m = String::from_str("assertion failed: `");
    m.append("true_");
    if msg.is_empty() {
        m.append("`");
    } else {
        m.append("`: ");
        m.append(msg);
    }
    Err(m)
}

/// Checks that `value` is `false`.
pub fn false_(value: bool) -> (r: Result<(), String>)
    ensures
        r is Ok <==> !value,
        r matches Err(m) ==> m@ == named_failure("false_"@, ""@),
{
    false_with_msg(value, "")
}

/// Checks that `value` is `false`; the failure includes `msg` when it is
/// not empty.
pub fn false_with_msg(value: bool, msg: &str) -> (r: Result<(), String>)
    ensures
        r is Ok <==> !value,
        r matches Err(m) ==> m@ == named_failure("false_"@, msg@),
{
    if !value {
        return Ok(());
    }
    let mut m = String::from_str("assertion failed: `");
    m.append("false_");
    if msg.is_empty() {
        m.append("`");
    } else {
        m.append("`: ");
        m.append(msg);
    }
    Err(m)
}

} // verus!
