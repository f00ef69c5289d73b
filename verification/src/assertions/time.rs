//! Assertions on durations, compared by their total number of nanoseconds.
use core::time::Duration;
use vstd::prelude::*;

use super::debug_text;

verus! {

/// The total number of nanoseconds in `d` (what `Duration::as_nanos` returns).
pub uninterp spec fn nanos_of(d: Duration) -> u128;

/// Calls `Duration::as_nanos`; the result is named by `nanos_of`.
#[verifier::external_body]
fn duration_nanos(d: &Duration) -> (n: u128)
    ensures
        n == nanos_of(*d),
{
    d.as_nanos()
}

/// `pre + d1 + mid1 + d2 + mid2 + d3` for some renderings `d1`, `d2`, `d3`.
pub open spec fn wraps3(m: Seq<char>, pre: Seq<char>, mid1: Seq<char>, mid2: Seq<char>) -> bool {
    exists|d1: Seq<char>, d2: Seq<char>, d3: Seq<char>| m == pre + d1 + mid1 + d2 + mid2 + d3
}

/// `pre + debug(a) + mid1 + debug(b) + mid2 + debug(c)`.
fn render3(pre: &str, a: &Duration, mid1: &str, b: &Duration, mid2: &str, c: &Duration) -> (m:
    String)
    ensures
        wraps3(m@, pre@, mid1@, mid2@),
{
    let da = debug_text(a);
    let db = debug_text(b);
    let dc = debug_text(c);
    let mut m = String::from_str(pre);
    m.append(da.as_str());
    m.append(mid1);
    m.append(db.as_str());
    m.append(mid2);
    m.append(dc.as_str());
    proof {
        assert(m@ == pre@ + da@ + mid1@ + db@ + mid2@ + dc@);
    }
    m
}

/// `expected` and `actual`, in nanoseconds, differ by at most `delta`.
pub open spec fn nanos_within(expected: int, actual: int, delta: int) -> bool {
    -delta <= actual - expected <= delta
}

/// Checks that `actual` differs from `expected` by at most `delta`.
pub fn within_duration(expected: Duration, actual: Duration, delta: Duration) -> (r: Result<
    (),
    String,
>)
    ensures
        r is Ok <==> nanos_within(
            nanos_of(expected) as int,
            nanos_of(actual) as int,
            nanos_of(delta) as int,
        ),
        r matches Err(m) ==> wraps3(
            m@,
            "assertion failed: `within_duration`\n  expected: "@,
            "\n    actual: "@,
            "\n   delta: "@,
        ),
{
    let e = duration_nanos(&expected);
    let a = duration_nanos(&actual);
    let d = duration_nanos(&delta);
    let diff = if a >= e {
        a - e
    } else {
        e - a
    };
    if diff <= d {
        return Ok(());
    }
    Err(
        render3(
            "assertion failed: `within_duration`\n  expected: ",
            &expected,
            "\n    actual: ",
            &actual,
            "\n   delta: ",
            &delta,
        ),
    )
}

/// Checks that `start <= actual <= end`.
pub fn within_range(actual: Duration, start: Duration, end: Duration) -> (r: Result<(), String>)
    ensures
        r is Ok <==> nanos_of(start) <= nanos_of(actual) <= nanos_of(end),
        r matches Err(m) ==> wraps3(
            m@,
            "assertion failed: `within_range`\n  actual: "@,
            "\n  range: "@,
            " ..= "@,
        ),
{
    let a = duration_nanos(&actual);
    let s = duration_nanos(&start);
    let e = duration_nanos(&end);
    if s <= a && a <= e {
        return Ok(());
    }
    Err(
        render3(
            "assertion failed: `within_range`\n  actual: ",
            &actual,
            "\n  range: ",
            &start,
            " ..= ",
            &end,
        ),
    )
}

} // verus!
