//! The lines a run prints for each case, which `cargo suitecase test` reads
//! back, and the notes it writes for failures.
use vstd::prelude::*;

use super::runner::CaseOutcome;
use crate::text::{decimal, push_decimal};

verus! {

/// `◆ {storage} {test}`, printed when a suite test starts.
pub open spec fn suite_header_text(storage: Seq<char>, test: Seq<char>) -> Seq<char> {
    "◆ "@ + storage + " "@ + test
}

/// `▶ {name}`, printed before a case runs.
pub open spec fn started_text(name: Seq<char>) -> Seq<char> {
    "▶ "@ + name
}

/// `⊘ {name} (skipped, dependency failed)`, printed for a skipped case.
pub open spec fn skipped_text(name: Seq<char>) -> Seq<char> {
    "⊘ "@ + name + " (skipped, dependency failed)"@
}

/// `✓ {name} ({ms}ms)` for a case that passed, `✗ {name} ({ms}ms)` for one
/// that failed.
pub open spec fn result_text(name: Seq<char>, passed: bool, ms: nat) -> Seq<char> {
    (if passed {
        "✓ "@
    } else {
        "✗ "@
    }) + name + " ("@ + decimal(ms) + "ms)"@
}

/// The line printed when the suite test `test`, kept in `storage`, starts.
pub fn suite_header_line(storage: &str, test: &str) -> (s: String)
    ensures
        s@ == suite_header_text(storage@, test@),
{
    let mut s = String::from_str("◆ ");
    s.append(storage);
    s.append(" ");
    s.append(test);
    s
}

/// The line printed before case `name` runs.
pub fn started_line(name: &str) -> (s: String)
    ensures
        s@ == started_text(name@),
{
    let mut s = String::from_str("▶ ");
    s.append(name);
    s
}

/// The line printed for a skipped case.
pub fn skipped_line(name: &str) -> (s: String)
    ensures
        s@ == skipped_text(name@),
{
    let mut s = String::from_str("⊘ ");
    s.append(name);
    s.append(" (skipped, dependency failed)");
    s
}

/// The line printed once case `name` has run for `ms` milliseconds.
pub fn result_line(name: &str, passed: bool, ms: u128) -> (s: String)
    ensures
        s@ == result_text(name@, passed, ms as nat),
{
    let mut s = if passed {
        String::from_str("✓ ")
    } else {
        String::from_str("✗ ")
    };
    s.append(name);
    s.append(" (");
    push_decimal(&mut s, ms);
    s.append("ms)");
    s
}

/// The note written to standard error for a case that reported `fail` or
/// `fail_now`: `suitecase::fail: {name}: {msg}` or
/// `suitecase::fail_now: {name}: {msg}`. Other outcomes have none.
pub fn failure_note(name: &str, outcome: &CaseOutcome) -> (r: Option<String>)
    ensures
        match *outcome {
            CaseOutcome::Failed(m) => r matches Some(s) && s@ == "suitecase::fail: "@ + name@ + ": "@
                + m@,
            CaseOutcome::FailedNow(m) => r matches Some(s) && s@ == "suitecase::fail_now: "@ + name@
                + ": "@ + m@,
            _ => r is None,
        },
{
    match outcome {
        CaseOutcome::Failed(m) => {
            let mut s = String::from_str("suitecase::fail: ");
            s.append(name);
            s.append(": ");
            s.append(m.as_str());
            Some(s)
        },
        CaseOutcome::FailedNow(m) => {
            let mut s = String::from_str("suitecase::fail_now: ");
            s.append(name);
            s.append(": ");
            s.append(m.as_str());
            Some(s)
        },
        _ => None,
    }
}

/// The note written to standard error for a case that panicked with
/// message `msg`: `suitecase::panic: {name}: {msg}`.
pub fn panic_note(name: &str, msg: &str) -> (s: String)
    ensures
        s@ == "suitecase::panic: "@ + name@ + ": "@ + msg@,
{
    let mut s = String::from_str("suitecase::panic: ");
    s.append(name);
    s.append(": ");
    s.append(msg);
    s
}

/// The message of the panic that ends a run aborted by `fail_now`:
/// `suitecase: {msg}`.
pub fn abort_message(msg: &str) -> (s: String)
    ensures
        s@ == "suitecase: "@ + msg@,
{
    let mut s = String::from_str("suitecase: ");
    s.append(msg);
    s
}

} // verus!
