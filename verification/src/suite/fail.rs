//! Failure reasons a case body raises to end early.
use vstd::prelude::*;

verus! {

/// Why a case body stopped early.
#[derive(Debug)]
pub enum FailReason {
    /// The case failed; the remaining cases still run.
    Fail(String),
    /// The case failed; the remaining cases are aborted.
    FailNow(String),
}

/// A failure that marks the current case failed and lets the run go on.
pub fn fail(reason: String) -> (r: FailReason)
    ensures
        r == FailReason::Fail(reason),
{
    FailReason::Fail(reason)
}

/// A failure that marks the current case failed and aborts the run.
pub fn fail_now(reason: String) -> (r: FailReason)
    ensures
        r == FailReason::FailNow(reason),
{
    FailReason::FailNow(reason)
}

/// The message a failure carries.
pub open spec fn message_of(r: FailReason) -> Seq<char> {
    match r {
        FailReason::Fail(s) => s@,
        FailReason::FailNow(s) => s@,
    }
}

impl FailReason {
    /// The message the failure carries.
    pub fn message(&self) -> (m: &String)
        ensures
            m == match self {
                FailReason::Fail(s) => s,
                FailReason::FailNow(s) => s,
            },
    {
        match self {
            FailReason::Fail(s) => s,
            FailReason::FailNow(s) => s,
        }
    }

    /// Whether the failure aborts the run.
    pub fn aborts(&self) -> (r: bool)
        ensures
            r == (self is FailNow),
    {
        match self {
            FailReason::Fail(_) => false,
            FailReason::FailNow(_) => true,
        }
    }

    /// The text the failure displays as: `Fail: ` and the message.
    pub fn to_display_string(&self) -> (s: String)
        ensures
            s@ == "Fail: "@ + message_of(*self),
    {
        let mut s = String::from_str("Fail: ");
        s.append(self.message().as_str());
        s
    }

    /// Converts a case outcome into the runner's terms.
    pub fn into_outcome(self) -> (o: super::runner::CaseOutcome)
        ensures
            match self {
                FailReason::Fail(s) => o == super::runner::CaseOutcome::Failed(s),
                FailReason::FailNow(s) => o == super::runner::CaseOutcome::FailedNow(s),
            },
    {
        match self {
            FailReason::Fail(s) => super::runner::CaseOutcome::Failed(s),
            FailReason::FailNow(s) => super::runner::CaseOutcome::FailedNow(s),
        }
    }
}

} // verus!
