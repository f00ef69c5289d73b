//! The decisions of a suite run: given the selected cases and how each case
//! ended, which lifecycle step comes next and how the run ends.
//!
//! The caller performs each step (running hooks and case bodies) and reports
//! how every case it ran ended.
use vstd::prelude::*;

use super::config::{CaseSpec, RunConfig};
use super::select::{select_cases, SelectError};
use crate::text::str_eq;

verus! {

/// How a case body ended.
#[derive(Debug)]
pub enum CaseOutcome {
    /// The body returned normally.
    Passed,
    /// The body reported a failure with `fail`: the case failed and the run goes on.
    Failed(String),
    /// The body reported a failure with `fail_now`: the case failed and the run stops.
    FailedNow(String),
    /// The body panicked with anything else.
    Panicked,
}

/// How a whole run ends, once teardown is done.
#[derive(Debug)]
pub enum RunOutcome {
    /// No case aborted the run and no case panicked (cases that reported
    /// `fail` do not fail the run).
    Passed,
    /// A case reported `fail_now` with this message.
    Aborted(String),
    /// No case reported `fail_now`; this case was the first to panic, and its
    /// panic is to be raised again.
    Panicked(usize),
}

/// The next thing a run does.
#[derive(Debug)]
pub enum Step {
    /// Run the suite setup hook.
    SetupSuite,
    /// Skip this case: one of its dependencies failed or was skipped.
    Skip(usize),
    /// Run `before_each`, this case's body, then `after_each`, and report how
    /// the body ended.
    Run(usize),
    /// Run the suite teardown hook.
    TeardownSuite,
    /// The run is over.
    Finish(RunOutcome),
}

/// Where a run stands.
#[derive(Debug, PartialEq, Eq, Structural, Clone, Copy)]
pub enum Stage {
    /// Nothing has happened yet.
    Start,
    /// Setup has run; cases are being run or skipped.
    Cases,
    /// Teardown has run.
    TornDown,
    /// The outcome has been given.
    Finished,
}

/// The state of a run.
pub struct Runner {
    cases: Vec<CaseSpec>,
    order: Vec<usize>,
    pos: usize,
    stage: Stage,
    awaiting: Option<usize>,
    blocked: Vec<String>,
    aborted: Option<String>,
    first_panic: Option<usize>,
}

/// Some dependency of case `i` is named in `blocked`.
pub open spec fn depends_on_blocked(cases: Seq<CaseSpec>, i: int, blocked: Seq<Seq<char>>) -> bool {
    exists|k: int, b: int|
        0 <= k < cases[i].dependencies@.len() && 0 <= b < blocked.len() && #[trigger] cases[i].dependencies@[k]@
            == #[trigger] blocked[b]
}

/// The run's final outcome given what has been recorded.
pub open spec fn outcome_of(aborted: Option<String>, first_panic: Option<usize>, o: RunOutcome) -> bool {
    match aborted {
        Some(m) => o matches RunOutcome::Aborted(m2) && m2@ == m@,
        None => match first_panic {
            Some(i) => o == RunOutcome::Panicked(i),
            None => o is Passed,
        },
    }
}

/// What `next_step` does: from state `a` it takes `step` and leaves state `b`.
///
/// A run with no selected case finishes at once, without setup or teardown.
/// Otherwise setup comes first; then each selected case in order is skipped
/// when one of its dependencies failed or was skipped, and run otherwise;
/// after the last case, or as soon as a case reported `fail_now`, teardown
/// runs; then the run finishes.
pub open spec fn stepped(a: Runner, step: Step, b: Runner) -> bool {
    &&& b.cases() == a.cases()
    &&& b.order() == a.order()
    &&& b.aborted() == a.aborted()
    &&& b.first_panic() == a.first_panic()
    &&& match a.stage() {
        Stage::Start => if a.order().len() == 0 {
            &&& step matches Step::Finish(o) && o is Passed
            &&& b.stage() == Stage::Finished
            &&& b.position() == a.position()
            &&& b.blocked() == a.blocked()
            &&& b.awaiting() is None
        } else {
            &&& step is SetupSuite
            &&& b.stage() == Stage::Cases
            &&& b.position() == a.position()
            &&& b.blocked() == a.blocked()
            &&& b.awaiting() is None
        },
        Stage::Cases => if a.aborted() is Some || a.position() == a.order().len() {
            &&& step is TeardownSuite
            &&& b.stage() == Stage::TornDown
            &&& b.position() == a.position()
            &&& b.blocked() == a.blocked()
            &&& b.awaiting() is None
        } else {
            let i = a.order()[a.position() as int];
            &&& b.stage() == Stage::Cases
            &&& if depends_on_blocked(a.cases(), i as int, a.blocked()) {
                &&& step == Step::Skip(i)
                &&& b.position() == a.position() + 1
                &&& b.blocked() == a.blocked().push(a.cases()[i as int].name@)
                &&& b.awaiting() is None
            } else {
                &&& step == Step::Run(i)
                &&& b.position() == a.position()
                &&& b.blocked() == a.blocked()
                &&& b.awaiting() == Some(i)
            }
        },
        Stage::TornDown | Stage::Finished => {
            &&& step matches Step::Finish(o) && outcome_of(a.aborted(), a.first_panic(), o)
            &&& b.stage() == Stage::Finished
            &&& b.position() == a.position()
            &&& b.blocked() == a.blocked()
            &&& b.awaiting() is None
        },
    }
}

/// What `record` does: from state `a`, told how the awaited case ended, it
/// leaves state `b`. A case that failed (by `fail`, `fail_now` or a panic)
/// blocks the cases that depend on it; `fail_now` aborts the run (only the
/// first message is kept); the first panic is kept to be raised again.
pub open spec fn recorded(a: Runner, outcome: CaseOutcome, b: Runner) -> bool {
    let i = a.awaiting()->0;
    let name = a.cases()[i as int].name@;
    &&& b.cases() == a.cases()
    &&& b.order() == a.order()
    &&& b.stage() == a.stage()
    &&& b.awaiting() is None
    &&& b.position() == a.position() + 1
    &&& match outcome {
        CaseOutcome::Passed => {
            &&& b.blocked() == a.blocked()
            &&& b.aborted() == a.aborted()
            &&& b.first_panic() == a.first_panic()
        },
        CaseOutcome::Failed(_) => {
            &&& b.blocked() == a.blocked().push(name)
            &&& b.aborted() == a.aborted()
            &&& b.first_panic() == a.first_panic()
        },
        CaseOutcome::FailedNow(m) => {
            &&& b.blocked() == a.blocked().push(name)
            &&& b.aborted() == (match a.aborted() {
                Some(x) => Some(x),
                None => Some(m),
            })
            &&& b.first_panic() == a.first_panic()
        },
        CaseOutcome::Panicked => {
            &&& b.blocked() == a.blocked().push(name)
            &&& b.aborted() == a.aborted()
            &&& b.first_panic() == (match a.first_panic() {
                Some(p) => Some(p),
                None => Some(i),
            })
        },
    }
}

impl Runner {
    /// The cases the run reads.
    pub closed spec fn cases(&self) -> Seq<CaseSpec> {
        self.cases@
    }

    /// The selected cases, in the order they are taken.
    pub closed spec fn order(&self) -> Seq<usize> {
        self.order@
    }

    /// How many selected cases have been run or skipped.
    pub closed spec fn position(&self) -> nat {
        self.pos as nat
    }

    /// Where the run stands.
    pub closed spec fn stage(&self) -> Stage {
        self.stage
    }

    /// The case whose outcome is awaited, if any.
    pub closed spec fn awaiting(&self) -> Option<usize> {
        self.awaiting
    }

    /// Names of the cases that failed or were skipped so far.
    pub closed spec fn blocked(&self) -> Seq<Seq<char>> {
        self.blocked@.map_values(|s: String| s@)
    }

    /// The message of the case that aborted the run, if any.
    pub closed spec fn aborted(&self) -> Option<String> {
        self.aborted
    }

    /// The first case that panicked, if any.
    pub closed spec fn first_panic(&self) -> Option<usize> {
        self.first_panic
    }

    /// The state is consistent.
    pub closed spec fn wf(&self) -> bool {
        &&& self.pos <= self.order@.len()
        &&& forall|a: int| 0 <= a < self.order@.len() ==> self.order@[a] < self.cases@.len()
        &&& self.awaiting matches Some(i) ==> self.stage == Stage::Cases && self.pos
            < self.order@.len() && self.order@[self.pos as int] == i
        &&& self.first_panic matches Some(i) ==> i < self.cases@.len()
    }

    /// Starts a run over `cases` (their names and dependencies) that takes
    /// the cases at the indices in `order`, in that order (as selection gives them).
    pub fn new(cases: Vec<CaseSpec>, order: Vec<usize>) -> (run: Runner)
        requires
            forall|a: int| 0 <= a < order@.len() ==> order@[a] < cases@.len(),
        ensures
            run.wf(),
            run.cases() == cases@,
            run.order() == order@,
            run.stage() == Stage::Start,
            run.position() == 0,
            run.awaiting() is None,
            run.blocked().len() == 0,
            run.aborted() is None,
            run.first_panic() is None,
    {
        let run = Runner {
            cases,
            order,
            pos: 0,
            stage: Stage::Start,
            awaiting: None,
            blocked: Vec::new(),
            aborted: None,
            first_panic: None,
        };
        assert(run.blocked@.map_values(|s: String| s@) =~= Seq::<Seq<char>>::empty());
        run
    }

    /// Whether some dependency of case `i` failed or was skipped.
    fn dependency_blocked(&self, i: usize) -> (r: bool)
        requires
            i < self.cases@.len(),
        ensures
            r == depends_on_blocked(self.cases@, i as int, self.blocked()),
    {
        let deps = &self.cases[i].dependencies;
        let mut k: usize = 0;
        while k < deps.len()
            invariant
                i < self.cases@.len(),
                deps == self.cases@[i as int].dependencies,
                k <= deps@.len(),
                forall|k2: int, b: int|
                    0 <= k2 < k && 0 <= b < self.blocked@.len() ==> #[trigger] deps@[k2]@
                        != #[trigger] self.blocked@[b]@,
            decreases deps.len() - k,
        {
            let mut b: usize = 0;
            while b < self.blocked.len()
                invariant
                    i < self.cases@.len(),
                    deps == self.cases@[i as int].dependencies,
                    k < deps@.len(),
                    b <= self.blocked@.len(),
                    forall|k2: int, b2: int|
                        0 <= k2 < k && 0 <= b2 < self.blocked@.len() ==> #[trigger] deps@[k2]@
                            != #[trigger] self.blocked@[b2]@,
                    forall|b2: int| 0 <= b2 < b ==> deps@[k as int]@ != #[trigger] self.blocked@[b2]@,
                decreases self.blocked.len() - b,
            {
                if str_eq(deps[k].as_str(), self.blocked[b].as_str()) {
                    proof {
                        assert(self.blocked()[b as int] == self.blocked@[b as int]@);
                    }
                    return true;
                }
                b = b + 1;
            }
            k = k + 1;
        }
        proof {
            assert forall|k2: int, b2: int|
                0 <= k2 < deps@.len() && 0 <= b2 < self.blocked().len() implies #[trigger] deps@[k2]@
                != #[trigger] self.blocked()[b2] by {
                assert(self.blocked()[b2] == self.blocked@[b2]@);
            }
        }
        false
    }

    /// Decides the next step of the run (see [`stepped`]).
    pub fn next_step(&mut self) -> (step: Step)
        requires
            old(self).wf(),
            old(self).awaiting() is None,
        ensures
            final(self).wf(),
            stepped(*old(self), step, *final(self)),
    {
        match self.stage {
            Stage::Start => {
                if self.order.len() == 0 {
                    self.stage = Stage::Finished;
                    Step::Finish(RunOutcome::Passed)
                } else {
                    self.stage = Stage::Cases;
                    Step::SetupSuite
                }
            },
            Stage::Cases => {
                if self.aborted.is_some() || self.pos == self.order.len() {
                    self.stage = Stage::TornDown;
                    Step::TeardownSuite
                } else {
                    let i = self.order[self.pos];
                    if self.dependency_blocked(i) {
                        let name = self.cases[i].name.clone();
                        let ghost before = self.blocked@;
                        self.blocked.push(name);
                        self.pos = self.pos + 1;
                        proof {
                            assert(self.blocked@.map_values(|s: String| s@) =~= before.map_values(
                                |s: String| s@,
                            ).push(self.cases@[i as int].name@));
                        }
                        Step::Skip(i)
                    } else {
                        self.awaiting = Some(i);
                        Step::Run(i)
                    }
                }
            },
            _ => {
                self.stage = Stage::Finished;
                Step::Finish(self.outcome())
            },
        }
    }

    /// The run's outcome from what has been recorded.
    fn outcome(&self) -> (o: RunOutcome)
        ensures
            outcome_of(self.aborted(), self.first_panic(), o),
    {
        match &self.aborted {
            Some(m) => RunOutcome::Aborted(m.clone()),
            None => match self.first_panic {
                Some(i) => RunOutcome::Panicked(i),
                None => RunOutcome::Passed,
            },
        }
    }

    /// Records how the body of the awaited case ended (see [`recorded`]).
    pub fn record(&mut self, outcome: CaseOutcome)
        requires
            old(self).wf(),
            old(self).awaiting() is Some,
        ensures
            final(self).wf(),
            recorded(*old(self), outcome, *final(self)),
    {
        let i = self.awaiting.unwrap();
        let total = self.order.len();
        assert(self.pos < total);
        self.awaiting = None;
        self.pos = self.pos + 1;
        let ghost before = self.blocked@;
        match outcome {
            CaseOutcome::Passed => {},
            CaseOutcome::Failed(_) => {
                self.blocked.push(self.cases[i].name.clone());
            },
            CaseOutcome::FailedNow(m) => {
                self.blocked.push(self.cases[i].name.clone());
                if self.aborted.is_none() {
                    self.aborted = Some(m);
                }
            },
            CaseOutcome::Panicked => {
                self.blocked.push(self.cases[i].name.clone());
                if self.first_panic.is_none() {
                    self.first_panic = Some(i);
                }
            },
        }
        proof {
            if self.blocked@.len() > before.len() {
                assert(self.blocked@.map_values(|s: String| s@) =~= before.map_values(
                    |s: String| s@,
                ).push(self.cases@[i as int].name@));
            }
        }
    }
}

/// A case that is run is awaited only while cases are being run.
proof fn lemma_awaiting_in_cases(r: Runner)
    requires
        r.wf(),
        r.awaiting() is Some,
    ensures
        r.stage() == Stage::Cases,
        r.position() < r.order().len(),
        r.order()[r.position() as int] == r.awaiting()->0,
{
}

/// `fail_now` stops the run: once a case reports it, no further case runs;
/// the next step is the suite teardown, and the run then finishes as
/// aborted with that case's message.
pub proof fn law_fail_now_ends_run(
    a: Runner,
    m: String,
    b: Runner,
    s1: Step,
    c: Runner,
    s2: Step,
    d: Runner,
)
    requires
        a.wf(),
        a.awaiting() is Some,
        a.aborted() is None,
        recorded(a, CaseOutcome::FailedNow(m), b),
        stepped(b, s1, c),
        stepped(c, s2, d),
    ensures
        s1 is TeardownSuite,
        s2 matches Step::Finish(o) && o matches RunOutcome::Aborted(m2) && m2@ == m@,
{
    lemma_awaiting_in_cases(a);
}

/// `fail` does not stop the run: after a case reports it, the next selected
/// case (if any) is taken up, to be run or skipped.
pub proof fn law_fail_keeps_running(a: Runner, m: String, b: Runner, s: Step, c: Runner)
    requires
        a.wf(),
        a.awaiting() is Some,
        a.aborted() is None,
        recorded(a, CaseOutcome::Failed(m), b),
        b.position() < b.order().len(),
        stepped(b, s, c),
    ensures
        s == Step::Skip(b.order()[b.position() as int]) || s == Step::Run(
            b.order()[b.position() as int],
        ),
{
    lemma_awaiting_in_cases(a);
}

/// `fail` alone never fails the run: it leaves the run's outcome as it was
/// (not aborted, and no panic to raise again).
pub proof fn law_fail_does_not_fail_run(a: Runner, m: String, b: Runner)
    requires
        recorded(a, CaseOutcome::Failed(m), b),
    ensures
        b.aborted() == a.aborted(),
        b.first_panic() == a.first_panic(),
{
}

/// A run in which no case reported `fail_now` and none panicked finishes as
/// passed after its teardown.
pub proof fn law_clean_run_passes(a: Runner, s: Step, b: Runner)
    requires
        a.stage() == Stage::TornDown,
        a.aborted() is None,
        a.first_panic() is None,
        stepped(a, s, b),
    ensures
        s matches Step::Finish(o) && o is Passed,
{
}

/// A case that failed (by `fail`, `fail_now` or a panic) makes the cases
/// that depend on it be skipped: when the next selected case names it as a
/// dependency, that case is skipped, not run.
pub proof fn law_dependents_of_failed_case_skipped(
    a: Runner,
    outcome: CaseOutcome,
    b: Runner,
    s: Step,
    c: Runner,
    k: int,
)
    requires
        a.wf(),
        a.awaiting() is Some,
        !(outcome is Passed),
        recorded(a, outcome, b),
        b.aborted() is None,
        b.position() < b.order().len(),
        0 <= k < b.cases()[b.order()[b.position() as int] as int].dependencies@.len(),
        b.cases()[b.order()[b.position() as int] as int].dependencies@[k]@ == a.cases()[a.awaiting()->0 as int].name@,
        stepped(b, s, c),
    ensures
        s == Step::Skip(b.order()[b.position() as int]),
{
    lemma_awaiting_in_cases(a);
    let j = b.order()[b.position() as int];
    let nb = b.blocked().len() - 1;
    assert(b.blocked()[nb] == a.cases()[a.awaiting()->0 as int].name@);
    assert(b.cases()[j as int].dependencies@[k]@ == b.blocked()[nb]);
    assert(depends_on_blocked(b.cases(), j as int, b.blocked()));
}

/// Only the first panic is kept: a panicking case is remembered unless an
/// earlier case already panicked.
pub proof fn law_first_panic_kept(a: Runner, b: Runner)
    requires
        a.wf(),
        a.awaiting() is Some,
        recorded(a, CaseOutcome::Panicked, b),
    ensures
        a.first_panic() is None ==> b.first_panic() == Some(a.awaiting()->0),
        a.first_panic() is Some ==> b.first_panic() == a.first_panic(),
{
}

/// A run with a kept panic and no `fail_now` ends, after its teardown, by
/// raising that panic again.
pub proof fn law_panic_reraised_at_end(a: Runner, s: Step, b: Runner)
    requires
        a.stage() == Stage::TornDown,
        a.aborted() is None,
        a.first_panic() is Some,
        stepped(a, s, b),
    ensures
        s == Step::Finish(RunOutcome::Panicked(a.first_panic()->0)),
{
}

/// With no case selected, the run finishes at once as passed: neither setup
/// nor teardown runs. Otherwise the first step is the suite setup.
pub proof fn law_setup_only_with_cases(a: Runner, s: Step, b: Runner)
    requires
        a.stage() == Stage::Start,
        stepped(a, s, b),
    ensures
        a.order().len() == 0 ==> (s matches Step::Finish(o) && o is Passed),
        a.order().len() > 0 ==> s is SetupSuite,
{
}

/// A panicking case does not stop the run either: the next selected case
/// (if any) is taken up, and the panic waits until the run has finished.
pub proof fn law_panic_keeps_running(a: Runner, b: Runner, s: Step, c: Runner)
    requires
        a.wf(),
        a.awaiting() is Some,
        a.aborted() is None,
        recorded(a, CaseOutcome::Panicked, b),
        b.position() < b.order().len(),
        stepped(b, s, c),
    ensures
        s == Step::Skip(b.order()[b.position() as int]) || s == Step::Run(
            b.order()[b.position() as int],
        ),
{
    lemma_awaiting_in_cases(a);
}

} // verus!
