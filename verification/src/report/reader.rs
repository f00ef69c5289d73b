//! Reading `cargo test` output line by line: each line is sorted into a
//! suite start, a case result, a libtest result, the tests' own output, or
//! noise; results are collected per suite for the closing summary.
use vstd::prelude::*;

use super::panics::{panic_view, parse_panics, PanicInfo};
use super::render::{
    header_rows, render_github_failures, render_header, render_result, render_summary,
    render_tui_failures, result_row, row_of, rows_of, summary_text, total_ms, tui_failures,
    github_cases_rows, user_row, render_user, CaseResult, CaseRow,
};
use super::scan::{find_first, slice_of};
use super::{
    case_line, cargo_test_line, is_cargo_summary_line, parse_cargo_test_line, parse_case_line,
    summary_line, views, CaseStatus, ParsedCase,
};
use crate::suite::output::suite_header_text;
use crate::text::{
    chars_of, contains_sub, first_at, is_ws, lemma_trim_noop, occurs_at, starts_with, string_of, trim,
    trimmed_chars,
};

verus! {

/// What one line of standard output is.
#[derive(Debug)]
pub enum LineKind {
    /// `◆ {storage} {test}`: a suite starts.
    SuiteStart(String, String),
    /// `◆ ` without a space after the storage name.
    BadSuiteStart,
    /// A suite case result.
    Case(ParsedCase),
    /// A libtest result.
    Libtest(ParsedCase),
    /// Output of the tests themselves (trimmed).
    User(String),
    /// Nothing to show: blank, a `▶` line, or cargo's own summary.
    Quiet,
}

/// `k` is what `line` is: checked in the order suite start, case result,
/// libtest result, then user output (a non-empty trimmed line that does not
/// start with `▶ ` and is not cargo's summary).
pub open spec fn kind_of_line(line: Seq<char>, k: LineKind) -> bool {
    let t = trim(line);
    if starts_with(t, "◆ "@) {
        let rest = t.skip("◆ "@.len() as int);
        if contains_sub(rest, " "@) {
            let p = first_at(rest, " "@);
            k matches LineKind::SuiteStart(s, n) && s@ == rest.take(p) && n@ == rest.skip(p + 1)
        } else {
            k is BadSuiteStart
        }
    } else if case_line(line) is Some {
        k matches LineKind::Case(c) && case_line(line) == Some((c.name@, c.status, c.ms as nat))
    } else if cargo_test_line(line) is Some {
        k matches LineKind::Libtest(c) && cargo_test_line(line) == Some((c.name@, c.status)) && c.ms
            == 0
    } else if t.len() != 0 && !starts_with(t, "▶ "@) && !summary_line(t) {
        k matches LineKind::User(u) && u@ == t
    } else {
        k is Quiet
    }
}

/// Sorts one line of standard output.
pub fn classify(line: &str) -> (k: LineKind)
    ensures
        kind_of_line(line@, k),
{
    let t = trimmed_chars(line);
    let diamond = chars_of("◆ ");
    let space = chars_of(" ");
    if crate::text::matches_at(&t, &diamond, 0) {
        let rest = slice_of(&t, diamond.len(), t.len());
        assert(rest@ =~= t@.skip("◆ "@.len() as int));
        proof {
            reveal_strlit(" ");
        }
        return match find_first(&rest, &space) {
            Some(p) => {
                let s = string_of(&rest, 0, p);
                let n = string_of(&rest, p + 1, rest.len());
                assert(s@ =~= rest@.take(p as int));
                assert(n@ =~= rest@.skip(p + 1));
                LineKind::SuiteStart(s, n)
            },
            None => LineKind::BadSuiteStart,
        };
    }
    match parse_case_line(line) {
        Some(c) => {
            return LineKind::Case(c);
        },
        None => {},
    }
    match parse_cargo_test_line(line) {
        Some(c) => {
            return LineKind::Libtest(c);
        },
        None => {},
    }
    let ts = string_of(&t, 0, t.len());
    assert(ts@ =~= t@);
    if t.len() != 0 && !crate::text::matches_at(&t, &chars_of("▶ "), 0) && !is_cargo_summary_line(
        ts.as_str(),
    ) {
        LineKind::User(ts)
    } else {
        LineKind::Quiet
    }
}

/// The results of one suite test.
#[derive(Debug)]
pub struct SuiteResult {
    pub storage_name: String,
    pub test_name: String,
    pub cases: Vec<CaseResult>,
}

/// A suite as character sequences: storage, test, results.
pub struct SuiteRows {
    pub storage: Seq<char>,
    pub test: Seq<char>,
    pub cases: Seq<CaseRow>,
}

/// The view of a suite.
pub open spec fn suite_rows(s: SuiteResult) -> SuiteRows {
    SuiteRows { storage: s.storage_name@, test: s.test_name@, cases: rows_of(s.cases@) }
}

/// The results of all suites, in order.
pub open spec fn all_suite_cases(suites: Seq<SuiteRows>) -> Seq<CaseRow>
    decreases suites.len(),
{
    if suites.len() == 0 {
        Seq::empty()
    } else {
        all_suite_cases(suites.drop_last()) + suites.last().cases
    }
}

/// The test names of the suites.
pub open spec fn suite_tests(suites: Seq<SuiteRows>) -> Seq<Seq<char>> {
    suites.map_values(|s: SuiteRows| s.test)
}

/// The rows the summary counts: every suite result, then the libtest results
/// that are not themselves suite tests.
pub open spec fn summary_rows(suites: Seq<SuiteRows>, regular: Seq<CaseRow>) -> Seq<CaseRow> {
    all_suite_cases(suites) + regular.filter(|r: CaseRow| !suite_tests(suites).contains(r.name))
}

/// The failed rows, in order.
pub open spec fn failed_rows(rows: Seq<CaseRow>) -> Seq<CaseRow> {
    rows.filter(|r: CaseRow| r.status == CaseStatus::Fail)
}

/// Collects results while output is read.
pub struct OutputReader {
    suites: Vec<SuiteResult>,
    storage: Option<String>,
    test: Option<String>,
    cases: Vec<CaseResult>,
    regular: Vec<CaseResult>,
    total: usize,
}

/// An optional string as characters.
pub open spec fn opt_view(o: Option<String>) -> Option<Seq<char>> {
    match o {
        Some(s) => Some(s@),
        None => None,
    }
}

/// The name a case result is shown under: `{storage}::{name}` inside a
/// suite, the bare name otherwise.
pub open spec fn display_name(storage: Option<Seq<char>>, name: Seq<char>) -> Seq<char> {
    match storage {
        Some(s) => s + "::"@ + name,
        None => name,
    }
}

/// The suites once the open suite (if any) is closed.
pub open spec fn closed_suites(a: OutputReader) -> Seq<SuiteRows> {
    match a.test() {
        Some(t) => a.suites().push(
            SuiteRows {
                storage: match a.storage() {
                    Some(s) => s,
                    None => Seq::empty(),
                },
                test: t,
                cases: a.pending(),
            },
        ),
        None => a.suites(),
    }
}

/// The rows printed when the open suite (if any) is closed.
pub open spec fn close_rows(a: OutputReader, github: bool) -> Seq<Seq<char>> {
    if a.test() is Some && github {
        seq!["::endgroup::"@]
    } else {
        Seq::empty()
    }
}

/// The pending results once the open suite (if any) is closed.
pub open spec fn pending_after_close(a: OutputReader) -> Seq<CaseRow> {
    if a.test() is Some {
        Seq::empty()
    } else {
        a.pending()
    }
}

/// The storage name once the open suite (if any) is closed.
pub open spec fn storage_after_close(a: OutputReader) -> Option<Seq<char>> {
    if a.test() is Some {
        None
    } else {
        a.storage()
    }
}

/// Reading a line of kind `k` takes reader `a` to `b` and prints `rows`.
pub open spec fn after_line(
    a: OutputReader,
    k: LineKind,
    github: bool,
    rows: Seq<Seq<char>>,
    b: OutputReader,
) -> bool {
    match k {
        LineKind::SuiteStart(s, n) => {
            &&& rows == close_rows(a, github) + header_rows(s@, n@, github)
            &&& b.suites() == closed_suites(a)
            &&& b.storage() == Some(s@)
            &&& b.test() == Some(n@)
            &&& b.pending() == pending_after_close(a)
            &&& b.regular() == a.regular()
            &&& b.count() == a.count()
        },
        LineKind::BadSuiteStart => {
            &&& rows == close_rows(a, github)
            &&& b.suites() == closed_suites(a)
            &&& b.storage() == storage_after_close(a)
            &&& b.test() is None
            &&& b.pending() == pending_after_close(a)
            &&& b.regular() == a.regular()
            &&& b.count() == a.count()
        },
        LineKind::Case(c) => {
            let d = display_name(a.storage(), c.name@);
            &&& rows == seq![result_row(d, c.status, c.ms as nat, github)]
            &&& b.pending() == a.pending().push(
                CaseRow { name: d, status: c.status, ms: c.ms as nat, suite: a.test() },
            )
            &&& b.suites() == a.suites()
            &&& b.storage() == a.storage()
            &&& b.test() == a.test()
            &&& b.regular() == a.regular()
            &&& b.count() == a.count() + 1
        },
        LineKind::Libtest(c) => {
            &&& rows == seq![result_row(c.name@, c.status, c.ms as nat, github)]
            &&& b.regular() == a.regular().push(
                CaseRow { name: c.name@, status: c.status, ms: c.ms as nat, suite: None },
            )
            &&& b.suites() == a.suites()
            &&& b.storage() == a.storage()
            &&& b.test() == a.test()
            &&& b.pending() == a.pending()
            &&& b.count() == a.count() + 1
        },
        LineKind::User(u) => {
            &&& rows == seq![user_row(u@, github)]
            &&& b.suites() == a.suites()
            &&& b.storage() == a.storage()
            &&& b.test() == a.test()
            &&& b.pending() == a.pending()
            &&& b.regular() == a.regular()
            &&& b.count() == a.count()
        },
        LineKind::Quiet => {
            &&& rows.len() == 0
            &&& b.suites() == a.suites()
            &&& b.storage() == a.storage()
            &&& b.test() == a.test()
            &&& b.pending() == a.pending()
            &&& b.regular() == a.regular()
            &&& b.count() == a.count()
        },
    }
}

impl OutputReader {
    /// The suites closed so far.
    pub closed spec fn suites(&self) -> Seq<SuiteRows> {
        self.suites@.map_values(|s: SuiteResult| suite_rows(s))
    }

    /// The storage name of the open suite.
    pub closed spec fn storage(&self) -> Option<Seq<char>> {
        opt_view(self.storage)
    }

    /// The test name of the open suite.
    pub closed spec fn test(&self) -> Option<Seq<char>> {
        opt_view(self.test)
    }

    /// Case results not yet assigned to a closed suite.
    pub closed spec fn pending(&self) -> Seq<CaseRow> {
        rows_of(self.cases@)
    }

    /// Libtest results.
    pub closed spec fn regular(&self) -> Seq<CaseRow> {
        rows_of(self.regular@)
    }

    /// How many result lines were read.
    pub closed spec fn count(&self) -> nat {
        self.total as nat
    }

    /// A reader that has read nothing.
    pub fn new() -> (r: OutputReader)
        ensures
            r.suites().len() == 0,
            r.storage() is None,
            r.test() is None,
            r.pending().len() == 0,
            r.regular().len() == 0,
            r.count() == 0,
    {
        OutputReader {
            suites: Vec::new(),
            storage: None,
            test: None,
            cases: Vec::new(),
            regular: Vec::new(),
            total: 0,
        }
    }

    /// How many result lines were read.
    pub fn total(&self) -> (n: usize)
        ensures
            n == self.count(),
    {
        self.total
    }

    /// Closes the open suite, if any: its pending results become a suite.
    /// For GitHub the log group is ended.
    pub fn close(&mut self, github: bool) -> (rows: Vec<String>)
        ensures
            views(rows@) == close_rows(*old(self), github),
            final(self).suites() == closed_suites(*old(self)),
            final(self).storage() == storage_after_close(*old(self)),
            final(self).test() is None,
            final(self).pending() == pending_after_close(*old(self)),
            final(self).regular() == old(self).regular(),
            final(self).count() == old(self).count(),
    {
        let mut rows: Vec<String> = Vec::new();
        match self.test.take() {
            Some(test_name) => {
                if github {
                    rows.push(String::from_str("::endgroup::"));
                }
                let storage_name = match self.storage.take() {
                    Some(s) => s,
                    None => String::new(),
                };
                let mut cases: Vec<CaseResult> = Vec::new();
                std::mem::swap(&mut cases, &mut self.cases);
                let ghost before = self.suites@;
                let s = SuiteResult { storage_name, test_name, cases };
                self.suites.push(s);
                proof {
                    assert(self.suites@.map_values(|s: SuiteResult| suite_rows(s)) =~= before.map_values(
                        |s: SuiteResult| suite_rows(s),
                    ).push(suite_rows(s)));
                    assert(rows_of(self.cases@) =~= Seq::<CaseRow>::empty());
                    assert(views(rows@) =~= if github {
                        seq!["::endgroup::"@]
                    } else {
                        Seq::<Seq<char>>::empty()
                    });
                }
            },
            None => {},
        }
        rows
    }

    /// Reads one line of standard output and gives the rows to print for it.
    pub fn feed(&mut self, line: &str, github: bool) -> (rows: Vec<String>)
        requires
            old(self).count() < usize::MAX,
        ensures
            exists|k: LineKind|
                kind_of_line(line@, k) && after_line(*old(self), k, github, views(rows@), *final(self)),
    {
        let kind = classify(line);
        let ghost k0 = kind;
        let rows: Vec<String> = match kind {
            LineKind::SuiteStart(storage, test) => {
                let mut rows = self.close(github);
                let ghost r0 = views(rows@);
                let hs = render_header(storage.as_str(), test.as_str(), github);
                let mut k: usize = 0;
                while k < hs.len()
                    invariant
                        k <= hs@.len(),
                        views(rows@) == r0 + views(hs@).take(k as int),
                    decreases hs.len() - k,
                {
                    let h = hs[k].clone();
                    let ghost before = rows@;
                    rows.push(h);
                    proof {
                        assert(h@ == hs@[k as int]@);
                        assert(views(rows@) =~= views(before).push(h@));
                        assert(views(hs@).take(k + 1) =~= views(hs@).take(k as int).push(hs@[k as int]@));
                        assert(views(rows@) =~= r0 + views(hs@).take(k + 1));
                    }
                    k = k + 1;
                }
                proof {
                    assert(views(hs@).take(hs@.len() as int) =~= views(hs@));
                    assert(views(hs@) =~= hs@.map_values(|r: String| r@));
                }
                self.storage = Some(storage);
                self.test = Some(test);
                rows
            },
            LineKind::BadSuiteStart => self.close(github),
            LineKind::Case(c) => {
                self.total = self.total + 1;
                let display = match &self.storage {
                    Some(s) => {
                        let mut d = s.clone();
                        d.append("::");
                        d.append(c.name.as_str());
                        d
                    },
                    None => c.name,
                };
                let row = render_result(display.as_str(), c.status, c.ms, github);
                let suite_test_name = match &self.test {
                    Some(t) => Some(t.clone()),
                    None => None,
                };
                let ghost before = self.cases@;
                let r = CaseResult { name: display, status: c.status, ms: c.ms, suite_test_name };
                self.cases.push(r);
                proof {
                    assert(rows_of(self.cases@) =~= rows_of(before).push(row_of(r)));
                }
                let mut rows: Vec<String> = Vec::new();
                rows.push(row);
                assert(views(rows@) =~= seq![row@]);
                rows
            },
            LineKind::Libtest(c) => {
                self.total = self.total + 1;
                let row = render_result(c.name.as_str(), c.status, c.ms, github);
                let ghost before = self.regular@;
                let r = CaseResult { name: c.name, status: c.status, ms: c.ms, suite_test_name: None };
                self.regular.push(r);
                proof {
                    assert(rows_of(self.regular@) =~= rows_of(before).push(row_of(r)));
                }
                let mut rows: Vec<String> = Vec::new();
                rows.push(row);
                assert(views(rows@) =~= seq![row@]);
                rows
            },
            LineKind::User(u) => {
                let row = render_user(u.as_str(), github);
                let mut rows: Vec<String> = Vec::new();
                rows.push(row);
                assert(views(rows@) =~= seq![row@]);
                rows
            },
            LineKind::Quiet => Vec::new(),
        };
        assert(kind_of_line(line@, k0));
        assert(after_line(*old(self), k0, github, views(rows@), *self));
        rows
    }
}

/// What the closing summary prints, given the closed suites, the libtest
/// results and the panic reports: for GitHub, an annotation per failure; on
/// a terminal, the counts line and, when something failed, the failure
/// section.
pub open spec fn summary_output(
    suites: Seq<SuiteRows>,
    regular: Seq<CaseRow>,
    panics: Seq<super::panics::PanicView>,
    github: bool,
) -> Seq<Seq<char>> {
    let all = summary_rows(suites, regular);
    let failed = failed_rows(all);
    if github {
        github_cases_rows(failed, panics, 0, Seq::empty())
    } else if failed.len() > 0 {
        seq![summary_text(all)] + tui_failures(failed, panics)
    } else {
        seq![summary_text(all)]
    }
}

/// A prefix of the rows lasts no longer than all of them.
proof fn lemma_rows_total_prefix(rows: Seq<CaseRow>, k: int)
    requires
        0 <= k <= rows.len(),
    ensures
        total_ms(rows.take(k)) <= total_ms(rows),
    decreases rows.len(),
{
    if k < rows.len() {
        lemma_rows_total_prefix(rows.drop_last(), k);
        assert(rows.drop_last().take(k) =~= rows.take(k));
    } else {
        assert(rows.take(k) =~= rows);
    }
}

/// A copy of a result.
fn copy_case(c: &CaseResult) -> (r: CaseResult)
    ensures
        row_of(r) == row_of(*c),
{
    CaseResult {
        name: c.name.clone(),
        status: c.status,
        ms: c.ms,
        suite_test_name: match &c.suite_test_name {
            Some(t) => Some(t.clone()),
            None => None,
        },
    }
}

/// Appends a copy of `c` to `out`.
fn push_copy(out: &mut Vec<CaseResult>, c: &CaseResult)
    ensures
        rows_of(final(out)@) == rows_of(old(out)@).push(row_of(*c)),
{
    let r = copy_case(c);
    out.push(r);
    assert(rows_of(out@) =~= rows_of(old(out)@).push(row_of(*c)));
}

/// Whether some suite is named `name`.
fn is_suite_test(suites: &Vec<SuiteResult>, name: &str) -> (r: bool)
    ensures
        r == suite_tests(suites@.map_values(|s: SuiteResult| suite_rows(s))).contains(name@),
{
    let ghost st = suite_tests(suites@.map_values(|s: SuiteResult| suite_rows(s)));
    let mut i: usize = 0;
    while i < suites.len()
        invariant
            st == suite_tests(suites@.map_values(|s: SuiteResult| suite_rows(s))),
            i <= suites@.len(),
            forall|k: int| 0 <= k < i ==> st[k] != name@,
        decreases suites.len() - i,
    {
        assert(st[i as int] == suites@[i as int].test_name@);
        if crate::text::str_eq(suites[i].test_name.as_str(), name) {
            assert(st.contains(name@));
            return true;
        }
        i = i + 1;
    }
    false
}

impl OutputReader {
    /// The rows the summary counts, in order.
    fn summary_cases(&self) -> (all: Vec<CaseResult>)
        ensures
            rows_of(all@) == summary_rows(self.suites(), self.regular()),
    {
        let ghost sv = self.suites();
        let mut all: Vec<CaseResult> = Vec::new();
        let mut i: usize = 0;
        assert(rows_of(all@) =~= Seq::<CaseRow>::empty());
        while i < self.suites.len()
            invariant
                sv == self.suites(),
                i <= self.suites@.len(),
                rows_of(all@) == all_suite_cases(sv.take(i as int)),
            decreases self.suites.len() - i,
        {
            let cases = &self.suites[i].cases;
            let ghost base = rows_of(all@);
            let mut k: usize = 0;
            while k < cases.len()
                invariant
                    k <= cases@.len(),
                    rows_of(all@) == base + rows_of(cases@).take(k as int),
                decreases cases.len() - k,
            {
                push_copy(&mut all, &cases[k]);
                proof {
                    assert(rows_of(cases@).take(k + 1) =~= rows_of(cases@).take(k as int).push(
                        row_of(cases@[k as int]),
                    ));
                    assert(rows_of(all@) =~= base + rows_of(cases@).take(k + 1));
                }
                k = k + 1;
            }
            proof {
                assert(rows_of(cases@).take(cases@.len() as int) =~= rows_of(cases@));
                assert(sv[i as int] == suite_rows(self.suites@[i as int]));
                assert(sv.take(i + 1).drop_last() =~= sv.take(i as int));
                assert(rows_of(all@) =~= all_suite_cases(sv.take(i + 1)));
            }
            i = i + 1;
        }
        assert(sv.take(i as int) =~= sv);
        let ghost head = rows_of(all@);
        let ghost rv = self.regular();
        let ghost keep = |r: CaseRow| !suite_tests(sv).contains(r.name);
        let mut j: usize = 0;
        while j < self.regular.len()
            invariant
                sv == self.suites(),
                rv == self.regular(),
                keep == (|r: CaseRow| !suite_tests(sv).contains(r.name)),
                j <= self.regular@.len(),
                rows_of(all@) == head + rv.take(j as int).filter(keep),
            decreases self.regular.len() - j,
        {
            let c = &self.regular[j];
            assert(rv[j as int] == row_of(*c));
            proof {
                reveal(Seq::filter);
                assert(rv.take(j + 1).drop_last() =~= rv.take(j as int));
            }
            if !is_suite_test(&self.suites, c.name.as_str()) {
                push_copy(&mut all, c);
                proof {
                    assert(rv.take(j + 1).filter(keep) == rv.take(j as int).filter(keep).push(rv[j as int]));
                    assert(rows_of(all@) =~= head + rv.take(j + 1).filter(keep));
                }
            } else {
                proof {
                    assert(rv.take(j + 1).filter(keep) == rv.take(j as int).filter(keep));
                }
            }
            j = j + 1;
        }
        assert(rv.take(j as int) =~= rv);
        all
    }

    /// Whether the total duration the terminal summary adds up fits in a
    /// `u128`.
    pub fn summary_fits(&self) -> (r: bool)
        ensures
            r == (total_ms(summary_rows(self.suites(), self.regular())) <= u128::MAX),
    {
        let all = self.summary_cases();
        let ghost rows = rows_of(all@);
        let mut total: u128 = 0;
        let mut i: usize = 0;
        while i < all.len()
            invariant
                rows == rows_of(all@),
                rows == summary_rows(self.suites(), self.regular()),
                i <= all@.len(),
                total == total_ms(rows.take(i as int)),
            decreases all.len() - i,
        {
            proof {
                assert(rows.take(i + 1).drop_last() =~= rows.take(i as int));
                assert(rows[i as int] == row_of(all@[i as int]));
            }
            match total.checked_add(all[i].ms) {
                Some(t) => {
                    total = t;
                },
                None => {
                    proof {
                        assert(total_ms(rows.take(i + 1)) == total_ms(rows.take(i as int)) + rows[i as int].ms);
                        lemma_rows_total_prefix(rows, i + 1);
                    }
                    return false;
                },
            }
            i = i + 1;
        }
        assert(rows.take(i as int) =~= rows);
        true
    }

    /// The closing summary, reading the panic reports from `stderr_lines`.
    #[verifier::spinoff_prover]
    #[verifier::rlimit(50)]
    pub fn summary(&self, stderr_lines: &[String], github: bool) -> (rows: Vec<String>)
        requires
            !github ==> total_ms(summary_rows(self.suites(), self.regular())) <= u128::MAX,
        ensures
            views(rows@) == summary_output(
                self.suites(),
                self.regular(),
                super::panics::panics_from(views(stderr_lines@), 0),
                github,
            ),
    {
        let panics = parse_panics(stderr_lines);
        let all = self.summary_cases();
        let ghost allr = rows_of(all@);
        let mut failed: Vec<CaseResult> = Vec::new();
        let mut i: usize = 0;
        assert(rows_of(failed@) =~= Seq::<CaseRow>::empty());
        while i < all.len()
            invariant
                allr == rows_of(all@),
                i <= all@.len(),
                rows_of(failed@) == failed_rows(allr.take(i as int)),
            decreases all.len() - i,
        {
            assert(allr[i as int] == row_of(all@[i as int]));
            proof {
                reveal(Seq::filter);
                assert(allr.take(i + 1).drop_last() =~= allr.take(i as int));
            }
            if all[i].status == CaseStatus::Fail {
                push_copy(&mut failed, &all[i]);
            }
            i = i + 1;
        }
        assert(allr.take(i as int) =~= allr);
        if github {
            render_github_failures(failed.as_slice(), panics.as_slice())
        } else {
            let mut rows: Vec<String> = Vec::new();
            rows.push(render_summary(all.as_slice()));
            if failed.len() > 0 {
                let more = render_tui_failures(failed.as_slice(), panics.as_slice());
                let ghost r0 = views(rows@);
                let mut k: usize = 0;
                while k < more.len()
                    invariant
                        k <= more@.len(),
                        views(rows@) == r0 + views(more@).take(k as int),
                    decreases more.len() - k,
                {
                    let h = more[k].clone();
                    let ghost before = rows@;
                    rows.push(h);
                    proof {
                        assert(h@ == more@[k as int]@);
                        assert(views(rows@) =~= views(before).push(h@));
                        assert(views(more@).take(k + 1) =~= views(more@).take(k as int).push(
                            more@[k as int]@,
                        ));
                    }
                    k = k + 1;
                }
                assert(views(more@).take(more@.len() as int) =~= views(more@));
            }
            assert(views(rows@)[0] == rows@[0]@);
            rows
        }
    }
}

/// The suite header a run prints reads back as a suite start with the same
/// storage and test names, when the storage name has no space and the test
/// name is non-empty and does not end in white space (as for identifiers).
pub proof fn law_suite_header_reads_back(storage: Seq<char>, test: Seq<char>)
    requires
        !storage.contains(' '),
        test.len() > 0,
        !is_ws(test.last()),
    ensures
        forall|k: LineKind|
            kind_of_line(suite_header_text(storage, test), k) ==> (k matches LineKind::SuiteStart(s, t)
                && s@ == storage && t@ == test),
{
    reveal_strlit("◆ ");
    reveal_strlit(" ");
    let line = suite_header_text(storage, test);
    assert(line[0] == '◆');
    assert(line.last() == test.last());
    lemma_trim_noop(line);
    assert(line.subrange(0, 2) =~= "◆ "@);
    let rest = line.skip(2);
    assert(rest =~= storage + " "@ + test);
    let n = storage.len() as int;
    assert(rest.subrange(n, n + 1) =~= " "@);
    assert(occurs_at(rest, " "@, n));
    assert forall|k: int| 0 <= k < n implies !#[trigger] occurs_at(rest, " "@, k) by {
        if occurs_at(rest, " "@, k) {
            assert(rest.subrange(k, k + 1)[0] == ' ');
            assert(rest[k] == storage[k]);
        }
    }
    crate::report::scan::lemma_first_at(rest, " "@, n);
    assert(rest.take(n) =~= storage);
    assert(rest.skip(n + 1) =~= test);
}

} // verus!
