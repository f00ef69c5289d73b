//! The text `suitecase test` prints: one row per result, user output, suite
//! headers, the closing summary and the failure details, for the terminal
//! (with ANSI colours) or for GitHub Actions logs.
use vstd::prelude::*;

use super::panics::{find_panic_for_suite, panic_view, PanicInfo, PanicView};
use super::{views, CaseStatus};
use crate::text::{decimal, push_char, push_decimal, starts_with};

verus! {

/// A result as the summary keeps it: the displayed name, status, duration,
/// and the test that ran it when it came from a suite.
#[derive(Debug)]
pub struct CaseResult {
    pub name: String,
    pub status: CaseStatus,
    pub ms: u128,
    pub suite_test_name: Option<String>,
}

/// A result as character sequences.
pub struct CaseRow {
    pub name: Seq<char>,
    pub status: CaseStatus,
    pub ms: nat,
    pub suite: Option<Seq<char>>,
}

/// The view of a result.
pub open spec fn row_of(c: CaseResult) -> CaseRow {
    CaseRow {
        name: c.name@,
        status: c.status,
        ms: c.ms as nat,
        suite: match c.suite_test_name {
            Some(s) => Some(s@),
            None => None,
        },
    }
}

/// The views of a list of results.
pub open spec fn rows_of(v: Seq<CaseResult>) -> Seq<CaseRow> {
    v.map_values(|c: CaseResult| row_of(c))
}

/// The status mark of a row: `✓`/`✗` in colour on a terminal, `PASS`/`FAIL`
/// for GitHub.
pub open spec fn status_mark(status: CaseStatus, github: bool) -> Seq<char> {
    if github {
        if status == CaseStatus::Pass {
            "PASS"@
        } else {
            "FAIL"@
        }
    } else if status == CaseStatus::Pass {
        "\x1b[32m✓\x1b[0m"@
    } else {
        "\x1b[31m✗\x1b[0m"@
    }
}

/// The printed row of a result: `  {mark} {name} ({ms}ms)`.
pub open spec fn result_row(name: Seq<char>, status: CaseStatus, ms: nat, github: bool) -> Seq<char> {
    "  "@ + status_mark(status, github) + " "@ + name + " ("@ + decimal(ms) + "ms)"@
}

/// The printed row of a line of the tests' own output.
pub open spec fn user_row(line: Seq<char>, github: bool) -> Seq<char> {
    if github {
        "  | "@ + line
    } else {
        "\x1b[2m  |\x1b[0m "@ + line
    }
}

/// The rows printed when a suite starts.
pub open spec fn header_rows(storage: Seq<char>, test: Seq<char>, github: bool) -> Seq<Seq<char>> {
    if github {
        seq![Seq::empty(), "::group::"@ + storage + "::"@ + test]
    } else {
        seq!["\x1b[1m── "@ + storage + " :: "@ + test + " ──\x1b[0m"@]
    }
}

/// Prints the row of a result.
pub fn render_result(name: &str, status: CaseStatus, ms: u128, github: bool) -> (s: String)
    ensures
        s@ == result_row(name@, status, ms as nat, github),
{
    let mut s = String::from_str("  ");
    if github {
        if status == CaseStatus::Pass {
            s.append("PASS");
        } else {
            s.append("FAIL");
        }
    } else if status == CaseStatus::Pass {
        s.append("\x1b[32m✓\x1b[0m");
    } else {
        s.append("\x1b[31m✗\x1b[0m");
    }
    s.append(" ");
    s.append(name);
    s.append(" (");
    push_decimal(&mut s, ms);
    s.append("ms)");
    s
}

/// Prints a line of the tests' own output.
pub fn render_user(line: &str, github: bool) -> (s: String)
    ensures
        s@ == user_row(line@, github),
{
    let mut s = if github {
        String::from_str("  | ")
    } else {
        String::from_str("\x1b[2m  |\x1b[0m ")
    };
    s.append(line);
    s
}

/// Prints the rows that start a suite.
pub fn render_header(storage: &str, test: &str, github: bool) -> (rows: Vec<String>)
    ensures
        rows@.map_values(|r: String| r@) == header_rows(storage@, test@, github),
{
    let mut rows: Vec<String> = Vec::new();
    if github {
        rows.push(String::new());
        let mut s = String::from_str("::group::");
        s.append(storage);
        s.append("::");
        s.append(test);
        rows.push(s);
    } else {
        let mut s = String::from_str("\x1b[1m── ");
        s.append(storage);
        s.append(" :: ");
        s.append(test);
        s.append(" ──\x1b[0m");
        rows.push(s);
    }
    assert(rows@.map_values(|r: String| r@) =~= header_rows(storage@, test@, github));
    rows
}

/// The number of rows with status `st`.
pub open spec fn count_status(rows: Seq<CaseRow>, st: CaseStatus) -> nat
    decreases rows.len(),
{
    if rows.len() == 0 {
        0
    } else {
        count_status(rows.drop_last(), st) + if rows.last().status == st {
            1nat
        } else {
            0nat
        }
    }
}

/// The total duration of the rows.
pub open spec fn total_ms(rows: Seq<CaseRow>) -> nat
    decreases rows.len(),
{
    if rows.len() == 0 {
        0
    } else {
        total_ms(rows.drop_last()) + rows.last().ms
    }
}

/// The terminal summary: `PASSED` in green when nothing failed, else
/// `FAILED` in red, then the counts and the total duration.
pub open spec fn summary_text(rows: Seq<CaseRow>) -> Seq<char> {
    let failed = count_status(rows, CaseStatus::Fail);
    let head = if failed > 0 {
        "\x1b[31m\x1b[1mFAILED\x1b[0m"@
    } else {
        "\x1b[32m\x1b[1mPASSED\x1b[0m"@
    };
    "\n"@ + head + "  "@ + decimal(count_status(rows, CaseStatus::Pass)) + " passed, "@ + decimal(
        failed,
    ) + " failed  (total: "@ + decimal(total_ms(rows)) + "ms)"@
}

/// Prints the terminal summary of `cases`.
pub fn render_summary(cases: &[CaseResult]) -> (s: String)
    requires
        total_ms(rows_of(cases@)) <= u128::MAX,
    ensures
        s@ == summary_text(rows_of(cases@)),
{
    let ghost rows = rows_of(cases@);
    let mut passed: usize = 0;
    let mut failed: usize = 0;
    let mut total: u128 = 0;
    let mut i: usize = 0;
    while i < cases.len()
        invariant
            rows == rows_of(cases@),
            i <= cases@.len(),
            total_ms(rows) <= u128::MAX,
            passed == count_status(rows.take(i as int), CaseStatus::Pass),
            failed == count_status(rows.take(i as int), CaseStatus::Fail),
            total == total_ms(rows.take(i as int)),
            passed + failed <= i,
        decreases cases.len() - i,
    {
        proof {
            assert(rows.take(i + 1).drop_last() =~= rows.take(i as int));
            assert(rows[i as int] == row_of(cases@[i as int]));
            lemma_total_prefix(rows, i + 1);
        }
        if cases[i].status == CaseStatus::Pass {
            passed = passed + 1;
        } else {
            failed = failed + 1;
        }
        total = total + cases[i].ms;
        i = i + 1;
    }
    proof {
        assert(rows.take(i as int) =~= rows);
    }
    let mut s = String::from_str("\n");
    if failed > 0 {
        s.append("\x1b[31m\x1b[1mFAILED\x1b[0m");
    } else {
        s.append("\x1b[32m\x1b[1mPASSED\x1b[0m");
    }
    s.append("  ");
    push_decimal(&mut s, passed as u128);
    s.append(" passed, ");
    push_decimal(&mut s, failed as u128);
    s.append(" failed  (total: ");
    push_decimal(&mut s, total);
    s.append("ms)");
    s
}

/// A prefix lasts no longer than the whole.
proof fn lemma_total_prefix(rows: Seq<CaseRow>, k: int)
    requires
        0 <= k <= rows.len(),
    ensures
        total_ms(rows.take(k)) <= total_ms(rows),
    decreases rows.len(),
{
    if k < rows.len() {
        lemma_total_prefix(rows.drop_last(), k);
        assert(rows.drop_last().take(k) =~= rows.take(k));
    } else {
        assert(rows.take(k) =~= rows);
    }
}

/// The first report of the thread named `name`.
pub open spec fn panic_named(panics: Seq<PanicView>, name: Seq<char>) -> Option<int> {
    if exists|k: int| 0 <= k < panics.len() && #[trigger] panics[k].thread == name {
        Some(
            choose|k: int|
                0 <= k < panics.len() && #[trigger] panics[k].thread == name && forall|j: int|
                    0 <= j < k ==> panics[j].thread != name,
        )
    } else {
        None
    }
}

/// `{file}:{line}`, or the file alone when the line is unknown.
pub open spec fn location_text(file: Seq<char>, line: Option<u32>) -> Seq<char> {
    match line {
        Some(l) => file + ":"@ + decimal(l as nat),
        None => file,
    }
}

/// The terminal rows for one failed case, given the suites whose panic was
/// already shown; with the suites shown afterwards.
pub open spec fn tui_case_rows(
    c: CaseRow,
    panics: Seq<PanicView>,
    shown: Seq<Seq<char>>,
) -> (Seq<Seq<char>>, Seq<Seq<char>>) {
    let head = seq![
        "\x1b[31m\x1b[1m✗ "@ + c.name + "\x1b[0m"@,
        "\x1b[2m  duration: "@ + decimal(c.ms) + "ms\x1b[0m"@,
    ];
    match c.suite {
        Some(st) => match panic_named(panics, st) {
            Some(k) => if shown.contains(st) {
                (head + seq![Seq::empty()], shown)
            } else {
                let p = panics[k];
                let at = match p.file {
                    Some(f) => seq!["\x1b[2m  at "@ + location_text(f, p.line) + "\x1b[0m"@],
                    None => Seq::empty(),
                };
                (head + at + seq!["\x1b[31m  "@ + p.message + "\x1b[0m"@, Seq::empty()], shown.push(st))
            },
            None => (head + seq!["\x1b[2m  (no panic details captured)\x1b[0m"@, Seq::empty()], shown),
        },
        None => (head + seq!["\x1b[2m  (no panic details captured)\x1b[0m"@, Seq::empty()], shown),
    }
}

/// The terminal rows for the failed cases from position `i` on.
pub open spec fn tui_cases_rows(
    failed: Seq<CaseRow>,
    panics: Seq<PanicView>,
    i: int,
    shown: Seq<Seq<char>>,
) -> Seq<Seq<char>>
    decreases failed.len() - i,
{
    if i < 0 || i >= failed.len() {
        Seq::empty()
    } else {
        let (rows, next) = tui_case_rows(failed[i], panics, shown);
        rows + tui_cases_rows(failed, panics, i + 1, next)
    }
}

/// The terminal failure section.
pub open spec fn tui_failures(failed: Seq<CaseRow>, panics: Seq<PanicView>) -> Seq<Seq<char>> {
    seq![Seq::empty(), "\x1b[31m\x1b[1m─── FAILURES ───\x1b[0m"@, Seq::empty()] + tui_cases_rows(
        failed,
        panics,
        0,
        Seq::empty(),
    ) + seq!["\x1b[31m\x1b[1m─── END FAILURES ───\x1b[0m"@]
}

/// The GitHub annotation for one failed case, given the suites already
/// reported; with the suites reported afterwards.
pub open spec fn github_case_rows(
    c: CaseRow,
    panics: Seq<PanicView>,
    shown: Seq<Seq<char>>,
) -> (Seq<Seq<char>>, Seq<Seq<char>>) {
    match c.suite {
        Some(st) => match panic_named(panics, st) {
            Some(k) => if shown.contains(st) {
                (Seq::empty(), shown)
            } else {
                let p = panics[k];
                let file_info = match (p.file, p.line) {
                    (Some(f), Some(l)) => "file="@ + f + ",line="@ + decimal(l as nat) + ","@,
                    _ => Seq::empty(),
                };
                (
                    seq![
                        "::error "@ + file_info + "title="@ + c.name + "::"@ + c.name + " failed: "@
                            + one_line(p.message),
                    ],
                    shown.push(st),
                )
            },
            None => (Seq::empty(), shown),
        },
        None => (seq!["::error title="@ + c.name + "::"@ + c.name + " failed"@], shown),
    }
}

/// The GitHub annotations for the failed cases from position `i` on.
pub open spec fn github_cases_rows(
    failed: Seq<CaseRow>,
    panics: Seq<PanicView>,
    i: int,
    shown: Seq<Seq<char>>,
) -> Seq<Seq<char>>
    decreases failed.len() - i,
{
    if i < 0 || i >= failed.len() {
        Seq::empty()
    } else {
        let (rows, next) = github_case_rows(failed[i], panics, shown);
        rows + github_cases_rows(failed, panics, i + 1, next)
    }
}

/// `s` with each newline replaced by a space.
pub open spec fn one_line(s: Seq<char>) -> Seq<char> {
    s.map_values(|c: char| if c == '\n' {
        ' '
    } else {
        c
    })
}

/// `s` with each newline replaced by a space.
fn flatten_lines(s: &str) -> (r: String)
    ensures
        r@ == one_line(s@),
{
    let v = crate::text::chars_of(s);
    let mut r = String::new();
    let mut i: usize = 0;
    while i < v.len()
        invariant
            v@ == s@,
            i <= v@.len(),
            r@ == one_line(s@.take(i as int)),
        decreases v.len() - i,
    {
        let c = v[i];
        push_char(&mut r, if c == '\n' {
            ' '
        } else {
            c
        });
        i = i + 1;
        assert(r@ =~= one_line(s@.take(i as int)));
    }
    assert(s@.take(i as int) =~= s@);
    r
}

/// Whether `name` is among `shown`.
fn is_shown(shown: &Vec<String>, name: &str) -> (r: bool)
    ensures
        r == shown@.map_values(|s: String| s@).contains(name@),
{
    let ghost sv = shown@.map_values(|s: String| s@);
    let mut i: usize = 0;
    while i < shown.len()
        invariant
            sv == shown@.map_values(|s: String| s@),
            i <= shown@.len(),
            forall|k: int| 0 <= k < i ==> sv[k] != name@,
        decreases shown.len() - i,
    {
        assert(sv[i as int] == shown@[i as int]@);
        if crate::text::str_eq(shown[i].as_str(), name) {
            assert(sv.contains(name@));
            return true;
        }
        i = i + 1;
    }
    false
}

/// The index `find_panic_for_suite` gives is the one `panic_named` names.
proof fn lemma_panic_named(panics: Seq<PanicInfo>, name: Seq<char>, r: Option<usize>)
    requires
        match r {
            Some(i) => i < panics.len() && panics[i as int].thread_name@ == name && forall|k: int|
                0 <= k < i ==> #[trigger] panics[k].thread_name@ != name,
            None => forall|k: int| 0 <= k < panics.len() ==> #[trigger] panics[k].thread_name@ != name,
        },
    ensures
        panic_named(panics.map_values(|p: PanicInfo| panic_view(p)), name) == match r {
            Some(i) => Some(i as int),
            None => None::<int>,
        },
{
    let pv = panics.map_values(|p: PanicInfo| panic_view(p));
    assert forall|k: int| 0 <= k < panics.len() implies #[trigger] pv[k].thread
        == panics[k].thread_name@ by {}
    match r {
        Some(i) => {
            assert(pv[i as int].thread == name);
            let c = choose|k: int|
                0 <= k < pv.len() && #[trigger] pv[k].thread == name && forall|j: int|
                    0 <= j < k ==> pv[j].thread != name;
            assert(0 <= i < pv.len() && pv[i as int].thread == name && forall|j: int|
                0 <= j < i ==> pv[j].thread != name);
            if c < i {
                assert(pv[c].thread != name);
            }
            if i < c {
                assert(pv[i as int].thread != name);
            }
        },
        None => {
            if exists|k: int| 0 <= k < pv.len() && #[trigger] pv[k].thread == name {
                let k = choose|k: int| 0 <= k < pv.len() && #[trigger] pv[k].thread == name;
                assert(panics[k].thread_name@ != name);
            }
        },
    }
}

/// Appends `s` to `out`.
fn emit(out: &mut Vec<String>, s: String)
    ensures
        views(final(out)@) == views(old(out)@).push(s@),
{
    out.push(s);
    assert(views(out@) =~= views(old(out)@).push(s@));
}

/// `{file}:{line}` or the file alone.
fn render_location(file: &str, line: Option<u32>) -> (s: String)
    ensures
        s@ == location_text(file@, line),
{
    let mut s = String::from_str(file);
    match line {
        Some(l) => {
            s.append(":");
            push_decimal(&mut s, l as u128);
        },
        None => {},
    }
    s
}

/// Prints the terminal rows of one failed case.
#[verifier::spinoff_prover]
#[verifier::rlimit(50)]
fn tui_case(c: &CaseResult, panics: &[PanicInfo], shown: &mut Vec<String>, out: &mut Vec<String>)
    ensures
        ({
            let (rows, next) = tui_case_rows(
                row_of(*c),
                panics@.map_values(|p: PanicInfo| panic_view(p)),
                views(old(shown)@),
            );
            &&& views(final(out)@) == views(old(out)@) + rows
            &&& views(final(shown)@) == next
        }),
{
    let ghost pv = panics@.map_values(|p: PanicInfo| panic_view(p));
    let ghost out0 = views(out@);
    let ghost shown0 = views(shown@);
    let mut h1 = String::from_str("\x1b[31m\x1b[1m✗ ");
    h1.append(c.name.as_str());
    h1.append("\x1b[0m");
    emit(out, h1);
    let mut h2 = String::from_str("\x1b[2m  duration: ");
    push_decimal(&mut h2, c.ms);
    h2.append("ms\x1b[0m");
    emit(out, h2);
    let ghost head = seq![
        "\x1b[31m\x1b[1m✗ "@ + c.name@ + "\x1b[0m"@,
        "\x1b[2m  duration: "@ + decimal(c.ms as nat) + "ms\x1b[0m"@,
    ];
    assert(views(out@) =~= out0 + head);
    let mut detailed = false;
    match &c.suite_test_name {
        Some(st) => {
            let found = find_panic_for_suite(st.as_str(), panics);
            proof {
                lemma_panic_named(panics@, st@, found);
            }
            match found {
                Some(k) => {
                    detailed = true;
                    if !is_shown(shown, st.as_str()) {
                        let p = &panics[k];
                        assert(pv[k as int] == panic_view(*p));
                        match &p.file {
                            Some(f) => {
                                let mut a = String::from_str("\x1b[2m  at ");
                                let loc = render_location(f.as_str(), p.line);
                                a.append(loc.as_str());
                                a.append("\x1b[0m");
                                emit(out, a);
                            },
                            None => {},
                        }
                        let mut m = String::from_str("\x1b[31m  ");
                        m.append(p.message.as_str());
                        m.append("\x1b[0m");
                        emit(out, m);
                        emit(out, String::new());
                        let ghost before_shown = shown@;
                        shown.push(st.clone());
                        assert(views(shown@) =~= shown0.push(st@));
                    } else {
                        emit(out, String::new());
                    }
                },
                None => {},
            }
        },
        None => {},
    }
    if !detailed {
        emit(out, String::from_str("\x1b[2m  (no panic details captured)\x1b[0m"));
        emit(out, String::new());
    }
    proof {
        let (rows, next) = tui_case_rows(row_of(*c), pv, shown0);
        assert(views(out@) =~= out0 + rows);
    }
}

/// Prints the terminal failure section for `failed`, showing each suite's
/// panic once.
pub fn render_tui_failures(failed: &[CaseResult], panics: &[PanicInfo]) -> (rows: Vec<String>)
    ensures
        views(rows@) == tui_failures(rows_of(failed@), panics@.map_values(|p: PanicInfo| panic_view(p))),
{
    let ghost pv = panics@.map_values(|p: PanicInfo| panic_view(p));
    let ghost fr = rows_of(failed@);
    let mut out: Vec<String> = Vec::new();
    emit(&mut out, String::new());
    emit(&mut out, String::from_str("\x1b[31m\x1b[1m─── FAILURES ───\x1b[0m"));
    emit(&mut out, String::new());
    let ghost head = views(out@);
    let mut shown: Vec<String> = Vec::new();
    let mut i: usize = 0;
    assert(views(shown@) =~= Seq::<Seq<char>>::empty());
    while i < failed.len()
        invariant
            pv == panics@.map_values(|p: PanicInfo| panic_view(p)),
            fr == rows_of(failed@),
            i <= failed@.len(),
            views(out@) + tui_cases_rows(fr, pv, i as int, views(shown@)) == head + tui_cases_rows(
                fr,
                pv,
                0,
                Seq::empty(),
            ),
        decreases failed.len() - i,
    {
        let ghost o0 = views(out@);
        let ghost s0 = views(shown@);
        tui_case(&failed[i], panics, &mut shown, &mut out);
        proof {
            assert(fr[i as int] == row_of(failed@[i as int]));
            let (rs, nx) = tui_case_rows(fr[i as int], pv, s0);
            assert(tui_cases_rows(fr, pv, i as int, s0) == rs + tui_cases_rows(fr, pv, i + 1, nx));
            assert(views(out@) + tui_cases_rows(fr, pv, i + 1, views(shown@)) =~= o0 + tui_cases_rows(
                fr,
                pv,
                i as int,
                s0,
            ));
        }
        i = i + 1;
    }
    assert(views(shown@).len() >= 0);
    assert(views(out@) + tui_cases_rows(fr, pv, i as int, views(shown@)) =~= views(out@));
    emit(&mut out, String::from_str("\x1b[31m\x1b[1m─── END FAILURES ───\x1b[0m"));
    assert(views(out@) =~= tui_failures(fr, pv));
    out
}

/// Prints the GitHub annotation of one failed case.
#[verifier::spinoff_prover]
#[verifier::rlimit(50)]
fn github_case(c: &CaseResult, panics: &[PanicInfo], shown: &mut Vec<String>, out: &mut Vec<String>)
    ensures
        ({
            let (rows, next) = github_case_rows(
                row_of(*c),
                panics@.map_values(|p: PanicInfo| panic_view(p)),
                views(old(shown)@),
            );
            &&& views(final(out)@) == views(old(out)@) + rows
            &&& views(final(shown)@) == next
        }),
{
    let ghost pv = panics@.map_values(|p: PanicInfo| panic_view(p));
    let ghost out0 = views(out@);
    let ghost shown0 = views(shown@);
    match &c.suite_test_name {
        Some(st) => {
            let found = find_panic_for_suite(st.as_str(), panics);
            proof {
                lemma_panic_named(panics@, st@, found);
            }
            match found {
                Some(k) => {
                    if !is_shown(shown, st.as_str()) {
                        let p = &panics[k];
                        assert(pv[k as int] == panic_view(*p));
                        let ghost pvk = pv[k as int];
                        let ghost file_info = match (pvk.file, pvk.line) {
                            (Some(f), Some(l)) => "file="@ + f + ",line="@ + decimal(l as nat) + ","@,
                            _ => Seq::empty(),
                        };
                        let mut e = String::from_str("::error ");
                        match (&p.file, p.line) {
                            (Some(f), Some(l)) => {
                                e.append("file=");
                                e.append(f.as_str());
                                e.append(",line=");
                                push_decimal(&mut e, l as u128);
                                e.append(",");
                            },
                            _ => {},
                        }
                        e.append("title=");
                        e.append(c.name.as_str());
                        e.append("::");
                        e.append(c.name.as_str());
                        e.append(" failed: ");
                        let msg = flatten_lines(p.message.as_str());
                        e.append(msg.as_str());
                        assert(e@ =~= "::error "@ + file_info + "title="@ + c.name@ + "::"@ + c.name@
                            + " failed: "@ + one_line(pvk.message));
                        emit(out, e);
                        shown.push(st.clone());
                        assert(views(shown@) =~= shown0.push(st@));
                    }
                },
                None => {},
            }
        },
        None => {
            let mut e = String::from_str("::error title=");
            e.append(c.name.as_str());
            e.append("::");
            e.append(c.name.as_str());
            e.append(" failed");
            emit(out, e);
        },
    }
    proof {
        let (rows, next) = github_case_rows(row_of(*c), pv, shown0);
        assert(views(out@) =~= out0 + rows);
    }
}

/// Prints the GitHub annotations for `failed`, reporting each suite's panic
/// once.
pub fn render_github_failures(failed: &[CaseResult], panics: &[PanicInfo]) -> (rows: Vec<String>)
    ensures
        views(rows@) == github_cases_rows(
            rows_of(failed@),
            panics@.map_values(|p: PanicInfo| panic_view(p)),
            0,
            Seq::empty(),
        ),
{
    let ghost pv = panics@.map_values(|p: PanicInfo| panic_view(p));
    let ghost fr = rows_of(failed@);
    let mut out: Vec<String> = Vec::new();
    let mut shown: Vec<String> = Vec::new();
    let mut i: usize = 0;
    assert(views(out@) =~= Seq::<Seq<char>>::empty());
    assert(views(shown@) =~= Seq::<Seq<char>>::empty());
    while i < failed.len()
        invariant
            pv == panics@.map_values(|p: PanicInfo| panic_view(p)),
            fr == rows_of(failed@),
            i <= failed@.len(),
            views(out@) + github_cases_rows(fr, pv, i as int, views(shown@)) == github_cases_rows(
                fr,
                pv,
                0,
                Seq::empty(),
            ),
        decreases failed.len() - i,
    {
        let ghost o0 = views(out@);
        let ghost s0 = views(shown@);
        github_case(&failed[i], panics, &mut shown, &mut out);
        proof {
            assert(fr[i as int] == row_of(failed@[i as int]));
            let (rs, nx) = github_case_rows(fr[i as int], pv, s0);
            assert(github_cases_rows(fr, pv, i as int, s0) == rs + github_cases_rows(fr, pv, i + 1, nx));
            assert(views(out@) + github_cases_rows(fr, pv, i + 1, views(shown@)) =~= o0
                + github_cases_rows(fr, pv, i as int, s0));
        }
        i = i + 1;
    }
    assert(views(out@) + github_cases_rows(fr, pv, i as int, views(shown@)) =~= views(out@));
    out
}

/// A prefix of `s` stays a prefix of `s + t`.
proof fn lemma_prefix_kept(s: Seq<char>, a: Seq<char>, t: Seq<char>)
    requires
        starts_with(s, a) || s == a,
    ensures
        starts_with(s + t, a),
{
    if s == a {
        assert(s.subrange(0, a.len() as int) =~= a);
    }
    assert((s + t).subrange(0, a.len() as int) =~= s.subrange(0, a.len() as int));
}

/// Every GitHub annotation for failed cases is an error annotation: each row
/// starts with `::error `, and every failed result outside a suite is
/// reported by the row `::error title=NAME::NAME failed`.
pub proof fn law_github_failures_are_errors(
    failed: Seq<CaseRow>,
    panics: Seq<PanicView>,
    i: int,
    shown: Seq<Seq<char>>,
)
    requires
        0 <= i,
    ensures
        forall|k: int|
            0 <= k < github_cases_rows(failed, panics, i, shown).len() ==> starts_with(
                #[trigger] github_cases_rows(failed, panics, i, shown)[k],
                "::error "@,
            ),
        forall|j: int|
            i <= j < failed.len() && (#[trigger] failed[j]).suite is None ==> github_cases_rows(
                failed,
                panics,
                i,
                shown,
            ).contains("::error title="@ + failed[j].name + "::"@ + failed[j].name + " failed"@),
    decreases failed.len() - i,
{
    if i < failed.len() {
        let (rows, next) = github_case_rows(failed[i], panics, shown);
        law_github_failures_are_errors(failed, panics, i + 1, next);
        let tail = github_cases_rows(failed, panics, i + 1, next);
        let all = github_cases_rows(failed, panics, i, shown);
        assert(all == rows + tail);
        assert forall|k: int| 0 <= k < rows.len() implies starts_with(#[trigger] rows[k], "::error "@) by {
            let c = failed[i];
            match c.suite {
                Some(st) => {
                    let k2 = panic_named(panics, st);
                    let p = panics[k2->0];
                    let file_info = match (p.file, p.line) {
                        (Some(f), Some(l)) => "file="@ + f + ",line="@ + decimal(l as nat) + ","@,
                        _ => Seq::empty(),
                    };
                    assert(rows[k] == "::error "@ + file_info + "title="@ + c.name + "::"@ + c.name
                        + " failed: "@ + one_line(p.message));
                    let a = "::error "@;
                    lemma_prefix_kept(a, a, file_info);
                    lemma_prefix_kept(a + file_info, a, "title="@);
                    lemma_prefix_kept(a + file_info + "title="@, a, c.name);
                    lemma_prefix_kept(a + file_info + "title="@ + c.name, a, "::"@);
                    lemma_prefix_kept(a + file_info + "title="@ + c.name + "::"@, a, c.name);
                    lemma_prefix_kept(a + file_info + "title="@ + c.name + "::"@ + c.name, a, " failed: "@);
                    lemma_prefix_kept(
                        a + file_info + "title="@ + c.name + "::"@ + c.name + " failed: "@,
                        a,
                        one_line(p.message),
                    );
                },
                None => {
                    assert(rows[k] == "::error title="@ + c.name + "::"@ + c.name + " failed"@);
                    let a = "::error "@;
                    let b = "::error title="@;
                    reveal_strlit("::error ");
                    reveal_strlit("::error title=");
                    assert(b.subrange(0, a.len() as int) =~= a);
                    lemma_prefix_kept(b, a, c.name);
                    lemma_prefix_kept(b + c.name, a, "::"@);
                    lemma_prefix_kept(b + c.name + "::"@, a, c.name);
                    lemma_prefix_kept(b + c.name + "::"@ + c.name, a, " failed"@);
                },
            }
        }
        assert forall|k: int| 0 <= k < all.len() implies starts_with(#[trigger] all[k], "::error "@) by {
            if k < rows.len() {
                assert(all[k] == rows[k]);
            } else {
                assert(all[k] == tail[k - rows.len()]);
            }
        }
        assert forall|j: int| i <= j < failed.len() && (#[trigger] failed[j]).suite is None implies all.contains(
            "::error title="@ + failed[j].name + "::"@ + failed[j].name + " failed"@,
        ) by {
            let row = "::error title="@ + failed[j].name + "::"@ + failed[j].name + " failed"@;
            if j == i {
                assert(rows[0] == row);
                assert(all[0] == row);
            } else {
                let k = choose|k: int| 0 <= k < tail.len() && tail[k] == row;
                assert(all[rows.len() + k] == row);
            }
        }
    }
}

} // verus!
