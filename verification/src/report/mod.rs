//! Reading the output of `cargo test`: suite case lines (`✓ name (3ms)`),
//! libtest result lines (`test name ... ok`), summary lines to hide, and
//! panic reports on standard error.
use vstd::prelude::*;

pub mod cargo;
pub mod panics;
pub mod reader;
pub mod render;
pub mod scan;

use crate::suite::output::result_text;
use crate::text::{
    all_digits, chars_of, contains_sub, decimal, first_at, is_digit, is_ws, last_at,
    lemma_decimal_reads_back, lemma_trim_noop, occurs_at, parse_digits, parse_unsigned, starts_with,
    str_contains, str_ends_with, str_eq, str_starts_with, string_of, trim, trimmed_chars,
    unsigned_body,
};
use scan::{find_first, find_last, same_chars, slice_of};

verus! {

/// Whether a test passed or failed.
#[derive(Debug, PartialEq, Eq, Structural, Clone, Copy)]
pub enum CaseStatus {
    Pass,
    Fail,
}

/// One result line: the test or case name, its status, and its duration in
/// milliseconds (0 when the line gives none).
#[derive(Debug)]
pub struct ParsedCase {
    pub name: String,
    pub status: CaseStatus,
    pub ms: u128,
}

/// The name and duration of `name (Nms)`: the name ends at the last `" ("`,
/// and the duration is what precedes the first `"ms)"` after it.
pub open spec fn timing_of(s: Seq<char>) -> Option<(Seq<char>, nat)> {
    if contains_sub(s, " ("@) {
        let pos = last_at(s, " ("@);
        let t = s.skip(pos + " ("@.len());
        if contains_sub(t, "ms)"@) {
            match parse_unsigned(t.take(first_at(t, "ms)"@)), u128::MAX as nat) {
                Some(ms) => Some((s.take(pos), ms)),
                None => None,
            }
        } else {
            None
        }
    } else {
        None
    }
}

/// What a suite case line says: after trimming, `✓ ` (pass) or `✗ ` (fail)
/// followed by `name (Nms)`.
pub open spec fn case_line(line: Seq<char>) -> Option<(Seq<char>, CaseStatus, nat)> {
    let t = trim(line);
    if starts_with(t, "✓ "@) && timing_of(t.skip("✓ "@.len() as int)) is Some {
        let (n, ms) = timing_of(t.skip("✓ "@.len() as int)).unwrap();
        Some((n, CaseStatus::Pass, ms))
    } else if starts_with(t, "✗ "@) && timing_of(t.skip("✗ "@.len() as int)) is Some {
        let (n, ms) = timing_of(t.skip("✗ "@.len() as int)).unwrap();
        Some((n, CaseStatus::Fail, ms))
    } else {
        None
    }
}

/// What a libtest result line says: after trimming, `test `, the name up to
/// the first `" ... "`, then exactly `ok` (pass) or text starting with
/// `FAILED` (fail).
pub open spec fn cargo_test_line(line: Seq<char>) -> Option<(Seq<char>, CaseStatus)> {
    let t = trim(line);
    if starts_with(t, "test "@) {
        let rest = t.skip("test "@.len() as int);
        if contains_sub(rest, " ... "@) {
            let p = first_at(rest, " ... "@);
            let res = rest.skip(p + " ... "@.len());
            if res == "ok"@ {
                Some((rest.take(p), CaseStatus::Pass))
            } else if starts_with(res, "FAILED"@) {
                Some((rest.take(p), CaseStatus::Fail))
            } else {
                None
            }
        } else {
            None
        }
    } else {
        None
    }
}

/// A line of `cargo test`'s own reporting (counts, summaries, doctest
/// headers), which the formatted output leaves out.
pub open spec fn summary_line(line: Seq<char>) -> bool {
    ||| starts_with(line, "running "@)
    ||| starts_with(line, "test result:"@)
    ||| line == "failures:"@
    ||| crate::text::ends_with(line, " - should panic"@)
    ||| starts_with(line, "all doctests"@)
    ||| line == "Couldn't compile the test."@
    ||| starts_with(line, "error: doctest failed"@)
    ||| contains_sub(line, "doctests ran in"@) && contains_sub(line, "merged doctests compilation"@)
    ||| (starts_with(line, "src/"@) || starts_with(line, "tests/"@)) && contains_sub(line, " - "@)
}

/// Parses `name (Nms)`.
#[verifier::rlimit(30)]
pub fn parse_timing(s: &Vec<char>) -> (r: Option<(String, u128)>)
    ensures
        match timing_of(s@) {
            Some((n, ms)) => r matches Some((name, v)) && name@ == n && v == ms,
            None => r is None,
        },
{
    let open = chars_of(" (");
    let close = chars_of("ms)");
    match find_last(s, &open) {
        None => None,
        Some(pos) => {
            let n = s.len();
            let ol = open.len();
            assert(pos + ol <= n);
            let t = slice_of(s, pos + ol, n);
            proof {
                assert(t@ =~= s@.skip(pos + " ("@.len()));
            }
            match find_first(&t, &close) {
                None => None,
                Some(end) => {
                    proof {
                        assert(t@.subrange(0, end as int) =~= t@.take(end as int));
                    }
                    match parse_digits(&t, 0, end, u128::MAX) {
                        None => None,
                        Some(ms) => {
                            let name = string_of(s, 0, pos);
                            proof {
                                assert(name@ =~= s@.take(pos as int));
                            }
                            Some((name, ms))
                        },
                    }
                },
            }
        },
    }
}

/// Parses a suite case line such as `✓ fetch (3ms)` or `✗ store (0ms)`.
pub fn parse_case_line(line: &str) -> (r: Option<ParsedCase>)
    ensures
        match case_line(line@) {
            Some((n, st, ms)) => r matches Some(p) && p.name@ == n && p.status == st && p.ms == ms,
            None => r is None,
        },
{
    let t = trimmed_chars(line);
    let pass = chars_of("✓ ");
    let fail = chars_of("✗ ");
    if crate::text::matches_at(&t, &pass, 0) {
        let rest = slice_of(&t, pass.len(), t.len());
        proof {
            assert(rest@ =~= t@.skip("✓ "@.len() as int));
        }
        match parse_timing(&rest) {
            Some((name, ms)) => {
                return Some(ParsedCase { name, status: CaseStatus::Pass, ms });
            },
            None => {},
        }
    }
    if crate::text::matches_at(&t, &fail, 0) {
        let rest = slice_of(&t, fail.len(), t.len());
        proof {
            assert(rest@ =~= t@.skip("✗ "@.len() as int));
        }
        match parse_timing(&rest) {
            Some((name, ms)) => {
                return Some(ParsedCase { name, status: CaseStatus::Fail, ms });
            },
            None => {},
        }
    }
    None
}

/// Parses a libtest result line such as `test tests::it_works ... ok`.
#[verifier::rlimit(30)]
pub fn parse_cargo_test_line(line: &str) -> (r: Option<ParsedCase>)
    ensures
        match cargo_test_line(line@) {
            Some((n, st)) => r matches Some(p) && p.name@ == n && p.status == st && p.ms == 0,
            None => r is None,
        },
{
    let t = trimmed_chars(line);
    let head = chars_of("test ");
    let sep = chars_of(" ... ");
    let ok = chars_of("ok");
    let failed = chars_of("FAILED");
    if !crate::text::matches_at(&t, &head, 0) {
        return None;
    }
    let rest = slice_of(&t, head.len(), t.len());
    proof {
        assert(rest@ =~= t@.skip("test "@.len() as int));
    }
    match find_first(&rest, &sep) {
        None => None,
        Some(p) => {
            let res = slice_of(&rest, p + sep.len(), rest.len());
            proof {
                assert(res@ =~= rest@.skip(p + " ... "@.len()));
            }
            let status = if same_chars(&res, &ok) {
                CaseStatus::Pass
            } else if crate::text::matches_at(&res, &failed, 0) {
                CaseStatus::Fail
            } else {
                return None;
            };
            let name = string_of(&rest, 0, p);
            proof {
                assert(name@ =~= rest@.take(p as int));
            }
            Some(ParsedCase { name, status, ms: 0 })
        },
    }
}

/// Whether `line` (already trimmed) is one of `cargo test`'s own summary
/// lines.
pub fn is_cargo_summary_line(line: &str) -> (r: bool)
    ensures
        r == summary_line(line@),
{
    str_starts_with(line, "running ") || str_starts_with(line, "test result:") || str_eq(
        line,
        "failures:",
    ) || str_ends_with(line, " - should panic") || str_starts_with(line, "all doctests") || str_eq(
        line,
        "Couldn't compile the test.",
    ) || str_starts_with(line, "error: doctest failed") || (str_contains(line, "doctests ran in")
        && str_contains(line, "merged doctests compilation")) || ((str_starts_with(line, "src/")
        || str_starts_with(line, "tests/")) && str_contains(line, " - "))
}

/// The views of a list of strings.
pub open spec fn views(v: Seq<String>) -> Seq<Seq<char>> {
    v.map_values(|s: String| s@)
}

/// The position of the first string equal to `target`.
pub fn position_of(args: &[String], target: &str) -> (r: Option<usize>)
    ensures
        match r {
            Some(i) => i < args@.len() && views(args@).index_of_first(target@) == Some(i as int),
            None => views(args@).index_of_first(target@) is None,
        },
{
    let ghost vs = views(args@);
    proof {
        vs.index_of_first_ensures(target@);
    }
    let mut i: usize = 0;
    while i < args.len()
        invariant
            vs == views(args@),
            i <= args@.len(),
            forall|k: int| 0 <= k < i ==> vs[k] != target@,
        decreases args.len() - i,
    {
        assert(vs[i as int] == args@[i as int]@);
        if str_eq(args[i].as_str(), target) {
            proof {
                vs.index_of_first_ensures(target@);
                assert(vs[i as int] == target@);
                assert(vs.contains(target@));
                let idx = vs.index_of_first(target@).unwrap();
                if idx < i {
                    assert(vs[idx] != target@);
                }
                if i < idx {
                    assert(vs[i as int] != target@);
                }
            }
            return Some(i);
        }
        i = i + 1;
    }
    proof {
        vs.index_of_first_ensures(target@);
        if vs.contains(target@) {
            let j = choose|j: int| 0 <= j < vs.len() && vs[j] == target@;
            assert(vs[j] != target@);
        }
    }
    None
}

/// `out` holds the texts of `src[lo..hi]`.
pub open spec fn copies(out: Seq<String>, src: Seq<String>, lo: int, hi: int) -> bool {
    &&& out.len() == hi - lo
    &&& forall|j: int| 0 <= j < out.len() ==> #[trigger] out[j]@ == src[lo + j]@
}

/// Copies have the views of the copied range.
pub proof fn lemma_copies_views(out: Seq<String>, src: Seq<String>, lo: int, hi: int)
    requires
        0 <= lo <= hi <= src.len(),
        copies(out, src, lo, hi),
    ensures
        views(out) == views(src).subrange(lo, hi),
{
    let a = views(out);
    let b = views(src).subrange(lo, hi);
    assert(a.len() == b.len());
    assert forall|j: int| 0 <= j < a.len() implies a[j] == b[j] by {
        assert(a[j] == out[j]@);
        assert(b[j] == views(src)[lo + j]);
        assert(views(src)[lo + j] == src[lo + j]@);
    }
    assert(a =~= b);
}

/// Copies of `args[lo..hi]`.
pub fn copy_range(args: &[String], lo: usize, hi: usize) -> (r: Vec<String>)
    requires
        lo <= hi <= args@.len(),
    ensures
        views(r@) == views(args@).subrange(lo as int, hi as int),
{
    let mut out: Vec<String> = Vec::new();
    let mut k = lo;
    while k < hi
        invariant
            lo <= k <= hi <= args@.len(),
            copies(out@, args@, lo as int, k as int),
        decreases hi - k,
    {
        let c = args[k].clone();
        assert(c@ == args@[k as int]@);
        out.push(c);
        k = k + 1;
    }
    proof {
        lemma_copies_views(out@, args@, lo as int, hi as int);
    }
    out
}

/// Splits the arguments at the first `--`: those before it go to cargo,
/// those after it to the test binary. Without `--`, all go to cargo.
pub fn split_at_double_dash(args: &[String]) -> (r: (Vec<String>, Vec<String>))
    ensures
        match views(args@).index_of_first("--"@) {
            Some(i) => views(r.0@) == views(args@).take(i) && views(r.1@) == views(args@).skip(i + 1),
            None => views(r.0@) == views(args@) && r.1@.len() == 0,
        },
{
    match position_of(args, "--") {
        Some(i) => {
            let n = args.len();
            assert(i < n);
            let before = copy_range(args, 0, i);
            let after = copy_range(args, i + 1, args.len());
            proof {
                assert(views(args@).subrange(0, i as int) =~= views(args@).take(i as int));
                assert(views(args@).subrange(i + 1, args@.len() as int) =~= views(args@).skip(i + 1));
            }
            (before, after)
        },
        None => {
            let all = copy_range(args, 0, args.len());
            proof {
                assert(views(args@).subrange(0, args@.len() as int) =~= views(args@));
            }
            (all, Vec::new())
        },
    }
}

/// `name (Nms)` reads back as `name` and `N`, whatever the name holds.
pub proof fn lemma_timing_reads_back(name: Seq<char>, ms: nat)
    requires
        ms <= u128::MAX,
    ensures
        timing_of(name + " ("@ + decimal(ms) + "ms)"@) == Some((name, ms)),
{
    reveal_strlit(" (");
    reveal_strlit("ms)");
    let dec = decimal(ms);
    lemma_decimal_reads_back(ms);
    let rest = name + " ("@ + dec + "ms)"@;
    let n = name.len() as int;
    assert(rest.subrange(n, n + 2) =~= " ("@);
    assert(occurs_at(rest, " ("@, n));
    assert forall|k: int| n < k implies !#[trigger] occurs_at(rest, " ("@, k) by {
        if occurs_at(rest, " ("@, k) {
            assert(rest.subrange(k, k + 2)[0] == ' ');
            assert(rest[k] == ' ');
            if k == n + 1 {
                assert(rest[k] == '(');
            } else if k < n + 2 + dec.len() {
                assert(rest[k] == dec[k - n - 2]);
                assert(is_digit(dec[k - n - 2]));
            } else {
                assert(rest[k] == "ms)"@[k - n - 2 - dec.len()]);
            }
        }
    }
    crate::report::scan::lemma_last_at(rest, " ("@, n);
    let t = rest.skip(n + " ("@.len());
    assert(t =~= dec + "ms)"@);
    let e = dec.len() as int;
    assert(t.subrange(e, e + 3) =~= "ms)"@);
    assert(occurs_at(t, "ms)"@, e));
    assert forall|k: int| 0 <= k < e implies !#[trigger] occurs_at(t, "ms)"@, k) by {
        if occurs_at(t, "ms)"@, k) {
            assert(t.subrange(k, k + 3)[0] == 'm');
            assert(t[k] == dec[k]);
            assert(is_digit(dec[k]));
        }
    }
    crate::report::scan::lemma_first_at(t, "ms)"@, e);
    assert(t.take(e) =~= dec);
    assert(is_digit(dec[0]));
    assert(unsigned_body(dec) == dec);
    assert(rest.take(n) =~= name);
}

/// What the suite prints for a case reads back: the line `✓ {name} ({ms}ms)`
/// or `✗ {name} ({ms}ms)` parses to the same name, status and duration.
pub proof fn law_case_line_reads_back(name: Seq<char>, passed: bool, ms: u128)
    ensures
        case_line(result_text(name, passed, ms as nat)) == Some(
            (
                name,
                if passed {
                    CaseStatus::Pass
                } else {
                    CaseStatus::Fail
                },
                ms as nat,
            ),
        ),
{
    reveal_strlit("✓ ");
    reveal_strlit("✗ ");
    reveal_strlit(" (");
    reveal_strlit("ms)");
    let head = if passed {
        "✓ "@
    } else {
        "✗ "@
    };
    let tail = name + " ("@ + decimal(ms as nat) + "ms)"@;
    let line = result_text(name, passed, ms as nat);
    assert(line =~= head + tail);
    assert(line[0] == head[0]);
    assert(line.last() == ')');
    lemma_trim_noop(line);
    assert(line.skip(2) =~= tail);
    lemma_timing_reads_back(name, ms as nat);
    if passed {
        assert(line.subrange(0, 2) =~= "✓ "@);
    } else {
        assert(line.subrange(0, 2) =~= "✗ "@);
        assert(line.subrange(0, 2) != "✓ "@) by {
            assert(line.subrange(0, 2)[0] != "✓ "@[0]);
        }
    }
}

/// Splitting loses nothing: with a `--`, the cargo arguments, the `--` and
/// the test arguments together are the original arguments.
pub proof fn law_split_rejoins(v: Seq<Seq<char>>)
    ensures
        v.index_of_first("--"@) matches Some(i) ==> v.take(i) + seq!["--"@] + v.skip(i + 1) == v,
{
    v.index_of_first_ensures("--"@);
    if let Some(i) = v.index_of_first("--"@) {
        assert(v.take(i) + seq!["--"@] + v.skip(i + 1) =~= v);
    }
}

} // verus!
