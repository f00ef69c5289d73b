use suitecase::report::cargo::{
    exit_code_from_status, inject_message_format_before_libtest_split, injection_point,
    should_inject_ci_defaults, subcommand, Subcommand,
};
use suitecase::report::panics::{find_panic_for_suite, parse_panic_header, parse_panics};
use suitecase::report::reader::{classify, LineKind, OutputReader};
use suitecase::report::render::{render_result, render_summary, CaseResult};
use suitecase::report::{
    is_cargo_summary_line, parse_cargo_test_line, parse_case_line, parse_timing,
    split_at_double_dash, CaseStatus,
};
use suitecase::suite::output::result_line;
use suitecase::text::chars_of;

fn strings(v: &[&str]) -> Vec<String> {
    v.iter().map(|s| s.to_string()).collect()
}

#[test]
fn inject_inserts_before_double_dash() {
    let mut args = strings(&["-p", "suitecase", "--", "--nocapture"]);
    inject_message_format_before_libtest_split(&mut args);
    assert_eq!(
        args,
        strings(&[
            "-p",
            "suitecase",
            "--message-format",
            "json-diagnostic-rendered-ansi",
            "--",
            "--nocapture",
        ])
    );
}

#[test]
fn inject_skips_when_message_format_present() {
    let mut args = strings(&["--message-format", "short"]);
    inject_message_format_before_libtest_split(&mut args);
    assert_eq!(args, strings(&["--message-format", "short"]));
}

#[test]
fn inject_appends_without_double_dash_and_respects_quiet() {
    let mut args = strings(&["--lib"]);
    inject_message_format_before_libtest_split(&mut args);
    assert_eq!(args, strings(&["--lib", "--message-format", "json-diagnostic-rendered-ansi"]));
    let once = args.clone();
    inject_message_format_before_libtest_split(&mut args);
    assert_eq!(args, once);
    let mut quiet = strings(&["-q"]);
    inject_message_format_before_libtest_split(&mut quiet);
    assert_eq!(quiet, strings(&["-q"]));
    let mut quiet_eq = strings(&["-q=1"]);
    inject_message_format_before_libtest_split(&mut quiet_eq);
    assert_eq!(quiet_eq, strings(&["-q=1"]));
}

#[test]
fn ci_defaults_need_github_actions_true() {
    assert!(should_inject_ci_defaults(false, Some("true")));
    assert!(!should_inject_ci_defaults(true, Some("true")));
    assert!(!should_inject_ci_defaults(false, Some("1")));
    assert!(!should_inject_ci_defaults(false, None));
}

#[test]
fn exit_codes_pass_through_when_they_fit() {
    assert_eq!(exit_code_from_status(None), 1);
    assert_eq!(exit_code_from_status(Some(0)), 0);
    assert_eq!(exit_code_from_status(Some(101)), 101);
    assert_eq!(exit_code_from_status(Some(256)), 1);
    assert_eq!(exit_code_from_status(Some(-1)), 1);
}

#[test]
fn subcommands_are_recognised() {
    assert!(matches!(subcommand(vec![]), Subcommand::Usage));
    assert!(matches!(subcommand(strings(&["-h"])), Subcommand::Usage));
    assert!(matches!(subcommand(strings(&["--help", "x"])), Subcommand::Usage));
    assert!(matches!(subcommand(strings(&["build"])), Subcommand::Unknown));
    match subcommand(strings(&["test", "--lib", "--", "x"])) {
        Subcommand::Test(rest) => assert_eq!(rest, strings(&["--lib", "--", "x"])),
        other => panic!("unexpected {:?}", other),
    }
}

#[test]
fn split_at_first_double_dash() {
    let args = strings(&["--lib", "--", "name", "--", "x"]);
    let (cargo, test) = split_at_double_dash(&args);
    assert_eq!(cargo, strings(&["--lib"]));
    assert_eq!(test, strings(&["name", "--", "x"]));
    let mut rejoined = cargo.clone();
    rejoined.push("--".to_string());
    rejoined.extend(test);
    assert_eq!(rejoined, args);
    let (cargo, test) = split_at_double_dash(&strings(&["--lib"]));
    assert_eq!(cargo, strings(&["--lib"]));
    assert!(test.is_empty());
}

#[test]
fn case_lines_parse() {
    let p = parse_case_line("  ✓ fetch_user (12ms)  ").unwrap();
    assert_eq!(p.name, "fetch_user");
    assert_eq!(p.status, CaseStatus::Pass);
    assert_eq!(p.ms, 12);
    let f = parse_case_line("✗ store (0ms)").unwrap();
    assert_eq!(f.status, CaseStatus::Fail);
    assert_eq!(f.ms, 0);
    assert!(parse_case_line("✓ no timing").is_none());
    assert!(parse_case_line("▶ started").is_none());
    assert!(parse_case_line("✓ bad (xms)").is_none());
}

#[test]
fn case_line_name_ends_at_last_paren() {
    let p = parse_case_line("✓ odd (name) here (7ms)").unwrap();
    assert_eq!(p.name, "odd (name) here");
    assert_eq!(p.ms, 7);
}

#[test]
fn printed_case_lines_read_back() {
    for (name, passed, ms) in [("a", true, 0u128), ("weird (1ms) name", false, 42), ("x y", true, 999)] {
        let line = result_line(name, passed, ms);
        let p = parse_case_line(&line).unwrap();
        assert_eq!(p.name, name);
        assert_eq!(p.status == CaseStatus::Pass, passed);
        assert_eq!(p.ms, ms);
    }
}

#[test]
fn timing_accepts_plus_and_rejects_overflow() {
    let t = parse_timing(&chars_of("n (+5ms)")).unwrap();
    assert_eq!(t, ("n".to_string(), 5));
    assert!(parse_timing(&chars_of("n (ms)")).is_none());
    assert!(parse_timing(&chars_of("n (340282366920938463463374607431768211456ms)")).is_none());
    assert_eq!(
        parse_timing(&chars_of("n (340282366920938463463374607431768211455ms)")).unwrap().1,
        u128::MAX
    );
}

#[test]
fn libtest_lines_parse() {
    let p = parse_cargo_test_line("test tests::it_works ... ok").unwrap();
    assert_eq!(p.name, "tests::it_works");
    assert_eq!(p.status, CaseStatus::Pass);
    let f = parse_cargo_test_line("  test a::b ... FAILED").unwrap();
    assert_eq!(f.status, CaseStatus::Fail);
    assert!(parse_cargo_test_line("test a ... ignored").is_none());
    assert!(parse_cargo_test_line("test result: ok. 1 passed").is_none());
}

#[test]
fn summary_lines_are_recognised() {
    assert!(is_cargo_summary_line("running 3 tests"));
    assert!(is_cargo_summary_line("test result: ok. 3 passed"));
    assert!(is_cargo_summary_line("failures:"));
    assert!(is_cargo_summary_line("src/lib.rs - foo (line 3) - should panic"));
    assert!(is_cargo_summary_line("src/lib.rs - foo (line 3)"));
    assert!(is_cargo_summary_line("all doctests ran in 0.5s; merged doctests compilation took 0.2s"));
    assert!(!is_cargo_summary_line("hello from a test"));
}

#[test]
fn panic_headers_parse() {
    let (t, f, l) = parse_panic_header("thread 'suite_a' panicked at src/lib.rs:12:5:");
    assert_eq!(t, "suite_a");
    assert_eq!(f, Some("src/lib.rs".to_string()));
    assert_eq!(l, Some(12));
    let (t, f, l) = parse_panic_header("thread 'x' panicked at src/main.rs:7:");
    assert_eq!(t, "x");
    assert_eq!(f, Some("src/main.rs".to_string()));
    assert_eq!(l, None);
    let (t, f, l) = parse_panic_header("thread main panicked");
    assert_eq!(t, "");
    assert_eq!(f, None);
    assert_eq!(l, None);
    let (_, f, l) = parse_panic_header("thread 'y' panicked at lib.rs:x:");
    assert_eq!(f, Some("lib.rs".to_string()));
    assert_eq!(l, None);
}

#[test]
fn panic_reports_collect_messages() {
    let lines = strings(&[
        "noise",
        "thread 'suite_a' panicked at src/lib.rs:12:5:",
        "  assertion failed  ",
        "left: 1",
        "note: run with `RUST_BACKTRACE=1`",
        "thread 'other' panicked at src/x.rs:1:1:",
        "boom",
    ]);
    let ps = parse_panics(&lines);
    assert_eq!(ps.len(), 2);
    assert_eq!(ps[0].thread_name, "suite_a");
    assert_eq!(ps[0].message, "assertion failed\nleft: 1");
    assert_eq!(ps[1].thread_name, "other");
    assert_eq!(ps[1].message, "boom");
    assert_eq!(find_panic_for_suite("other", &ps), Some(1));
    assert_eq!(find_panic_for_suite("missing", &ps), None);
}

#[test]
fn lines_are_classified() {
    assert!(matches!(classify("◆ STORE test_name"), LineKind::SuiteStart(s, t) if s == "STORE" && t == "test_name"));
    assert!(matches!(classify("◆ lonely"), LineKind::BadSuiteStart));
    assert!(matches!(classify("✓ a (1ms)"), LineKind::Case(_)));
    assert!(matches!(classify("test x ... ok"), LineKind::Libtest(_)));
    assert!(matches!(classify("▶ a"), LineKind::Quiet));
    assert!(matches!(classify("   "), LineKind::Quiet));
    assert!(matches!(classify("running 2 tests"), LineKind::Quiet));
    assert!(matches!(classify("  hello  "), LineKind::User(u) if u == "hello"));
}

#[test]
fn reader_groups_results_by_suite() {
    let mut r = OutputReader::new();
    let mut out = Vec::new();
    for line in ["◆ STORE suite_test", "▶ a", "✓ a (3ms)", "✗ b (4ms)", "test suite_test ... FAILED", "test other ... ok"] {
        out.extend(r.feed(line, true));
    }
    out.extend(r.close(true));
    assert_eq!(
        out,
        strings(&[
            "",
            "::group::STORE::suite_test",
            "  PASS STORE::a (3ms)",
            "  FAIL STORE::b (4ms)",
            "  FAIL suite_test (0ms)",
            "  PASS other (0ms)",
            "::endgroup::",
        ])
    );
    assert_eq!(r.total(), 4);
    let stderr = strings(&["thread 'suite_test' panicked at src/x.rs:9:1:", "bad\nthing"]);
    let summary = r.summary(&stderr, true);
    assert_eq!(
        summary,
        strings(&["::error file=src/x.rs,line=9,title=STORE::b::STORE::b failed: bad thing"])
    );
    let tui = r.summary(&stderr, false);
    assert_eq!(tui[0], "\n\x1b[31m\x1b[1mFAILED\x1b[0m  2 passed, 1 failed  (total: 7ms)");
    assert_eq!(tui[2], "\x1b[31m\x1b[1m─── FAILURES ───\x1b[0m");
    assert_eq!(tui[4], "\x1b[31m\x1b[1m✗ STORE::b\x1b[0m");
    assert_eq!(tui[6], "\x1b[2m  at src/x.rs:9\x1b[0m");
    assert_eq!(tui[7], "\x1b[31m  bad\nthing\x1b[0m");
    assert_eq!(tui.last().unwrap(), "\x1b[31m\x1b[1m─── END FAILURES ───\x1b[0m");
}

#[test]
fn terminal_rows_and_summary() {
    assert_eq!(render_result("a", CaseStatus::Pass, 5, false), "  \x1b[32m✓\x1b[0m a (5ms)");
    assert_eq!(render_result("a", CaseStatus::Fail, 5, true), "  FAIL a (5ms)");
    let cases = vec![CaseResult {
        name: "a".to_string(),
        status: CaseStatus::Pass,
        ms: 5,
        suite_test_name: None,
    }];
    assert_eq!(render_summary(&cases), "\n\x1b[32m\x1b[1mPASSED\x1b[0m  1 passed, 0 failed  (total: 5ms)");
}

#[test]
fn suite_header_reads_back() {
    let line = suitecase::suite::output::suite_header_line("MY_SUITE", "my_test");
    assert_eq!(line, "◆ MY_SUITE my_test");
    assert!(matches!(classify(&line), LineKind::SuiteStart(s, t) if s == "MY_SUITE" && t == "my_test"));
}

#[test]
fn injection_point_is_the_first_double_dash_or_the_end() {
    let s = |v: &[&str]| v.iter().map(|a| a.to_string()).collect::<Vec<String>>();
    assert_eq!(injection_point(&s(&["--release", "--", "x"])), Some(1));
    assert_eq!(injection_point(&s(&["--release"])), Some(1));
    assert_eq!(injection_point(&s(&[])), Some(0));
    assert_eq!(injection_point(&s(&["-q", "--"])), None);
    assert_eq!(injection_point(&s(&["--message-format=short"])), None);
}
