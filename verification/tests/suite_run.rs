use suitecase::suite::output::{abort_message, failure_note, result_line, skipped_line, started_line};
use suitecase::suite::pattern::{glob_match, is_regex_pattern, pattern_match};
use suitecase::suite::{
    fail, fail_now, select_cases, CaseOutcome, CaseSpec, RunConfig, RunOutcome, Runner, SelectError,
    Step,
};

/// One case of a test suite: its name, dependencies and body.
struct TestCase<S> {
    name: &'static str,
    deps: &'static [&'static str],
    body: fn(&mut S) -> CaseOutcome,
}

/// Optional lifecycle hooks.
struct Hooks<S> {
    setup: Option<fn(&mut S)>,
    teardown: Option<fn(&mut S)>,
    before: Option<fn(&mut S)>,
    after: Option<fn(&mut S)>,
}

impl<S> Hooks<S> {
    fn none() -> Self {
        Hooks { setup: None, teardown: None, before: None, after: None }
    }
}

fn case<S>(name: &'static str, body: fn(&mut S) -> CaseOutcome) -> TestCase<S> {
    TestCase { name, deps: &[], body }
}

fn case_after<S>(
    name: &'static str,
    deps: &'static [&'static str],
    body: fn(&mut S) -> CaseOutcome,
) -> TestCase<S> {
    TestCase { name, deps, body }
}

/// Runs the suite as the library plans it: selection, then each step.
fn drive<S>(
    suite: &mut S,
    cases: &[TestCase<S>],
    config: RunConfig,
    hooks: &Hooks<S>,
) -> Result<RunOutcome, SelectError> {
    let specs: Vec<CaseSpec> = cases
        .iter()
        .map(|c| CaseSpec::with_dependencies(c.name, c.deps.iter().map(|d| d.to_string()).collect()))
        .collect();
    let order = select_cases(&specs, &config)?;
    let mut runner = Runner::new(specs, order);
    loop {
        match runner.next_step() {
            Step::SetupSuite => {
                if let Some(h) = hooks.setup {
                    h(suite);
                }
            }
            Step::Skip(_) => {}
            Step::Run(i) => {
                if let Some(h) = hooks.before {
                    h(suite);
                }
                let outcome = (cases[i].body)(suite);
                if let Some(h) = hooks.after {
                    h(suite);
                }
                runner.record(outcome);
            }
            Step::TeardownSuite => {
                if let Some(h) = hooks.teardown {
                    h(suite);
                }
            }
            Step::Finish(o) => return Ok(o),
        }
    }
}

#[derive(Default)]
struct Recorder {
    log: Vec<&'static str>,
}

impl Recorder {
    fn push(&mut self, e: &'static str) -> CaseOutcome {
        self.log.push(e);
        CaseOutcome::Passed
    }
}

fn rec_setup(s: &mut Recorder) {
    s.push("setup_suite");
}
fn rec_teardown(s: &mut Recorder) {
    s.push("teardown_suite");
}
fn rec_before(s: &mut Recorder) {
    s.push("before_each");
}
fn rec_after(s: &mut Recorder) {
    s.push("after_each");
}

fn all_hooks() -> Hooks<Recorder> {
    Hooks {
        setup: Some(rec_setup),
        teardown: Some(rec_teardown),
        before: Some(rec_before),
        after: Some(rec_after),
    }
}

fn suite_hooks() -> Hooks<Recorder> {
    Hooks { setup: Some(rec_setup), teardown: Some(rec_teardown), before: None, after: None }
}

fn failed(msg: &str) -> CaseOutcome {
    fail(msg.to_string()).into_outcome()
}

fn failed_now(msg: &str) -> CaseOutcome {
    fail_now(msg.to_string()).into_outcome()
}

#[test]
fn suite_test_default_hooks_run_cases_only() {
    #[derive(Default)]
    struct DefaultsOnly {
        n: i32,
    }
    let mut suite = DefaultsOnly::default();
    let cases = [case("test_one", |s: &mut DefaultsOnly| {
        s.n = 7;
        CaseOutcome::Passed
    })];
    let r = drive(&mut suite, &cases, RunConfig::all(), &Hooks::none());
    assert!(matches!(r, Ok(RunOutcome::Passed)));
    assert_eq!(suite.n, 7);
}

#[test]
fn suite_test_hook_order_all_cases() {
    let mut suite = Recorder::default();
    let cases = [case("test_a", |s: &mut Recorder| s.push("a")), case("test_b", |s: &mut Recorder| s.push("b"))];
    drive(&mut suite, &cases, RunConfig::all(), &all_hooks()).unwrap();
    assert_eq!(
        suite.log,
        vec![
            "setup_suite",
            "before_each",
            "a",
            "after_each",
            "before_each",
            "b",
            "after_each",
            "teardown_suite",
        ]
    );
}

#[test]
fn suite_test_singular_filtered_case_runs_setup_and_teardown() {
    let mut suite = Recorder::default();
    let cases = [case("test_a", |s: &mut Recorder| s.push("a")), case("test_b", |s: &mut Recorder| s.push("b"))];
    drive(&mut suite, &cases, RunConfig::filter("test_b"), &all_hooks()).unwrap();
    assert_eq!(
        suite.log,
        vec!["setup_suite", "before_each", "b", "after_each", "teardown_suite"]
    );
}

fn case_fn_a(s: &mut Recorder) -> CaseOutcome {
    s.push("a")
}

fn case_fn_b(s: &mut Recorder) -> CaseOutcome {
    s.push("b")
}

#[test]
fn cases_inline_free_functions() {
    let mut suite = Recorder::default();
    let cases = [case("suite_cf_a", case_fn_a), case("suite_cf_b", case_fn_b)];
    drive(&mut suite, &cases, RunConfig::all(), &all_hooks()).unwrap();
    assert_eq!(
        suite.log,
        vec![
            "setup_suite",
            "before_each",
            "a",
            "after_each",
            "before_each",
            "b",
            "after_each",
            "teardown_suite",
        ]
    );
}

#[test]
fn suite_test_no_cases_no_setup() {
    let mut suite = Recorder::default();
    let cases: [TestCase<Recorder>; 0] = [];
    let r = drive(&mut suite, &cases, RunConfig::all(), &all_hooks());
    assert!(matches!(r, Ok(RunOutcome::Passed)));
    assert!(suite.log.is_empty());
}

#[test]
fn invalid_filter_is_reported() {
    let mut suite = Recorder::default();
    let cases = [case("test_only", |s: &mut Recorder| s.push("only"))];
    let r = drive(&mut suite, &cases, RunConfig::filter("nope"), &all_hooks());
    assert!(matches!(r, Err(SelectError::NoMatch)));
    assert!(suite.log.is_empty());
}

#[test]
fn suite_test_after_each_runs_when_case_panics() {
    let mut suite = Recorder::default();
    let cases = [case("test_bad", |_s: &mut Recorder| CaseOutcome::Panicked)];
    let r = drive(&mut suite, &cases, RunConfig::all(), &all_hooks());
    assert!(matches!(r, Ok(RunOutcome::Panicked(0))));
    assert_eq!(suite.log, vec!["setup_suite", "before_each", "after_each", "teardown_suite"]);
}

#[test]
fn suite_test_partial_hooks_only_run_some() {
    let mut suite = Recorder::default();
    let cases = [case("test_a", |s: &mut Recorder| s.push("a"))];
    let hooks = Hooks { setup: Some(rec_setup), teardown: None, before: Some(rec_before), after: None };
    drive(&mut suite, &cases, RunConfig::all(), &hooks).unwrap();
    assert_eq!(suite.log, vec!["setup_suite", "before_each", "a"]);
}

#[test]
fn fail_marks_case_failed_and_continues() {
    let mut suite = Recorder::default();
    let cases = [
        case("first", |s: &mut Recorder| s.push("first")),
        case("second", |_s: &mut Recorder| failed("expected failure")),
        case("third", |s: &mut Recorder| s.push("third")),
    ];
    let r = drive(&mut suite, &cases, RunConfig::all(), &suite_hooks());
    assert!(matches!(r, Ok(RunOutcome::Passed)));
    assert_eq!(suite.log, vec!["setup_suite", "first", "third", "teardown_suite"]);
}

#[test]
fn fail_now_aborts_remaining_cases() {
    let mut suite = Recorder::default();
    let cases = [
        case("first", |s: &mut Recorder| s.push("first")),
        case("second", |_s: &mut Recorder| failed_now("abort here")),
        case("third", |s: &mut Recorder| s.push("third")),
    ];
    let r = drive(&mut suite, &cases, RunConfig::all(), &suite_hooks());
    match r {
        Ok(RunOutcome::Aborted(m)) => assert_eq!(m, "abort here"),
        other => panic!("unexpected outcome {:?}", other),
    }
    assert_eq!(suite.log, vec!["setup_suite", "first", "teardown_suite"]);
}

#[test]
fn fail_now_runs_teardown() {
    let mut suite = Recorder::default();
    let cases = [case("only", |_s: &mut Recorder| failed_now("abort"))];
    let r = drive(&mut suite, &cases, RunConfig::all(), &suite_hooks());
    assert!(matches!(r, Ok(RunOutcome::Aborted(_))));
    assert_eq!(suite.log, vec!["setup_suite", "teardown_suite"]);
}

#[test]
fn multiple_fail_only_first_records() {
    let mut suite = Recorder::default();
    let cases = [
        case("a", |_s: &mut Recorder| failed("first fail")),
        case("b", |_s: &mut Recorder| failed("second fail")),
        case("c", |s: &mut Recorder| s.push("c")),
    ];
    let r = drive(&mut suite, &cases, RunConfig::all(), &suite_hooks());
    assert!(matches!(r, Ok(RunOutcome::Passed)));
    assert_eq!(suite.log, vec!["setup_suite", "c", "teardown_suite"]);
}

#[test]
fn regular_panic_still_re_raises() {
    let mut suite = Recorder::default();
    let cases = [
        case("first", |s: &mut Recorder| s.push("first")),
        case("second", |_s: &mut Recorder| CaseOutcome::Panicked),
        case("third", |s: &mut Recorder| s.push("third")),
    ];
    let r = drive(&mut suite, &cases, RunConfig::all(), &suite_hooks());
    assert!(matches!(r, Ok(RunOutcome::Panicked(1))));
    assert_eq!(suite.log, vec!["setup_suite", "first", "third", "teardown_suite"]);
}

#[test]
fn single_filter_runs_only_that_case() {
    let mut suite = Recorder::default();
    let cases = [
        case("first", |s: &mut Recorder| s.push("first")),
        case("second", |s: &mut Recorder| s.push("second")),
        case("third", |s: &mut Recorder| s.push("third")),
    ];
    drive(&mut suite, &cases, RunConfig::filter("second"), &all_hooks()).unwrap();
    assert_eq!(
        suite.log,
        vec!["setup_suite", "before_each", "second", "after_each", "teardown_suite"]
    );
}

#[test]
fn multiple_filters_run_matching_cases() {
    let mut suite = Recorder::default();
    let cases = [
        case("alpha", |s: &mut Recorder| s.push("alpha")),
        case("beta", |s: &mut Recorder| s.push("beta")),
        case("gamma", |s: &mut Recorder| s.push("gamma")),
    ];
    let config = RunConfig::filters(vec!["alpha".to_string(), "gamma".to_string()]);
    drive(&mut suite, &cases, config, &all_hooks()).unwrap();
    assert_eq!(
        suite.log,
        vec![
            "setup_suite",
            "before_each",
            "alpha",
            "after_each",
            "before_each",
            "gamma",
            "after_each",
            "teardown_suite",
        ]
    );
}

#[test]
fn glob_pattern_matches_cases() {
    let mut suite = Recorder::default();
    let cases = [
        case("test_a", |s: &mut Recorder| s.push("test_a")),
        case("test_b", |s: &mut Recorder| s.push("test_b")),
        case("other", |s: &mut Recorder| s.push("other")),
    ];
    drive(&mut suite, &cases, RunConfig::pattern("test_*"), &all_hooks()).unwrap();
    assert_eq!(
        suite.log,
        vec![
            "setup_suite",
            "before_each",
            "test_a",
            "after_each",
            "before_each",
            "test_b",
            "after_each",
            "teardown_suite",
        ]
    );
}

#[test]
fn glob_pattern_prefix_match() {
    let mut suite = Recorder::default();
    let cases = [
        case("setup_db", |s: &mut Recorder| s.push("setup_db")),
        case("setup_cache", |s: &mut Recorder| s.push("setup_cache")),
        case("teardown", |s: &mut Recorder| s.push("teardown")),
    ];
    drive(&mut suite, &cases, RunConfig::pattern("setup_*"), &all_hooks()).unwrap();
    assert_eq!(
        suite.log,
        vec![
            "setup_suite",
            "before_each",
            "setup_db",
            "after_each",
            "before_each",
            "setup_cache",
            "after_each",
            "teardown_suite",
        ]
    );
}

#[test]
fn depends_on_runs_deps_before_target() {
    let mut suite = Recorder::default();
    let cases = [
        case("setup", |s: &mut Recorder| s.push("setup")),
        case_after("action", &["setup"], |s: &mut Recorder| s.push("action")),
        case_after("verify", &["action"], |s: &mut Recorder| s.push("verify")),
    ];
    drive(&mut suite, &cases, RunConfig::filter("verify"), &all_hooks()).unwrap();
    assert_eq!(
        suite.log,
        vec![
            "setup_suite",
            "before_each",
            "setup",
            "after_each",
            "before_each",
            "action",
            "after_each",
            "before_each",
            "verify",
            "after_each",
            "teardown_suite",
        ]
    );
}

#[test]
fn depends_on_multiple_deps() {
    let mut suite = Recorder::default();
    let cases = [
        case("a", |s: &mut Recorder| s.push("a")),
        case("b", |s: &mut Recorder| s.push("b")),
        case_after("c", &["a", "b"], |s: &mut Recorder| s.push("c")),
    ];
    drive(&mut suite, &cases, RunConfig::filter("c"), &all_hooks()).unwrap();
    assert_eq!(
        suite.log,
        vec![
            "setup_suite",
            "before_each",
            "a",
            "after_each",
            "before_each",
            "b",
            "after_each",
            "before_each",
            "c",
            "after_each",
            "teardown_suite",
        ]
    );
}

#[test]
fn missing_dep_is_reported() {
    let mut suite = Recorder::default();
    let cases = [case_after("only", &["nonexistent"], |s: &mut Recorder| s.push("only"))];
    match drive(&mut suite, &cases, RunConfig::filter("only"), &all_hooks()) {
        Err(SelectError::MissingDependency { case, dependency }) => {
            assert_eq!(case, 0);
            assert_eq!(dependency, "nonexistent");
        }
        other => panic!("unexpected {:?}", other),
    }
    assert!(suite.log.is_empty());
}

#[test]
fn circular_dep_is_reported() {
    let mut suite = Recorder::default();
    let cases = [
        case_after("a", &["b"], |s: &mut Recorder| s.push("a")),
        case_after("b", &["a"], |s: &mut Recorder| s.push("b")),
    ];
    match drive(&mut suite, &cases, RunConfig::filter("a"), &all_hooks()) {
        Err(SelectError::Cycle { cases }) => {
            assert_eq!(cases, vec![0, 1, 0]);
        }
        other => panic!("unexpected {:?}", other),
    }
    assert!(suite.log.is_empty());
}

#[test]
fn fail_in_dep_skips_dependents() {
    let mut suite = Recorder::default();
    let cases = [
        case("setup", |_s: &mut Recorder| failed("setup failed")),
        case_after("action", &["setup"], |s: &mut Recorder| s.push("action")),
        case_after("verify", &["action"], |s: &mut Recorder| s.push("verify")),
    ];
    drive(&mut suite, &cases, RunConfig::all(), &all_hooks()).unwrap();
    assert_eq!(suite.log, vec!["setup_suite", "before_each", "after_each", "teardown_suite"]);
}

#[test]
fn fail_now_in_dep_aborts_and_skips_dependents() {
    let mut suite = Recorder::default();
    let cases = [
        case("setup", |_s: &mut Recorder| failed_now("setup abort")),
        case_after("action", &["setup"], |s: &mut Recorder| s.push("action")),
    ];
    let r = drive(&mut suite, &cases, RunConfig::all(), &all_hooks());
    assert!(matches!(r, Ok(RunOutcome::Aborted(_))));
    assert_eq!(suite.log, vec!["setup_suite", "before_each", "after_each", "teardown_suite"]);
}

#[test]
fn depends_on_preserves_topological_order() {
    let mut suite = Recorder::default();
    let cases = [
        case("z", |s: &mut Recorder| s.push("z")),
        case("a", |s: &mut Recorder| s.push("a")),
        case_after("b", &["a"], |s: &mut Recorder| s.push("b")),
    ];
    let config = RunConfig::filters(vec!["z".to_string(), "b".to_string()]);
    drive(&mut suite, &cases, config, &all_hooks()).unwrap();
    assert_eq!(
        suite.log,
        vec![
            "setup_suite",
            "before_each",
            "z",
            "after_each",
            "before_each",
            "a",
            "after_each",
            "before_each",
            "b",
            "after_each",
            "teardown_suite",
        ]
    );
}

#[test]
fn sequential_run_matches_shared_increment() {
    #[derive(Default)]
    struct SharedState {
        counter: i32,
    }
    let mut suite = SharedState::default();
    let cases = [
        case("init_state", |s: &mut SharedState| {
            assert_eq!(s.counter, 0, "fresh shared suite");
            s.counter = 42;
            CaseOutcome::Passed
        }),
        case("mutate_after_init", |s: &mut SharedState| {
            assert_eq!(s.counter, 42, "same suite as init_state");
            s.counter += 1;
            CaseOutcome::Passed
        }),
    ];
    drive(&mut suite, &cases, RunConfig::all(), &Hooks::none()).unwrap();
    assert_eq!(suite.counter, 43);
}

#[test]
fn skipped_cases_block_their_own_dependents() {
    let mut suite = Recorder::default();
    let cases = [
        case("a", |_s: &mut Recorder| CaseOutcome::Panicked),
        case_after("b", &["a"], |s: &mut Recorder| s.push("b")),
        case_after("c", &["b"], |s: &mut Recorder| s.push("c")),
        case("d", |s: &mut Recorder| s.push("d")),
    ];
    let r = drive(&mut suite, &cases, RunConfig::all(), &Hooks::none());
    assert!(matches!(r, Ok(RunOutcome::Panicked(0))));
    assert_eq!(suite.log, vec!["d"]);
}

#[test]
fn selection_orders_unfiltered_cases_by_position() {
    let specs = vec![
        CaseSpec::with_dependencies("late", vec!["early".to_string()]),
        CaseSpec::new("early"),
    ];
    let order = select_cases(&specs, &RunConfig::all()).unwrap();
    assert_eq!(order, vec![0, 1]);
}

#[test]
fn glob_matching_rules() {
    assert!(glob_match("test_*", "test_a"));
    assert!(glob_match("*_db", "setup_db"));
    assert!(glob_match("a*b*c", "aXXbYYc"));
    assert!(!glob_match("a*b*c", "aXXcYYb"));
    assert!(glob_match("exact", "exact"));
    assert!(!glob_match("exact", "exactly"));
    assert!(glob_match("*", ""));
    assert!(!glob_match("ab*ba", "aba"));
}

#[test]
fn pattern_uses_regex_when_it_has_regex_characters() {
    assert!(is_regex_pattern("^setup_"));
    assert!(!is_regex_pattern("setup_*"));
    assert!(pattern_match("^setup_(db|cache)$", "setup_db"));
    assert!(!pattern_match("^setup_(db|cache)$", "setup_queue"));
    assert!(!pattern_match("(", "("));
    assert!(pattern_match("setup_*", "setup_queue"));
}

#[test]
fn output_lines_have_the_documented_shape() {
    assert_eq!(started_line("case_a"), "▶ case_a");
    assert_eq!(result_line("case_a", true, 12), "✓ case_a (12ms)");
    assert_eq!(result_line("case_b", false, 0), "✗ case_b (0ms)");
    assert_eq!(skipped_line("case_c"), "⊘ case_c (skipped, dependency failed)");
    assert_eq!(abort_message("stop"), "suitecase: stop");
    assert_eq!(
        failure_note("case_a", &failed("oops")),
        Some("suitecase::fail: case_a: oops".to_string())
    );
    assert_eq!(
        failure_note("case_a", &failed_now("halt")),
        Some("suitecase::fail_now: case_a: halt".to_string())
    );
    assert_eq!(failure_note("case_a", &CaseOutcome::Passed), None);
}

#[test]
fn case_flag_selects_by_pattern() {
    let args: Vec<String> = ["bin", "--case", "setup_*", "--case", "x"].iter().map(|s| s.to_string()).collect();
    let c = RunConfig::from_args(&args);
    assert_eq!(c.pattern, Some("setup_*".to_string()));
    assert!(c.filter.is_none());
    let trailing: Vec<String> = ["bin", "--case"].iter().map(|s| s.to_string()).collect();
    let c = RunConfig::from_args(&trailing);
    assert!(c.pattern.is_none());
    assert!(!c.is_filtered());
}

#[test]
fn fail_reasons_display_and_abort() {
    let f = fail("soft".to_string());
    assert_eq!(f.to_display_string(), "Fail: soft");
    assert!(!f.aborts());
    assert_eq!(f.message(), "soft");
    let n = fail_now("hard".to_string());
    assert_eq!(n.to_display_string(), "Fail: hard");
    assert!(n.aborts());
    assert!(matches!(n.into_outcome(), CaseOutcome::FailedNow(m) if m == "hard"));
}

#[test]
fn runner_steps_for_a_small_run() {
    let specs = vec![CaseSpec::new("a"), CaseSpec::with_dependencies("b", vec!["a".to_string()])];
    let order = select_cases(&specs, &RunConfig::all()).unwrap();
    let mut r = Runner::new(specs, order);
    assert!(matches!(r.next_step(), Step::SetupSuite));
    assert!(matches!(r.next_step(), Step::Run(0)));
    r.record(failed_now("stop"));
    assert!(matches!(r.next_step(), Step::TeardownSuite));
    match r.next_step() {
        Step::Finish(RunOutcome::Aborted(m)) => assert_eq!(m, "stop"),
        other => panic!("unexpected {:?}", other),
    }
}

#[test]
fn duplicate_name_runs_first_directly_requested_case() {
    let specs = vec![CaseSpec::new("a"), CaseSpec::new("a")];
    let order = select_cases(&specs, &RunConfig::filter("a")).unwrap();
    assert_eq!(order, vec![0]);
}

#[test]
fn duplicate_name_reached_as_dependency_runs_last_case() {
    let specs = vec![
        CaseSpec::with_dependencies("b", vec!["a".to_string()]),
        CaseSpec::new("a"),
        CaseSpec::new("a"),
    ];
    let config = RunConfig::filters(vec!["b".to_string(), "a".to_string()]);
    let order = select_cases(&specs, &config).unwrap();
    assert_eq!(order, vec![2, 0]);
}

#[test]
fn duplicate_name_uses_dependencies_of_the_case_that_runs() {
    let specs = vec![
        CaseSpec::new("a"),
        CaseSpec::with_dependencies("b", vec!["a".to_string()]),
        CaseSpec::with_dependencies("a", vec!["c".to_string()]),
        CaseSpec::new("c"),
    ];
    let config = RunConfig::filters(vec!["a".to_string(), "b".to_string()]);
    let order = select_cases(&specs, &config).unwrap();
    assert_eq!(order, vec![0, 1]);
}

#[test]
fn walk_reports_cycle_met_before_missing_dependency() {
    let specs = vec![
        CaseSpec::with_dependencies("a", vec!["b".to_string()]),
        CaseSpec::with_dependencies("b", vec!["a".to_string()]),
        CaseSpec::with_dependencies("c", vec!["zzz".to_string()]),
    ];
    let config = RunConfig::filters(vec!["a".to_string(), "c".to_string()]);
    match select_cases(&specs, &config) {
        Err(SelectError::Cycle { cases }) => assert_eq!(cases, vec![0, 1, 0]),
        other => panic!("unexpected {:?}", other),
    }
}

#[test]
fn walk_reports_first_missing_dependency_in_depth_first_order() {
    let specs = vec![
        CaseSpec::with_dependencies("x", vec!["y".to_string(), "q".to_string()]),
        CaseSpec::with_dependencies("y", vec!["nope".to_string()]),
    ];
    match select_cases(&specs, &RunConfig::filter("x")) {
        Err(SelectError::MissingDependency { case, dependency }) => {
            assert_eq!(case, 1);
            assert_eq!(dependency, "nope");
        }
        other => panic!("unexpected {:?}", other),
    }
}
