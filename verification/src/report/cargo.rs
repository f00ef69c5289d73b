//! The decisions of the `cargo suitecase` subcommand: which command was
//! asked for, whether CI defaults apply, how the arguments to `cargo test`
//! are completed, and which exit code is passed on.
use vstd::prelude::*;

use super::{copy_range, position_of, views};
use crate::text::{starts_with, str_eq, str_starts_with};

verus! {

/// What the arguments after `cargo suitecase` ask for.
#[derive(Debug)]
pub enum Subcommand {
    /// No arguments, `-h` or `--help`: print the usage text.
    Usage,
    /// `test` and the arguments that follow it.
    Test(Vec<String>),
    /// Anything else.
    Unknown,
}

/// Reads the subcommand from the arguments after `cargo suitecase`.
pub fn subcommand(argv: Vec<String>) -> (r: Subcommand)
    ensures
        argv@.len() == 0 ==> r is Usage,
        argv@.len() > 0 && (argv@[0]@ == "-h"@ || argv@[0]@ == "--help"@) ==> r is Usage,
        argv@.len() > 0 && argv@[0]@ == "test"@ ==> (r matches Subcommand::Test(rest) && views(rest@)
            == views(argv@).skip(1)),
        argv@.len() > 0 && argv@[0]@ != "-h"@ && argv@[0]@ != "--help"@ && argv@[0]@ != "test"@
            ==> r is Unknown,
{
    proof {
        reveal_strlit("-h");
        reveal_strlit("--help");
        reveal_strlit("test");
        assert("-h"@.len() != "test"@.len());
        assert("--help"@.len() != "test"@.len());
    }
    if argv.len() == 0 {
        return Subcommand::Usage;
    }
    let first = argv[0].as_str();
    if str_eq(first, "-h") || str_eq(first, "--help") {
        return Subcommand::Usage;
    }
    if !str_eq(first, "test") {
        return Subcommand::Unknown;
    }
    let rest = copy_range(argv.as_slice(), 1, argv.len());
    assert(views(argv@).subrange(1, argv@.len() as int) =~= views(argv@).skip(1));
    Subcommand::Test(rest)
}

/// CI defaults apply when `SUITECASE_NO_CI` is unset and `GITHUB_ACTIONS`
/// is `true`; `no_ci_set` and `github_actions` carry those two variables.
pub fn should_inject_ci_defaults(no_ci_set: bool, github_actions: Option<&str>) -> (r: bool)
    ensures
        r == (!no_ci_set && (github_actions matches Some(v) && v@ == "true"@)),
{
    if no_ci_set {
        return false;
    }
    match github_actions {
        Some(v) => str_eq(v, "true"),
        None => false,
    }
}

/// The argument already chooses cargo's message format or quiet output.
pub open spec fn sets_output(a: Seq<char>) -> bool {
    starts_with(a, "--message-format"@) || a == "-q"@ || starts_with(a, "-q="@)
}

/// Where the message-format arguments go: in front of the first `--`, or at
/// the end.
pub open spec fn insertion_point(v: Seq<Seq<char>>) -> int {
    match v.index_of_first("--"@) {
        Some(i) => i,
        None => v.len() as int,
    }
}

/// The arguments after injection: unchanged when one already chooses the
/// message format or quiet output, otherwise with
/// `--message-format json-diagnostic-rendered-ansi` added at the insertion
/// point.
pub open spec fn injected(v: Seq<Seq<char>>) -> Seq<Seq<char>> {
    if exists|i: int| 0 <= i < v.len() && #[trigger] sets_output(v[i]) {
        v
    } else {
        let p = insertion_point(v);
        v.take(p) + seq!["--message-format"@, "json-diagnostic-rendered-ansi"@] + v.skip(p)
    }
}

/// Where `--message-format json-diagnostic-rendered-ansi` goes in `args`:
/// `None` when an argument already chooses the message format or quiet
/// output, otherwise the insertion point (the first `--`, or the end).
pub fn injection_point(args: &[String]) -> (r: Option<usize>)
    ensures
        r is None <==> exists|i: int| 0 <= i < args@.len() && #[trigger] sets_output(views(args@)[i]),
        r matches Some(p) ==> p == insertion_point(views(args@)) && p <= args@.len(),
{
    let mut i: usize = 0;
    while i < args.len()
        invariant
            i <= args@.len(),
            forall|k: int| 0 <= k < i ==> !#[trigger] sets_output(args@[k]@),
        decreases args.len() - i,
    {
        let a = args[i].as_str();
        if str_starts_with(a, "--message-format") || str_eq(a, "-q") || str_starts_with(a, "-q=") {
            assert(sets_output(views(args@)[i as int]));
            return None;
        }
        i = i + 1;
    }
    proof {
        assert forall|k: int| 0 <= k < args@.len() implies !#[trigger] sets_output(views(args@)[k]) by {
            assert(views(args@)[k] == args@[k]@);
        }
    }
    let p = match position_of(args, "--") {
        Some(i) => i,
        None => args.len(),
    };
    Some(p)
}

/// Adds `--message-format json-diagnostic-rendered-ansi` in front of the
/// first `--` (or at the end), unless an argument already chooses the
/// message format or quiet output.
pub fn inject_message_format_before_libtest_split(args: &mut Vec<String>)
    ensures
        views(final(args)@) == injected(views(old(args)@)),
{
    let ghost old_v = views(old(args)@);
    match injection_point(args.as_slice()) {
        None => {},
        Some(p) => {
            args.insert(p, String::from_str("json-diagnostic-rendered-ansi"));
            args.insert(p, String::from_str("--message-format"));
            proof {
                assert(views(args@) =~= old_v.take(p as int) + seq![
                    "--message-format"@,
                    "json-diagnostic-rendered-ansi"@,
                ] + old_v.skip(p as int));
            }
        },
    }
}

/// The exit code passed on for a `cargo test` run that ended with `code`
/// (`None` when it was ended by a signal): `0` for success, the code itself
/// when it fits in a byte, and `1` otherwise.
pub fn exit_code_from_status(code: Option<i32>) -> (r: u8)
    ensures
        match code {
            None => r == 1,
            Some(c) => if 0 <= c <= 255 {
                r == c
            } else {
                r == 1
            },
        },
{
    match code {
        None => 1,
        Some(c) => {
            if 0 <= c && c <= 255 {
                c as u8
            } else {
                1
            }
        },
    }
}

/// Injection is done once: injecting into arguments that were already
/// completed leaves them as they are.
pub proof fn law_injection_idempotent(v: Seq<Seq<char>>)
    ensures
        injected(injected(v)) == injected(v),
{
    if !(exists|i: int| 0 <= i < v.len() && #[trigger] sets_output(v[i])) {
        let p = insertion_point(v);
        let w = injected(v);
        v.index_of_first_ensures("--"@);
        assert(0 <= p <= v.len());
        assert(w[p] == "--message-format"@);
        assert(starts_with("--message-format"@, "--message-format"@)) by {
            assert("--message-format"@.subrange(0, "--message-format"@.len() as int) =~= "--message-format"@);
        }
        assert(sets_output(w[p]));
    }
}

} // verus!
