//! Panic reports read from the standard error of `cargo test`:
//! `thread 'name' panicked at file:line:col:` followed by the message lines.
use vstd::prelude::*;

use super::scan::{find_first, find_last, slice_of};
use super::views;
use crate::text::{
    all_digits, chars_of, contains_sub, first_at, is_digit, last_at, parse_digits, parse_unsigned,
    push_char, starts_with, str_contains, str_eq, str_starts_with, string_of, trim, trimmed_chars,
};

verus! {

/// One panic report.
#[derive(Debug)]
pub struct PanicInfo {
    pub thread_name: String,
    pub file: Option<String>,
    pub line: Option<u32>,
    pub message: String,
}

/// A panic report as character sequences.
pub struct PanicView {
    pub thread: Seq<char>,
    pub file: Option<Seq<char>>,
    pub line: Option<u32>,
    pub message: Seq<char>,
}

/// The view of a report.
pub open spec fn panic_view(p: PanicInfo) -> PanicView {
    PanicView {
        thread: p.thread_name@,
        file: match p.file {
            Some(f) => Some(f@),
            None => None,
        },
        line: p.line,
        message: p.message@,
    }
}

/// The thread name of a header: the text between `thread '` and the next `'`
/// (empty when the line does not have that form).
pub open spec fn thread_of(l: Seq<char>) -> Seq<char> {
    if starts_with(l, "thread '"@) {
        let rest = l.skip("thread '"@.len() as int);
        if contains_sub(rest, "'"@) {
            rest.take(first_at(rest, "'"@))
        } else {
            Seq::empty()
        }
    } else {
        Seq::empty()
    }
}

/// `path:line` from `path:line:col`: a last `:`-separated part made only of
/// digits is dropped.
pub open spec fn strip_column(pl: Seq<char>) -> Seq<char> {
    if contains_sub(pl, ":"@) && all_digits(pl.skip(last_at(pl, ":"@) + ":"@.len())) {
        pl.take(last_at(pl, ":"@))
    } else {
        pl
    }
}

/// The file and line of a header: after the first `panicked at `, up to the
/// last `:`, without a column; the file ends at the last remaining `:` and a
/// line number of 0 (or one that does not parse) counts as none.
pub open spec fn location_of(l: Seq<char>) -> (Option<Seq<char>>, Option<u32>) {
    if contains_sub(l, "panicked at "@) {
        let after = l.skip(first_at(l, "panicked at "@) + "panicked at "@.len());
        if contains_sub(after, ":"@) {
            let pl = strip_column(after.take(last_at(after, ":"@)));
            if contains_sub(pl, ":"@) {
                let lc = last_at(pl, ":"@);
                (
                    Some(pl.take(lc)),
                    match parse_unsigned(pl.skip(lc + ":"@.len()), u32::MAX as nat) {
                        Some(n) => if n > 0 {
                            Some(n as u32)
                        } else {
                            None
                        },
                        None => None,
                    },
                )
            } else {
                (Some(pl), None)
            }
        } else {
            (None, None)
        }
    } else {
        (None, None)
    }
}

/// Whether the characters `v[lo..]` are all ASCII digits.
fn digits_from(v: &Vec<char>, lo: usize) -> (r: bool)
    requires
        lo <= v@.len(),
    ensures
        r == all_digits(v@.skip(lo as int)),
{
    let mut i = lo;
    while i < v.len()
        invariant
            lo <= i <= v@.len(),
            forall|k: int| lo <= k < i ==> is_digit(v@[k]),
        decreases v.len() - i,
    {
        if !('0' <= v[i] && v[i] <= '9') {
            assert(!is_digit(v@.skip(lo as int)[i - lo]));
            return false;
        }
        i = i + 1;
    }
    assert forall|k: int| 0 <= k < v@.skip(lo as int).len() implies #[trigger] is_digit(
        v@.skip(lo as int)[k],
    ) by {
        assert(is_digit(v@[lo + k]));
    }
    true
}

/// Reads the thread name, file and line of a panic header line.
pub fn parse_panic_header(line: &str) -> (r: (String, Option<String>, Option<u32>))
    ensures
        r.0@ == thread_of(line@),
        match location_of(line@).0 {
            Some(f) => r.1 matches Some(s) && s@ == f,
            None => r.1 is None,
        },
        r.2 == location_of(line@).1,
{
    let l = chars_of(line);
    let head = chars_of("thread '");
    let quote = chars_of("'");
    let colon = chars_of(":");
    let at = chars_of("panicked at ");
    let thread_name = if crate::text::matches_at(&l, &head, 0) {
        let rest = slice_of(&l, head.len(), l.len());
        proof {
            assert(rest@ =~= l@.skip("thread '"@.len() as int));
        }
        match find_first(&rest, &quote) {
            Some(end) => {
                let s = string_of(&rest, 0, end);
                assert(s@ =~= rest@.take(end as int));
                s
            },
            None => String::new(),
        }
    } else {
        String::new()
    };
    let (file, line_num) = match find_first(&l, &at) {
        None => (None, None),
        Some(pos) => {
            let n = l.len();
            let al = at.len();
            assert(pos + al <= n);
            let after = slice_of(&l, pos + al, n);
            proof {
                assert(after@ =~= l@.skip(pos + "panicked at "@.len()));
            }
            match find_last(&after, &colon) {
                None => (None, None),
                Some(c) => {
                    let pl0 = slice_of(&after, 0, c);
                    proof {
                        assert(pl0@ =~= after@.take(c as int));
                    }
                    let pl = match find_last(&pl0, &colon) {
                        Some(ic) => {
                            if digits_from(&pl0, ic + colon.len()) {
                                let t = slice_of(&pl0, 0, ic);
                                assert(t@ =~= pl0@.take(ic as int));
                                t
                            } else {
                                pl0
                            }
                        },
                        None => pl0,
                    };
                    match find_last(&pl, &colon) {
                        Some(lc) => {
                            let f = string_of(&pl, 0, lc);
                            assert(f@ =~= pl@.take(lc as int));
                            proof {
                                assert(pl@.subrange(lc + ":"@.len(), pl@.len() as int) =~= pl@.skip(
                                    lc + ":"@.len(),
                                ));
                            }
                            let n = match parse_digits(&pl, lc + colon.len(), pl.len(), 0xffff_ffff) {
                                Some(v) => if v > 0 {
                                    Some(v as u32)
                                } else {
                                    None
                                },
                                None => None,
                            };
                            (Some(f), n)
                        },
                        None => {
                            let f = string_of(&pl, 0, pl.len());
                            assert(f@ =~= pl@);
                            (Some(f), None)
                        },
                    }
                },
            }
        },
    };
    (thread_name, file, line_num)
}

/// A header line: starts with `thread ` and mentions `panicked`.
pub open spec fn is_header(l: Seq<char>) -> bool {
    starts_with(l, "thread "@) && contains_sub(l, "panicked"@)
}

/// A (trimmed) line that ends a panic message.
pub open spec fn stops(t: Seq<char>) -> bool {
    ||| t.len() == 0
    ||| starts_with(t, "note:"@)
    ||| starts_with(t, "error:"@)
    ||| starts_with(t, "stack backtrace:"@)
    ||| starts_with(t, "thread "@)
}

/// The first line at or after `k` whose trimmed text ends a message.
pub open spec fn message_end(lines: Seq<Seq<char>>, k: int) -> int
    decreases lines.len() - k,
{
    if k >= lines.len() {
        lines.len() as int
    } else if stops(trim(lines[k])) {
        k
    } else {
        message_end(lines, k + 1)
    }
}

/// `parts` joined with newlines.
pub open spec fn join_lines(parts: Seq<Seq<char>>) -> Seq<char>
    decreases parts.len(),
{
    if parts.len() == 0 {
        Seq::empty()
    } else if parts.len() == 1 {
        parts[0]
    } else {
        join_lines(parts.drop_last()) + seq!['\n'] + parts.last()
    }
}

/// The trimmed texts of `lines[lo..hi]`.
pub open spec fn trimmed_range(lines: Seq<Seq<char>>, lo: int, hi: int) -> Seq<Seq<char>> {
    lines.subrange(lo, hi).map_values(|l: Seq<char>| trim(l))
}

/// `message_end` never goes back.
pub proof fn lemma_message_end_ge(lines: Seq<Seq<char>>, k: int)
    requires
        0 <= k,
    ensures
        k <= message_end(lines, k) || k > lines.len(),
        message_end(lines, k) <= lines.len() || k > lines.len(),
    decreases lines.len() - k,
{
    if k < lines.len() && !stops(trim(lines[k])) {
        lemma_message_end_ge(lines, k + 1);
    }
}

/// The reports in `lines[i..]`: each header starts one, whose message is the
/// trimmed lines after it up to the first that ends a message; reading goes
/// on at that line.
pub open spec fn panics_from(lines: Seq<Seq<char>>, i: int) -> Seq<PanicView>
    decreases lines.len() - i,
    via panics_from_decreases
{
    if i < 0 || i >= lines.len() {
        Seq::empty()
    } else if is_header(lines[i]) {
        let e = message_end(lines, i + 1);
        let loc = location_of(lines[i]);
        seq![
            PanicView {
                thread: thread_of(lines[i]),
                file: loc.0,
                line: loc.1,
                message: join_lines(trimmed_range(lines, i + 1, e)),
            },
        ] + panics_from(lines, e)
    } else {
        panics_from(lines, i + 1)
    }
}

#[via_fn]
proof fn panics_from_decreases(lines: Seq<Seq<char>>, i: int) {
    if 0 <= i < lines.len() && is_header(lines[i]) {
        lemma_message_end_ge(lines, i + 1);
    }
}

/// The first line at or after `k` whose trimmed text ends a message, with
/// those trimmed texts joined by newlines.
fn read_message(lines: &[String], k: usize) -> (r: (usize, String))
    requires
        k <= lines@.len(),
    ensures
        r.0 == message_end(views(lines@), k as int),
        r.1@ == join_lines(trimmed_range(views(lines@), k as int, r.0 as int)),
{
    let ghost ls = views(lines@);
    let mut i = k;
    let mut msg = String::new();
    while i < lines.len()
        invariant
            ls == views(lines@),
            k <= i <= lines@.len(),
            message_end(ls, k as int) == message_end(ls, i as int),
            msg@ == join_lines(trimmed_range(ls, k as int, i as int)),
        decreases lines.len() - i,
    {
        let t = trimmed_chars(lines[i].as_str());
        let stop = t.len() == 0 || crate::text::matches_at(&t, &chars_of("note:"), 0)
            || crate::text::matches_at(&t, &chars_of("error:"), 0) || crate::text::matches_at(
            &t,
            &chars_of("stack backtrace:"),
            0,
        ) || crate::text::matches_at(&t, &chars_of("thread "), 0);
        assert(ls[i as int] == lines@[i as int]@);
        if stop {
            assert(stops(trim(ls[i as int])));
            return (i, msg);
        }
        let ghost before = msg@;
        if i > k {
            push_char(&mut msg, '\n');
        }
        let ts = string_of(&t, 0, t.len());
        msg.append(ts.as_str());
        proof {
            let parts = trimmed_range(ls, k as int, i + 1);
            assert(parts.drop_last() =~= trimmed_range(ls, k as int, i as int));
            assert(ts@ =~= t@);
            assert(parts.last() == trim(ls[i as int]));
            assert(msg@ =~= join_lines(parts));
        }
        i = i + 1;
    }
    (i, msg)
}

/// Reads every panic report in the standard error lines, in order.
pub fn parse_panics(stderr_lines: &[String]) -> (r: Vec<PanicInfo>)
    ensures
        r@.map_values(|p: PanicInfo| panic_view(p)) == panics_from(views(stderr_lines@), 0),
{
    let ghost ls = views(stderr_lines@);
    let mut out: Vec<PanicInfo> = Vec::new();
    let mut i: usize = 0;
    while i < stderr_lines.len()
        invariant
            ls == views(stderr_lines@),
            i <= stderr_lines@.len(),
            out@.map_values(|p: PanicInfo| panic_view(p)) + panics_from(ls, i as int) == panics_from(
                ls,
                0,
            ),
        decreases stderr_lines.len() - i,
    {
        let line = stderr_lines[i].as_str();
        assert(ls[i as int] == line@);
        if str_starts_with(line, "thread ") && str_contains(line, "panicked") {
            let (thread_name, file, line_num) = parse_panic_header(line);
            let (e, message) = read_message(stderr_lines, i + 1);
            let ghost before = out@.map_values(|p: PanicInfo| panic_view(p));
            let info = PanicInfo { thread_name, file, line: line_num, message };
            out.push(info);
            proof {
                lemma_message_end_ge(ls, i + 1);
                assert(out@.map_values(|p: PanicInfo| panic_view(p)) =~= before.push(panic_view(info)));
                assert(panics_from(ls, i as int) == seq![panic_view(info)] + panics_from(ls, e as int));
                assert(before.push(panic_view(info)) + panics_from(ls, e as int) =~= before + (seq![
                    panic_view(info),
                ] + panics_from(ls, e as int)));
            }
            i = e;
        } else {
            i = i + 1;
        }
    }
    proof {
        assert(out@.map_values(|p: PanicInfo| panic_view(p)) + panics_from(ls, i as int) =~= out@.map_values(
            |p: PanicInfo| panic_view(p),
        ));
    }
    out
}

/// The first report whose thread is named `name`.
pub fn find_panic_for_suite(name: &str, panics: &[PanicInfo]) -> (r: Option<usize>)
    ensures
        match r {
            Some(i) => i < panics@.len() && panics@[i as int].thread_name@ == name@ && forall|k: int|
                0 <= k < i ==> #[trigger] panics@[k].thread_name@ != name@,
            None => forall|k: int| 0 <= k < panics@.len() ==> #[trigger] panics@[k].thread_name@ != name@,
        },
{
    let mut i: usize = 0;
    while i < panics.len()
        invariant
            i <= panics@.len(),
            forall|k: int| 0 <= k < i ==> #[trigger] panics@[k].thread_name@ != name@,
        decreases panics.len() - i,
    {
        if str_eq(panics[i].thread_name.as_str(), name) {
            return Some(i);
        }
        i = i + 1;
    }
    None
}

/// The lines of `parts` are all message lines: none is empty, and none
/// starts with `note:`, `error:`, `stack backtrace:` or `thread `.
pub open spec fn plain_message_lines(parts: Seq<Seq<char>>) -> bool {
    forall|k: int|
        0 <= k < parts.len() ==> {
            &&& #[trigger] parts[k].len() > 0
            &&& !starts_with(parts[k], "note:"@)
            &&& !starts_with(parts[k], "error:"@)
            &&& !starts_with(parts[k], "stack backtrace:"@)
            &&& !starts_with(parts[k], "thread "@)
        }
}

/// Every line from `lo` up to the end of the message is a message line.
proof fn lemma_before_message_end(lines: Seq<Seq<char>>, lo: int)
    requires
        0 <= lo,
    ensures
        plain_message_lines(trimmed_range(lines, lo, message_end(lines, lo))) || lo > lines.len(),
    decreases lines.len() - lo,
{
    lemma_message_end_ge(lines, lo);
    if lo < lines.len() && !stops(trim(lines[lo])) {
        lemma_before_message_end(lines, lo + 1);
        let e = message_end(lines, lo);
        let whole = trimmed_range(lines, lo, e);
        let rest = trimmed_range(lines, lo + 1, e);
        assert forall|k: int| 0 <= k < whole.len() implies {
            &&& #[trigger] whole[k].len() > 0
            &&& !starts_with(whole[k], "note:"@)
            &&& !starts_with(whole[k], "error:"@)
            &&& !starts_with(whole[k], "stack backtrace:"@)
            &&& !starts_with(whole[k], "thread "@)
        } by {
            if k > 0 {
                assert(whole[k] == rest[k - 1]);
            } else {
                assert(whole[k] == trim(lines[lo]));
            }
        }
    } else if lo <= lines.len() {
        assert(trimmed_range(lines, lo, message_end(lines, lo)).len() == 0);
    }
}

/// Every report read from `lines[i..]` has a message made of message lines:
/// the message is its lines joined by newlines, and no line of it is empty
/// or starts with `note:`, `error:`, `stack backtrace:` or `thread ` (such a
/// line ends the message, so a backtrace never becomes part of it).
pub proof fn law_messages_stop_before_backtraces(lines: Seq<Seq<char>>, i: int, r: int)
    requires
        0 <= i,
        0 <= r < panics_from(lines, i).len(),
    ensures
        exists|parts: Seq<Seq<char>>|
            panics_from(lines, i)[r].message == join_lines(parts) && #[trigger] plain_message_lines(parts),
    decreases lines.len() - i,
{
    if i < lines.len() {
        if is_header(lines[i]) {
            let e = message_end(lines, i + 1);
            lemma_message_end_ge(lines, i + 1);
            if r == 0 {
                lemma_before_message_end(lines, i + 1);
                let parts = trimmed_range(lines, i + 1, e);
                assert(panics_from(lines, i)[r].message == join_lines(parts));
                assert(plain_message_lines(parts));
            } else {
                assert(panics_from(lines, i)[r] == panics_from(lines, e)[r - 1]);
                law_messages_stop_before_backtraces(lines, e, r - 1);
            }
        } else {
            assert(panics_from(lines, i) == panics_from(lines, i + 1));
            law_messages_stop_before_backtraces(lines, i + 1, r);
        }
    }
}

} // verus!
