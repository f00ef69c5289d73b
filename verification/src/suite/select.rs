//! Case selection: the directly requested cases, everything they depend on,
//! and a dependency-respecting order that prefers earlier cases.
use vstd::prelude::*;

use super::config::{directly_selects, has_filter, CaseSpec, RunConfig};
use super::pattern::{pattern_match, pattern_selects};
use crate::text::str_eq;

verus! {

/// Why a filtered selection cannot run.
#[derive(Debug)]
pub enum SelectError {
    /// A filter is set but no case matches it.
    NoMatch,
    /// Case `case` depends on `dependency`, which no case is named.
    MissingDependency { case: usize, dependency: String },
    /// The listed cases each depend on another listed case, so no order can
    /// run every one of them after its dependencies.
    Cycle { cases: Vec<usize> },
}

/// Case `i` is named `n`.
pub open spec fn named(cases: Seq<CaseSpec>, n: Seq<char>, i: int) -> bool {
    0 <= i < cases.len() && cases[i].name@ == n
}

/// Case `i` is the last case named `n`: the one a name refers to.
pub open spec fn resolves(cases: Seq<CaseSpec>, n: Seq<char>, i: int) -> bool {
    named(cases, n, i) && forall|j: int| i < j < cases.len() ==> !named(cases, n, j)
}

/// Case `i` is the case its own name refers to.
pub open spec fn canonical(cases: Seq<CaseSpec>, i: int) -> bool {
    0 <= i < cases.len() && resolves(cases, cases[i].name@, i)
}

/// Some case is named `n`.
pub open spec fn has_case(cases: Seq<CaseSpec>, n: Seq<char>) -> bool {
    exists|i: int| named(cases, n, i)
}

/// Case `i` lists a dependency that names case `j`.
pub open spec fn depends(cases: Seq<CaseSpec>, i: int, j: int) -> bool {
    0 <= i < cases.len() && exists|k: int|
        0 <= k < cases[i].dependencies@.len() && resolves(
            cases,
            #[trigger] cases[i].dependencies@[k]@,
            j,
        )
}

/// Case `i` lists a dependency that no case is named.
pub open spec fn has_missing_dependency(cases: Seq<CaseSpec>, i: int) -> bool {
    0 <= i < cases.len() && exists|k: int|
        0 <= k < cases[i].dependencies@.len() && !has_case(
            cases,
            #[trigger] cases[i].dependencies@[k]@,
        )
}

/// `p` is a chain of cases, each depending on the next.
pub open spec fn is_chain(cases: Seq<CaseSpec>, p: Seq<int>) -> bool {
    &&& p.len() >= 1
    &&& 0 <= p[0] < cases.len()
    &&& forall|k: int| 0 <= k < p.len() - 1 ==> depends(cases, #[trigger] p[k], p[k + 1])
}

/// Case `i` is selected directly by the configuration (`hits[i]` tells whether
/// the pattern matches its name).
pub open spec fn direct(cases: Seq<CaseSpec>, cfg: RunConfig, hits: Seq<bool>, i: int) -> bool {
    canonical(cases, i) && directly_selects(cfg, cases[i].name@, hits[i])
}

/// Case `j` is selected: it is a direct selection, or a direct selection
/// depends on it, directly or through other cases.
#[verifier::opaque]
pub open spec fn selected(cases: Seq<CaseSpec>, cfg: RunConfig, hits: Seq<bool>, j: int) -> bool {
    exists|p: Seq<int>|
        is_chain(cases, p) && direct(cases, cfg, hits, p[0]) && #[trigger] p.last() == j
}

/// Case `x` may run after the cases in `done`: it is selected, has not run,
/// and everything it depends on has run.
#[verifier::opaque]
pub open spec fn ready(
    cases: Seq<CaseSpec>,
    cfg: RunConfig,
    hits: Seq<bool>,
    done: Seq<usize>,
    x: int,
) -> bool {
    &&& selected(cases, cfg, hits, x)
    &&& !done.contains(x as usize)
    &&& forall|j: int| depends(cases, x, j) ==> done.contains(j as usize)
}

/// `order` runs each case after the cases it depends on.
pub open spec fn respects_dependencies(cases: Seq<CaseSpec>, order: Seq<usize>) -> bool {
    forall|a: int, j: int|
        0 <= a < order.len() && depends(cases, order[a] as int, j) ==> exists|b: int|
            0 <= b < a && order[b] == j
}

/// Every position of `order` holds the earliest case that was ready there.
pub open spec fn earliest_first(
    cases: Seq<CaseSpec>,
    cfg: RunConfig,
    hits: Seq<bool>,
    order: Seq<usize>,
) -> bool {
    forall|a: int, x: int|
        0 <= a < order.len() && ready(cases, cfg, hits, order.subrange(0, a), x) ==> order[a]
            <= x
}

/// Without a filter, every case runs in slice order.
pub open spec fn unfiltered_selection(n: nat, r: Result<Vec<usize>, SelectError>) -> bool {
    &&& r is Ok
    &&& r->Ok_0@.len() == n
    &&& forall|i: int| 0 <= i < n ==> r->Ok_0@[i] == i
}

/// The outcome that selection owes on a filtered configuration.
pub open spec fn filtered_selection(
    cases: Seq<CaseSpec>,
    cfg: RunConfig,
    hits: Seq<bool>,
    r: Result<Vec<usize>, SelectError>,
) -> bool {
    &&& (r matches Err(SelectError::NoMatch)) <==> (forall|i: int| !direct(cases, cfg, hits, i))
    &&& r matches Ok(order) ==> {
        &&& order@.no_duplicates()
        &&& forall|x: int| #[trigger]
            order@.contains(x as usize) && 0 <= x < cases.len() <==> selected(
                cases,
                cfg,
                hits,
                x,
            )
        &&& forall|a: int| 0 <= a < order@.len() ==> order@[a] < cases.len()
        &&& respects_dependencies(cases, order@)
        &&& earliest_first(cases, cfg, hits, order@)
        &&& forall|x: int| selected(cases, cfg, hits, x) ==> !has_missing_dependency(cases, x)
    }
    &&& r matches Err(SelectError::MissingDependency { case, dependency }) ==> {
        &&& selected(cases, cfg, hits, case as int)
        &&& cases[case as int].dependencies@.contains(dependency)
        &&& !has_case(cases, dependency@)
    }
    &&& r matches Err(SelectError::Cycle { cases: stuck }) ==> {
        &&& stuck@.len() > 0
        &&& forall|x: int| selected(cases, cfg, hits, x) ==> !has_missing_dependency(cases, x)
        &&& forall|a: int|
            0 <= a < stuck@.len() ==> {
                &&& selected(cases, cfg, hits, stuck@[a] as int)
                &&& exists|b: int|
                    0 <= b < stuck@.len() && depends(
                        cases,
                        stuck@[a] as int,
                        stuck@[b] as int,
                    )
            }
    }
}

/// The last case named `name`, if any.
fn resolve_name(cases: &Vec<CaseSpec>, name: &str) -> (r: Option<usize>)
    ensures
        match r {
            Some(i) => resolves(cases@, name@, i as int),
            None => !has_case(cases@, name@),
        },
{
    let mut i = cases.len();
    while i > 0
        invariant
            i <= cases.len(),
            forall|j: int| i <= j < cases.len() ==> !named(cases@, name@, j),
        decreases i,
    {
        i = i - 1;
        if str_eq(cases[i].name.as_str(), name) {
            return Some(i);
        }
    }
    None
}

/// For every case and every one of its dependencies, the case that dependency
/// names, if any.
fn dependency_targets(cases: &Vec<CaseSpec>) -> (t: Vec<Vec<Option<usize>>>)
    ensures
        t@.len() == cases@.len(),
        forall|i: int|
            #![trigger t@[i]]
            0 <= i < cases@.len() ==> {
                &&& t@[i]@.len() == cases@[i].dependencies@.len()
                &&& forall|k: int|
                    0 <= k < t@[i]@.len() ==> match #[trigger] t@[i]@[k] {
                        Some(j) => resolves(cases@, cases@[i].dependencies@[k]@, j as int),
                        None => !has_case(cases@, cases@[i].dependencies@[k]@),
                    }
            },
{
    let mut t: Vec<Vec<Option<usize>>> = Vec::new();
    let mut i: usize = 0;
    while i < cases.len()
        invariant
            i <= cases.len(),
            t@.len() == i,
            forall|a: int|
                #![trigger t@[a]]
                0 <= a < i ==> {
                    &&& t@[a]@.len() == cases@[a].dependencies@.len()
                    &&& forall|k: int|
                        0 <= k < t@[a]@.len() ==> match #[trigger] t@[a]@[k] {
                            Some(j) => resolves(cases@, cases@[a].dependencies@[k]@, j as int),
                            None => !has_case(cases@, cases@[a].dependencies@[k]@),
                        }
                },
        decreases cases.len() - i,
    {
        let deps = &cases[i].dependencies;
        let mut row: Vec<Option<usize>> = Vec::new();
        let mut k: usize = 0;
        while k < deps.len()
            invariant
                i < cases.len(),
                deps == cases@[i as int].dependencies,
                k <= deps.len(),
                row@.len() == k,
                forall|m: int|
                    0 <= m < k ==> match #[trigger] row@[m] {
                        Some(j) => resolves(cases@, deps@[m]@, j as int),
                        None => !has_case(cases@, deps@[m]@),
                    },
            decreases deps.len() - k,
        {
            let target = resolve_name(cases, deps[k].as_str());
            row.push(target);
            k = k + 1;
        }
        t.push(row);
        i = i + 1;
    }
    t
}

/// Extending a chain by one dependency gives a chain.
proof fn lemma_chain_push(cases: Seq<CaseSpec>, p: Seq<int>, j: int)
    requires
        is_chain(cases, p),
        depends(cases, p.last(), j),
    ensures
        is_chain(cases, p.push(j)),
        p.push(j)[0] == p[0],
        p.push(j).last() == j,
{
    let q = p.push(j);
    assert forall|k: int| 0 <= k < q.len() - 1 implies depends(cases, #[trigger] q[k], q[k + 1]) by {
        if k < p.len() - 1 {
            assert(q[k] == p[k] && q[k + 1] == p[k + 1]);
        } else {
            assert(q[k] == p.last() && q[k + 1] == j);
        }
    }
}

/// A set of cases that holds the direct selections and is closed under
/// dependencies holds every selected case.
proof fn lemma_closed_holds_selected(
    cases: Seq<CaseSpec>,
    cfg: RunConfig,
    hits: Seq<bool>,
    marked: Seq<bool>,
    p: Seq<int>,
)
    requires
        marked.len() == cases.len(),
        is_chain(cases, p),
        direct(cases, cfg, hits, p[0]),
        forall|i: int| direct(cases, cfg, hits, i) ==> marked[i],
        forall|i: int, j: int|
            0 <= i < cases.len() && marked[i] && #[trigger] depends(cases, i, j) ==> marked[j],
    ensures
        0 <= p.last() < cases.len(),
        marked[p.last()],
    decreases p.len(),
{
    if p.len() == 1 {
    } else {
        let q = p.drop_last();
        assert forall|k: int| 0 <= k < q.len() - 1 implies depends(cases, #[trigger] q[k], q[k + 1]) by {
            assert(q[k] == p[k] && q[k + 1] == p[k + 1]);
        }
        lemma_closed_holds_selected(cases, cfg, hits, marked, q);
        assert(depends(cases, p[p.len() - 2], p[p.len() - 1]));
        assert(q.last() == p[p.len() - 2]);
    }
}

/// How many entries of `s` are `false`.
pub open spec fn count_false(s: Seq<bool>) -> nat
    decreases s.len(),
{
    if s.len() == 0 {
        0
    } else {
        count_false(s.drop_last()) + if s.last() {
            0nat
        } else {
            1nat
        }
    }
}

proof fn lemma_count_false_set(s: Seq<bool>, j: int)
    requires
        0 <= j < s.len(),
        !s[j],
    ensures
        count_false(s.update(j, true)) + 1 == count_false(s),
    decreases s.len(),
{
    let t = s.update(j, true);
    if j == s.len() - 1 {
        assert(t.drop_last() =~= s.drop_last());
    } else {
        assert(t.drop_last() =~= s.drop_last().update(j, true));
        lemma_count_false_set(s.drop_last(), j);
    }
}

/// The indices `0, 1, ..., n - 1`.
fn all_indices(n: usize) -> (v: Vec<usize>)
    ensures
        v@.len() == n,
        forall|i: int| 0 <= i < n ==> v@[i] == i,
{
    let mut v: Vec<usize> = Vec::new();
    let mut i: usize = 0;
    while i < n
        invariant
            i <= n,
            v@.len() == i,
            forall|k: int| 0 <= k < i ==> v@[k] == k,
        decreases n - i,
    {
        v.push(i);
        i = i + 1;
    }
    v
}

/// Every dependency target in `row` is done.
pub open spec fn row_done(row: Seq<Option<usize>>, done: Seq<bool>) -> bool {
    forall|k: int|
        0 <= k < row.len() ==> match #[trigger] row[k] {
            Some(j) => j < done.len() && done[j as int],
            None => true,
        }
}

proof fn lemma_resolves_unique(cases: Seq<CaseSpec>, n: Seq<char>, i: int, j: int)
    requires
        resolves(cases, n, i),
        resolves(cases, n, j),
    ensures
        i == j,
{
    if i < j {
        assert(named(cases, n, j));
    }
    if j < i {
        assert(named(cases, n, i));
    }
}

/// Readiness of a case, read off the dependency targets and the done flags.
proof fn lemma_ready_iff(
    cases: Seq<CaseSpec>,
    cfg: RunConfig,
    hits: Seq<bool>,
    targets: Seq<Vec<Option<usize>>>,
    marked: Seq<bool>,
    done: Seq<bool>,
    order: Seq<usize>,
)
    requires
        targets_ok(cases, targets),
        marked.len() == cases.len(),
        done.len() == cases.len(),
        forall|x: int| 0 <= x < cases.len() ==> (marked[x] <==> selected(cases, cfg, hits, x)),
        forall|x: int| selected(cases, cfg, hits, x) ==> 0 <= x < cases.len(),
        forall|x: int| 0 <= x < cases.len() ==> (done[x] <==> order.contains(x as usize)),
    ensures
        forall|y: int|
            #[trigger] ready(cases, cfg, hits, order, y) <==> (0 <= y < cases.len() && marked[y] && !done[y]
                && row_done(targets[y]@, done)),
{
    reveal(ready);
    assert forall|y: int|
        ready(cases, cfg, hits, order, y) <==> (0 <= y < cases.len() && marked[y] && !done[y]
            && row_done(#[trigger] targets[y]@, done)) by {
        if 0 <= y < cases.len() && marked[y] && !done[y] {
            let row = targets[y];
            if row_done(row@, done) {
                assert forall|j: int| depends(cases, y, j) implies order.contains(j as usize) by {
                    let m = choose|m: int|
                        0 <= m < cases[y].dependencies@.len() && resolves(
                            cases,
                            #[trigger] cases[y].dependencies@[m]@,
                            j,
                        );
                    match row@[m] {
                        Some(t) => {
                            lemma_resolves_unique(cases, cases[y].dependencies@[m]@, t as int, j);
                        },
                        None => {},
                    }
                }
            }
            if forall|j: int| depends(cases, y, j) ==> order.contains(j as usize) {
                assert forall|k: int| 0 <= k < row@.len() implies match #[trigger] row@[k] {
                    Some(j) => j < done.len() && done[j as int],
                    None => true,
                } by {
                    match row@[k] {
                        Some(j) => {
                            assert(depends(cases, y, j as int));
                        },
                        None => {},
                    }
                }
            }
        }
    }
}

/// Whether every dependency target of case `i` is marked done.
fn deps_done(row: &Vec<Option<usize>>, done: &Vec<bool>) -> (r: bool)
    ensures
        r == row_done(row@, done@),
{
    let mut k: usize = 0;
    while k < row.len()
        invariant
            k <= row@.len(),
            forall|m: int|
                0 <= m < k ==> match #[trigger] row@[m] {
                    Some(j) => j < done@.len() && done@[j as int],
                    None => true,
                },
        decreases row.len() - k,
    {
        match row[k] {
            Some(j) => {
                if j >= done.len() || !done[j] {
                    return false;
                }
            },
            None => {},
        }
        k = k + 1;
    }
    true
}

/// Every entry of `targets` is the case that the matching dependency names.
pub open spec fn targets_ok(cases: Seq<CaseSpec>, targets: Seq<Vec<Option<usize>>>) -> bool {
    &&& targets.len() == cases.len()
    &&& forall|x: int|
        #![trigger targets[x]]
        0 <= x < cases.len() ==> {
            &&& targets[x]@.len() == cases[x].dependencies@.len()
            &&& forall|k: int|
                0 <= k < targets[x]@.len() ==> match #[trigger] targets[x]@[k] {
                    Some(j) => resolves(cases, cases[x].dependencies@[k]@, j as int),
                    None => !has_case(cases, cases[x].dependencies@[k]@),
                }
        }
}

/// Marks the direct selections and lists them.
fn mark_direct(cases: &Vec<CaseSpec>, config: &RunConfig, hits: &Vec<bool>) -> (res: (
    Vec<bool>,
    Vec<usize>,
))
    requires
        hits@.len() == cases@.len(),
    ensures
        res.0@.len() == cases@.len(),
        forall|x: int| 0 <= x < cases@.len() ==> (res.0@[x] <==> direct(cases@, *config, hits@, x)),
        forall|x: usize| #[trigger] res.1@.contains(x) ==> x < cases@.len() && res.0@[x as int],
        forall|x: int| 0 <= x < cases@.len() && res.0@[x] ==> #[trigger] res.1@.contains(x as usize),
        res.1@.no_duplicates(),
{
    let n = cases.len();
    let ghost cs = cases@;
    let ghost cfg = *config;
    let ghost hs = hits@;
    let mut marked: Vec<bool> = Vec::new();
    let mut stack: Vec<usize> = Vec::new();
    let mut i: usize = 0;
    while i < n
        invariant
            n == cs.len(),
            cs == cases@,
            cfg == *config,
            hs == hits@,
            hs.len() == n,
            i <= n,
            marked@.len() == i,
            forall|x: int| 0 <= x < i ==> (marked@[x] <==> direct(cs, cfg, hs, x)),
            forall|x: usize| #[trigger] stack@.contains(x) ==> x < i && marked@[x as int],
            forall|x: int| 0 <= x < i && marked@[x] ==> #[trigger] stack@.contains(x as usize),
            stack@.no_duplicates(),
        decreases n - i,
    {
        let own = resolve_name(cases, cases[i].name.as_str());
        let is_canonical = match own {
            Some(j) => j == i,
            None => false,
        };
        let requested = requested_by(config, cases[i].name.as_str(), hits[i]);
        let d = is_canonical && requested;
        proof {
            assert(named(cs, cs[i as int].name@, i as int));
            match own {
                Some(j) => {
                    if j != i {
                        assert(!canonical(cs, i as int));
                    }
                },
                None => {},
            }
            assert(d == direct(cs, cfg, hs, i as int));
        }
        let ghost old_stack = stack@;
        marked.push(d);
        if d {
            stack.push(i);
        }
        proof {
            assert forall|x: usize| #[trigger] stack@.contains(x) implies x < i + 1
                && marked@[x as int] by {
                let a = choose|a: int| 0 <= a < stack@.len() && stack@[a] == x;
                if a < old_stack.len() {
                    assert(old_stack.contains(x));
                }
            }
            assert forall|x: int| 0 <= x < i + 1 && marked@[x] implies #[trigger] stack@.contains(
                x as usize,
            ) by {
                if x < i {
                    assert(old_stack.contains(x as usize));
                    let a = choose|a: int| 0 <= a < old_stack.len() && old_stack[a] == x as usize;
                    assert(stack@[a] == x as usize);
                } else {
                    assert(stack@[stack@.len() - 1] == i);
                }
            }
            if d {
                assert forall|a: int, b: int| 0 <= a < b < stack@.len() implies stack@[a]
                    != stack@[b] by {
                    if b == stack@.len() - 1 {
                        assert(old_stack.contains(stack@[a]));
                    }
                }
            }
        }
        i = i + 1;
    }
    (marked, stack)
}

/// Grows the marked set until it is closed under dependencies; every newly
/// marked case is reached from an already marked one.
fn close_marked(
    cases: &Vec<CaseSpec>,
    config: &RunConfig,
    hits: &Vec<bool>,
    targets: &Vec<Vec<Option<usize>>>,
    marked: &mut Vec<bool>,
    stack: Vec<usize>,
)
    requires
        hits@.len() == cases@.len(),
        targets_ok(cases@, targets@),
        old(marked)@.len() == cases@.len(),
        forall|x: int| direct(cases@, *config, hits@, x) ==> old(marked)@[x],
        forall|x: int|
            0 <= x < cases@.len() && old(marked)@[x] ==> selected(cases@, *config, hits@, x),
        forall|x: usize| #[trigger] stack@.contains(x) ==> x < cases@.len() && old(marked)@[x as int],
        stack@.no_duplicates(),
        forall|x: int, y: int|
            0 <= x < cases@.len() && old(marked)@[x] && !stack@.contains(x as usize)
                && #[trigger] depends(cases@, x, y) ==> old(marked)@[y],
    ensures
        final(marked)@.len() == cases@.len(),
        forall|x: int| 0 <= x < cases@.len() ==> (final(marked)@[x] <==> selected(cases@, *config, hits@, x)),
        forall|x: int| selected(cases@, *config, hits@, x) ==> 0 <= x < cases@.len(),
{
    let n = cases.len();
    let ghost cs = cases@;
    let ghost cfg = *config;
    let ghost hs = hits@;
    let mut stack = stack;
    while stack.len() > 0
        invariant
            n == cs.len(),
            cs == cases@,
            cfg == *config,
            hs == hits@,
            hs.len() == n,
            marked@.len() == n,
            targets_ok(cs, targets@),
            forall|x: int| direct(cs, cfg, hs, x) ==> marked@[x],
            forall|x: int| 0 <= x < n && marked@[x] ==> selected(cs, cfg, hs, x),
            forall|x: usize| #[trigger] stack@.contains(x) ==> x < n && marked@[x as int],
            stack@.no_duplicates(),
            forall|x: int, y: int|
                0 <= x < n && marked@[x] && !stack@.contains(x as usize) && #[trigger] depends(
                    cs,
                    x,
                    y,
                ) ==> marked@[y],
        decreases count_false(marked@), stack@.len(),
    {
        let ghost count0 = count_false(marked@);
        let ghost len0 = stack@.len();
        let ghost full = stack@;
        let x = stack.pop().unwrap();
        proof {
            assert(full =~= stack@.push(x));
            assert(full.contains(x));
            assert(!stack@.contains(x)) by {
                if stack@.contains(x) {
                    let a = choose|a: int| 0 <= a < stack@.len() && stack@[a] == x;
                    assert(full[a] == full[full.len() - 1]);
                }
            }
            assert forall|z: usize| #[trigger] stack@.contains(z) implies full.contains(z) by {
                let a = choose|a: int| 0 <= a < stack@.len() && stack@[a] == z;
                assert(full[a] == z);
            }
        }
        let row = &targets[x];
        let mut k: usize = 0;
        while k < row.len()
            invariant
                n == cs.len(),
                cs == cases@,
                cfg == *config,
                hs == hits@,
                marked@.len() == n,
                targets_ok(cs, targets@),
                x < n,
                row == targets@[x as int],
                k <= row.len(),
                marked@[x as int],
                forall|m: int|
                    0 <= m < k ==> (#[trigger] row@[m] matches Some(j) ==> marked@[j as int]),
                forall|x2: int| direct(cs, cfg, hs, x2) ==> marked@[x2],
                forall|x2: int| 0 <= x2 < n && marked@[x2] ==> selected(cs, cfg, hs, x2),
                forall|x2: usize| #[trigger] stack@.contains(x2) ==> x2 < n && marked@[x2 as int],
                stack@.no_duplicates(),
                !stack@.contains(x),
                forall|x2: int, y: int|
                    0 <= x2 < n && x2 != x && marked@[x2] && !stack@.contains(x2 as usize)
                        && #[trigger] depends(cs, x2, y) ==> marked@[y],
                count_false(marked@) < count0 || (count_false(marked@) == count0 && stack@.len() < len0),
            decreases row.len() - k,
        {
            match row[k] {
                Some(j) => {
                    if !marked[j] {
                        proof {
                            assert(depends(cs, x as int, j as int)) by {
                                assert(resolves(cs, cs[x as int].dependencies@[k as int]@, j as int));
                            }
                            reveal(selected);
                            let p = choose|p: Seq<int>|
                                is_chain(cs, p) && direct(cs, cfg, hs, p[0]) && #[trigger] p.last()
                                    == x;
                            lemma_chain_push(cs, p, j as int);
                            lemma_count_false_set(marked@, j as int);
                        }
                        let ghost old_stack = stack@;
                        let ghost old_marked = marked@;
                        marked.set(j, true);
                        stack.push(j);
                        proof {
                            assert(marked@ == old_marked.update(j as int, true));
                            assert forall|z: usize| #[trigger] stack@.contains(z) implies z < n && marked@[z as int] by {
                                let a = choose|a: int| 0 <= a < stack@.len() && stack@[a] == z;
                                if a < old_stack.len() {
                                    assert(old_stack.contains(z));
                                }
                            }
                            assert forall|a: int, b: int|
                                0 <= a < b < stack@.len() implies stack@[a] != stack@[b] by {
                                if b == stack@.len() - 1 {
                                    assert(old_stack.contains(stack@[a]));
                                }
                            }
                            assert forall|x2: int, y: int|
                                0 <= x2 < n && x2 != x && marked@[x2] && !stack@.contains(x2 as usize)
                                    && #[trigger] depends(cs, x2, y) implies marked@[y] by {
                                if x2 != j {
                                    if old_stack.contains(x2 as usize) {
                                        let a = choose|a: int| 0 <= a < old_stack.len() && old_stack[a] == x2 as usize;
                                        assert(stack@[a] == x2 as usize);
                                    }
                                } else {
                                    assert(stack@[stack@.len() - 1] == j);
                                }
                            }
                        }
                    }
                },
                None => {},
            }
            k = k + 1;
        }
        proof {
            assert forall|y: int| #[trigger] depends(cs, x as int, y) implies marked@[y] by {
                let m = choose|m: int|
                    0 <= m < cs[x as int].dependencies@.len() && resolves(
                        cs,
                        #[trigger] cs[x as int].dependencies@[m]@,
                        y,
                    );
                match row@[m] {
                    Some(j) => {
                        assert(resolves(cs, cs[x as int].dependencies@[m]@, j as int));
                        assert(j == y);
                    },
                    None => {},
                }
            }
        }
    }
    proof {
        assert forall|x: int| selected(cs, cfg, hs, x) implies 0 <= x < n && marked@[x] by {
            reveal(selected);
            let p = choose|p: Seq<int>|
                is_chain(cs, p) && direct(cs, cfg, hs, p[0]) && #[trigger] p.last() == x;
            lemma_closed_holds_selected(cs, cfg, hs, marked@, p);
        }
    }
}

/// The first marked case that names a missing dependency, with the position of
/// that dependency.
fn find_missing(cases: &Vec<CaseSpec>, targets: &Vec<Vec<Option<usize>>>, marked: &Vec<bool>) -> (r:
    Option<(usize, usize)>)
    requires
        targets_ok(cases@, targets@),
        marked@.len() == cases@.len(),
    ensures
        match r {
            Some((i, k)) => i < cases@.len() && marked@[i as int] && k < cases@[i as int].dependencies@.len()
                && !has_case(cases@, cases@[i as int].dependencies@[k as int]@),
            None => forall|x: int| 0 <= x < cases@.len() && marked@[x] ==> !has_missing_dependency(cases@, x),
        },
{
    let n = cases.len();
    let mut i: usize = 0;
    while i < n
        invariant
            n == cases@.len(),
            targets_ok(cases@, targets@),
            marked@.len() == n,
            i <= n,
            forall|x: int| 0 <= x < i && marked@[x] ==> !has_missing_dependency(cases@, x),
        decreases n - i,
    {
        if marked[i] {
            let row = &targets[i];
            let mut k: usize = 0;
            while k < row.len()
                invariant
                    n == cases@.len(),
                    targets_ok(cases@, targets@),
                    i < n,
                    marked@.len() == n,
                    marked@[i as int],
                    row == targets@[i as int],
                    k <= row.len(),
                    forall|m: int| 0 <= m < k ==> #[trigger] row@[m] is Some,
                decreases row.len() - k,
            {
                if row[k].is_none() {
                    proof {
                        assert(targets@[i as int]@[k as int] is None);
                    }
                    return Some((i, k));
                }
                k = k + 1;
            }
            proof {
                assert forall|m: int|
                    0 <= m < cases@[i as int].dependencies@.len() implies has_case(
                    cases@,
                    #[trigger] cases@[i as int].dependencies@[m]@,
                ) by {
                    assert(row@[m] is Some);
                }
            }
        }
        i = i + 1;
    }
    None
}

/// Selection over cases whose names each stand for their last case: the
/// directly requested cases and everything they depend on, each after its
/// dependencies and, among the cases ready at each step, the earliest first.
fn select_canonical(cases: &Vec<CaseSpec>, config: &RunConfig, hits: &Vec<bool>) -> (r: Result<
    Vec<usize>,
    SelectError,
>)
    requires
        hits@.len() == cases@.len(),
    ensures
        !has_filter(*config) ==> unfiltered_selection(cases@.len(), r),
        has_filter(*config) ==> filtered_selection(cases@, *config, hits@, r),
{
    let n = cases.len();
    if !config.is_filtered() {
        return Ok(all_indices(n));
    }
    let ghost cs = cases@;
    let ghost cfg = *config;
    let ghost hs = hits@;
    let targets = dependency_targets(cases);
    let (mut marked, stack) = mark_direct(cases, config, hits);
    if stack.len() == 0 {
        proof {
            assert forall|x: int| !direct(cs, cfg, hs, x) by {
                if direct(cs, cfg, hs, x) {
                    assert(marked@[x]);
                    assert(stack@.contains(x as usize));
                }
            }
        }
        return Err(SelectError::NoMatch);
    }
    proof {
        let s0 = stack@[0];
        assert(stack@.contains(s0));
        assert(direct(cs, cfg, hs, s0 as int));
        assert forall|x: int| 0 <= x < n && marked@[x] implies selected(cs, cfg, hs, x) by {
            reveal(selected);
            let p = seq![x];
            assert(is_chain(cs, p));
            assert(p.last() == x);
        }
    }
    close_marked(cases, config, hits, &targets, &mut marked, stack);
    match find_missing(cases, &targets, &marked) {
        Some((i, k)) => {
            let dependency = cases[i].dependencies[k].clone();
            proof {
                assert(cs[i as int].dependencies@[k as int] == dependency);
                assert(cs[i as int].dependencies@.contains(dependency));
            }
            Err(SelectError::MissingDependency { case: i, dependency })
        },
        None => order_selected(cases, config, hits, &targets, &marked),
    }
}

/// The case list in which position `i` holds case `ov[i]`.
pub open spec fn take_cases(cases: Seq<CaseSpec>, ov: Seq<int>) -> Seq<CaseSpec> {
    Seq::new(cases.len(), |i: int| cases[ov[i]])
}

/// `a` and `b` hold cases with the same names and the same dependency lists.
pub open spec fn same_cases(a: Seq<CaseSpec>, b: Seq<CaseSpec>) -> bool {
    &&& a.len() == b.len()
    &&& forall|i: int|
        #![trigger a[i]]
        #![trigger b[i]]
        0 <= i < a.len() ==> a[i].name == b[i].name && a[i].dependencies@ == b[i].dependencies@
}

/// Every case reached by a chain from a direct selection is a case of the list.
proof fn lemma_selected_in_range(cases: Seq<CaseSpec>, cfg: RunConfig, hits: Seq<bool>, x: int)
    requires
        selected(cases, cfg, hits, x),
    ensures
        0 <= x < cases.len(),
{
    reveal(selected);
    let p = choose|p: Seq<int>| is_chain(cases, p) && direct(cases, cfg, hits, p[0]) && #[trigger] p.last() == x;
    if p.len() > 1 {
        assert(depends(cases, p[p.len() - 2], p[p.len() - 2 + 1]));
    }
}

/// Case `i` is a direct selection whose name occurs before position `t`.
pub open spec fn early_direct(
    cases: Seq<CaseSpec>,
    cfg: RunConfig,
    hits: Seq<bool>,
    t: int,
    i: int,
) -> bool {
    direct(cases, cfg, hits, i) && exists|j: int| 0 <= j < t && #[trigger] named(cases, cases[i].name@, j)
}

/// Case `x` is reached from a direct selection whose name occurs before
/// position `t`, through dependencies.
#[verifier::opaque]
pub open spec fn reached(cases: Seq<CaseSpec>, cfg: RunConfig, hits: Seq<bool>, t: int, x: int) -> bool {
    exists|p: Seq<int>|
        is_chain(cases, p) && early_direct(cases, cfg, hits, t, p[0]) && #[trigger] p.last() == x
}

/// Which case runs under each name after the cases before position `t` were
/// walked: entry `c` (for the last case `c` of a name) is the case of that
/// name that runs. Walking case `i`: when its name is directly requested and
/// was not reached before, the case that runs under it is case `i`;
/// otherwise nothing changes, so a name first reached as a dependency keeps
/// its last case.
pub open spec fn reps(cases: Seq<CaseSpec>, cfg: RunConfig, hits: Seq<bool>, t: nat) -> Seq<int>
    decreases t,
{
    if t == 0 {
        Seq::new(cases.len(), |i: int| i)
    } else {
        let ov = reps(cases, cfg, hits, (t - 1) as nat);
        let i = t - 1;
        let c = choose|c: int| resolves(cases, cases[i].name@, c);
        if direct(cases, cfg, hits, c) && !reached(take_cases(cases, ov), cfg, hits, i, c) {
            ov.update(c, i)
        } else {
            ov
        }
    }
}

/// Which case runs under each name, after the whole walk.
pub open spec fn run_reps(cases: Seq<CaseSpec>, cfg: RunConfig, hits: Seq<bool>) -> Seq<int> {
    reps(cases, cfg, hits, cases.len())
}

/// `r` is `v` with every case position replaced by the case that runs there.
pub open spec fn through(
    ov: Seq<int>,
    v: Result<Vec<usize>, SelectError>,
    r: Result<Vec<usize>, SelectError>,
) -> bool {
    match v {
        Ok(o) => r matches Ok(q) && q@.len() == o@.len() && forall|a: int|
            0 <= a < o@.len() ==> #[trigger] q@[a] == ov[o@[a] as int],
        Err(SelectError::NoMatch) => r matches Err(SelectError::NoMatch),
        Err(SelectError::MissingDependency { case, dependency }) => r matches Err(
            SelectError::MissingDependency { case: c2, dependency: d2 },
        ) && c2 == ov[case as int] && d2@ == dependency@,
        Err(SelectError::Cycle { cases: s }) => r matches Err(SelectError::Cycle { cases: s2 })
            && s2@.len() == s@.len() && forall|a: int|
            0 <= a < s@.len() ==> #[trigger] s2@[a] == ov[s@[a] as int],
    }
}

/// The outcome owed on a filtered configuration: the selection over the
/// cases that run under each name, each position then replaced by that case.
pub open spec fn filtered_outcome(
    cases: Seq<CaseSpec>,
    cfg: RunConfig,
    hits: Seq<bool>,
    r: Result<Vec<usize>, SelectError>,
) -> bool {
    exists|v: Result<Vec<usize>, SelectError>|
        #[trigger] filtered_selection(take_cases(cases, run_reps(cases, cfg, hits)), cfg, hits, v)
            && through(run_reps(cases, cfg, hits), v, r)
}

proof fn lemma_same_names(a: Seq<CaseSpec>, b: Seq<CaseSpec>)
    requires
        same_cases(a, b),
    ensures
        forall|n: Seq<char>, i: int| #[trigger] named(a, n, i) == named(b, n, i),
        forall|n: Seq<char>, i: int| #[trigger] resolves(a, n, i) == resolves(b, n, i),
        forall|n: Seq<char>| #[trigger] has_case(a, n) == has_case(b, n),
        forall|i: int| #[trigger] canonical(a, i) == canonical(b, i),
{
    assert forall|n: Seq<char>, i: int| #[trigger] named(a, n, i) == named(b, n, i) by {
        if 0 <= i < a.len() {
            assert(a[i].name@ == b[i].name@);
        }
    }
    assert forall|n: Seq<char>, i: int| #[trigger] resolves(a, n, i) == resolves(b, n, i) by {
        if resolves(a, n, i) {
            assert forall|j: int| i < j < b.len() implies !named(b, n, j) by {
                assert(!named(a, n, j));
            }
        }
        if resolves(b, n, i) {
            assert forall|j: int| i < j < a.len() implies !named(a, n, j) by {
                assert(!named(b, n, j));
            }
        }
    }
    assert forall|n: Seq<char>| #[trigger] has_case(a, n) == has_case(b, n) by {
        if has_case(a, n) {
            let i = choose|i: int| named(a, n, i);
            assert(named(b, n, i));
        }
        if has_case(b, n) {
            let i = choose|i: int| named(b, n, i);
            assert(named(a, n, i));
        }
    }
    assert forall|i: int| #[trigger] canonical(a, i) == canonical(b, i) by {
        if 0 <= i < a.len() {
            assert(a[i].name@ == b[i].name@);
            assert(resolves(a, a[i].name@, i) == resolves(b, a[i].name@, i));
        }
    }
}

proof fn lemma_same_depends(a: Seq<CaseSpec>, b: Seq<CaseSpec>)
    requires
        same_cases(a, b),
    ensures
        forall|i: int, j: int| #[trigger] depends(a, i, j) == depends(b, i, j),
        forall|i: int| #[trigger] has_missing_dependency(a, i) == has_missing_dependency(b, i),
        forall|p: Seq<int>| #[trigger] is_chain(a, p) == is_chain(b, p),
{
    lemma_same_names(a, b);
    assert forall|i: int, j: int| #[trigger] depends(a, i, j) == depends(b, i, j) by {
        if depends(a, i, j) {
            let k = choose|k: int|
                0 <= k < a[i].dependencies@.len() && resolves(a, #[trigger] a[i].dependencies@[k]@, j);
            assert(a[i].dependencies@[k]@ == b[i].dependencies@[k]@);
            assert(resolves(b, b[i].dependencies@[k]@, j));
        }
        if depends(b, i, j) {
            let k = choose|k: int|
                0 <= k < b[i].dependencies@.len() && resolves(b, #[trigger] b[i].dependencies@[k]@, j);
            assert(a[i].dependencies@[k]@ == b[i].dependencies@[k]@);
            assert(resolves(a, a[i].dependencies@[k]@, j));
        }
    }
    assert forall|i: int| #[trigger] has_missing_dependency(a, i) == has_missing_dependency(b, i) by {
        if has_missing_dependency(a, i) {
            let k = choose|k: int|
                0 <= k < a[i].dependencies@.len() && !has_case(a, #[trigger] a[i].dependencies@[k]@);
            assert(a[i].dependencies@[k]@ == b[i].dependencies@[k]@);
            assert(!has_case(b, b[i].dependencies@[k]@));
        }
        if has_missing_dependency(b, i) {
            let k = choose|k: int|
                0 <= k < b[i].dependencies@.len() && !has_case(b, #[trigger] b[i].dependencies@[k]@);
            assert(a[i].dependencies@[k]@ == b[i].dependencies@[k]@);
            assert(!has_case(a, a[i].dependencies@[k]@));
        }
    }
    assert forall|p: Seq<int>| #[trigger] is_chain(a, p) == is_chain(b, p) by {
        if is_chain(a, p) {
            assert forall|k: int| 0 <= k < p.len() - 1 implies depends(b, #[trigger] p[k], p[k + 1]) by {
                assert(depends(a, p[k], p[k + 1]));
            }
        }
        if is_chain(b, p) {
            assert forall|k: int| 0 <= k < p.len() - 1 implies depends(a, #[trigger] p[k], p[k + 1]) by {
                assert(depends(b, p[k], p[k + 1]));
            }
        }
    }
}

/// Case lists with the same names and dependency names select alike.
proof fn lemma_same_selected(a: Seq<CaseSpec>, b: Seq<CaseSpec>, cfg: RunConfig, hits: Seq<bool>)
    requires
        same_cases(a, b),
    ensures
        forall|i: int| #[trigger] direct(a, cfg, hits, i) == direct(b, cfg, hits, i),
        forall|x: int| #[trigger] selected(a, cfg, hits, x) == selected(b, cfg, hits, x),
        forall|t: int, x: int| #[trigger] reached(a, cfg, hits, t, x) == reached(b, cfg, hits, t, x),
        forall|i: int, j: int| #[trigger] depends(a, i, j) == depends(b, i, j),
        forall|i: int| #[trigger] has_missing_dependency(a, i) == has_missing_dependency(b, i),
{
    lemma_same_names(a, b);
    lemma_same_depends(a, b);
    assert forall|i: int| #[trigger] direct(a, cfg, hits, i) == direct(b, cfg, hits, i) by {
        if 0 <= i < a.len() {
            assert(a[i].name@ == b[i].name@);
        }
    }
    assert forall|t: int, i: int| #[trigger] early_direct(a, cfg, hits, t, i) == early_direct(b, cfg, hits, t, i) by {
        if 0 <= i < a.len() {
            assert(a[i].name@ == b[i].name@);
            if early_direct(a, cfg, hits, t, i) {
                let j = choose|j: int| 0 <= j < t && #[trigger] named(a, a[i].name@, j);
                assert(named(b, b[i].name@, j));
            }
            if early_direct(b, cfg, hits, t, i) {
                let j = choose|j: int| 0 <= j < t && #[trigger] named(b, b[i].name@, j);
                assert(named(a, a[i].name@, j));
            }
        }
    }
    reveal(selected);
    reveal(reached);
    assert forall|x: int| #[trigger] selected(a, cfg, hits, x) == selected(b, cfg, hits, x) by {
        if selected(a, cfg, hits, x) {
            let p = choose|p: Seq<int>| is_chain(a, p) && direct(a, cfg, hits, p[0]) && #[trigger] p.last() == x;
            assert(is_chain(b, p));
        }
        if selected(b, cfg, hits, x) {
            let p = choose|p: Seq<int>| is_chain(b, p) && direct(b, cfg, hits, p[0]) && #[trigger] p.last() == x;
            assert(is_chain(a, p));
        }
    }
    assert forall|t: int, x: int| #[trigger] reached(a, cfg, hits, t, x) == reached(b, cfg, hits, t, x) by {
        if reached(a, cfg, hits, t, x) {
            let p = choose|p: Seq<int>|
                is_chain(a, p) && early_direct(a, cfg, hits, t, p[0]) && #[trigger] p.last() == x;
            assert(is_chain(b, p));
            assert(early_direct(b, cfg, hits, t, p[0]));
        }
        if reached(b, cfg, hits, t, x) {
            let p = choose|p: Seq<int>|
                is_chain(b, p) && early_direct(b, cfg, hits, t, p[0]) && #[trigger] p.last() == x;
            assert(is_chain(a, p));
            assert(early_direct(a, cfg, hits, t, p[0]));
        }
    }
}

proof fn lemma_same_order_rules(a: Seq<CaseSpec>, b: Seq<CaseSpec>, cfg: RunConfig, hits: Seq<bool>)
    requires
        forall|x: int| #[trigger] selected(a, cfg, hits, x) == selected(b, cfg, hits, x),
        forall|i: int, j: int| #[trigger] depends(a, i, j) == depends(b, i, j),
    ensures
        forall|o: Seq<usize>| #[trigger] respects_dependencies(a, o) == respects_dependencies(b, o),
        forall|o: Seq<usize>| #[trigger] earliest_first(a, cfg, hits, o) == earliest_first(b, cfg, hits, o),
{
    reveal(ready);
    assert forall|d: Seq<usize>, x: int| #[trigger] ready(a, cfg, hits, d, x) == ready(b, cfg, hits, d, x) by {
        assert(selected(a, cfg, hits, x) == selected(b, cfg, hits, x));
        if ready(a, cfg, hits, d, x) {
            assert forall|j: int| depends(b, x, j) implies d.contains(j as usize) by {
                assert(depends(a, x, j));
            }
        }
        if ready(b, cfg, hits, d, x) {
            assert forall|j: int| depends(a, x, j) implies d.contains(j as usize) by {
                assert(depends(b, x, j));
            }
        }
    }
    assert forall|o: Seq<usize>| #[trigger] respects_dependencies(a, o) == respects_dependencies(b, o) by {
        if respects_dependencies(a, o) {
            assert forall|x: int, j: int| 0 <= x < o.len() && depends(b, o[x] as int, j) implies exists|y: int|
                0 <= y < x && o[y] == j by {
                assert(depends(a, o[x] as int, j));
            }
        }
        if respects_dependencies(b, o) {
            assert forall|x: int, j: int| 0 <= x < o.len() && depends(a, o[x] as int, j) implies exists|y: int|
                0 <= y < x && o[y] == j by {
                assert(depends(b, o[x] as int, j));
            }
        }
    }
    assert forall|o: Seq<usize>| #[trigger] earliest_first(a, cfg, hits, o) == earliest_first(b, cfg, hits, o) by {
        if earliest_first(a, cfg, hits, o) {
            assert forall|k: int, x: int|
                0 <= k < o.len() && ready(b, cfg, hits, o.subrange(0, k), x) implies o[k] <= x by {
                assert(ready(a, cfg, hits, o.subrange(0, k), x));
            }
        }
        if earliest_first(b, cfg, hits, o) {
            assert forall|k: int, x: int|
                0 <= k < o.len() && ready(a, cfg, hits, o.subrange(0, k), x) implies o[k] <= x by {
                assert(ready(b, cfg, hits, o.subrange(0, k), x));
            }
        }
    }
}

/// A selection owed over `a` is owed over `b` when the two lists hold cases
/// with the same names and dependency names.
proof fn lemma_same_outcome(
    a: Seq<CaseSpec>,
    b: Seq<CaseSpec>,
    cfg: RunConfig,
    hits: Seq<bool>,
    v: Result<Vec<usize>, SelectError>,
)
    requires
        same_cases(a, b),
        filtered_selection(a, cfg, hits, v),
    ensures
        filtered_selection(b, cfg, hits, v),
{
    lemma_same_names(a, b);
    lemma_same_selected(a, b, cfg, hits);
    lemma_same_order_rules(a, b, cfg, hits);
    if forall|i: int| !direct(b, cfg, hits, i) {
        assert forall|i: int| !direct(a, cfg, hits, i) by {
            assert(!direct(b, cfg, hits, i));
        }
    }
    if forall|i: int| !direct(a, cfg, hits, i) {
        assert forall|i: int| !direct(b, cfg, hits, i) by {
            assert(!direct(a, cfg, hits, i));
        }
    }
    match v {
        Ok(order) => {
            assert forall|x: int| selected(b, cfg, hits, x) implies !has_missing_dependency(b, x) by {
                assert(selected(a, cfg, hits, x));
                assert(!has_missing_dependency(a, x));
            }
            assert forall|x: int| #[trigger]
                order@.contains(x as usize) && 0 <= x < b.len() <==> selected(b, cfg, hits, x) by {
                assert(selected(a, cfg, hits, x) == selected(b, cfg, hits, x));
                assert(order@.contains(x as usize) && 0 <= x < a.len() <==> selected(a, cfg, hits, x));
            }
        },
        Err(SelectError::MissingDependency { case, dependency }) => {
            assert(selected(a, cfg, hits, case as int));
            lemma_selected_in_range(a, cfg, hits, case as int);
            assert(has_case(a, dependency@) == has_case(b, dependency@));
            assert(a[case as int].dependencies@ == b[case as int].dependencies@);
        },
        Err(SelectError::Cycle { cases: stuck }) => {
            assert forall|x: int| selected(b, cfg, hits, x) implies !has_missing_dependency(b, x) by {
                assert(selected(a, cfg, hits, x));
                assert(!has_missing_dependency(a, x));
            }
            assert forall|k: int| 0 <= k < stuck@.len() implies {
                &&& selected(b, cfg, hits, stuck@[k] as int)
                &&& exists|m: int|
                    0 <= m < stuck@.len() && depends(b, stuck@[k] as int, stuck@[m] as int)
            } by {
                assert(selected(a, cfg, hits, stuck@[k] as int));
                let m = choose|m: int|
                    0 <= m < stuck@.len() && depends(a, stuck@[k] as int, stuck@[m] as int);
                assert(depends(b, stuck@[k] as int, stuck@[m] as int));
            }
        },
        _ => {},
    }
}

/// The positions as integers.
pub open spec fn ints(s: Seq<usize>) -> Seq<int> {
    s.map_values(|x: usize| x as int)
}

/// Every entry of `ov` is a case with the same name as its position.
pub open spec fn name_preserving(cases: Seq<CaseSpec>, ov: Seq<int>) -> bool {
    &&& ov.len() == cases.len()
    &&& forall|i: int|
        0 <= i < cases.len() ==> 0 <= #[trigger] ov[i] < cases.len() && cases[ov[i]].name@
            == cases[i].name@
}

/// The walk only ever puts a case under its own name.
proof fn lemma_reps_name_preserving(cases: Seq<CaseSpec>, cfg: RunConfig, hits: Seq<bool>, t: nat)
    requires
        t <= cases.len(),
    ensures
        name_preserving(cases, reps(cases, cfg, hits, t)),
    decreases t,
{
    if t > 0 {
        lemma_reps_name_preserving(cases, cfg, hits, (t - 1) as nat);
        let ov = reps(cases, cfg, hits, (t - 1) as nat);
        let i = t - 1;
        assert(named(cases, cases[i].name@, i));
        lemma_last_named(cases, cases[i].name@, i);
        let c = choose|c: int| resolves(cases, cases[i].name@, c);
        assert(resolves(cases, cases[i].name@, c));
        let nv = reps(cases, cfg, hits, t);
        assert forall|k: int| 0 <= k < cases.len() implies 0 <= #[trigger] nv[k] < cases.len()
            && cases[nv[k]].name@ == cases[k].name@ by {
            assert(ov[k] == ov[k]);
        }
    }
}

/// A name that some case has resolves to a case.
proof fn lemma_last_named(cases: Seq<CaseSpec>, n: Seq<char>, i: int)
    requires
        named(cases, n, i),
    ensures
        exists|c: int| resolves(cases, n, c),
    decreases cases.len() - i,
{
    if !resolves(cases, n, i) {
        let j = choose|j: int| i < j < cases.len() && named(cases, n, j);
        lemma_last_named(cases, n, j);
    }
}

/// Names agree between `cases` and the list that takes cases by `ov`.
proof fn lemma_take_names(cases: Seq<CaseSpec>, ov: Seq<int>)
    requires
        name_preserving(cases, ov),
    ensures
        forall|n: Seq<char>, i: int| #[trigger] named(take_cases(cases, ov), n, i) == named(cases, n, i),
        forall|n: Seq<char>, i: int| #[trigger] resolves(take_cases(cases, ov), n, i) == resolves(cases, n, i),
        forall|i: int| #[trigger] canonical(take_cases(cases, ov), i) == canonical(cases, i),
        forall|cfg: RunConfig, hits: Seq<bool>, i: int|
            #[trigger] direct(take_cases(cases, ov), cfg, hits, i) == direct(cases, cfg, hits, i),
{
    let tc = take_cases(cases, ov);
    assert forall|n: Seq<char>, i: int| #[trigger] named(tc, n, i) == named(cases, n, i) by {
        if 0 <= i < cases.len() {
            assert(tc[i] == cases[ov[i]]);
        }
    }
    assert forall|n: Seq<char>, i: int| #[trigger] resolves(tc, n, i) == resolves(cases, n, i) by {
        if resolves(tc, n, i) {
            assert forall|j: int| i < j < cases.len() implies !named(cases, n, j) by {
                assert(!named(tc, n, j));
            }
        }
        if resolves(cases, n, i) {
            assert forall|j: int| i < j < tc.len() implies !named(tc, n, j) by {
                assert(!named(cases, n, j));
            }
        }
    }
    assert forall|i: int| #[trigger] canonical(tc, i) == canonical(cases, i) by {
        if 0 <= i < cases.len() {
            assert(tc[i] == cases[ov[i]]);
            assert(resolves(tc, cases[i].name@, i) == resolves(cases, cases[i].name@, i));
        }
    }
    assert forall|cfg: RunConfig, hits: Seq<bool>, i: int|
        #[trigger] direct(tc, cfg, hits, i) == direct(cases, cfg, hits, i) by {
        if 0 <= i < cases.len() {
            assert(tc[i] == cases[ov[i]]);
        }
    }
}

/// A copy of the cases in which position `i` holds case `ov[i]`.
fn take_exec(cases: &Vec<CaseSpec>, ov: &Vec<usize>) -> (vc: Vec<CaseSpec>)
    requires
        ov@.len() == cases@.len(),
        forall|i: int| 0 <= i < ov@.len() ==> ov@[i] < cases@.len(),
    ensures
        same_cases(vc@, take_cases(cases@, ints(ov@))),
{
    let ghost tc = take_cases(cases@, ints(ov@));
    let mut vc: Vec<CaseSpec> = Vec::new();
    let mut i: usize = 0;
    while i < ov.len()
        invariant
            ov@.len() == cases@.len(),
            forall|a: int| 0 <= a < ov@.len() ==> ov@[a] < cases@.len(),
            tc == take_cases(cases@, ints(ov@)),
            i <= ov@.len(),
            vc@.len() == i,
            forall|a: int|
                0 <= a < i ==> #[trigger] vc@[a].name == tc[a].name && vc@[a].dependencies@
                    == tc[a].dependencies@,
        decreases ov.len() - i,
    {
        let src = &cases[ov[i]];
        let mut deps: Vec<String> = Vec::new();
        let mut k: usize = 0;
        while k < src.dependencies.len()
            invariant
                k <= src.dependencies@.len(),
                deps@ == src.dependencies@.subrange(0, k as int),
            decreases src.dependencies.len() - k,
        {
            deps.push(src.dependencies[k].clone());
            k = k + 1;
            assert(deps@ =~= src.dependencies@.subrange(0, k as int));
        }
        assert(deps@ =~= src.dependencies@);
        vc.push(CaseSpec { name: src.name.clone(), dependencies: deps });
        i = i + 1;
    }
    vc
}

/// For every case, the first position that has its name.
fn first_positions(cases: &Vec<CaseSpec>) -> (f: Vec<usize>)
    ensures
        f@.len() == cases@.len(),
        forall|i: int|
            #![trigger f@[i]]
            0 <= i < cases@.len() ==> f@[i] <= i && named(cases@, cases@[i].name@, f@[i] as int) && forall|j: int|
                0 <= j < f@[i] ==> !named(cases@, cases@[i].name@, j),
{
    let mut f: Vec<usize> = Vec::new();
    let mut i: usize = 0;
    while i < cases.len()
        invariant
            i <= cases@.len(),
            f@.len() == i,
            forall|a: int|
                #![trigger f@[a]]
                0 <= a < i ==> f@[a] <= a && named(cases@, cases@[a].name@, f@[a] as int) && forall|j: int|
                    0 <= j < f@[a] ==> !named(cases@, cases@[a].name@, j),
        decreases cases.len() - i,
    {
        let mut j: usize = 0;
        while j < i && !str_eq(cases[j].name.as_str(), cases[i].name.as_str())
            invariant
                i < cases@.len(),
                j <= i,
                forall|m: int| 0 <= m < j ==> !named(cases@, cases@[i as int].name@, m),
            decreases i - j,
        {
            j = j + 1;
        }
        f.push(j);
        i = i + 1;
    }
    f
}

/// Whether case `c` is reached, through dependencies, from a directly
/// requested case whose name occurs before position `t`, in the list that
/// takes the cases `ov`.
fn is_reached(
    cases: &Vec<CaseSpec>,
    ov: &Vec<usize>,
    config: &RunConfig,
    hits: &Vec<bool>,
    firsts: &Vec<usize>,
    t: usize,
    c: usize,
) -> (r: bool)
    requires
        hits@.len() == cases@.len(),
        name_preserving(cases@, ints(ov@)),
        c < cases@.len(),
        firsts@.len() == cases@.len(),
        forall|i: int|
            #![trigger firsts@[i]]
            0 <= i < cases@.len() ==> named(cases@, cases@[i].name@, firsts@[i] as int) && forall|j: int|
                0 <= j < firsts@[i] ==> !named(cases@, cases@[i].name@, j),
    ensures
        r == reached(take_cases(cases@, ints(ov@)), *config, hits@, t as int, c as int),
{
    let n = cases.len();
    let ghost tc = take_cases(cases@, ints(ov@));
    proof {
        assert forall|i: int| 0 <= i < ov@.len() implies ov@[i] < cases@.len() by {
            assert(ints(ov@)[i] == ov@[i] as int);
        }
    }
    let vc = take_exec(cases, ov);
    let cfg_t = RunConfig::pattern("");
    let mut hits_t: Vec<bool> = Vec::new();
    let mut i: usize = 0;
    while i < n
        invariant
            n == cases@.len(),
            hits@.len() == n,
            i <= n,
            hits_t@.len() == i,
            forall|a: int|
                0 <= a < i ==> #[trigger] hits_t@[a] == (directly_selects(
                    *config,
                    cases@[a].name@,
                    hits@[a],
                ) && firsts@[a] < t),
            firsts@.len() == n,
        decreases n - i,
    {
        let h = requested_by(config, cases[i].name.as_str(), hits[i]) && firsts[i] < t;
        hits_t.push(h);
        i = i + 1;
    }
    let targets = dependency_targets(&vc);
    let (mut marked, stack) = mark_direct(&vc, &cfg_t, &hits_t);
    let ghost vs = vc@;
    let ghost hts = hits_t@;
    proof {
        assert forall|x: int| 0 <= x < n && marked@[x] implies selected(vs, cfg_t, hts, x) by {
            reveal(selected);
            let p = seq![x];
            assert(is_chain(vs, p));
            assert(p.last() == x);
        }
    }
    close_marked(&vc, &cfg_t, &hits_t, &targets, &mut marked, stack);
    let r = marked[c];
    proof {
        lemma_take_names(cases@, ints(ov@));
        lemma_same_names(vs, tc);
        lemma_same_selected(vs, tc, *config, hits@);
        assert forall|x: int| #[trigger] direct(vs, cfg_t, hts, x) == early_direct(vs, *config, hits@, t as int, x) by {
            if 0 <= x < n {
                assert(vs[x].name@ == tc[x].name@);
                assert(tc[x] == cases@[ints(ov@)[x]]);
                assert(tc[x].name@ == cases@[x].name@);
                assert(named(cases@, cases@[x].name@, firsts@[x] as int));
                if exists|j: int| 0 <= j < t && #[trigger] named(vs, vs[x].name@, j) {
                    let j = choose|j: int| 0 <= j < t && #[trigger] named(vs, vs[x].name@, j);
                    assert(named(tc, vs[x].name@, j));
                    assert(named(cases@, cases@[x].name@, j));
                }
                if firsts@[x] < t {
                    assert(named(tc, cases@[x].name@, firsts@[x] as int));
                    assert(named(vs, vs[x].name@, firsts@[x] as int));
                }
                assert(direct(vs, *config, hits@, x) == direct(tc, *config, hits@, x));
                assert(direct(tc, *config, hits@, x) == direct(cases@, *config, hits@, x));
            }
        }
        reveal(selected);
        reveal(reached);
        assert(selected(vs, cfg_t, hts, c as int) == reached(vs, *config, hits@, t as int, c as int)) by {
            if selected(vs, cfg_t, hts, c as int) {
                let p = choose|p: Seq<int>|
                    is_chain(vs, p) && direct(vs, cfg_t, hts, p[0]) && #[trigger] p.last() == c as int;
                assert(early_direct(vs, *config, hits@, t as int, p[0]));
            }
            if reached(vs, *config, hits@, t as int, c as int) {
                let p = choose|p: Seq<int>|
                    is_chain(vs, p) && early_direct(vs, *config, hits@, t as int, p[0]) && #[trigger] p.last()
                        == c as int;
                assert(direct(vs, cfg_t, hts, p[0]));
            }
        }
    }
    r
}

/// Walks the cases in order and picks, for every name, the case that runs
/// under it (see [`reps`]).
fn compute_reps(cases: &Vec<CaseSpec>, config: &RunConfig, hits: &Vec<bool>) -> (ov: Vec<usize>)
    requires
        hits@.len() == cases@.len(),
    ensures
        ints(ov@) == run_reps(cases@, *config, hits@),
        name_preserving(cases@, ints(ov@)),
{
    let n = cases.len();
    let ghost cs = cases@;
    let ghost cfg = *config;
    let ghost hs = hits@;
    let firsts = first_positions(cases);
    let mut ov = all_indices(n);
    proof {
        assert(ints(ov@) =~= reps(cs, cfg, hs, 0));
    }
    let mut t: usize = 0;
    while t < n
        invariant
            n == cs.len(),
            cs == cases@,
            cfg == *config,
            hs == hits@,
            hs.len() == n,
            t <= n,
            ints(ov@) == reps(cs, cfg, hs, t as nat),
            firsts@.len() == n,
            forall|i: int|
                #![trigger firsts@[i]]
                0 <= i < n ==> firsts@[i] <= i && named(cs, cs[i].name@, firsts@[i] as int) && forall|j: int|
                    0 <= j < firsts@[i] ==> !named(cs, cs[i].name@, j),
        decreases n - t,
    {
        proof {
            lemma_reps_name_preserving(cs, cfg, hs, t as nat);
            assert(named(cs, cs[t as int].name@, t as int));
        }
        let found = resolve_name(cases, cases[t].name.as_str());
        let c = match found {
            Some(c) => c,
            None => {
                proof {
                    assert(has_case(cs, cs[t as int].name@));
                }
                0
            },
        };
        proof {
            assert(resolves(cs, cs[t as int].name@, c as int));
            assert(cs[c as int].name@ == cs[t as int].name@);
            assert(resolves(cs, cs[c as int].name@, c as int));
            assert(canonical(cs, c as int));
            let c2 = choose|c2: int| resolves(cs, cs[t as int].name@, c2);
            lemma_resolves_unique(cs, cs[t as int].name@, c as int, c2);
        }
        let d = requested_by(config, cases[c].name.as_str(), hits[c]);
        let ghost ov0 = ov@;
        if d && !is_reached(cases, &ov, config, hits, &firsts, t, c) {
            ov.set(c, t);
            proof {
                assert(ints(ov@) =~= ints(ov0).update(c as int, t as int));
            }
        }
        proof {
            assert(direct(cs, cfg, hs, c as int) == d);
        }
        t = t + 1;
    }
    proof {
        lemma_reps_name_preserving(cs, cfg, hs, n as nat);
    }
    ov
}

/// `v` with every case position replaced by the case that runs there.
fn map_through(ov: &Vec<usize>, v: Result<Vec<usize>, SelectError>) -> (r: Result<
    Vec<usize>,
    SelectError,
>)
    requires
        forall|x: usize| #[trigger] v_positions(v).contains(x) ==> x < ov@.len(),
    ensures
        through(ints(ov@), v, r),
{
    let ghost pos = v_positions(v);
    match v {
        Ok(o) => {
            assert(pos == o@);
            let q = map_positions(ov, &o);
            proof {
                assert forall|a: int| 0 <= a < o@.len() implies #[trigger] q@[a] == ints(ov@)[o@[a] as int] by {
                    assert(o@.contains(o@[a]));
                }
            }
            Ok(q)
        },
        Err(SelectError::NoMatch) => Err(SelectError::NoMatch),
        Err(SelectError::MissingDependency { case, dependency }) => {
            proof {
                assert(v_positions(v)[0] == case);
                assert(v_positions(v).contains(case));
            }
            Err(SelectError::MissingDependency { case: ov[case], dependency })
        },
        Err(SelectError::Cycle { cases }) => {
            assert(pos == cases@);
            let q = map_positions(ov, &cases);
            proof {
                assert forall|a: int| 0 <= a < cases@.len() implies #[trigger] q@[a] == ints(ov@)[cases@[a] as int] by {
                    assert(cases@.contains(cases@[a]));
                }
            }
            Err(SelectError::Cycle { cases: q })
        },
    }
}

/// The case positions a selection outcome mentions.
pub open spec fn v_positions(v: Result<Vec<usize>, SelectError>) -> Seq<usize> {
    match v {
        Ok(o) => o@,
        Err(SelectError::NoMatch) => Seq::empty(),
        Err(SelectError::MissingDependency { case, .. }) => seq![case],
        Err(SelectError::Cycle { cases }) => cases@,
    }
}

/// `o` with every position `x` replaced by `ov[x]`.
fn map_positions(ov: &Vec<usize>, o: &Vec<usize>) -> (q: Vec<usize>)
    requires
        forall|x: usize| #[trigger] o@.contains(x) ==> x < ov@.len(),
    ensures
        q@.len() == o@.len(),
        forall|a: int| 0 <= a < o@.len() ==> #[trigger] q@[a] == ov@[o@[a] as int],
{
    let mut q: Vec<usize> = Vec::new();
    let mut a: usize = 0;
    while a < o.len()
        invariant
            a <= o@.len(),
            q@.len() == a,
            forall|x: usize| #[trigger] o@.contains(x) ==> x < ov@.len(),
            forall|b: int| 0 <= b < a ==> #[trigger] q@[b] == ov@[o@[b] as int],
        decreases o.len() - a,
    {
        assert(o@.contains(o@[a as int]));
        q.push(ov[o[a]]);
        a = a + 1;
    }
    q
}

/// The last case with the name of case `c`.
pub open spec fn name_of_case(cases: Seq<CaseSpec>, c: int) -> int {
    choose|x: int| resolves(cases, cases[c].name@, x)
}

/// What the dependency walk meets first: `Ok((c, k))` when dependency `k` of
/// case `c` names no case, `Err(path)` when the walk comes back to a name it
/// is still walking (`path` lists the names walked, each by its last case,
/// ending with the name met again).
pub type WalkStop = Option<Result<(int, int), Seq<int>>>;

/// The depth-first walk from case `c`: its name is skipped when already
/// walked, is a cycle when it is on `path`, and otherwise the dependencies of
/// case `c` are walked in order, each name by its last case; then the name is
/// marked walked.
pub open spec fn visit(cases: Seq<CaseSpec>, c: int, walked: Seq<bool>, path: Seq<int>) -> (
    Seq<bool>,
    WalkStop,
)
    decreases cases.len() - path.len(), 0int,
{
    let x = name_of_case(cases, c);
    if walked[x] {
        (walked, None)
    } else if path.contains(x) {
        (walked, Some(Err(path.push(x))))
    } else if path.len() >= cases.len() {
        (walked, None)
    } else {
        let r = visit_deps(cases, c, 0, walked, path.push(x));
        if r.1 is None {
            (r.0.update(x, true), None)
        } else {
            r
        }
    }
}

/// The walk over dependencies `k`, `k + 1`, ... of case `c`.
pub open spec fn visit_deps(cases: Seq<CaseSpec>, c: int, k: int, walked: Seq<bool>, path: Seq<int>) -> (
    Seq<bool>,
    WalkStop,
)
    decreases cases.len() - path.len(), cases[c].dependencies@.len() - k + 1,
{
    if k < 0 || k >= cases[c].dependencies@.len() {
        (walked, None)
    } else {
        let n = cases[c].dependencies@[k]@;
        if !has_case(cases, n) {
            (walked, Some(Ok((c, k))))
        } else {
            let j = choose|j: int| resolves(cases, n, j);
            let r = visit(cases, j, walked, path);
            if r.1 is None {
                visit_deps(cases, c, k + 1, r.0, path)
            } else {
                r
            }
        }
    }
}

/// The walk from every directly requested case, in slice order, from case `i` on.
pub open spec fn walk_from(cases: Seq<CaseSpec>, cfg: RunConfig, hits: Seq<bool>, i: int, walked: Seq<bool>) -> (
    Seq<bool>,
    WalkStop,
)
    decreases cases.len() - i,
{
    if i < 0 || i >= cases.len() {
        (walked, None)
    } else if direct(cases, cfg, hits, name_of_case(cases, i)) {
        let r = visit(cases, i, walked, Seq::empty());
        if r.1 is None {
            walk_from(cases, cfg, hits, i + 1, r.0)
        } else {
            r
        }
    } else {
        walk_from(cases, cfg, hits, i + 1, walked)
    }
}

/// What the walk over the requested cases meets first, if anything.
pub open spec fn walk_stop(cases: Seq<CaseSpec>, cfg: RunConfig, hits: Seq<bool>) -> WalkStop {
    walk_from(cases, cfg, hits, 0, Seq::new(cases.len(), |i: int| false)).1
}

/// `r` reports `stop`.
pub open spec fn reports(cases: Seq<CaseSpec>, stop: Result<(int, int), Seq<int>>, r: Result<Vec<usize>, SelectError>) -> bool {
    match stop {
        Ok((c, k)) => r matches Err(SelectError::MissingDependency { case, dependency }) && case == c
            && dependency@ == cases[c].dependencies@[k]@,
        Err(path) => r matches Err(SelectError::Cycle { cases: p }) && ints(p@) == path,
    }
}

/// What the walk met, as the walk's spec states it.
enum Stop {
    Missing(usize, usize),
    Cycle(Vec<usize>),
}

spec fn stop_view(s: Option<Stop>) -> WalkStop {
    match s {
        None => None,
        Some(Stop::Missing(c, k)) => Some(Ok((c as int, k as int))),
        Some(Stop::Cycle(p)) => Some(Err(ints(p@))),
    }
}

/// A copy of `v`.
fn copy_path(v: &Vec<usize>) -> (w: Vec<usize>)
    ensures
        w@ == v@,
{
    let mut w: Vec<usize> = Vec::new();
    let mut i: usize = 0;
    while i < v.len()
        invariant
            i <= v@.len(),
            w@ == v@.subrange(0, i as int),
        decreases v.len() - i,
    {
        w.push(v[i]);
        i = i + 1;
        assert(w@ =~= v@.subrange(0, i as int));
    }
    assert(w@ =~= v@);
    w
}

/// Whether `x` is on `path`.
fn on_path(path: &Vec<usize>, x: usize) -> (r: bool)
    ensures
        r == ints(path@).contains(x as int),
{
    let mut i: usize = 0;
    while i < path.len()
        invariant
            i <= path@.len(),
            forall|a: int| 0 <= a < i ==> path@[a] != x,
        decreases path.len() - i,
    {
        if path[i] == x {
            assert(ints(path@)[i as int] == x as int);
            return true;
        }
        i = i + 1;
    }
    proof {
        if ints(path@).contains(x as int) {
            let a = choose|a: int| 0 <= a < ints(path@).len() && ints(path@)[a] == x as int;
            assert(path@[a] == x);
        }
    }
    false
}

/// The last case with the name of case `c`.
fn own_name(cases: &Vec<CaseSpec>, c: usize) -> (x: usize)
    requires
        c < cases@.len(),
    ensures
        x as int == name_of_case(cases@, c as int),
        resolves(cases@, cases@[c as int].name@, x as int),
{
    proof {
        assert(named(cases@, cases@[c as int].name@, c as int));
    }
    let x = match resolve_name(cases, cases[c].name.as_str()) {
        Some(x) => x,
        None => 0,
    };
    proof {
        let y = name_of_case(cases@, c as int);
        lemma_last_named(cases@, cases@[c as int].name@, c as int);
        lemma_resolves_unique(cases@, cases@[c as int].name@, x as int, y);
    }
    x
}

/// The depth-first walk from case `c` (see [`visit`]).
fn visit_exec(
    cases: &Vec<CaseSpec>,
    targets: &Vec<Vec<Option<usize>>>,
    c: usize,
    walked: &mut Vec<bool>,
    path: &mut Vec<usize>,
) -> (r: Option<Stop>)
    requires
        c < cases@.len(),
        targets_ok(cases@, targets@),
        old(walked)@.len() == cases@.len(),
        old(path)@.len() <= cases@.len(),
    ensures
        final(path)@ == old(path)@,
        (final(walked)@, stop_view(r)) == visit(cases@, c as int, old(walked)@, ints(old(path)@)),
        final(walked)@.len() == cases@.len(),
        r matches Some(Stop::Missing(c2, k2)) ==> c2 < cases@.len() && k2
            < cases@[c2 as int].dependencies@.len(),
    decreases cases@.len() - old(path)@.len(),
{
    let ghost cs = cases@;
    let ghost w0 = walked@;
    let ghost p0 = path@;
    let x = own_name(cases, c);
    if walked[x] {
        return None;
    }
    if on_path(path, x) {
        let mut p = copy_path(path);
        p.push(x);
        proof {
            assert(ints(p@) =~= ints(p0).push(x as int));
        }
        return Some(Stop::Cycle(p));
    }
    if path.len() >= cases.len() {
        return None;
    }
    path.push(x);
    let ghost pp = ints(path@);
    proof {
        assert(pp =~= ints(p0).push(x as int));
    }
    let row = &targets[c];
    let mut k: usize = 0;
    while k < row.len()
        invariant
            cs == cases@,
            c < cs.len(),
            x < cs.len(),
            targets_ok(cs, targets@),
            row == targets@[c as int],
            row@.len() == cs[c as int].dependencies@.len(),
            k <= row@.len(),
            path@ == p0.push(x),
            p0 == old(path)@,
            w0 == old(walked)@,
            w0.len() == cs.len(),
            !w0[x as int],
            !ints(p0).contains(x as int),
            p0.len() < cs.len(),
            x as int == name_of_case(cs, c as int),
            pp == ints(p0).push(x as int),
            pp == ints(path@),
            path@.len() <= cs.len(),
            walked@.len() == cs.len(),
            visit_deps(cs, c as int, 0, w0, pp) == visit_deps(cs, c as int, k as int, walked@, pp),
        decreases row.len() - k,
    {
        match row[k] {
            None => {
                proof {
                    assert(!has_case(cs, cs[c as int].dependencies@[k as int]@));
                    assert(visit_deps(cs, c as int, k as int, walked@, pp).1 == Some(
                        Ok::<(int, int), Seq<int>>((c as int, k as int)),
                    ));
                }
                path.pop();
                proof {
                    assert(path@ =~= p0);
                }
                return Some(Stop::Missing(c, k));
            },
            Some(j) => {
                proof {
                    assert(resolves(cs, cs[c as int].dependencies@[k as int]@, j as int));
                    let j2 = choose|j2: int| resolves(cs, cs[c as int].dependencies@[k as int]@, j2);
                    lemma_resolves_unique(cs, cs[c as int].dependencies@[k as int]@, j as int, j2);
                    assert(has_case(cs, cs[c as int].dependencies@[k as int]@));
                }
                let r = visit_exec(cases, targets, j, walked, path);
                if r.is_some() {
                    path.pop();
                    proof {
                        assert(path@ =~= p0);
                    }
                    return r;
                }
            },
        }
        k = k + 1;
    }
    path.pop();
    proof {
        assert(path@ =~= p0);
    }
    walked.set(x, true);
    None
}

/// The walk from every directly requested case, in slice order (see
/// [`walk_stop`]).
fn walk_exec(
    cases: &Vec<CaseSpec>,
    config: &RunConfig,
    hits: &Vec<bool>,
    targets: &Vec<Vec<Option<usize>>>,
) -> (r: Option<Stop>)
    requires
        hits@.len() == cases@.len(),
        targets_ok(cases@, targets@),
    ensures
        stop_view(r) == walk_stop(cases@, *config, hits@),
        r matches Some(Stop::Missing(c2, k2)) ==> c2 < cases@.len() && k2
            < cases@[c2 as int].dependencies@.len(),
{
    let ghost cs = cases@;
    let ghost cfg = *config;
    let ghost hs = hits@;
    let n = cases.len();
    let mut walked: Vec<bool> = Vec::new();
    let mut i: usize = 0;
    while i < n
        invariant
            n == cs.len(),
            i <= n,
            walked@.len() == i,
            forall|a: int| 0 <= a < i ==> !walked@[a],
        decreases n - i,
    {
        walked.push(false);
        i = i + 1;
    }
    proof {
        assert(walked@ =~= Seq::new(n as nat, |a: int| false));
    }
    let mut path: Vec<usize> = Vec::new();
    let mut i: usize = 0;
    while i < n
        invariant
            n == cs.len(),
            cs == cases@,
            cfg == *config,
            hs == hits@,
            hs.len() == n,
            targets_ok(cs, targets@),
            i <= n,
            walked@.len() == n,
            path@.len() == 0,
            walk_stop(cs, cfg, hs) == walk_from(cs, cfg, hs, i as int, walked@).1,
        decreases n - i,
    {
        let x = own_name(cases, i);
        let d = requested_by(config, cases[x].name.as_str(), hits[x]);
        proof {
            assert(cs[x as int].name@ == cs[i as int].name@);
            assert(resolves(cs, cs[x as int].name@, x as int));
            assert(d == direct(cs, cfg, hs, x as int));
            assert(ints(path@) =~= Seq::<int>::empty());
        }
        if d {
            let r = visit_exec(cases, targets, i, &mut walked, &mut path);
            if r.is_some() {
                return r;
            }
        }
        i = i + 1;
    }
    None
}

/// Selects the cases a run executes, in order, given for each case whether
/// the configured pattern matches its name (`hits[i]` for case `i`).
///
/// Without a filter every case runs, in slice order, dependencies unchecked.
/// With a filter, the selection is the directly requested names and every
/// name they depend on. Under a name runs the first case of that name, when
/// the name is directly requested and no dependency reached it earlier in
/// the walk over the cases; otherwise its last case, which is also the case a
/// dependency on the name refers to. The order runs each case after its
/// dependencies and, among the names ready at each step, takes the one whose
/// last case comes first in the slice.
///
/// Before that, the requested cases are walked depth first, in slice order
/// (see [`walk_stop`]): the first dependency that names no case, or the
/// first name met again while it is still being walked, is the error.
pub fn select_with_hits(cases: &Vec<CaseSpec>, config: &RunConfig, hits: &Vec<bool>) -> (r: Result<
    Vec<usize>,
    SelectError,
>)
    requires
        hits@.len() == cases@.len(),
    ensures
        !has_filter(*config) ==> unfiltered_selection(cases@.len(), r),
        has_filter(*config) ==> match walk_stop(cases@, *config, hits@) {
            Some(stop) => reports(cases@, stop, r),
            None => filtered_outcome(cases@, *config, hits@, r),
        },
{
    if !config.is_filtered() {
        return Ok(all_indices(cases.len()));
    }
    let targets = dependency_targets(cases);
    match walk_exec(cases, config, hits, &targets) {
        Some(Stop::Missing(c, k)) => {
            proof {
                assert(walk_stop(cases@, *config, hits@) == Some(Ok::<(int, int), Seq<int>>((c as int, k as int))));
            }
            let dependency = cases[c].dependencies[k].clone();
            return Err(SelectError::MissingDependency { case: c, dependency });
        },
        Some(Stop::Cycle(p)) => {
            return Err(SelectError::Cycle { cases: p });
        },
        None => {},
    }
    let ov = compute_reps(cases, config, hits);
    proof {
        assert forall|i: int| 0 <= i < ov@.len() implies ov@[i] < cases@.len() by {
            assert(ints(ov@)[i] == ov@[i] as int);
        }
    }
    let vc = take_exec(cases, &ov);
    let v = select_canonical(&vc, config, hits);
    let ghost tc = take_cases(cases@, run_reps(cases@, *config, hits@));
    proof {
        lemma_same_outcome(vc@, tc, *config, hits@, v);
        assert forall|x: usize| #[trigger] v_positions(v).contains(x) implies x < ov@.len() by {
            match v {
                Ok(o) => {
                    let a = choose|a: int| 0 <= a < o@.len() && o@[a] == x;
                    assert(o@[a] < vc@.len());
                },
                Err(SelectError::MissingDependency { case, .. }) => {
                    lemma_selected_in_range(vc@, *config, hits@, case as int);
                },
                Err(SelectError::Cycle { cases: stuck }) => {
                    let a = choose|a: int| 0 <= a < stuck@.len() && stuck@[a] == x;
                    lemma_selected_in_range(vc@, *config, hits@, stuck@[a] as int);
                },
                _ => {},
            }
        }
    }
    let r = map_through(&ov, v);
    proof {
        assert(filtered_selection(tc, *config, hits@, v) && through(run_reps(cases@, *config, hits@), v, r));
    }
    r
}

/// Whether the configuration selects a case named `name` directly, `hit`
/// telling whether the configured pattern matches it.
pub fn requested_by(config: &RunConfig, name: &str, hit: bool) -> (r: bool)
    ensures
        r == directly_selects(*config, name@, hit),
{
    let by_filter = match &config.filter {
        Some(f) => str_eq(f.as_str(), name),
        None => false,
    };
    if by_filter {
        return true;
    }
    let mut k: usize = 0;
    while k < config.filters.len()
        invariant
            k <= config.filters@.len(),
            !(config.filter matches Some(f) && f@ == name@),
            forall|m: int| 0 <= m < k ==> #[trigger] config.filters@[m]@ != name@,
        decreases config.filters.len() - k,
    {
        if str_eq(config.filters[k].as_str(), name) {
            return true;
        }
        k = k + 1;
    }
    config.pattern.is_some() && hit
}

/// The earliest case that is marked, not done, and whose dependency targets
/// are all done.
fn first_ready(targets: &Vec<Vec<Option<usize>>>, marked: &Vec<bool>, done: &Vec<bool>) -> (r:
    Option<usize>)
    requires
        marked@.len() == targets@.len(),
        done@.len() == targets@.len(),
    ensures
        forall|y: int|
            0 <= y < targets@.len() && (r is None || y < r->0) ==> !(marked@[y] && !done@[y]
                && row_done(#[trigger] targets@[y]@, done@)),
        r matches Some(p) ==> p < targets@.len() && marked@[p as int] && !done@[p as int]
            && row_done(targets@[p as int]@, done@),
{
    let n = targets.len();
    let mut x: usize = 0;
    while x < n
        invariant
            n == targets@.len(),
            done@.len() == n,
            marked@.len() == n,
            x <= n,
            forall|y: int|
                0 <= y < x ==> !(marked@[y] && !done@[y] && row_done(#[trigger] targets@[y]@, done@)),
        decreases n - x,
    {
        if marked[x] && !done[x] && deps_done(&targets[x], done) {
            return Some(x);
        }
        x = x + 1;
    }
    None
}

/// Cases that are selected but cannot become ready each wait on another such case.
proof fn lemma_stuck(
    cs: Seq<CaseSpec>,
    cfg: RunConfig,
    hs: Seq<bool>,
    marked: Seq<bool>,
    done: Seq<bool>,
    order: Seq<usize>,
    stuck: Seq<usize>,
)
    requires
        cs.len() <= usize::MAX,
        marked.len() == cs.len(),
        done.len() == cs.len(),
        forall|x: int| 0 <= x < cs.len() ==> (marked[x] <==> selected(cs, cfg, hs, x)),
        forall|x: int| selected(cs, cfg, hs, x) ==> 0 <= x < cs.len(),
        forall|x: int| 0 <= x < cs.len() ==> (done[x] <==> order.contains(x as usize)),
        forall|y: int| !ready(cs, cfg, hs, order, y),
        forall|a: int| 0 <= a < stuck.len() ==> stuck[a] < cs.len() && marked[stuck[a] as int] && !done[stuck[a] as int],
        forall|z: int| 0 <= z < cs.len() && marked[z] && !done[z] ==> stuck.contains(z as usize),
    ensures
        forall|a: int|
            0 <= a < stuck.len() ==> {
                &&& selected(cs, cfg, hs, stuck[a] as int)
                &&& exists|b: int|
                    0 <= b < stuck.len() && depends(cs, stuck[a] as int, stuck[b] as int)
            },
{
    assert forall|a: int| 0 <= a < stuck.len() implies {
        &&& selected(cs, cfg, hs, stuck[a] as int)
        &&& exists|b: int|
            0 <= b < stuck.len() && depends(cs, stuck[a] as int, stuck[b] as int)
    } by {
        let b = lemma_stuck_one(cs, cfg, hs, marked, done, order, stuck, a);
    }
}

/// One stuck case waits on another stuck case.
proof fn lemma_stuck_one(
    cs: Seq<CaseSpec>,
    cfg: RunConfig,
    hs: Seq<bool>,
    marked: Seq<bool>,
    done: Seq<bool>,
    order: Seq<usize>,
    stuck: Seq<usize>,
    a: int,
) -> (b: int)
    requires
        cs.len() <= usize::MAX,
        marked.len() == cs.len(),
        done.len() == cs.len(),
        forall|x: int| 0 <= x < cs.len() ==> (marked[x] <==> selected(cs, cfg, hs, x)),
        forall|x: int| selected(cs, cfg, hs, x) ==> 0 <= x < cs.len(),
        forall|x: int| 0 <= x < cs.len() ==> (done[x] <==> order.contains(x as usize)),
        forall|y: int| !ready(cs, cfg, hs, order, y),
        forall|a: int| 0 <= a < stuck.len() ==> stuck[a] < cs.len() && marked[stuck[a] as int] && !done[stuck[a] as int],
        forall|z: int| 0 <= z < cs.len() && marked[z] && !done[z] ==> stuck.contains(z as usize),
        0 <= a < stuck.len(),
    ensures
        selected(cs, cfg, hs, stuck[a] as int),
        0 <= b < stuck.len(),
        depends(cs, stuck[a] as int, stuck[b] as int),
{
    let z = stuck[a] as int;
    assert(marked[z] && !done[z]);
    let j = lemma_waits_on(cs, cfg, hs, order, z);
    assert(marked[j] && !done[j]);
    assert(stuck.contains(j as usize));
    let b = choose|b: int| 0 <= b < stuck.len() && stuck[b] == j as usize;
    assert(stuck[b] as int == j);
    b
}

/// A selected case that has not run and is not ready waits on a selected case
/// that has not run.
proof fn lemma_waits_on(
    cs: Seq<CaseSpec>,
    cfg: RunConfig,
    hs: Seq<bool>,
    order: Seq<usize>,
    z: int,
) -> (j: int)
    requires
        selected(cs, cfg, hs, z),
        !order.contains(z as usize),
        !ready(cs, cfg, hs, order, z),
    ensures
        depends(cs, z, j),
        selected(cs, cfg, hs, j),
        !order.contains(j as usize),
{
    reveal(selected);
    reveal(ready);
    let j = choose|j: int| depends(cs, z, j) && !order.contains(j as usize);
    let p = choose|p: Seq<int>|
        is_chain(cs, p) && direct(cs, cfg, hs, p[0]) && #[trigger] p.last() == z;
    lemma_chain_push(cs, p, j);
    j
}

/// Runs the earliest ready case until none is ready; returns the order and
/// which cases it holds.
fn run_order(
    cases: &Vec<CaseSpec>,
    config: &RunConfig,
    hits: &Vec<bool>,
    targets: &Vec<Vec<Option<usize>>>,
    marked: &Vec<bool>,
) -> (res: (Vec<usize>, Vec<bool>))
    requires
        hits@.len() == cases@.len(),
        targets_ok(cases@, targets@),
        marked@.len() == cases@.len(),
        forall|x: int| 0 <= x < cases@.len() ==> (marked@[x] <==> selected(cases@, *config, hits@, x)),
        forall|x: int| selected(cases@, *config, hits@, x) ==> 0 <= x < cases@.len(),
        forall|x: int| selected(cases@, *config, hits@, x) ==> !has_missing_dependency(cases@, x),
    ensures
        res.1@.len() == cases@.len(),
        res.0@.no_duplicates(),
        forall|x: int| 0 <= x < cases@.len() ==> (res.1@[x] <==> res.0@.contains(x as usize)),
        forall|a: int| 0 <= a < res.0@.len() ==> res.0@[a] < cases@.len() && marked@[res.0@[a] as int],
        respects_dependencies(cases@, res.0@),
        earliest_first(cases@, *config, hits@, res.0@),
        forall|y: int| !ready(cases@, *config, hits@, res.0@, y),
{
    let n = cases.len();
    let ghost cs = cases@;
    let ghost cfg = *config;
    let ghost hs = hits@;
    let mut done: Vec<bool> = Vec::new();
    let mut i: usize = 0;
    while i < n
        invariant
            i <= n,
            done@.len() == i,
            forall|x: int| 0 <= x < i ==> !done@[x],
        decreases n - i,
    {
        done.push(false);
        i = i + 1;
    }
    let mut order: Vec<usize> = Vec::new();
    loop
        invariant
            n == cs.len(),
            cs == cases@,
            cfg == *config,
            hs == hits@,
            marked@.len() == n,
            done@.len() == n,
            targets_ok(cs, targets@),
            forall|x: int| 0 <= x < n ==> (marked@[x] <==> selected(cs, cfg, hs, x)),
            forall|x: int| selected(cs, cfg, hs, x) ==> 0 <= x < n,
            forall|x: int| selected(cs, cfg, hs, x) ==> !has_missing_dependency(cs, x),
            order@.no_duplicates(),
            forall|x: int| 0 <= x < n ==> (done@[x] <==> order@.contains(x as usize)),
            forall|a: int| 0 <= a < order@.len() ==> order@[a] < n && marked@[order@[a] as int],
            respects_dependencies(cs, order@),
            earliest_first(cs, cfg, hs, order@),
        ensures
            done@.len() == n,
            order@.no_duplicates(),
            forall|x: int| 0 <= x < n ==> (done@[x] <==> order@.contains(x as usize)),
            forall|a: int| 0 <= a < order@.len() ==> order@[a] < n && marked@[order@[a] as int],
            respects_dependencies(cs, order@),
            earliest_first(cs, cfg, hs, order@),
            forall|y: int| !ready(cs, cfg, hs, order@, y),
        decreases count_false(done@),
    {
        proof {
            lemma_ready_iff(cs, cfg, hs, targets@, marked@, done@, order@);
        }
        // The earliest ready case, if any.
        let pick = first_ready(targets, marked, &done);
        match pick {
            None => {
                proof {
                    lemma_ready_iff(cs, cfg, hs, targets@, marked@, done@, order@);
                    assert forall|y: int| !ready(cs, cfg, hs, order@, y) by {
                        if 0 <= y < n {
                            assert(!(marked@[y] && !done@[y] && row_done(targets@[y]@, done@)));
                        }
                        assert(ready(cs, cfg, hs, order@, y) <==> (0 <= y < cs.len() && marked@[y]
                            && !done@[y] && row_done(targets@[y]@, done@)));
                    }
                }
                break;
            },
            Some(p) => {
                let ghost before = order@;
                let ghost done_before = done@;
                proof {
                    lemma_count_false_set(done@, p as int);
                    assert(!before.contains(p));
                }
                done.set(p, true);
                order.push(p);
                proof {
                    assert(order@.subrange(0, before.len() as int) =~= before);
                    assert forall|x: int| 0 <= x < n implies (done@[x] <==> order@.contains(x as usize)) by {
                        if x == p {
                            assert(order@[before.len() as int] == p);
                        } else {
                            if before.contains(x as usize) {
                                let b = choose|b: int| 0 <= b < before.len() && before[b] == x as usize;
                                assert(order@[b] == x as usize);
                            }
                            if order@.contains(x as usize) {
                                let b = choose|b: int| 0 <= b < order@.len() && order@[b] == x as usize;
                                assert(b < before.len());
                                assert(before.contains(x as usize));
                            }
                        }
                    }
                    assert forall|a: int, b: int| 0 <= a < b < order@.len() implies order@[a] != order@[b] by {
                        if b == before.len() {
                            assert(before.contains(order@[a]));
                        }
                    }
                    assert forall|a: int, x2: int|
                        0 <= a < order@.len() && ready(
                            cs,
                            cfg,
                            hs,
                            order@.subrange(0, a),
                            x2,
                        ) implies order@[a] <= x2 by {
                        if a < before.len() {
                            assert(order@.subrange(0, a) =~= before.subrange(0, a));
                        } else {
                            assert(order@.subrange(0, a) =~= before);
                            if x2 < p {
                                assert(!(marked@[x2] && !done_before[x2] && row_done(targets@[x2]@, done_before)));
                                assert(!ready(cs, cfg, hs, before, x2));
                            }
                        }
                    }
                    assert forall|a: int, j: int|
                        0 <= a < order@.len() && depends(cs, order@[a] as int, j) implies exists|
                        b: int,
                    | 0 <= b < a && order@[b] == j by {
                        if a < before.len() {
                            let b = choose|b: int| 0 <= b < a && before[b] == j;
                            assert(order@[b] == j);
                        } else {
                            assert(ready(cs, cfg, hs, before, p as int));
                            reveal(ready);
                            assert(before.contains(j as usize));
                            let b = choose|b: int| 0 <= b < before.len() && before[b] == j as usize;
                            assert(order@[b] == j);
                        }
                    }
                }
            },
        }
    }
    (order, done)
}

/// The marked cases that are not done, in increasing order.
fn collect_stuck(marked: &Vec<bool>, done: &Vec<bool>) -> (stuck: Vec<usize>)
    requires
        marked@.len() == done@.len(),
    ensures
        forall|a: int| 0 <= a < stuck@.len() ==> stuck@[a] < marked@.len() && marked@[stuck@[a] as int] && !done@[stuck@[a] as int],
        forall|z: int| 0 <= z < marked@.len() && marked@[z] && !done@[z] ==> stuck@.contains(z as usize),
{
    let n = marked.len();
    let mut stuck: Vec<usize> = Vec::new();
    let mut y: usize = 0;
    while y < n
        invariant
            n == marked@.len(),
            done@.len() == n,
            y <= n,
            forall|a: int| 0 <= a < stuck@.len() ==> stuck@[a] < y && marked@[stuck@[a] as int] && !done@[stuck@[a] as int],
            forall|z: int| 0 <= z < y && marked@[z] && !done@[z] ==> stuck@.contains(z as usize),
        decreases n - y,
    {
        let ghost old_stuck = stuck@;
        if marked[y] && !done[y] {
            stuck.push(y);
        }
        proof {
            assert forall|z: int| 0 <= z < y + 1 && marked@[z] && !done@[z] implies stuck@.contains(z as usize) by {
                if z < y {
                    let b = choose|b: int| 0 <= b < old_stuck.len() && old_stuck[b] == z as usize;
                    assert(stuck@[b] == z as usize);
                } else {
                    assert(stuck@[stuck@.len() - 1] == y);
                }
            }
        }
        y = y + 1;
    }
    stuck
}

/// Orders the marked cases: repeatedly runs the earliest ready case.
fn order_selected(
    cases: &Vec<CaseSpec>,
    config: &RunConfig,
    hits: &Vec<bool>,
    targets: &Vec<Vec<Option<usize>>>,
    marked: &Vec<bool>,
) -> (r: Result<Vec<usize>, SelectError>)
    requires
        hits@.len() == cases@.len(),
        targets_ok(cases@, targets@),
        marked@.len() == cases@.len(),
        forall|x: int| 0 <= x < cases@.len() ==> (marked@[x] <==> selected(cases@, *config, hits@, x)),
        forall|x: int| selected(cases@, *config, hits@, x) ==> 0 <= x < cases@.len(),
        forall|x: int| selected(cases@, *config, hits@, x) ==> !has_missing_dependency(cases@, x),
        has_filter(*config),
        exists|x: int| direct(cases@, *config, hits@, x),
    ensures
        filtered_selection(cases@, *config, hits@, r),
{
    let n = cases.len();
    let ghost cs = cases@;
    let ghost cfg = *config;
    let ghost hs = hits@;
    let (order, done) = run_order(cases, config, hits, targets, marked);
    let stuck = collect_stuck(marked, &done);
    if stuck.len() == 0 {
        proof {
            assert forall|x: int| selected(cs, cfg, hs, x) implies #[trigger] order@.contains(
                x as usize,
            ) && 0 <= x < n by {
                assert(marked@[x]);
                if !done@[x] {
                    assert(stuck@.contains(x as usize));
                }
            }
            assert forall|x: int| #[trigger] order@.contains(x as usize) && 0 <= x < n implies selected(cs, cfg, hs, x) by {
                let b = choose|b: int| 0 <= b < order@.len() && order@[b] == x as usize;
                assert(marked@[order@[b] as int]);
            }
        }
        Ok(order)
    } else {
        proof {
            lemma_stuck(cs, cfg, hs, marked@, done@, order@, stuck@);
        }
        Err(SelectError::Cycle { cases: stuck })
    }
}

/// What [`select_cases`] returns when `hits[i]` tells whether the configured
/// pattern selects the name of case `i`.
pub open spec fn selection_outcome(
    cases: Seq<CaseSpec>,
    cfg: RunConfig,
    hits: Seq<bool>,
    r: Result<Vec<usize>, SelectError>,
) -> bool {
    &&& hits.len() == cases.len()
    &&& forall|i: int|
        0 <= i < cases.len() ==> #[trigger] hits[i] == (cfg.pattern matches Some(p)
            && pattern_selects(p@, cases[i].name@))
    &&& !has_filter(cfg) ==> unfiltered_selection(cases.len(), r)
    &&& has_filter(cfg) ==> match walk_stop(cases, cfg, hits) {
        Some(stop) => reports(cases, stop, r),
        None => filtered_outcome(cases, cfg, hits, r),
    }
}

/// Selects the cases a run executes, in order (see [`select_with_hits`]); the
/// configured pattern is matched against every case name first.
pub fn select_cases(cases: &Vec<CaseSpec>, config: &RunConfig) -> (r: Result<
    Vec<usize>,
    SelectError,
>)
    ensures
        exists|hits: Seq<bool>| #[trigger] selection_outcome(cases@, *config, hits, r),
{
    let mut hits: Vec<bool> = Vec::new();
    let mut i: usize = 0;
    while i < cases.len()
        invariant
            i <= cases@.len(),
            hits@.len() == i,
            forall|k: int|
                0 <= k < i ==> #[trigger] hits@[k] == (config.pattern matches Some(p)
                    && pattern_selects(p@, cases@[k].name@)),
        decreases cases.len() - i,
    {
        let hit = match &config.pattern {
            Some(p) => pattern_match(p.as_str(), cases[i].name.as_str()),
            None => false,
        };
        hits.push(hit);
        i = i + 1;
    }
    let r = select_with_hits(cases, config, &hits);
    assert(selection_outcome(cases@, *config, hits@, r));
    r
}

/// Every case of `stuck` depends on a case of `stuck`.
pub open spec fn each_waits_on_another(cases: Seq<CaseSpec>, stuck: Seq<usize>) -> bool {
    forall|a: int|
        #![trigger stuck[a]]
        0 <= a < stuck.len() ==> exists|b: int|
            0 <= b < stuck.len() && #[trigger] depends(cases, stuck[a] as int, stuck[b] as int)
}

/// No position before `n` in `order` holds a case of `stuck`, when every case
/// of `stuck` depends on one of `stuck` and `order` runs dependencies first.
proof fn lemma_stuck_never_placed(cases: Seq<CaseSpec>, stuck: Seq<usize>, order: Seq<usize>, n: int)
    requires
        0 <= n <= order.len(),
        respects_dependencies(cases, order),
        each_waits_on_another(cases, stuck),
    ensures
        forall|p: int| 0 <= p < n ==> !stuck.contains(#[trigger] order[p]),
    decreases n,
{
    if n > 0 {
        lemma_stuck_never_placed(cases, stuck, order, n - 1);
        let p = n - 1;
        if stuck.contains(order[p]) {
            let a = choose|a: int| 0 <= a < stuck.len() && stuck[a] == order[p];
            let b = choose|b: int|
                0 <= b < stuck.len() && #[trigger] depends(cases, stuck[a] as int, stuck[b] as int);
            assert(depends(cases, order[p] as int, stuck[b] as int));
            let q = choose|q: int| 0 <= q < p && order[q] == stuck[b] as int;
            assert(stuck.contains(order[q]));
        }
    }
}

/// A dependency cycle admits no run order: when every case of a non-empty
/// set depends on a case of the same set (as the cases of a `Cycle` error
/// do), no order that holds all of them runs each case after its
/// dependencies.
pub proof fn law_cycle_has_no_order(cases: Seq<CaseSpec>, stuck: Seq<usize>, order: Seq<usize>)
    requires
        stuck.len() > 0,
        each_waits_on_another(cases, stuck),
        forall|a: int| 0 <= a < stuck.len() ==> order.contains(#[trigger] stuck[a]),
    ensures
        !respects_dependencies(cases, order),
{
    if respects_dependencies(cases, order) {
        lemma_stuck_never_placed(cases, stuck, order, order.len() as int);
        assert(order.contains(stuck[0]));
        let p = choose|p: int| 0 <= p < order.len() && order[p] == stuck[0];
        assert(stuck.contains(order[p]));
    }
}

} // verus!
