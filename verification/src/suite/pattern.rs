//! Case-name patterns: `*` globs, verified against a declarative definition,
//! and regular expressions, delegated to the `regex` crate.
use vstd::prelude::*;

use crate::text::{chars_of, ends_with, find_from, matches_at, occurs_at, starts_with};

verus! {

/// `s` matches the glob `p`, where `*` matches any run of characters
/// (possibly empty) and every other character matches itself.
pub open spec fn glob(p: Seq<char>, s: Seq<char>) -> bool
    decreases p.len() + s.len(),
{
    if p.len() == 0 {
        s.len() == 0
    } else if p[0] == '*' {
        glob(p.drop_first(), s) || (s.len() > 0 && glob(p, s.drop_first()))
    } else {
        s.len() > 0 && s[0] == p[0] && glob(p.drop_first(), s.drop_first())
    }
}

/// `lit` holds no `*`.
pub open spec fn star_free(lit: Seq<char>) -> bool {
    forall|i: int| 0 <= i < lit.len() ==> lit[i] != '*'
}

/// The characters that make a pattern a regular expression rather than a glob.
pub open spec fn is_regex_char(c: char) -> bool {
    c == '^' || c == '$' || c == '.' || c == '+' || c == '?' || c == '(' || c == ')' || c == '['
        || c == ']' || c == '{' || c == '|'
}

/// The pattern is read as a regular expression.
pub open spec fn is_regex(p: Seq<char>) -> bool {
    exists|i: int| 0 <= i < p.len() && is_regex_char(#[trigger] p[i])
}

/// Whether the `regex` crate accepts `pattern` (under its default size limit).
pub uninterp spec fn regex_compiles(pattern: Seq<char>) -> bool;

/// Whether the regular expression compiled from `pattern` matches anywhere in `haystack`.
pub uninterp spec fn regex_finds(pattern: Seq<char>, haystack: Seq<char>) -> bool;

/// What a name pattern selects: a regular expression matches when it compiles
/// and finds a match; otherwise the pattern is a glob.
pub open spec fn pattern_selects(
    pattern: Seq<char>,
    name: Seq<char>,
) -> bool {
    if is_regex(pattern) {
        regex_compiles(pattern) && regex_finds(pattern, name)
    } else {
        glob(pattern, name)
    }
}

proof fn lemma_star_intro(q: Seq<char>, t: Seq<char>, k: int)
    requires
        0 <= k <= t.len(),
        glob(q, t.skip(k)),
    ensures
        glob(seq!['*'] + q, t),
    decreases k,
{
    let p = seq!['*'] + q;
    assert(p.drop_first() =~= q);
    if k == 0 {
        assert(t.skip(0) =~= t);
    } else {
        assert(t.drop_first().skip(k - 1) =~= t.skip(k));
        lemma_star_intro(q, t.drop_first(), k - 1);
    }
}

proof fn lemma_star_elim(q: Seq<char>, t: Seq<char>) -> (k: int)
    requires
        glob(seq!['*'] + q, t),
    ensures
        0 <= k <= t.len(),
        glob(q, t.skip(k)),
    decreases t.len(),
{
    let p = seq!['*'] + q;
    assert(p.drop_first() =~= q);
    if glob(q, t) {
        assert(t.skip(0) =~= t);
        0
    } else {
        let j = lemma_star_elim(q, t.drop_first());
        assert(t.drop_first().skip(j) =~= t.skip(j + 1));
        j + 1
    }
}

proof fn lemma_literal(lit: Seq<char>, q: Seq<char>, t: Seq<char>)
    requires
        star_free(lit),
    ensures
        glob(lit + q, t) <==> (starts_with(t, lit) && glob(q, t.skip(lit.len() as int))),
    decreases lit.len(),
{
    if lit.len() == 0 {
        assert(lit + q =~= q);
        assert(t.skip(0) =~= t);
        assert(t.subrange(0, 0) =~= lit);
    } else {
        let p = lit + q;
        assert(p[0] == lit[0]);
        assert(lit[0] != '*');
        assert(p.drop_first() =~= lit.drop_first() + q);
        assert(glob(p, t) == (t.len() > 0 && t[0] == p[0] && glob(p.drop_first(), t.drop_first())));
        assert(star_free(lit.drop_first())) by {
            assert forall|i: int| 0 <= i < lit.drop_first().len() implies lit.drop_first()[i] != '*' by {
                assert(lit.drop_first()[i] == lit[i + 1]);
            }
        }
        if t.len() > 0 {
            lemma_literal(lit.drop_first(), q, t.drop_first());
            if lit.len() <= t.len() {
                assert(t.drop_first().skip(lit.len() - 1) =~= t.skip(lit.len() as int));
                if starts_with(t, lit) {
                    assert(t.drop_first().subrange(0, lit.len() - 1) =~= lit.drop_first());
                    assert(t[0] == t.subrange(0, lit.len() as int)[0]);
                }
                if t[0] == lit[0] && starts_with(t.drop_first(), lit.drop_first()) {
                    assert forall|i: int| 0 <= i < lit.len() implies t.subrange(
                        0,
                        lit.len() as int,
                    )[i] == lit[i] by {
                        if i > 0 {
                            assert(t.drop_first().subrange(0, lit.len() - 1)[i - 1] == lit.drop_first()[i - 1]);
                        }
                    }
                    assert(t.subrange(0, lit.len() as int) =~= lit);
                }
            } else {
                assert(!starts_with(t, lit));
                assert(!starts_with(t.drop_first(), lit.drop_first()));
            }
        }
    }
}

proof fn lemma_empty_pattern(t: Seq<char>)
    ensures
        glob(Seq::empty(), t) <==> t.len() == 0,
{
}

proof fn lemma_literal_exact(lit: Seq<char>, t: Seq<char>)
    requires
        star_free(lit),
    ensures
        glob(lit, t) <==> t == lit,
{
    assert(lit + Seq::<char>::empty() =~= lit);
    lemma_literal(lit, Seq::empty(), t);
    lemma_empty_pattern(t.skip(lit.len() as int));
    if t == lit {
        assert(t.skip(lit.len() as int) =~= Seq::<char>::empty());
        assert(t.subrange(0, lit.len() as int) =~= lit);
    }
    if starts_with(t, lit) && t.skip(lit.len() as int).len() == 0 {
        assert(t.len() == lit.len());
        assert(t =~= t.subrange(0, lit.len() as int));
    }
}

proof fn lemma_star_literal_tail(lit: Seq<char>, t: Seq<char>)
    requires
        star_free(lit),
    ensures
        glob(seq!['*'] + lit, t) <==> ends_with(t, lit),
{
    if glob(seq!['*'] + lit, t) {
        let k = lemma_star_elim(lit, t);
        lemma_literal_exact(lit, t.skip(k));
        assert(t.subrange(t.len() - lit.len(), t.len() as int) =~= t.skip(k));
    }
    if ends_with(t, lit) {
        let k = t.len() - lit.len();
        assert(t.skip(k) =~= lit);
        lemma_literal_exact(lit, t.skip(k));
        lemma_star_intro(lit, t, k);
    }
}

proof fn lemma_star_collapse(q: Seq<char>, t: Seq<char>)
    ensures
        glob(seq!['*'] + (seq!['*'] + q), t) <==> glob(seq!['*'] + q, t),
{
    let sq = seq!['*'] + q;
    if glob(seq!['*'] + sq, t) {
        let k = lemma_star_elim(sq, t);
        let j = lemma_star_elim(q, t.skip(k));
        assert(t.skip(k).skip(j) =~= t.skip(k + j));
        lemma_star_intro(q, t, k + j);
    }
    if glob(sq, t) {
        assert(t.skip(0) =~= t);
        lemma_star_intro(sq, t, 0);
    }
}

/// After a star, a star-free literal followed by another star is matched at its
/// leftmost occurrence without losing any match.
proof fn lemma_star_literal_greedy(lit: Seq<char>, q: Seq<char>, t: Seq<char>, f: int)
    requires
        star_free(lit),
        occurs_at(t, lit, f),
        forall|k: int| 0 <= k < f ==> !occurs_at(t, lit, k),
    ensures
        glob(seq!['*'] + (lit + (seq!['*'] + q)), t) <==> glob(
            seq!['*'] + q,
            t.skip(f + lit.len()),
        ),
{
    let sq = seq!['*'] + q;
    let body = lit + sq;
    if glob(seq!['*'] + body, t) {
        let k = lemma_star_elim(body, t);
        lemma_literal(lit, sq, t.skip(k));
        assert(t.skip(k).subrange(0, lit.len() as int) =~= t.subrange(k, k + lit.len()));
        assert(occurs_at(t, lit, k));
        assert(f <= k);
        assert(t.skip(k).skip(lit.len() as int) =~= t.skip(k + lit.len()));
        let j = lemma_star_elim(q, t.skip(k + lit.len()));
        let off = k - f + j;
        assert(t.skip(f + lit.len()).skip(off) =~= t.skip(k + lit.len()).skip(j));
        lemma_star_intro(q, t.skip(f + lit.len()), off);
    }
    if glob(sq, t.skip(f + lit.len())) {
        assert(t.skip(f).subrange(0, lit.len() as int) =~= t.subrange(f, f + lit.len()));
        assert(t.skip(f).skip(lit.len() as int) =~= t.skip(f + lit.len()));
        lemma_literal(lit, sq, t.skip(f));
        lemma_star_intro(body, t, f);
    }
}

proof fn lemma_occurs_shift(t: Seq<char>, lit: Seq<char>, pos: int, i: int)
    requires
        0 <= pos <= t.len(),
    ensures
        occurs_at(t.skip(pos), lit, i) <==> (0 <= i && occurs_at(t, lit, pos + i)),
{
    if 0 <= i && i + lit.len() <= t.len() - pos {
        assert(t.skip(pos).subrange(i, i + lit.len()) =~= t.subrange(pos + i, pos + i + lit.len()));
    }
}

/// The next `*` in `p` at or after `from`, if any.
fn next_star(p: &Vec<char>, from: usize) -> (r: Option<usize>)
    requires
        from <= p.len(),
    ensures
        match r {
            Some(b) => from <= b < p.len() && p@[b as int] == '*' && star_free(
                p@.subrange(from as int, b as int),
            ),
            None => star_free(p@.subrange(from as int, p.len() as int)),
        },
{
    let mut i = from;
    while i < p.len()
        invariant
            from <= i <= p.len(),
            star_free(p@.subrange(from as int, i as int)),
        decreases p.len() - i,
    {
        if p[i] == '*' {
            return Some(i);
        }
        proof {
            assert forall|k: int| 0 <= k < i + 1 - from implies #[trigger] p@.subrange(
                from as int,
                i + 1,
            )[k] != '*' by {
                if k < i - from {
                    assert(p@.subrange(from as int, i + 1)[k] == p@.subrange(
                        from as int,
                        i as int,
                    )[k]);
                }
            }
        }
        i = i + 1;
    }
    None
}

/// Copies `p[from..to]` into a new vector.
fn slice_chars(p: &Vec<char>, from: usize, to: usize) -> (r: Vec<char>)
    requires
        from <= to <= p.len(),
    ensures
        r@ == p@.subrange(from as int, to as int),
{
    let mut r: Vec<char> = Vec::new();
    let mut i = from;
    while i < to
        invariant
            from <= i <= to <= p.len(),
            r@ == p@.subrange(from as int, i as int),
        decreases to - i,
    {
        r.push(p[i]);
        i = i + 1;
        assert(r@ =~= p@.subrange(from as int, i as int));
    }
    r
}

/// Whether `name` matches the glob `pattern` (`*` matches any characters).
pub fn glob_match(pattern: &str, name: &str) -> (r: bool)
    ensures
        r == glob(pattern@, name@),
{
    let p = chars_of(pattern);
    let s = chars_of(name);
    let first = next_star(&p, 0);
    let a0 = match first {
        None => {
            proof {
                assert(p@.subrange(0, p.len() as int) =~= p@);
                lemma_literal_exact(p@, s@);
            }
            if p.len() != s.len() {
                return false;
            }
            let r = matches_at(&s, &p, 0);
            proof {
                assert(s@.subrange(0, p.len() as int) =~= s@);
            }
            return r;
        },
        Some(a) => a,
    };
    // The literal before the first star must be a prefix of the name.
    let lit0 = slice_chars(&p, 0, a0);
    if !matches_at(&s, &lit0, 0) {
        proof {
            assert(p@ =~= lit0@ + p@.skip(a0 as int));
            lemma_literal(lit0@, p@.skip(a0 as int), s@);
        }
        return false;
    }
    let mut a = a0;
    let mut pos = a0;
    proof {
        assert(p@ =~= lit0@ + p@.skip(a0 as int));
        lemma_literal(lit0@, p@.skip(a0 as int), s@);
        assert(s@.subrange(0, lit0@.len() as int) == lit0@);
    }
    loop
        invariant
            a < p.len(),
            p@[a as int] == '*',
            pos <= s.len(),
            glob(pattern@, name@) == glob(p@.skip(a as int), s@.skip(pos as int)),
            p@ == pattern@,
            s@ == name@,
        decreases p.len() - a,
    {
        let ghost t = s@.skip(pos as int);
        let next = next_star(&p, a + 1);
        match next {
            None => {
                let lit = slice_chars(&p, a + 1, p.len());
                proof {
                    assert(p@.skip(a as int) =~= seq!['*'] + lit@);
                    lemma_star_literal_tail(lit@, t);
                }
                if lit.len() > s.len() - pos {
                    return false;
                }
                let r = matches_at(&s, &lit, s.len() - lit.len());
                proof {
                    assert(t.subrange(t.len() - lit@.len(), t.len() as int) =~= s@.subrange(
                        s.len() - lit.len(),
                        s.len() as int,
                    ));
                }
                return r;
            },
            Some(b) => {
                let lit = slice_chars(&p, a + 1, b);
                let ghost rest = p@.skip(b as int);
                proof {
                    assert(rest =~= seq!['*'] + rest.drop_first());
                    assert(p@.skip(a as int) =~= seq!['*'] + (lit@ + rest));
                }
                if lit.len() == 0 {
                    proof {
                        assert(lit@ + rest =~= rest);
                        lemma_star_collapse(rest.drop_first(), t);
                    }
                    a = b;
                } else {
                    match find_from(&s, &lit, pos) {
                        None => {
                            proof {
                                if glob(p@.skip(a as int), t) {
                                    let k = lemma_star_elim(lit@ + rest, t);
                                    lemma_literal(lit@, rest, t.skip(k));
                                    assert(t.skip(k).subrange(0, lit@.len() as int)
                                        =~= s@.subrange(pos + k, pos + k + lit@.len()));
                                    assert(occurs_at(s@, lit@, pos + k));
                                }
                            }
                            return false;
                        },
                        Some(f) => {
                            proof {
                                let g = f - pos;
                                lemma_occurs_shift(s@, lit@, pos as int, g);
                                assert forall|k: int| 0 <= k < g implies !occurs_at(
                                    t,
                                    lit@,
                                    k,
                                ) by {
                                    lemma_occurs_shift(s@, lit@, pos as int, k);
                                }
                                lemma_star_literal_greedy(lit@, rest.drop_first(), t, g);
                                assert(t.skip(g + lit@.len()) =~= s@.skip(f + lit@.len()));
                            }
                            pos = f + lit.len();
                            a = b;
                        },
                    }
                }
            },
        }
    }
}

/// Whether a name pattern is read as a regular expression: it holds one of
/// `^ $ . + ? ( ) [ ] { |`.
pub fn is_regex_pattern(pattern: &str) -> (r: bool)
    ensures
        r == is_regex(pattern@),
{
    let p = chars_of(pattern);
    let mut i: usize = 0;
    while i < p.len()
        invariant
            p@ == pattern@,
            i <= p.len(),
            forall|k: int| 0 <= k < i ==> !is_regex_char(#[trigger] p@[k]),
        decreases p.len() - i,
    {
        let c = p[i];
        if c == '^' || c == '$' || c == '.' || c == '+' || c == '?' || c == '(' || c == ')' || c
            == '[' || c == ']' || c == '{' || c == '|' {
            assert(is_regex_char(p@[i as int]));
            return true;
        }
        i = i + 1;
    }
    false
}

/// Compiles `pattern` with `regex::Regex::new` and, when that succeeds, runs
/// `Regex::is_match` on `haystack`. The result is `None` exactly when the
/// pattern does not compile; otherwise it is whether the expression matches.
#[verifier::external_body]
fn regex_search(pattern: &str, haystack: &str) -> (r: Option<bool>)
    ensures
        r is Some <==> regex_compiles(pattern@),
        r matches Some(found) ==> found == regex_finds(pattern@, haystack@),
{
    match regex::Regex::new(pattern) {
        Ok(re) => Some(re.is_match(haystack)),
        Err(_) => None,
    }
}

/// Whether a case named `name` is selected by `pattern`: a pattern holding a
/// regular-expression character is compiled as a regular expression (an
/// invalid one selects nothing); any other pattern is a `*` glob.
pub fn pattern_match(pattern: &str, name: &str) -> (r: bool)
    ensures
        r == pattern_selects(pattern@, name@),
{
    if is_regex_pattern(pattern) {
        match regex_search(pattern, name) {
            Some(found) => found,
            None => false,
        }
    } else {
        glob_match(pattern, name)
    }
}

/// A character that makes a name pattern a regular expression: one of
/// `^ $ . + ? ( ) [ ] { |`.
pub open spec fn metacharacter_at(p: Seq<char>, i: int) -> bool {
    0 <= i < p.len() && (p[i] == '^' || p[i] == '$' || p[i] == '.' || p[i] == '+' || p[i] == '?'
        || p[i] == '(' || p[i] == ')' || p[i] == '[' || p[i] == ']' || p[i] == '{' || p[i] == '|')
}

/// A name pattern that holds one of `^ $ . + ? ( ) [ ] { |` is read as a
/// regular expression: it selects a name exactly when it compiles and finds a
/// match in it. A pattern that holds none of them is a `*` glob.
pub proof fn law_metacharacters_make_a_regex(p: Seq<char>, n: Seq<char>)
    ensures
        is_regex(p) <==> exists|i: int| #[trigger] metacharacter_at(p, i),
        (exists|i: int| #[trigger] metacharacter_at(p, i)) ==> pattern_selects(p, n) == (
        regex_compiles(p) && regex_finds(p, n)),
        (forall|i: int| !#[trigger] metacharacter_at(p, i)) ==> pattern_selects(p, n) == glob(p, n),
{
    if is_regex(p) {
        let i = choose|i: int| 0 <= i < p.len() && is_regex_char(#[trigger] p[i]);
        assert(metacharacter_at(p, i));
    }
    if exists|i: int| #[trigger] metacharacter_at(p, i) {
        let i = choose|i: int| #[trigger] metacharacter_at(p, i);
        assert(is_regex_char(p[i]));
    }
}

/// A pattern with `|` in it is a regular expression, whatever else it holds.
pub proof fn law_alternation_is_regex(p: Seq<char>, n: Seq<char>, i: int)
    requires
        0 <= i < p.len(),
        p[i] == '|',
    ensures
        pattern_selects(p, n) == (regex_compiles(p) && regex_finds(p, n)),
{
    law_metacharacters_make_a_regex(p, n);
    assert(metacharacter_at(p, i));
}

} // verus!
