//! Argument matchers used when registering expectations and when checking
//! recorded calls.
use vstd::prelude::*;

use super::value::{has_kind, int_of, is_kind, text_of, value_eq, values_equal, Value, ValueKind};

verus! {

/// A test on one argument.
#[derive(Debug)]
pub enum Matcher {
    /// Accepts every argument.
    Anything,
    /// Accepts arguments of the given type.
    OfType(ValueKind),
    /// Accepts arguments equal to the given value (same type, same contents).
    Eq(Value),
}

/// Whether matcher `m` accepts argument `v`.
pub open spec fn accepts(m: Matcher, v: Value) -> bool {
    match m {
        Matcher::Anything => true,
        Matcher::OfType(k) => has_kind(v, k),
        Matcher::Eq(w) => value_eq(v, w),
    }
}

/// The matchers accept the arguments position by position, and there are as
/// many matchers as arguments.
pub open spec fn args_match(ms: Seq<Matcher>, vs: Seq<Value>) -> bool {
    &&& ms.len() == vs.len()
    &&& forall|i: int| 0 <= i < ms.len() ==> #[trigger] accepts(ms[i], vs[i])
}

/// A matcher that accepts any argument.
pub fn anything() -> (m: Matcher)
    ensures
        m == Matcher::Anything,
{
    Matcher::Anything
}

/// A matcher that accepts arguments of type `kind`.
pub fn anything_of_type(kind: ValueKind) -> (m: Matcher)
    ensures
        m == Matcher::OfType(kind),
{
    Matcher::OfType(kind)
}

/// A matcher that accepts arguments equal to `v`.
pub fn eq(v: Value) -> (m: Matcher)
    ensures
        m == Matcher::Eq(v),
{
    Matcher::Eq(v)
}

impl Matcher {
    /// Whether this matcher accepts `arg`.
    pub fn matches(&self, arg: &Value) -> (r: bool)
        ensures
            r == accepts(*self, *arg),
    {
        match self {
            Matcher::Anything => true,
            Matcher::OfType(k) => is_kind(arg, k),
            Matcher::Eq(w) => values_equal(arg, w),
        }
    }
}

/// Whether `matchers` accept `args` position by position.
pub fn all_match(matchers: &[Matcher], args: &[Value]) -> (r: bool)
    ensures
        r == args_match(matchers@, args@),
{
    if matchers.len() != args.len() {
        return false;
    }
    let mut i: usize = 0;
    while i < matchers.len()
        invariant
            matchers@.len() == args@.len(),
            i <= matchers.len(),
            forall|j: int| 0 <= j < i ==> #[trigger] accepts(matchers@[j], args@[j]),
        decreases matchers.len() - i,
    {
        if !matchers[i].matches(&args[i]) {
            return false;
        }
        i = i + 1;
    }
    true
}

/// `eq(w)` accepts `w` itself, and accepts only values of the same type with
/// the same contents: the same text for strings (owned or static), the same
/// integer for the integer types, the same truth value for `bool`, and the
/// same description for values of other types.
pub proof fn law_eq_accepts_only_equal_values(w: Value, v: Value)
    ensures
        accepts(Matcher::Eq(w), w),
        accepts(Matcher::Eq(w), v) ==> text_of(v) == text_of(w) && int_of(v) == int_of(w),
        accepts(Matcher::Eq(w), v) ==> (v is Text <==> w is Text) && (v is StaticStr <==> w is StaticStr)
            && (v is Unit <==> w is Unit),
        accepts(Matcher::Eq(w), v) && v is Bool ==> w == v,
        accepts(Matcher::Eq(w), v) && v is U8 ==> w == v,
        accepts(Matcher::Eq(w), v) && v is Other ==> w is Other && w->Other_0@ == v->Other_0@,
{
}

/// Two string arguments: `eq` on one accepts the other exactly when their
/// texts are equal.
pub proof fn law_eq_on_strings(x: String, y: String)
    ensures
        accepts(Matcher::Eq(Value::Text(x)), Value::Text(y)) <==> x@ == y@,
        accepts(Matcher::Eq(Value::StaticStr(x)), Value::StaticStr(y)) <==> x@ == y@,
{
    if accepts(Matcher::Eq(Value::Text(x)), Value::Text(y)) {
        law_eq_accepts_only_equal_values(Value::Text(x), Value::Text(y));
    }
    if accepts(Matcher::Eq(Value::StaticStr(x)), Value::StaticStr(y)) {
        law_eq_accepts_only_equal_values(Value::StaticStr(x), Value::StaticStr(y));
    }
}

} // verus!
