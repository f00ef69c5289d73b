//! The values that flow through a mock: recorded arguments and canned
//! return values, each tagged with the Rust type it stands for.
use vstd::prelude::*;

verus! {

/// One argument or return slot of a mock call.
#[derive(Debug)]
pub enum Value {
    I64(i64),
    I32(i32),
    Isize(isize),
    U32(u32),
    U64(u64),
    U8(u8),
    Bool(bool),
    /// An owned `String`.
    Text(String),
    /// A `&'static str`, held by its characters.
    StaticStr(String),
    /// The unit value `()`.
    Unit,
    /// A value of some other type, held by a description of that type.
    Other(String),
}

/// The type a [`Value`] stands for; [`ValueKind::Other`] carries the type's
/// description.
#[derive(Debug)]
pub enum ValueKind {
    I64,
    I32,
    Isize,
    U32,
    U64,
    U8,
    Bool,
    Text,
    StaticStr,
    Unit,
    Other(String),
}

/// Two values are equal: same type and same contents.
pub open spec fn value_eq(a: Value, b: Value) -> bool {
    match a {
        Value::I64(x) => b == Value::I64(x),
        Value::I32(x) => b == Value::I32(x),
        Value::Isize(x) => b == Value::Isize(x),
        Value::U32(x) => b == Value::U32(x),
        Value::U64(x) => b == Value::U64(x),
        Value::U8(x) => b == Value::U8(x),
        Value::Bool(x) => b == Value::Bool(x),
        Value::Text(x) => b is Text && b->Text_0@ == x@,
        Value::StaticStr(x) => b is StaticStr && b->StaticStr_0@ == x@,
        Value::Unit => b is Unit,
        Value::Other(x) => b is Other && b->Other_0@ == x@,
    }
}

/// `v` is a value of type `k`.
pub open spec fn has_kind(v: Value, k: ValueKind) -> bool {
    match v {
        Value::I64(_) => k is I64,
        Value::I32(_) => k is I32,
        Value::Isize(_) => k is Isize,
        Value::U32(_) => k is U32,
        Value::U64(_) => k is U64,
        Value::U8(_) => k is U8,
        Value::Bool(_) => k is Bool,
        Value::Text(_) => k is Text,
        Value::StaticStr(_) => k is StaticStr,
        Value::Unit => k is Unit,
        Value::Other(x) => k is Other && k->Other_0@ == x@,
    }
}

/// The integer a value holds, for the integer types that are read as `i64`
/// (`i64`, `i32`, `isize`, `u32`, `u64`; a `u64` is reinterpreted as `i64`).
pub open spec fn int_of(v: Value) -> Option<i64> {
    match v {
        Value::I64(x) => Some(x),
        Value::I32(x) => Some(x as i64),
        Value::Isize(x) => Some(x as i64),
        Value::U32(x) => Some(x as i64),
        Value::U64(x) => Some(x as i64),
        _ => None,
    }
}

/// The text a value holds, for `String` and `&'static str` slots.
pub open spec fn text_of(v: Value) -> Option<Seq<char>> {
    match v {
        Value::Text(s) => Some(s@),
        Value::StaticStr(s) => Some(s@),
        _ => None,
    }
}

/// Whether `a` and `b` are equal values.
pub fn values_equal(a: &Value, b: &Value) -> (r: bool)
    ensures
        r == value_eq(*a, *b),
{
    match a {
        Value::I64(x) => match b {
            Value::I64(y) => *x == *y,
            _ => false,
        },
        Value::I32(x) => match b {
            Value::I32(y) => *x == *y,
            _ => false,
        },
        Value::Isize(x) => match b {
            Value::Isize(y) => *x == *y,
            _ => false,
        },
        Value::U32(x) => match b {
            Value::U32(y) => *x == *y,
            _ => false,
        },
        Value::U64(x) => match b {
            Value::U64(y) => *x == *y,
            _ => false,
        },
        Value::U8(x) => match b {
            Value::U8(y) => *x == *y,
            _ => false,
        },
        Value::Bool(x) => match b {
            Value::Bool(y) => *x == *y,
            _ => false,
        },
        Value::Text(x) => match b {
            Value::Text(y) => *x == *y,
            _ => false,
        },
        Value::StaticStr(x) => match b {
            Value::StaticStr(y) => *x == *y,
            _ => false,
        },
        Value::Unit => matches!(b, Value::Unit),
        Value::Other(x) => match b {
            Value::Other(y) => *x == *y,
            _ => false,
        },
    }
}

/// Whether `v` is a value of type `k`.
pub fn is_kind(v: &Value, k: &ValueKind) -> (r: bool)
    ensures
        r == has_kind(*v, *k),
{
    match v {
        Value::I64(_) => matches!(k, ValueKind::I64),
        Value::I32(_) => matches!(k, ValueKind::I32),
        Value::Isize(_) => matches!(k, ValueKind::Isize),
        Value::U32(_) => matches!(k, ValueKind::U32),
        Value::U64(_) => matches!(k, ValueKind::U64),
        Value::U8(_) => matches!(k, ValueKind::U8),
        Value::Bool(_) => matches!(k, ValueKind::Bool),
        Value::Text(_) => matches!(k, ValueKind::Text),
        Value::StaticStr(_) => matches!(k, ValueKind::StaticStr),
        Value::Unit => matches!(k, ValueKind::Unit),
        Value::Other(x) => match k {
            ValueKind::Other(y) => *x == *y,
            _ => false,
        },
    }
}

/// A copy of `v`.
pub fn copy_value(v: &Value) -> (r: Value)
    ensures
        r == *v,
{
    match v {
        Value::I64(x) => Value::I64(*x),
        Value::I32(x) => Value::I32(*x),
        Value::Isize(x) => Value::Isize(*x),
        Value::U32(x) => Value::U32(*x),
        Value::U64(x) => Value::U64(*x),
        Value::U8(x) => Value::U8(*x),
        Value::Bool(x) => Value::Bool(*x),
        Value::Text(s) => Value::Text(s.clone()),
        Value::StaticStr(s) => Value::StaticStr(s.clone()),
        Value::Unit => Value::Unit,
        Value::Other(s) => Value::Other(s.clone()),
    }
}

/// A copy of every value in `vs`, in order.
pub fn copy_values(vs: &Vec<Value>) -> (r: Vec<Value>)
    ensures
        r@ == vs@,
{
    let mut out: Vec<Value> = Vec::new();
    let mut i: usize = 0;
    while i < vs.len()
        invariant
            i <= vs.len(),
            out@ == vs@.subrange(0, i as int),
        decreases vs.len() - i,
    {
        out.push(copy_value(&vs[i]));
        i = i + 1;
        assert(out@ =~= vs@.subrange(0, i as int));
    }
    assert(out@ =~= vs@);
    out
}

} // verus!
