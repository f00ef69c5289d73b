//! Typed access to the values of one mock call, and the check of a call's
//! arguments against matchers.
use vstd::prelude::*;

use super::matchers::{accepts, args_match, Matcher};
use super::value::{int_of, text_of, Value};
use crate::text::{decimal, push_decimal};

verus! {

/// Receives the failures found by mock checks, in the manner of a test
/// context: `errorf` records a message and `fail_now` marks the check failed.
pub trait TestingT {
    /// Records a failure message.
    fn errorf(&self, msg: &str);

    /// Marks the current test or check as failed.
    fn fail_now(&self);
}

/// The argument list (or return list) of one mock call.
pub struct Arguments {
    values: Vec<Value>,
}

impl View for Arguments {
    type V = Seq<Value>;

    closed spec fn view(&self) -> Seq<Value> {
        self.values@
    }
}

/// The `Debug` text of `TypeId::of::<T>()`. What it reads depends on the
/// compiler that built the program, so nothing is claimed of the text.
#[verifier::external_body]
pub(crate) fn type_id_text<T: ?Sized + 'static>() -> String {
    format!("{:?}", std::any::TypeId::of::<T>())
}

/// `s` is what `error_display` shows for `v`: the text of a string slot, the
/// carried type text of a value of another type, and otherwise a text that
/// `type_id_text` gives for the type the value stands for.
pub closed spec fn displays_as(v: Value, s: String) -> bool {
    match v {
        Value::Text(t) => s@ == t@,
        Value::StaticStr(t) => s@ == t@,
        Value::Other(d) => s@ == d@,
        Value::I64(_) => call_ensures(type_id_text::<i64>, (), s),
        Value::I32(_) => call_ensures(type_id_text::<i32>, (), s),
        Value::Isize(_) => call_ensures(type_id_text::<isize>, (), s),
        Value::U32(_) => call_ensures(type_id_text::<u32>, (), s),
        Value::U64(_) => call_ensures(type_id_text::<u64>, (), s),
        Value::U8(_) => call_ensures(type_id_text::<u8>, (), s),
        Value::Bool(_) => call_ensures(type_id_text::<bool>, (), s),
        Value::Unit => call_ensures(type_id_text::<()>, (), s),
    }
}

/// The message reported when the argument count differs from the matcher count.
pub open spec fn count_mismatch_message(got: nat, want: nat) -> Seq<char> {
    "argument count mismatch: got "@ + decimal(got) + " want "@ + decimal(want)
}

/// The message reported when argument `i` is rejected by its matcher.
pub open spec fn mismatch_message(i: nat) -> Seq<char> {
    "argument "@ + decimal(i) + " did not match"@
}

/// The outcome of checking `vs` against `ms`: `None` when they match, else
/// the message for the first failed check.
pub open spec fn match_failure(ms: Seq<Matcher>, vs: Seq<Value>, m: Seq<char>) -> bool {
    if vs.len() != ms.len() {
        m == count_mismatch_message(vs.len(), ms.len())
    } else {
        exists|i: int|
            0 <= i < vs.len() && !accepts(ms[i], vs[i]) && (forall|j: int|
                0 <= j < i ==> #[trigger] accepts(ms[j], vs[j])) && m == mismatch_message(i as nat)
    }
}

impl Arguments {
    /// Wraps the values of one call, one per positional slot.
    pub fn from_boxes(values: Vec<Value>) -> (a: Arguments)
        ensures
            a@ == values@,
    {
        Arguments { values }
    }

    /// The values, in slot order.
    pub fn into_boxes(self) -> (values: Vec<Value>)
        ensures
            values@ == self@,
    {
        self.values
    }

    /// Number of slots.
    pub fn len(&self) -> (n: usize)
        ensures
            n == self@.len(),
    {
        self.values.len()
    }

    /// Whether there are no slots.
    pub fn is_empty(&self) -> (r: bool)
        ensures
            r == (self@.len() == 0),
    {
        self.values.len() == 0
    }

    /// The slots as a slice.
    pub fn as_raw(&self) -> (s: &[Value])
        ensures
            s@ == self@,
    {
        self.values.as_slice()
    }

    /// Slot `index`, if there is one.
    pub fn get(&self, index: usize) -> (r: Option<&Value>)
        ensures
            match r {
                Some(v) => index < self@.len() && *v == self@[index as int],
                None => index >= self@.len(),
            },
    {
        if index < self.values.len() {
            Some(&self.values[index])
        } else {
            None
        }
    }

    /// Reads an integer slot (`i64`, `i32`, `isize`, `u32` or `u64`) as `i64`.
    pub fn int_value(&self, index: usize) -> (n: i64)
        requires
            index < self@.len(),
            int_of(self@[index as int]) is Some,
        ensures
            int_of(self@[index as int]) == Some(n),
    {
        match &self.values[index] {
            Value::I64(x) => *x,
            Value::I32(x) => *x as i64,
            Value::Isize(x) => *x as i64,
            Value::U32(x) => *x as i64,
            Value::U64(x) => *x as i64,
            _ => 0,
        }
    }

    /// Reads a `bool` slot.
    pub fn bool(&self, index: usize) -> (b: bool)
        requires
            index < self@.len(),
            self@[index as int] is Bool,
        ensures
            self@[index as int] == Value::Bool(b),
    {
        match &self.values[index] {
            Value::Bool(b) => *b,
            _ => false,
        }
    }

    /// Reads a `String` or `&'static str` slot.
    pub fn string(&self, index: usize) -> (s: String)
        requires
            index < self@.len(),
            text_of(self@[index as int]) is Some,
        ensures
            text_of(self@[index as int]) == Some(s@),
    {
        match &self.values[index] {
            Value::Text(s) => s.clone(),
            Value::StaticStr(s) => s.clone(),
            _ => String::new(),
        }
    }

    /// A readable form of an error-like slot: the text of a string slot,
    /// otherwise the `Debug` text of the slot's `TypeId` (carried by an
    /// [`Value::Other`] slot, obtained for the other types).
    pub fn error_display(&self, index: usize) -> (s: String)
        requires
            index < self@.len(),
        ensures
            displays_as(self@[index as int], s),
            text_of(self@[index as int]) matches Some(t) ==> s@ == t,
            self@[index as int] matches Value::Other(d) ==> s@ == d@,
    {
        match &self.values[index] {
            Value::Text(s) => s.clone(),
            Value::StaticStr(s) => s.clone(),
            Value::Other(d) => d.clone(),
            Value::I64(_) => type_id_text::<i64>(),
            Value::I32(_) => type_id_text::<i32>(),
            Value::Isize(_) => type_id_text::<isize>(),
            Value::U32(_) => type_id_text::<u32>(),
            Value::U64(_) => type_id_text::<u64>(),
            Value::U8(_) => type_id_text::<u8>(),
            Value::Bool(_) => type_id_text::<bool>(),
            Value::Unit => type_id_text::<()>(),
        }
    }

    /// Checks the slots against `expected`: `Ok` when they match position by
    /// position, otherwise the message for the first failed check.
    pub fn check_matches(&self, expected: &[Matcher]) -> (r: Result<(), String>)
        ensures
            r is Ok <==> args_match(expected@, self@),
            r matches Err(m) ==> match_failure(expected@, self@, m@),
    {
        if self.values.len() != expected.len() {
            let mut m = String::from_str("argument count mismatch: got ");
            push_decimal(&mut m, self.values.len() as u128);
            m.append(" want ");
            push_decimal(&mut m, expected.len() as u128);
            return Err(m);
        }
        let mut i: usize = 0;
        while i < expected.len()
            invariant
                expected@.len() == self@.len(),
                self.values@ == self@,
                i <= expected.len(),
                forall|j: int| 0 <= j < i ==> #[trigger] accepts(expected@[j], self@[j]),
            decreases expected.len() - i,
        {
            if !expected[i].matches(&self.values[i]) {
                let mut m = String::from_str("argument ");
                push_decimal(&mut m, i as u128);
                m.append(" did not match");
                proof {
                    assert(m@ == mismatch_message(i as nat));
                    assert(!args_match(expected@, self@));
                }
                return Err(m);
            }
            i = i + 1;
        }
        Ok(())
    }

    /// Checks the slots against `expected`; on the first failure, reports its
    /// message through `testing.errorf`, calls `testing.fail_now` and returns
    /// `false`.
    pub fn assert_matches<T: TestingT>(&self, testing: &T, expected: &[Matcher]) -> (r: bool)
        ensures
            r == args_match(expected@, self@),
    {
        match self.check_matches(expected) {
            Ok(()) => true,
            Err(m) => {
                testing.errorf(m.as_str());
                testing.fail_now();
                false
            },
        }
    }
}

} // verus!
