//! Test doubles: expectations registered per method, matched against calls
//! in registration order, with call counting and verification afterwards.
use vstd::prelude::*;

pub mod arguments;
pub mod matchers;
pub mod value;

pub use arguments::{Arguments, TestingT};
pub use matchers::{anything, anything_of_type, eq, Matcher};
pub use value::{Value, ValueKind};

use core::time::Duration;
use crate::text::{decimal, push_decimal};
use matchers::{all_match, args_match};
use value::copy_values;

verus! {

/// One registered expectation and its bookkeeping.
pub struct Expectation {
    /// Position of the expectation in registration order.
    pub id: usize,
    pub method: String,
    pub matchers: Vec<Matcher>,
    /// The values handed back on each matching call.
    pub outputs: Vec<Value>,
    /// Calls still allowed (`None`: no limit).
    pub remaining: Option<u32>,
    /// Whether the expectation may go uncalled.
    pub maybe: bool,
    /// Whether the expectation was withdrawn with `unset`.
    pub removed: bool,
    /// How long a matching call waits before returning.
    pub delay: Option<Duration>,
    /// The panic message a matching call raises.
    pub panic_msg: Option<String>,
    /// Matching calls so far.
    pub invocations: u32,
    /// The exact number of calls required (`None`: at least one).
    pub assert_exact: Option<u32>,
}

/// A call that was matched and recorded.
pub struct RecordedCall {
    pub method: String,
    pub args: Vec<Value>,
}

/// What a matched call hands back to the caller of the mocked method.
pub struct Reply {
    /// The expectation that matched.
    pub id: usize,
    pub outputs: Arguments,
    pub delay: Option<Duration>,
    pub panic_msg: Option<String>,
}

/// A mock object: expectations in registration order and the calls that
/// matched them.
pub struct Mock {
    expectations: Vec<Expectation>,
    calls: Vec<RecordedCall>,
}

/// Started by [`Mock::on`]: the method and argument matchers of an expectation.
pub struct CallBuilder {
    pub method: String,
    pub matchers: Vec<Matcher>,
}

/// An expectation with its return values, waiting for its call count.
pub struct PostReturn {
    pub method: String,
    pub matchers: Vec<Matcher>,
    pub outputs: Vec<Value>,
    pub delay: Option<Duration>,
    pub panic_msg: Option<String>,
}

/// Handle to a registered expectation.
pub struct ActiveExpectation {
    pub id: usize,
}

/// Expectation `e` can take a call of `method` with `args`.
pub open spec fn callable(e: Expectation, method: Seq<char>, args: Seq<Value>) -> bool {
    &&& !e.removed
    &&& e.method@ == method
    &&& (e.remaining matches Some(n) ==> n > 0)
    &&& args_match(e.matchers@, args)
}

/// The first expectation that can take the call, if any.
pub open spec fn first_callable(exps: Seq<Expectation>, method: Seq<char>, args: Seq<Value>, i: int) -> bool {
    &&& 0 <= i < exps.len()
    &&& callable(exps[i], method, args)
    &&& forall|j: int| 0 <= j < i ==> !callable(#[trigger] exps[j], method, args)
}

/// Expectation `i` can take the call and is not set aside by `skip` (an
/// entry `true` sets the expectation at that position aside; positions past
/// the end of `skip` are not set aside).
pub open spec fn takes(exps: Seq<Expectation>, skip: Seq<bool>, method: Seq<char>, args: Seq<Value>, i: int) -> bool {
    callable(exps[i], method, args) && !(i < skip.len() && skip[i])
}

/// The first expectation that takes the call, with `skip` setting some aside.
pub open spec fn first_taker(exps: Seq<Expectation>, skip: Seq<bool>, method: Seq<char>, args: Seq<Value>, i: int) -> bool {
    &&& 0 <= i < exps.len()
    &&& takes(exps, skip, method, args, i)
    &&& forall|j: int| 0 <= j < i ==> !#[trigger] takes(exps, skip, method, args, j)
}

/// Expectation `e` after one more matching call.
pub open spec fn after_call(e: Expectation) -> Expectation {
    Expectation {
        invocations: (e.invocations + 1) as u32,
        remaining: match e.remaining {
            Some(n) => Some((n - 1) as u32),
            None => None,
        },
        ..e
    }
}

/// Expectation `e` is met: withdrawn, optional, or called as often as required
/// (exactly `n` times, or at least once when no count was given).
pub open spec fn satisfied(e: Expectation) -> bool {
    ||| e.removed
    ||| e.maybe
    ||| match e.assert_exact {
        Some(n) => e.invocations == n,
        None => e.invocations >= 1,
    }
}

/// The report for an expectation that is not met.
pub open spec fn unmet_message(e: Expectation) -> Seq<char> {
    "expectation for "@ + e.method@ + " not met: got "@ + decimal(e.invocations as nat)
        + " invocations"@
}

/// Every expectation is met.
pub open spec fn all_satisfied(exps: Seq<Expectation>) -> bool {
    forall|i: int| 0 <= i < exps.len() ==> #[trigger] satisfied(exps[i])
}

/// Some recorded call of `method` has arguments accepted by `ms`.
pub open spec fn called_with(calls: Seq<RecordedCall>, method: Seq<char>, ms: Seq<Matcher>) -> bool {
    exists|i: int|
        0 <= i < calls.len() && (#[trigger] calls[i]).method@ == method && args_match(
            ms,
            calls[i].args@,
        )
}

/// The number of recorded calls of `method`.
pub open spec fn count_calls(calls: Seq<RecordedCall>, method: Seq<char>) -> nat
    decreases calls.len(),
{
    if calls.len() == 0 {
        0
    } else {
        count_calls(calls.drop_last(), method) + if calls.last().method@ == method {
            1nat
        } else {
            0nat
        }
    }
}

impl PostReturn {
    /// The expectation this builder registers under `id`.
    pub open spec fn registered(
        self,
        id: usize,
        remaining: Option<u32>,
        exact: Option<u32>,
        maybe: bool,
    ) -> Expectation {
        Expectation {
            id,
            method: self.method,
            matchers: self.matchers,
            outputs: self.outputs,
            remaining,
            maybe,
            removed: false,
            delay: self.delay,
            panic_msg: self.panic_msg,
            invocations: 0,
            assert_exact: exact,
        }
    }
}

impl Mock {
    /// The registered expectations, in registration order.
    pub closed spec fn expectations(&self) -> Seq<Expectation> {
        self.expectations@
    }

    /// The calls that matched an expectation, in call order.
    pub closed spec fn calls(&self) -> Seq<RecordedCall> {
        self.calls@
    }

    /// Each expectation's id is its position.
    pub open spec fn wf(&self) -> bool {
        forall|i: int| 0 <= i < self.expectations().len() ==> #[trigger] self.expectations()[i].id == i
    }

    /// A mock with no expectations and no calls.
    pub fn new() -> (m: Mock)
        ensures
            m.wf(),
            m.expectations().len() == 0,
            m.calls().len() == 0,
    {
        Mock { expectations: Vec::new(), calls: Vec::new() }
    }

    /// Starts an expectation for calls of `method` whose arguments `matchers`
    /// accept.
    pub fn on(&self, method: &str, matchers: Vec<Matcher>) -> (b: CallBuilder)
        ensures
            b.method@ == method@,
            b.matchers@ == matchers@,
    {
        CallBuilder { method: String::from_str(method), matchers }
    }

    fn register(&mut self, p: PostReturn, remaining: Option<u32>, exact: Option<u32>, maybe: bool) -> (h:
        ActiveExpectation)
        requires
            old(self).wf(),
        ensures
            final(self).wf(),
            h.id == old(self).expectations().len(),
            final(self).expectations() == old(self).expectations().push(
                p.registered(h.id, remaining, exact, maybe),
            ),
            final(self).calls() == old(self).calls(),
    {
        let id = self.expectations.len();
        self.expectations.push(
            Expectation {
                id,
                method: p.method,
                matchers: p.matchers,
                outputs: p.outputs,
                remaining,
                maybe,
                removed: false,
                delay: p.delay,
                panic_msg: p.panic_msg,
                invocations: 0,
                assert_exact: exact,
            },
        );
        h_of(id)
    }

    /// The first expectation that takes a call of `method` with `args`, with
    /// `skip` setting some aside.
    fn find_taker(&self, method: &str, args: &Arguments, skip: &Vec<bool>) -> (r: Option<usize>)
        ensures
            match r {
                Some(k) => first_taker(self.expectations(), skip@, method@, args@, k as int),
                None => forall|j: int|
                    0 <= j < self.expectations().len() ==> !#[trigger] takes(
                        self.expectations(),
                        skip@,
                        method@,
                        args@,
                        j,
                    ),
            },
    {
        let mut i: usize = 0;
        while i < self.expectations.len()
            invariant
                i <= self.expectations.len(),
                forall|j: int|
                    0 <= j < i ==> !#[trigger] takes(self.expectations@, skip@, method@, args@, j),
            decreases self.expectations.len() - i,
        {
            let e = &self.expectations[i];
            let open = match e.remaining {
                Some(n) => n > 0,
                None => true,
            };
            let set_aside = i < skip.len() && skip[i];
            if !set_aside && !e.removed && str_eq_string(&e.method, method) && open && all_match(
                e.matchers.as_slice(),
                args.as_raw(),
            ) {
                return Some(i);
            }
            i = i + 1;
        }
        None
    }

    /// Handles a call of `method` with `args`: the first registered
    /// expectation that is not withdrawn, is for `method`, has calls left and
    /// accepts `args` takes the call. Its call count goes up by one, its
    /// remaining count (if any) down by one, the call is recorded, and its
    /// return values, delay and panic message are handed back. With no such
    /// expectation the call is an error and nothing changes.
    pub fn method_called(&mut self, method: &str, args: Arguments) -> (r: Result<Reply, String>)
        requires
            old(self).wf(),
            forall|i: int|
                #[trigger] first_callable(old(self).expectations(), method@, args@, i)
                    ==> old(self).expectations()[i].invocations < u32::MAX,
        ensures
            final(self).wf(),
            match r {
                Ok(reply) => {
                    let i = reply.id as int;
                    let e = old(self).expectations()[i];
                    &&& first_callable(old(self).expectations(), method@, args@, i)
                    &&& final(self).expectations() == old(self).expectations().update(i, after_call(e))
                    &&& final(self).calls().len() == old(self).calls().len() + 1
                    &&& final(self).calls().drop_last() == old(self).calls()
                    &&& final(self).calls().last().method@ == method@
                    &&& final(self).calls().last().args@ == args@
                    &&& reply.outputs@ == e.outputs@
                    &&& reply.delay == e.delay
                    &&& reply.panic_msg == e.panic_msg
                },
                Err(m) => {
                    &&& forall|i: int|
                        0 <= i < old(self).expectations().len() ==> !callable(
                            #[trigger] old(self).expectations()[i],
                            method@,
                            args@,
                        )
                    &&& m@ == "unexpected call to "@ + method@
                    &&& final(self).expectations() == old(self).expectations()
                    &&& final(self).calls() == old(self).calls()
                },
            },
    {
        let none: Vec<bool> = Vec::new();
        let ghost exps = old(self).expectations();
        let ghost a = args@;
        proof {
            assert forall|i: int| #[trigger] first_taker(exps, none@, method@, a, i) implies exps[i].invocations
                < u32::MAX by {
                assert forall|j: int| 0 <= j < i implies !callable(#[trigger] exps[j], method@, a) by {
                    assert(!takes(exps, none@, method@, a, j));
                }
                assert(first_callable(exps, method@, a, i));
            }
        }
        let r = self.method_called_skipping(method, args, &none);
        proof {
            if r is Ok {
                let i = r->Ok_0.id as int;
                assert(first_taker(exps, none@, method@, a, i));
                assert forall|j: int| 0 <= j < i implies !callable(#[trigger] exps[j], method@, a) by {
                    assert(!takes(exps, none@, method@, a, j));
                }
                assert(first_callable(exps, method@, a, i));
            } else {
                assert forall|i: int| 0 <= i < exps.len() implies !callable(#[trigger] exps[i], method@, a) by {
                    assert(!takes(exps, none@, method@, a, i));
                }
            }
        }
        r
    }

    /// Handles a call of `method` with `args` as [`Mock::method_called`]
    /// does, except that the expectations that `skip` marks `true` are set
    /// aside and take no call: the first registered expectation that is not
    /// set aside, not withdrawn, is for `method`, has calls left and accepts
    /// `args` takes the call. Its call count goes up by one, its
    /// remaining count (if any) down by one, the call is recorded, and its
    /// return values, delay and panic message are handed back. With no such
    /// expectation the call is an error and nothing changes.
    pub fn method_called_skipping(
        &mut self,
        method: &str,
        args: Arguments,
        skip: &Vec<bool>,
    ) -> (r: Result<Reply, String>)
        requires
            old(self).wf(),
            forall|i: int|
                #[trigger] first_taker(old(self).expectations(), skip@, method@, args@, i)
                    ==> old(self).expectations()[i].invocations < u32::MAX,
        ensures
            final(self).wf(),
            match r {
                Ok(reply) => {
                    let i = reply.id as int;
                    let e = old(self).expectations()[i];
                    &&& first_taker(old(self).expectations(), skip@, method@, args@, i)
                    &&& final(self).expectations() == old(self).expectations().update(i, after_call(e))
                    &&& final(self).calls().len() == old(self).calls().len() + 1
                    &&& final(self).calls().drop_last() == old(self).calls()
                    &&& final(self).calls().last().method@ == method@
                    &&& final(self).calls().last().args@ == args@
                    &&& reply.outputs@ == e.outputs@
                    &&& reply.delay == e.delay
                    &&& reply.panic_msg == e.panic_msg
                },
                Err(m) => {
                    &&& forall|i: int|
                        0 <= i < old(self).expectations().len() ==> !#[trigger] takes(
                            old(self).expectations(),
                            skip@,
                            method@,
                            args@,
                            i,
                        )
                    &&& m@ == "unexpected call to "@ + method@
                    &&& final(self).expectations() == old(self).expectations()
                    &&& final(self).calls() == old(self).calls()
                },
            },
    {
        let found = self.find_taker(method, &args, skip);
        match found {
            None => {
                let mut m = String::from_str("unexpected call to ");
                m.append(method);
                Err(m)
            },
            Some(k) => {
                let ghost e0 = self.expectations@[k as int];
                let outputs = copy_values(&self.expectations[k].outputs);
                let delay = self.expectations[k].delay;
                let panic_msg = match &self.expectations[k].panic_msg {
                    Some(s) => Some(s.clone()),
                    None => None,
                };
                let inv = self.expectations[k].invocations;
                self.expectations[k].invocations = inv + 1;
                match self.expectations[k].remaining {
                    Some(n) => {
                        self.expectations[k].remaining = Some(n - 1);
                    },
                    None => {},
                }
                proof {
                    assert(self.expectations@[k as int] == after_call(e0));
                    assert(self.expectations@ =~= old(self).expectations@.update(
                        k as int,
                        after_call(e0),
                    ));
                }
                let ghost before_calls = self.calls@;
                self.calls.push(RecordedCall { method: String::from_str(method), args: args.into_boxes() });
                proof {
                    assert(self.calls@.drop_last() =~= before_calls);
                }
                Ok(Reply { id: k, outputs: Arguments::from_boxes(outputs), delay, panic_msg })
            },
        }
    }

    /// `None` when every expectation is met; otherwise the report for the
    /// first one that is not.
    pub fn unmet_expectation(&self) -> (r: Option<String>)
        ensures
            r is None <==> all_satisfied(self.expectations()),
            r matches Some(m) ==> exists|i: int|
                0 <= i < self.expectations().len() && !satisfied(self.expectations()[i]) && (
                forall|j: int| 0 <= j < i ==> #[trigger] satisfied(self.expectations()[j]))
                    && m@ == unmet_message(self.expectations()[i]),
    {
        let mut i: usize = 0;
        while i < self.expectations.len()
            invariant
                i <= self.expectations.len(),
                forall|j: int| 0 <= j < i ==> #[trigger] satisfied(self.expectations@[j]),
            decreases self.expectations.len() - i,
        {
            let e = &self.expectations[i];
            let ok = e.removed || e.maybe || match e.assert_exact {
                Some(n) => e.invocations == n,
                None => e.invocations >= 1,
            };
            if !ok {
                let mut m = String::from_str("expectation for ");
                m.append(e.method.as_str());
                m.append(" not met: got ");
                push_decimal(&mut m, e.invocations as u128);
                m.append(" invocations");
                proof {
                    let k = i as int;
                    assert(!satisfied(self.expectations()[k]));
                    assert(m@ == unmet_message(self.expectations()[k]));
                    assert(forall|j: int| 0 <= j < k ==> #[trigger] satisfied(self.expectations()[j]));
                }
                return Some(m);
            }
            i = i + 1;
        }
        None
    }

    /// Checks that every expectation is met; on the first that is not, reports
    /// it through `t.errorf`, calls `t.fail_now` and returns `false`.
    pub fn assert_expectations<T: TestingT>(&self, t: &T) -> (r: bool)
        ensures
            r == all_satisfied(self.expectations()),
    {
        match self.unmet_expectation() {
            None => true,
            Some(m) => {
                t.errorf(m.as_str());
                t.fail_now();
                false
            },
        }
    }

    /// Whether the expectation that would take a call of `method` with `args`
    /// (the expectations that `skip` marks `true` set aside) can count one
    /// more call (its call count is not at its limit). With no such
    /// expectation there is nothing to count, and the answer is `true`.
    pub fn can_count_call(&self, method: &str, args: &Arguments, skip: &Vec<bool>) -> (r: bool)
        ensures
            r == forall|i: int|
                #[trigger] first_taker(self.expectations(), skip@, method@, args@, i)
                    ==> self.expectations()[i].invocations < u32::MAX,
    {
        match self.find_taker(method, args, skip) {
            None => true,
            Some(k) => {
                proof {
                    assert forall|i: int|
                        #[trigger] first_taker(self.expectations(), skip@, method@, args@, i) implies i
                        == k as int by {
                        if i < k as int {
                            assert(!takes(self.expectations(), skip@, method@, args@, i));
                        } else if i > k as int {
                            assert(!takes(self.expectations(), skip@, method@, args@, k as int));
                        }
                    }
                }
                self.expectations[k].invocations < u32::MAX
            },
        }
    }

    /// Whether some recorded call of `method` has arguments that `matchers`
    /// accept.
    pub fn was_called(&self, method: &str, matchers: &[Matcher]) -> (r: bool)
        ensures
            r == called_with(self.calls(), method@, matchers@),
    {
        let mut i: usize = 0;
        while i < self.calls.len()
            invariant
                i <= self.calls.len(),
                forall|j: int|
                    0 <= j < i ==> !((#[trigger] self.calls@[j]).method@ == method@ && args_match(
                        matchers@,
                        self.calls@[j].args@,
                    )),
            decreases self.calls.len() - i,
        {
            let c = &self.calls[i];
            if str_eq_string(&c.method, method) && all_match(matchers, c.args.as_slice()) {
                return true;
            }
            i = i + 1;
        }
        false
    }

    /// Checks that `method` was called with arguments `matchers` accept;
    /// otherwise reports `expected {method} to have been called with matching
    /// arguments`, calls `t.fail_now` and returns `false`.
    pub fn assert_called<T: TestingT>(&self, t: &T, method: &str, matchers: &[Matcher]) -> (r: bool)
        ensures
            r == called_with(self.calls(), method@, matchers@),
    {
        if self.was_called(method, matchers) {
            return true;
        }
        let mut m = String::from_str("expected ");
        m.append(method);
        m.append(" to have been called with matching arguments");
        t.errorf(m.as_str());
        t.fail_now();
        false
    }

    /// Checks that `method` was not called with arguments `matchers` accept;
    /// otherwise reports `expected {method} not to have been called with
    /// matching arguments`, calls `t.fail_now` and returns `false`.
    pub fn assert_not_called<T: TestingT>(&self, t: &T, method: &str, matchers: &[Matcher]) -> (r:
        bool)
        ensures
            r == !called_with(self.calls(), method@, matchers@),
    {
        if !self.was_called(method, matchers) {
            return true;
        }
        let mut m = String::from_str("expected ");
        m.append(method);
        m.append(" not to have been called with matching arguments");
        t.errorf(m.as_str());
        t.fail_now();
        false
    }

    /// The number of recorded calls of `method`.
    pub fn number_of_calls(&self, method: &str) -> (n: usize)
        ensures
            n == count_calls(self.calls(), method@),
    {
        let mut n: usize = 0;
        let mut i: usize = 0;
        while i < self.calls.len()
            invariant
                i <= self.calls.len(),
                n == count_calls(self.calls@.subrange(0, i as int), method@),
                n <= i,
            decreases self.calls.len() - i,
        {
            proof {
                assert(self.calls@.subrange(0, i + 1).drop_last() =~= self.calls@.subrange(0, i as int));
            }
            if str_eq_string(&self.calls[i].method, method) {
                n = n + 1;
            }
            i = i + 1;
        }
        proof {
            assert(self.calls@.subrange(0, i as int) =~= self.calls@);
        }
        n
    }

    /// Checks that `method` was called exactly `n` times; otherwise reports
    /// `expected {n} calls to {method}, got {count}`, calls `t.fail_now` and
    /// returns `false`.
    pub fn assert_number_of_calls<T: TestingT>(&self, t: &T, method: &str, n: usize) -> (r: bool)
        ensures
            r == (count_calls(self.calls(), method@) == n),
    {
        let c = self.number_of_calls(method);
        if c == n {
            return true;
        }
        let mut m = String::from_str("expected ");
        push_decimal(&mut m, n as u128);
        m.append(" calls to ");
        m.append(method);
        m.append(", got ");
        push_decimal(&mut m, c as u128);
        t.errorf(m.as_str());
        t.fail_now();
        false
    }
}

impl Default for Mock {
    /// Same as [`Mock::new`].
    fn default() -> (m: Mock)
        ensures
            m.wf(),
            m.expectations().len() == 0,
            m.calls().len() == 0,
    {
        Mock::new()
    }
}

/// Checks the expectations of each mock in turn, stopping at the first mock
/// with an unmet expectation (reported as by [`Mock::assert_expectations`]).
pub fn assert_expectations_for_objects<T: TestingT>(t: &T, mocks: &[&Mock]) -> (r: bool)
    ensures
        r == forall|k: int| 0 <= k < mocks@.len() ==> all_satisfied(#[trigger] mocks@[k].expectations()),
{
    let mut k: usize = 0;
    while k < mocks.len()
        invariant
            k <= mocks@.len(),
            forall|j: int| 0 <= j < k ==> all_satisfied(#[trigger] mocks@[j].expectations()),
        decreases mocks.len() - k,
    {
        if !mocks[k].assert_expectations(t) {
            return false;
        }
        k = k + 1;
    }
    true
}

fn h_of(id: usize) -> (h: ActiveExpectation)
    ensures
        h.id == id,
{
    ActiveExpectation { id }
}

/// Whether `s` holds the characters of `t`.
fn str_eq_string(s: &String, t: &str) -> (r: bool)
    ensures
        r == (s@ == t@),
{
    crate::text::str_eq(s.as_str(), t)
}

impl CallBuilder {
    /// Sets the values each matching call hands back.
    pub fn returning(self, outputs: Vec<Value>) -> (p: PostReturn)
        ensures
            p.method == self.method,
            p.matchers == self.matchers,
            p.outputs == outputs,
            p.delay is None,
            p.panic_msg is None,
    {
        PostReturn {
            method: self.method,
            matchers: self.matchers,
            outputs,
            delay: None,
            panic_msg: None,
        }
    }
}

impl PostReturn {
    /// Makes each matching call wait `d` before returning.
    pub fn after(self, d: Duration) -> (p: PostReturn)
        ensures
            p == (PostReturn { delay: Some(d), ..self }),
    {
        PostReturn { delay: Some(d), ..self }
    }

    /// Registers the expectation as optional, with no call limit.
    pub fn maybe(self, mock: &mut Mock) -> (h: ActiveExpectation)
        requires
            old(mock).wf(),
        ensures
            final(mock).wf(),
            h.id == old(mock).expectations().len(),
            final(mock).expectations() == old(mock).expectations().push(
                self.registered(h.id, None, None, true),
            ),
            final(mock).calls() == old(mock).calls(),
    {
        mock.register(self, None, None, true)
    }

    /// Registers the expectation for exactly one call.
    pub fn once(self, mock: &mut Mock) -> (h: ActiveExpectation)
        requires
            old(mock).wf(),
        ensures
            final(mock).wf(),
            h.id == old(mock).expectations().len(),
            final(mock).expectations() == old(mock).expectations().push(
                self.registered(h.id, Some(1), Some(1), false),
            ),
            final(mock).calls() == old(mock).calls(),
    {
        mock.register(self, Some(1), Some(1), false)
    }

    /// Registers the expectation for exactly two calls.
    pub fn twice(self, mock: &mut Mock) -> (h: ActiveExpectation)
        requires
            old(mock).wf(),
        ensures
            final(mock).wf(),
            h.id == old(mock).expectations().len(),
            final(mock).expectations() == old(mock).expectations().push(
                self.registered(h.id, Some(2), Some(2), false),
            ),
            final(mock).calls() == old(mock).calls(),
    {
        mock.register(self, Some(2), Some(2), false)
    }

    /// Registers the expectation for exactly `n` calls.
    pub fn times(self, mock: &mut Mock, n: u32) -> (h: ActiveExpectation)
        requires
            old(mock).wf(),
        ensures
            final(mock).wf(),
            h.id == old(mock).expectations().len(),
            final(mock).expectations() == old(mock).expectations().push(
                self.registered(h.id, Some(n), Some(n), false),
            ),
            final(mock).calls() == old(mock).calls(),
    {
        mock.register(self, Some(n), Some(n), false)
    }

    /// Registers the expectation with no call limit; it must be called at
    /// least once.
    pub fn unlimited(self, mock: &mut Mock) -> (h: ActiveExpectation)
        requires
            old(mock).wf(),
        ensures
            final(mock).wf(),
            h.id == old(mock).expectations().len(),
            final(mock).expectations() == old(mock).expectations().push(
                self.registered(h.id, None, None, false),
            ),
            final(mock).calls() == old(mock).calls(),
    {
        mock.register(self, None, None, false)
    }

    /// Same as [`PostReturn::unlimited`].
    pub fn finish(self, mock: &mut Mock) -> (h: ActiveExpectation)
        requires
            old(mock).wf(),
        ensures
            final(mock).wf(),
            h.id == old(mock).expectations().len(),
            final(mock).expectations() == old(mock).expectations().push(
                self.registered(h.id, None, None, false),
            ),
            final(mock).calls() == old(mock).calls(),
    {
        self.unlimited(mock)
    }

    /// Registers the expectation for exactly one call, which panics with `msg`.
    pub fn panic(self, mock: &mut Mock, msg: String) -> (h: ActiveExpectation)
        requires
            old(mock).wf(),
        ensures
            final(mock).wf(),
            h.id == old(mock).expectations().len(),
            final(mock).expectations() == old(mock).expectations().push(
                (PostReturn { panic_msg: Some(msg), ..self }).registered(h.id, Some(1), Some(1), false),
            ),
            final(mock).calls() == old(mock).calls(),
    {
        let p = PostReturn { panic_msg: Some(msg), ..self };
        mock.register(p, Some(1), Some(1), false)
    }
}

impl ActiveExpectation {
    /// Withdraws the expectation: it no longer takes calls and is not checked.
    pub fn unset(self, mock: &mut Mock)
        requires
            old(mock).wf(),
        ensures
            final(mock).wf(),
            final(mock).calls() == old(mock).calls(),
            self.id < old(mock).expectations().len() ==> final(mock).expectations()
                == old(mock).expectations().update(
                self.id as int,
                (Expectation { removed: true, ..old(mock).expectations()[self.id as int] }),
            ),
            self.id >= old(mock).expectations().len() ==> final(mock).expectations() == old(
                mock,
            ).expectations(),
    {
        if self.id < mock.expectations.len() {
            mock.expectations[self.id].removed = true;
            proof {
                assert(mock.expectations@ =~= old(mock).expectations@.update(
                    self.id as int,
                    Expectation { removed: true, ..old(mock).expectations@[self.id as int] },
                ));
            }
        }
    }
}

/// Expectation `e` after `k` matching calls.
pub open spec fn after_calls(e: Expectation, k: nat) -> Expectation
    decreases k,
{
    if k == 0 {
        e
    } else {
        after_call(after_calls(e, (k - 1) as nat))
    }
}

/// What `k` matching calls do to an expectation registered for exactly `n`
/// calls.
proof fn lemma_after_calls_counted(e: Expectation, n: u32, k: nat)
    requires
        e.remaining == Some(n),
        e.invocations == 0,
        k <= n,
    ensures
        after_calls(e, k).remaining == Some((n - k) as u32),
        after_calls(e, k).invocations == k,
        after_calls(e, k).method == e.method,
        after_calls(e, k).matchers == e.matchers,
        after_calls(e, k).removed == e.removed,
        after_calls(e, k).maybe == e.maybe,
        after_calls(e, k).assert_exact == e.assert_exact,
    decreases k,
{
    if k > 0 {
        lemma_after_calls_counted(e, n, (k - 1) as nat);
    }
}

/// An expectation registered for exactly `n` calls (by `once`, `twice` or
/// `times`) keeps taking matching calls until it has had `n`, then takes no
/// more; it is met after exactly `n` calls and not before.
pub proof fn law_times_exact(e: Expectation, n: u32, k: nat, method: Seq<char>, args: Seq<Value>)
    requires
        e.remaining == Some(n),
        e.assert_exact == Some(n),
        e.invocations == 0,
        !e.maybe,
        !e.removed,
        e.method@ == method,
        args_match(e.matchers@, args),
        k <= n,
    ensures
        k < n ==> callable(after_calls(e, k), method, args) && !satisfied(after_calls(e, k)),
        k == n ==> !callable(after_calls(e, k), method, args) && satisfied(after_calls(e, k)),
{
    lemma_after_calls_counted(e, n, k);
}

/// A withdrawn expectation takes no calls and is never reported as unmet.
pub proof fn law_unset_is_ignored(e: Expectation, method: Seq<char>, args: Seq<Value>)
    requires
        e.removed,
    ensures
        !callable(e, method, args),
        satisfied(e),
{
}

/// An optional expectation is met whether or not it was called.
pub proof fn law_maybe_is_optional(e: Expectation)
    requires
        e.maybe,
    ensures
        satisfied(e),
{
}

/// An expectation with no call count must be called at least once.
pub proof fn law_unlimited_needs_a_call(e: Expectation)
    requires
        e.assert_exact is None,
        !e.maybe,
        !e.removed,
    ensures
        satisfied(e) <==> e.invocations >= 1,
{
}

/// An expectation registered by `panic` takes exactly one matching call;
/// the reply to that call carries the panic message, and once the call is
/// taken the expectation is met and takes no further call.
pub proof fn law_panic_answers_once(
    p: PostReturn,
    id: usize,
    msg: String,
    method: Seq<char>,
    args: Seq<Value>,
)
    requires
        p.method@ == method,
        args_match(p.matchers@, args),
    ensures
        ({
            let e = (PostReturn { panic_msg: Some(msg), ..p }).registered(id, Some(1), Some(1), false);
            &&& callable(e, method, args)
            &&& !satisfied(e)
            &&& e.panic_msg == Some(msg)
            &&& after_call(e).panic_msg == Some(msg)
            &&& after_call(e).invocations == 1
            &&& !callable(after_call(e), method, args)
            &&& satisfied(after_call(e))
        }),
{
}

} // verus!
