use std::sync::atomic::{AtomicUsize, Ordering};
use std::sync::Mutex;
use std::time::Duration;

use suitecase::mock::{
    anything, anything_of_type, assert_expectations_for_objects, eq, Arguments, Mock, TestingT,
    Value, ValueKind,
};

struct NoopT;

impl TestingT for NoopT {
    fn errorf(&self, _msg: &str) {}
    fn fail_now(&self) {}
}

struct RecordingT {
    messages: Mutex<Vec<String>>,
    fail_now_hits: AtomicUsize,
}

impl RecordingT {
    fn new() -> Self {
        Self { messages: Mutex::new(Vec::new()), fail_now_hits: AtomicUsize::new(0) }
    }
}

impl TestingT for RecordingT {
    fn errorf(&self, msg: &str) {
        self.messages.lock().unwrap().push(msg.to_string());
    }

    fn fail_now(&self) {
        self.fail_now_hits.fetch_add(1, Ordering::SeqCst);
    }
}

fn text(s: &str) -> Value {
    Value::Text(s.to_string())
}

#[test]
fn int_coercion() {
    let a = Arguments::from_boxes(vec![Value::I32(42)]);
    assert_eq!(a.int_value(0), 42);
}

#[test]
fn int_reads_every_integer_kind() {
    let a = Arguments::from_boxes(vec![
        Value::I64(-5),
        Value::Isize(7),
        Value::U32(9),
        Value::U64(u64::MAX),
    ]);
    assert_eq!(a.int_value(0), -5);
    assert_eq!(a.int_value(1), 7);
    assert_eq!(a.int_value(2), 9);
    assert_eq!(a.int_value(3), -1);
}

#[test]
fn typed_slot_readers() {
    let a = Arguments::from_boxes(vec![
        Value::Bool(true),
        text("owned"),
        Value::StaticStr("lit".to_string()),
        Value::Other("TypeId(custom)".to_string()),
        Value::I32(3),
    ]);
    assert_eq!(a.len(), 5);
    assert!(!a.is_empty());
    assert!(a.bool(0));
    assert_eq!(a.string(1), "owned");
    assert_eq!(a.string(2), "lit");
    assert_eq!(a.error_display(1), "owned");
    assert_eq!(a.error_display(3), "TypeId(custom)");
    assert_eq!(a.error_display(4), format!("{:?}", std::any::TypeId::of::<i32>()));
    assert_ne!(a.error_display(4), "i32");
    assert!(a.get(5).is_none());
    assert!(matches!(a.get(4), Some(Value::I32(3))));
}

#[test]
fn assert_matches_succeeds_when_matchers_align() {
    let a = Arguments::from_boxes(vec![Value::I32(1), text("z")]);
    let t = RecordingT::new();
    assert!(a.assert_matches(&t, &[eq(Value::I32(1)), eq(text("z"))]));
    assert_eq!(t.fail_now_hits.load(Ordering::SeqCst), 0);
}

#[test]
fn assert_matches_fails_on_len_mismatch() {
    let a = Arguments::from_boxes(vec![Value::I32(1)]);
    let t = RecordingT::new();
    assert!(!a.assert_matches(&t, &[eq(Value::I32(1)), eq(Value::I32(2))]));
    assert_eq!(t.fail_now_hits.load(Ordering::SeqCst), 1);
    assert!(
        t.messages.lock().unwrap()[0].contains("argument count mismatch"),
        "{:?}",
        t.messages.lock().unwrap()
    );
}

#[test]
fn assert_matches_fails_on_predicate() {
    let a = Arguments::from_boxes(vec![Value::I32(9)]);
    let t = RecordingT::new();
    assert!(!a.assert_matches(&t, &[eq(Value::I32(1))]));
    assert_eq!(t.fail_now_hits.load(Ordering::SeqCst), 1);
}

#[test]
fn check_matches_messages() {
    let a = Arguments::from_boxes(vec![Value::I32(1), Value::Bool(false)]);
    assert_eq!(
        a.check_matches(&[anything()]).unwrap_err(),
        "argument count mismatch: got 2 want 1"
    );
    assert_eq!(
        a.check_matches(&[anything(), eq(Value::Bool(true))]).unwrap_err(),
        "argument 1 did not match"
    );
    assert!(a.check_matches(&[anything_of_type(ValueKind::I32), anything_of_type(ValueKind::Bool)]).is_ok());
    assert!(a.check_matches(&[anything_of_type(ValueKind::I64), anything()]).is_err());
}

#[test]
fn expectation_met_finish() {
    let mut m = Mock::new();
    m.on("do_it", vec![eq(Value::I32(1))])
        .returning(vec![Value::Bool(true), Value::Bool(false)])
        .finish(&mut m);
    let out = m.method_called("do_it", Arguments::from_boxes(vec![Value::I32(1)])).unwrap();
    assert!(out.outputs.bool(0));
    assert!(!out.outputs.bool(1));
    assert!(m.assert_expectations(&NoopT));
}

#[test]
fn assert_expectations_fails_when_required_never_invoked() {
    let mut m = Mock::new();
    m.on("idle", vec![]).returning(vec![Value::U8(0)]).finish(&mut m);
    let t = RecordingT::new();
    assert!(!m.assert_expectations(&t));
    assert_eq!(t.fail_now_hits.load(Ordering::SeqCst), 1);
    let msgs = t.messages.lock().unwrap();
    assert_eq!(msgs.len(), 1);
    assert!(msgs[0].contains("idle"), "msg should mention method: {:?}", msgs[0]);
    assert!(msgs[0].contains("0 invocations"), "{:?}", msgs[0]);
}

#[test]
fn assert_expectations_passes_for_maybe_without_call() {
    let mut m = Mock::new();
    m.on("opt", vec![]).returning(vec![Value::Unit]).maybe(&mut m);
    assert!(m.assert_expectations(&NoopT));
}

#[test]
fn assert_expectations_ignores_removed_expectation() {
    let mut m = Mock::new();
    let h = m.on("gone", vec![]).returning(vec![Value::U8(0)]).finish(&mut m);
    h.unset(&mut m);
    assert!(m.assert_expectations(&NoopT));
}

#[test]
fn anything_matcher() {
    let mut m = Mock::new();
    m.on("x", vec![anything()]).returning(vec![Value::Unit]).once(&mut m);
    m.method_called("x", Arguments::from_boxes(vec![Value::StaticStr("hello".to_string())])).unwrap();
    assert!(m.assert_expectations(&NoopT));
}

#[test]
fn assert_expectations_for_objects_ok() {
    let mut a = Mock::new();
    let mut b = Mock::new();
    a.on("a", vec![]).returning(vec![Value::I32(0)]).finish(&mut a);
    b.on("b", vec![]).returning(vec![Value::I32(0)]).finish(&mut b);
    a.method_called("a", Arguments::from_boxes(vec![])).unwrap();
    b.method_called("b", Arguments::from_boxes(vec![])).unwrap();
    assert!(assert_expectations_for_objects(&NoopT, &[&a, &b]));
}

#[test]
fn assert_expectations_for_objects_fails_on_first_mock() {
    let mut a = Mock::new();
    let mut b = Mock::new();
    a.on("a", vec![]).returning(vec![Value::I32(0)]).finish(&mut a);
    b.on("b", vec![]).returning(vec![Value::I32(0)]).finish(&mut b);
    let t = RecordingT::new();
    assert!(!assert_expectations_for_objects(&t, &[&a, &b]));
    assert_eq!(t.fail_now_hits.load(Ordering::SeqCst), 1);
    assert_eq!(
        t.messages.lock().unwrap()[0],
        "expectation for a not met: got 0 invocations"
    );
}

#[test]
fn unexpected_call_is_an_error() {
    let mut m = Mock::new();
    let r = m.method_called("nope", Arguments::from_boxes(vec![]));
    assert_eq!(r.err(), Some("unexpected call to nope".to_string()));
}

#[test]
fn once_exhausted_then_second_call_is_an_error() {
    let mut m = Mock::new();
    m.on("one", vec![]).returning(vec![Value::Unit]).once(&mut m);
    assert!(m.method_called("one", Arguments::from_boxes(vec![])).is_ok());
    assert!(m.method_called("one", Arguments::from_boxes(vec![])).is_err());
    assert!(m.assert_expectations(&NoopT));
}

#[test]
fn times_requires_exact_invocation_count() {
    let mut m = Mock::new();
    m.on("t", vec![]).returning(vec![Value::Unit]).times(&mut m, 3);
    m.method_called("t", Arguments::from_boxes(vec![])).unwrap();
    m.method_called("t", Arguments::from_boxes(vec![])).unwrap();
    let t = RecordingT::new();
    assert!(!m.assert_expectations(&t));
    assert_eq!(t.messages.lock().unwrap()[0], "expectation for t not met: got 2 invocations");
    m.method_called("t", Arguments::from_boxes(vec![])).unwrap();
    assert!(m.assert_expectations(&NoopT));
    assert!(m.method_called("t", Arguments::from_boxes(vec![])).is_err());
}

#[test]
fn twice_matches_two_calls() {
    let mut m = Mock::new();
    m.on("tw", vec![eq(Value::I32(2))]).returning(vec![Value::Unit]).twice(&mut m);
    m.method_called("tw", Arguments::from_boxes(vec![Value::I32(2)])).unwrap();
    m.method_called("tw", Arguments::from_boxes(vec![Value::I32(2)])).unwrap();
    assert!(m.assert_expectations(&NoopT));
}

#[test]
fn first_matching_expectation_takes_the_call() {
    let mut m = Mock::new();
    m.on("f", vec![eq(Value::I32(1))]).returning(vec![text("one")]).once(&mut m);
    m.on("f", vec![anything()]).returning(vec![text("any")]).unlimited(&mut m);
    let a = m.method_called("f", Arguments::from_boxes(vec![Value::I32(1)])).unwrap();
    assert_eq!(a.id, 0);
    assert_eq!(a.outputs.string(0), "one");
    let b = m.method_called("f", Arguments::from_boxes(vec![Value::I32(1)])).unwrap();
    assert_eq!(b.id, 1);
    assert_eq!(b.outputs.string(0), "any");
}

#[test]
fn assert_called_finds_matching_record() {
    let mut m = Mock::new();
    m.on("save", vec![anything()]).returning(vec![Value::Unit]).unlimited(&mut m);
    m.method_called("save", Arguments::from_boxes(vec![Value::I32(5)])).unwrap();
    let t = RecordingT::new();
    assert!(m.assert_called(&t, "save", &[eq(Value::I32(5))]));
    assert!(!m.assert_called(&t, "save", &[eq(Value::I32(6))]));
    assert_eq!(
        t.messages.lock().unwrap()[0],
        "expected save to have been called with matching arguments"
    );
}

#[test]
fn assert_not_called_checks_records() {
    let mut m = Mock::new();
    m.on("save", vec![anything()]).returning(vec![Value::Unit]).unlimited(&mut m);
    m.method_called("save", Arguments::from_boxes(vec![Value::I32(5)])).unwrap();
    let t = RecordingT::new();
    assert!(m.assert_not_called(&t, "save", &[eq(Value::I32(6))]));
    assert!(!m.assert_not_called(&t, "save", &[eq(Value::I32(5))]));
    assert_eq!(
        t.messages.lock().unwrap()[0],
        "expected save not to have been called with matching arguments"
    );
}

#[test]
fn assert_number_of_calls_counts_by_method_name() {
    let mut m = Mock::new();
    m.on("a", vec![]).returning(vec![Value::Unit]).unlimited(&mut m);
    m.on("b", vec![]).returning(vec![Value::Unit]).unlimited(&mut m);
    m.method_called("a", Arguments::from_boxes(vec![])).unwrap();
    m.method_called("b", Arguments::from_boxes(vec![])).unwrap();
    m.method_called("a", Arguments::from_boxes(vec![])).unwrap();
    assert_eq!(m.number_of_calls("a"), 2);
    let t = RecordingT::new();
    assert!(m.assert_number_of_calls(&t, "a", 2));
    assert!(!m.assert_number_of_calls(&t, "b", 2));
    assert_eq!(t.messages.lock().unwrap()[0], "expected 2 calls to b, got 1");
}

#[test]
fn panic_and_delay_are_handed_back() {
    let mut m = Mock::new();
    m.on("boom", vec![])
        .returning(vec![])
        .after(Duration::from_millis(5))
        .panic(&mut m, "kaboom".to_string());
    let r = m.method_called("boom", Arguments::from_boxes(vec![])).unwrap();
    assert_eq!(r.panic_msg, Some("kaboom".to_string()));
    assert_eq!(r.delay, Some(Duration::from_millis(5)));
}

#[test]
fn unset_allows_re_registering_same_method() {
    let mut m = Mock::new();
    let h = m.on("x", vec![]).returning(vec![Value::I32(1)]).unlimited(&mut m);
    h.unset(&mut m);
    m.on("x", vec![]).returning(vec![Value::I32(2)]).unlimited(&mut m);
    let r = m.method_called("x", Arguments::from_boxes(vec![])).unwrap();
    assert_eq!(r.outputs.int_value(0), 2);
}

#[test]
fn can_count_call_checks_the_expectation_that_takes_the_call() {
    let mut m = Mock::new();
    let _ = m.on("ping", vec![]).returning(vec![]).once(&mut m);
    assert!(m.can_count_call("ping", &Arguments::from_boxes(vec![]), &vec![]));
    assert!(m.can_count_call("other", &Arguments::from_boxes(vec![]), &vec![]));
    assert!(m.can_count_call("ping", &Arguments::from_boxes(vec![]), &vec![true]));
}

#[test]
fn method_called_skipping_passes_over_set_aside_expectations() {
    let mut m = Mock::new();
    let first = m.on("f", vec![anything()]).returning(vec![text("first")]).once(&mut m);
    let second = m.on("f", vec![anything()]).returning(vec![text("second")]).once(&mut m);
    let reply = m
        .method_called_skipping("f", Arguments::from_boxes(vec![Value::I32(1)]), &vec![true])
        .unwrap();
    assert_eq!(reply.id, second.id);
    assert_eq!(reply.outputs.string(0), "second");
    let reply = m
        .method_called_skipping("f", Arguments::from_boxes(vec![Value::I32(2)]), &vec![false, true])
        .unwrap();
    assert_eq!(reply.id, first.id);
    match m.method_called_skipping("f", Arguments::from_boxes(vec![Value::I32(3)]), &vec![]) {
        Err(msg) => assert_eq!(msg, "unexpected call to f"),
        Ok(_) => panic!("a used-up expectation took the call"),
    }
}
