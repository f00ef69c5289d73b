use std::collections::HashMap;
use std::io;
use std::sync::Arc;
use std::time::Duration;

use suitecase::assertions::boolean::{false_, false_with_msg, true_, true_with_msg};
use suitecase::assertions::collections::{
    contains, contains_key, contains_str, elements_match, empty_slice, empty_str, len, len_string,
    not_contains, not_contains_str, not_elements_match, not_empty_slice, not_empty_str, not_subset,
    subset,
};
use suitecase::assertions::equality::{
    equal, equal_msg, equal_values, equal_values_msg, not_equal, not_equal_msg,
};
use suitecase::assertions::errors::{equal_error_display, error_chain_contains, error_contains, is_error};
use suitecase::assertions::option_result::{
    assert_err, assert_ok, is_none, is_some, no_error, not_zero, unwrap_some, zero,
};
use suitecase::assertions::ordering::{
    greater, greater_or_equal, is_decreasing, is_increasing, is_non_decreasing, is_non_increasing,
    less, less_or_equal, negative, positive,
};
use suitecase::assertions::pointer::{identity_verdict, not_same_ref, same_arc, same_ref};
use suitecase::assertions::time::{within_duration, within_range};
use suitecase::assertions::{condition, condition_fn, fail, not_same, same};
use suitecase::assertions::fs::{dir_exists, file_exists, no_dir_exists, no_file_exists, Entry};

#[test]
fn true_accepts_true() {
    assert!(true_(true).is_ok());
}

#[test]
fn true_with_msg_panic_includes_message() {
    let r = true_with_msg(false, "nope");
    assert!(r.is_err());
    assert_eq!(r.unwrap_err(), "assertion failed: `true_`: nope");
}

#[test]
fn false_accepts_false() {
    assert!(false_(false).is_ok());
}

#[test]
fn boolean_failures_name_the_check() {
    assert_eq!(true_(false).unwrap_err(), "assertion failed: `true_`");
    assert_eq!(false_(true).unwrap_err(), "assertion failed: `false_`");
    assert_eq!(false_with_msg(true, "why").unwrap_err(), "assertion failed: `false_`: why");
}

#[test]
fn contains_str_ok() {
    assert!(contains_str("hello world", "world").is_ok());
}

#[test]
fn contains_str_failure_message() {
    assert_eq!(
        contains_str("a", "b").unwrap_err(),
        "assertion failed: `contains_str`\n  haystack: `a`\n    needle: `b`"
    );
}

#[test]
fn contains_slice_ok() {
    assert!(contains(&[1, 2, 3], &2).is_ok());
}

#[test]
fn contains_slice_failure_message() {
    assert_eq!(
        contains(&[1, 2], &5).unwrap_err(),
        "assertion failed: `contains`\n  slice: `[1, 2]`\n missing: `5`"
    );
    assert_eq!(
        not_contains(&[1, 2], &2).unwrap_err(),
        "assertion failed: `not_contains`\n  slice: `[1, 2]`\n has: `2`"
    );
}

#[test]
fn contains_key_ok() {
    let mut m = HashMap::new();
    m.insert("k", 1);
    assert!(contains_key(&m, &"k").is_ok());
}

#[test]
fn contains_key_failure_message() {
    let mut m = HashMap::new();
    m.insert(1u32, "one");
    assert_eq!(
        contains_key(&m, &2u32).unwrap_err(),
        "assertion failed: `contains_key`\n  missing key: `2`"
    );
}

#[test]
fn not_contains_str_ok() {
    assert!(not_contains_str("abc", "z").is_ok());
    assert_eq!(
        not_contains_str("abc", "b").unwrap_err(),
        "assertion failed: `not_contains_str`\n  haystack: `abc`\n contains: `b`"
    );
}

#[test]
fn not_contains_slice_ok() {
    assert!(not_contains(&[1, 2], &9).is_ok());
}

#[test]
fn len_ok() {
    assert!(len(&[1, 2, 3], 3).is_ok());
    assert_eq!(
        len(&[1, 2, 3], 2).unwrap_err(),
        "assertion failed: `len`\n  expected: 2\n    actual: 3"
    );
}

#[test]
fn len_string_ok() {
    assert!(len_string("abc", 3).is_ok());
}

#[test]
fn len_string_counts_bytes() {
    assert!(len_string("é", 2).is_ok());
    assert_eq!(
        len_string("é", 1).unwrap_err(),
        "assertion failed: `len_string`\n  expected byte len: 1\n    actual: 2"
    );
}

#[test]
fn empty_str_ok() {
    assert!(empty_str("").is_ok());
    assert_eq!(
        empty_str("x").unwrap_err(),
        "assertion failed: `empty_str`: expected empty, got `x`"
    );
}

#[test]
fn not_empty_str_ok() {
    assert!(not_empty_str("x").is_ok());
    assert_eq!(
        not_empty_str("").unwrap_err(),
        "assertion failed: `not_empty_str`: expected non-empty"
    );
}

#[test]
fn empty_slice_ok() {
    assert!(empty_slice::<i32>(&[]).is_ok());
    assert_eq!(
        empty_slice(&[1, 2]).unwrap_err(),
        "assertion failed: `empty_slice`: expected len 0, got 2"
    );
}

#[test]
fn not_empty_slice_ok() {
    assert!(not_empty_slice(&[1]).is_ok());
    assert_eq!(
        not_empty_slice::<u8>(&[]).unwrap_err(),
        "assertion failed: `not_empty_slice`: expected non-empty slice"
    );
}

#[test]
fn subset_ok() {
    assert!(subset(&[1, 2, 2, 3], &[2, 1]).is_ok());
}

#[test]
fn subset_failures_name_the_element() {
    assert_eq!(
        subset(&[1, 2], &[3]).unwrap_err(),
        "assertion failed: `subset`: missing element `3` in superset"
    );
    assert_eq!(
        subset(&[1, 2], &[2, 2]).unwrap_err(),
        "assertion failed: `subset`: insufficient multiplicity for `2`"
    );
}

#[test]
fn not_subset_ok() {
    assert!(not_subset(&[1, 2], &[1, 2, 3]).is_ok());
    assert_eq!(
        not_subset(&[1, 2, 3], &[3, 1]).unwrap_err(),
        "assertion failed: `not_subset`: `[3, 1]` is a multiset subset of the superset"
    );
}

#[test]
fn elements_match_ok() {
    assert!(elements_match(&[1, 2, 2], &[2, 1, 2]).is_ok());
}

#[test]
fn elements_match_failures() {
    assert_eq!(
        elements_match(&[1, 2], &[1]).unwrap_err(),
        "assertion failed: `elements_match` length mismatch\n  left: 2\n right: 1"
    );
    assert_eq!(
        elements_match(&[1, 2], &[1, 3]).unwrap_err(),
        "assertion failed: `elements_match` extra element `3`"
    );
    assert_eq!(
        elements_match(&[1, 2], &[1, 1]).unwrap_err(),
        "assertion failed: `elements_match` multiplicity mismatch for `1`"
    );
}

#[test]
fn not_elements_match_ok() {
    assert!(not_elements_match(&[1, 2], &[1, 3]).is_ok());
    assert_eq!(
        not_elements_match(&[1, 2], &[2, 1]).unwrap_err(),
        "assertion failed: `not_elements_match`: multisets match"
    );
}

#[test]
fn elements_match_is_mutual_subset() {
    let pairs: [(&[i32], &[i32]); 4] = [
        (&[1, 2, 2], &[2, 1, 2]),
        (&[1, 2], &[2, 2]),
        (&[], &[]),
        (&[3], &[3, 3]),
    ];
    for (a, b) in pairs {
        let both = subset(a, b).is_ok() && subset(b, a).is_ok();
        assert_eq!(elements_match(a, b).is_ok(), both);
        assert_eq!(elements_match(a, b).is_ok(), elements_match(b, a).is_ok());
        assert_eq!(elements_match(a, b).is_ok(), not_elements_match(a, b).is_err());
    }
}

#[test]
fn equal_ok() {
    assert!(equal(&1_i32, &1_i32).is_ok());
}

#[test]
fn equal_msg_includes_prefix() {
    let r = equal_msg(&1, &2, "ctx");
    assert!(r.is_err());
    assert_eq!(
        r.unwrap_err(),
        "assertion failed: `equal`: ctx\n  expected: `1`\n    actual: `2`"
    );
}

#[test]
fn equal_failure_without_message() {
    assert_eq!(
        equal(&"a", &"b").unwrap_err(),
        "assertion failed: `equal`\n  expected: `\"a\"`\n    actual: `\"b\"`"
    );
}

#[test]
fn not_equal_ok() {
    assert!(not_equal(&1, &2).is_ok());
    assert_eq!(
        not_equal(&1, &1).unwrap_err(),
        "assertion failed: `not_equal`\n  both values: `1`"
    );
    assert_eq!(
        not_equal_msg(&1, &1, "same").unwrap_err(),
        "assertion failed: `not_equal`: same\n  both values: `1`"
    );
}

#[test]
fn equal_values_i32_to_i64() {
    assert!(equal_values::<i32, i64, i64>(1_i32, 1_i64).is_ok());
    assert!(equal_values::<i32, i64, i64>(1_i32, 2_i64).is_err());
}

#[test]
fn equal_values_msg_smoke() {
    assert!(equal_values_msg::<u8, u16, u16>(2_u8, 2_u16, "").is_ok());
}

#[test]
fn is_error_ok() {
    assert!(is_error(&Err::<i32, &str>("e")).is_ok());
    assert_eq!(
        is_error(&Ok::<i32, &str>(1)).unwrap_err(),
        "assertion failed: `is_error`: expected Err, got Ok(Some(1))"
    );
}

#[test]
fn equal_error_display_ok() {
    let e = io::Error::other("msg");
    assert!(equal_error_display(&e, "msg").is_ok());
    assert_eq!(
        equal_error_display(&e, "other").unwrap_err(),
        "assertion failed: `equal_error_display`\n  expected: `other`\n    actual: `msg`"
    );
}

#[test]
fn error_contains_ok() {
    let e = io::Error::other("hello world");
    assert!(error_contains(&e, "world").is_ok());
    assert_eq!(
        error_contains(&e, "moon").unwrap_err(),
        "assertion failed: `error_contains`\n  needle: `moon`\n  display: `hello world`"
    );
}

#[test]
fn error_chain_contains_ok() {
    let chain = vec!["outer: inner_token".to_string(), "inner_token".to_string()];
    assert!(error_chain_contains(&chain, "inner_token").is_ok());
}

#[test]
fn error_chain_joins_with_colons() {
    let chain = vec!["outer".to_string(), "middle".to_string(), "inner".to_string()];
    assert!(error_chain_contains(&chain, "outer: middle: inner").is_ok());
    assert_eq!(
        error_chain_contains(&chain, "absent").unwrap_err(),
        "assertion failed: `error_chain_contains`\n  needle: `absent`\n  chain: `outer: middle: inner`"
    );
}

#[test]
fn is_none_ok() {
    assert!(is_none(&None::<i32>).is_ok());
    assert_eq!(
        is_none(&Some(1)).unwrap_err(),
        "assertion failed: `is_none`: expected None, got Some(...)"
    );
}

#[test]
fn is_some_ok() {
    assert!(is_some(&Some(1)).is_ok());
    assert_eq!(
        is_some(&None::<i32>).unwrap_err(),
        "assertion failed: `is_some`: expected Some, got None"
    );
}

#[test]
fn unwrap_some_ok() {
    assert_eq!(unwrap_some(Some(7)).unwrap(), 7);
    assert_eq!(unwrap_some(None::<u8>).unwrap_err(), "assertion failed: `unwrap_some`");
}

#[test]
fn zero_ok() {
    assert!(zero(&0_i32).is_ok());
    assert_eq!(
        zero(&1_i32).unwrap_err(),
        "assertion failed: `zero`\n  expected default: `0`\n    actual: `1`"
    );
}

#[test]
fn not_zero_ok() {
    assert!(not_zero(&1_i32).is_ok());
    assert_eq!(
        not_zero(&0_i32).unwrap_err(),
        "assertion failed: `not_zero`: value is default `0`"
    );
}

#[test]
fn assert_ok_ok() {
    assert_eq!(assert_ok(Ok::<_, ()>(9)).unwrap(), 9);
    assert_eq!(
        assert_ok(Err::<i32, _>("e")).unwrap_err(),
        "assertion failed: `assert_ok`: \"e\""
    );
}

#[test]
fn no_error_ok() {
    assert_eq!(no_error(Ok::<i32, std::convert::Infallible>(3)).unwrap(), 3);
}

#[test]
fn assert_err_ok() {
    let e = assert_err::<i32, &str>(Err("bad")).unwrap();
    assert_eq!(e, "bad");
    assert_eq!(
        assert_err(Ok::<i32, &str>(1)).unwrap_err(),
        "assertion failed: `assert_err`: expected Err, got Ok(1)"
    );
}

#[test]
fn greater_ok() {
    assert!(greater(&3, &2).is_ok());
    assert_eq!(
        greater(&2, &3).unwrap_err(),
        "assertion failed: `greater`\n  expected `2` > `3`"
    );
}

#[test]
fn greater_or_equal_ok() {
    assert!(greater_or_equal(&2, &2).is_ok());
    assert!(greater_or_equal(&1, &2).is_err());
}

#[test]
fn less_ok() {
    assert!(less(&1, &9).is_ok());
    assert!(less(&9, &9).is_err());
}

#[test]
fn less_or_equal_ok() {
    assert!(less_or_equal(&4, &4).is_ok());
    assert_eq!(
        less_or_equal(&5, &4).unwrap_err(),
        "assertion failed: `less_or_equal`\n  expected `5` <= `4`"
    );
}

#[test]
fn positive_ok() {
    assert!(positive(&1_i32).is_ok());
    assert!(positive(&0_i32).is_err());
}

#[test]
fn negative_ok() {
    assert!(negative(&-1_i32).is_ok());
    assert!(negative(&0_i32).is_err());
}

#[test]
fn is_increasing_ok() {
    assert!(is_increasing(&[1, 2, 3]).is_ok());
    assert_eq!(
        is_increasing(&[1, 1]).unwrap_err(),
        "assertion failed: `is_increasing`: [1, 1]"
    );
}

#[test]
fn is_decreasing_ok() {
    assert!(is_decreasing(&[3_i32, 2, 1]).is_ok());
    assert!(is_decreasing(&[3_i32, 3]).is_err());
}

#[test]
fn is_non_decreasing_ok() {
    assert!(is_non_decreasing(&[1, 2, 2, 3]).is_ok());
    assert!(is_non_decreasing(&[2, 1]).is_err());
}

#[test]
fn is_non_increasing_ok() {
    assert!(is_non_increasing(&[3_i32, 2, 2, 1]).is_ok());
    assert!(is_non_increasing(&[1_i32, 2]).is_err());
}

#[test]
fn monotonic_checks_accept_short_slices() {
    assert!(is_increasing::<i32>(&[]).is_ok());
    assert!(is_decreasing(&[7]).is_ok());
}

#[test]
fn same_ref_ok() {
    let v = 5_i32;
    assert!(same_ref(&v, &v).is_ok());
}

#[test]
fn not_same_ref_ok() {
    let a = 1_i32;
    let b = 1_i32;
    assert!(not_same_ref(&a, &b).is_ok());
    assert_eq!(
        same_ref(&a, &b).unwrap_err(),
        "assertion failed: `same_ref`: references do not point to the same allocation"
    );
}

#[test]
fn same_arc_ok() {
    let a = Arc::new(1);
    let b = Arc::clone(&a);
    assert!(same_arc(&a, &b).is_ok());
    let c = Arc::new(1);
    assert_eq!(
        same_arc(&a, &c).unwrap_err(),
        "assertion failed: `same_arc`: Arc pointers differ"
    );
}

#[test]
fn fail_reports_message() {
    assert_eq!(fail("boom").unwrap_err(), "assertion failed: boom");
}

#[test]
fn condition_ok() {
    assert!(condition(true, "nope").is_ok());
    assert_eq!(condition(false, "bad").unwrap_err(), "assertion failed: bad");
}

#[test]
fn condition_fn_ok() {
    assert!(condition_fn(|| true, "bad").is_ok());
    assert!(condition_fn(|| false, "bad").is_err());
}

#[test]
fn same_delegates_to_same_ref() {
    let x = 1_i32;
    assert!(same(&x, &x).is_ok());
}

#[test]
fn not_same_delegates() {
    let a = 1_i32;
    let b = 1_i32;
    assert!(not_same(&a, &b).is_ok());
    assert!(not_same(&a, &a).is_err());
}

#[test]
fn within_duration_ok() {
    assert!(within_duration(
        Duration::from_secs(10),
        Duration::from_secs(10),
        Duration::from_millis(1),
    )
    .is_ok());
}

#[test]
fn within_duration_edges() {
    let e = Duration::from_millis(100);
    assert!(within_duration(e, Duration::from_millis(101), Duration::from_millis(1)).is_ok());
    assert!(within_duration(e, Duration::from_millis(99), Duration::from_millis(1)).is_ok());
    assert_eq!(
        within_duration(e, Duration::from_millis(102), Duration::from_millis(1)).unwrap_err(),
        "assertion failed: `within_duration`\n  expected: 100ms\n    actual: 102ms\n   delta: 1ms"
    );
}

#[test]
fn within_range_ok() {
    let mid = Duration::from_secs(5);
    let start = Duration::from_secs(1);
    let end = Duration::from_secs(10);
    assert!(within_range(mid, start, end).is_ok());
    assert!(within_range(end, start, end).is_ok());
    assert_eq!(
        within_range(Duration::from_secs(11), start, end).unwrap_err(),
        "assertion failed: `within_range`\n  actual: 11s\n  range: 1s ..= 10s"
    );
}

#[derive(Debug, PartialEq, Eq)]
struct CustomErr(&'static str);

impl std::fmt::Display for CustomErr {
    fn fmt(&self, f: &mut std::fmt::Formatter<'_>) -> std::fmt::Result {
        f.write_str(self.0)
    }
}

impl std::error::Error for CustomErr {}

#[derive(Debug)]
struct WithSource(io::Error);

impl std::fmt::Display for WithSource {
    fn fmt(&self, f: &mut std::fmt::Formatter<'_>) -> std::fmt::Result {
        f.write_str(&format!("outer: {}", self.0))
    }
}

impl std::error::Error for WithSource {
    fn source(&self) -> Option<&(dyn std::error::Error + 'static)> {
        Some(&self.0)
    }
}

#[derive(Debug)]
struct Phantom;

impl std::fmt::Display for Phantom {
    fn fmt(&self, f: &mut std::fmt::Formatter<'_>) -> std::fmt::Result {
        f.write_str("ghost")
    }
}

impl std::error::Error for Phantom {}

/// The error and its causes, outermost first, each seen as an `E` when it is one.
fn chain_as<'a, E: std::error::Error + 'static>(
    err: &'a (dyn std::error::Error + 'static),
) -> Vec<Option<&'a E>> {
    let mut out = Vec::new();
    let mut cur: Option<&(dyn std::error::Error + 'static)> = Some(err);
    while let Some(e) = cur {
        out.push(e.downcast_ref::<E>());
        cur = e.source();
    }
    out
}

#[test]
fn error_is_ok() {
    let target = CustomErr("match");
    let err = CustomErr("match");
    let er: &(dyn std::error::Error + 'static) = &err;
    assert!(suitecase::assertions::errors::error_is(&chain_as::<CustomErr>(er), &target).is_ok());
}

#[test]
fn error_is_reports_missing_target() {
    let target = CustomErr("a");
    let err = CustomErr("b");
    let er: &(dyn std::error::Error + 'static) = &err;
    assert_eq!(
        suitecase::assertions::errors::error_is(&chain_as::<CustomErr>(er), &target).unwrap_err(),
        "assertion failed: `error_is`: chain does not contain matching `CustomErr(\"a\")`"
    );
}

#[test]
fn not_error_is_ok() {
    let target = CustomErr("want");
    let err = CustomErr("other");
    let er: &(dyn std::error::Error + 'static) = &err;
    assert!(suitecase::assertions::errors::not_error_is(&chain_as::<CustomErr>(er), &target).is_ok());
    let same = CustomErr("other");
    assert_eq!(
        suitecase::assertions::errors::not_error_is(&chain_as::<CustomErr>(er), &same).unwrap_err(),
        "assertion failed: `not_error_is`: chain unexpectedly contains `CustomErr(\"other\")`"
    );
}

#[test]
fn error_as_ok() {
    let e = io::Error::other("z");
    let er: &(dyn std::error::Error + 'static) = &e;
    let x: &io::Error =
        suitecase::assertions::errors::error_as(er.downcast_ref::<io::Error>(), "std::io::error::Error")
            .unwrap();
    assert_eq!(x.to_string(), "z");
    assert_eq!(
        suitecase::assertions::errors::error_as(er.downcast_ref::<Phantom>(), "Phantom").unwrap_err(),
        "assertion failed: `error_as`: could not downcast to `Phantom`"
    );
}

#[test]
fn error_as_chain_finds_inner() {
    let inner = io::Error::other("inner");
    let wrap = WithSource(inner);
    let er: &(dyn std::error::Error + 'static) = &wrap;
    let io_ref: &io::Error =
        suitecase::assertions::errors::error_as_chain(&chain_as::<io::Error>(er), "io::Error").unwrap();
    assert!(io_ref.to_string().contains("inner"));
}

#[test]
fn not_error_as_ok() {
    let e = io::Error::other("z");
    let er: &(dyn std::error::Error + 'static) = &e;
    let is_phantom: Vec<bool> = chain_as::<Phantom>(er).iter().map(|x| x.is_some()).collect();
    assert!(suitecase::assertions::errors::not_error_as(&is_phantom, "Phantom").is_ok());
    let is_io: Vec<bool> = chain_as::<io::Error>(er).iter().map(|x| x.is_some()).collect();
    assert_eq!(
        suitecase::assertions::errors::not_error_as(&is_io, "std::io::error::Error").unwrap_err(),
        "assertion failed: `not_error_as`: unexpectedly `std::io::error::Error`"
    );
}

#[test]
fn io_error_kind_ok() {
    let e = io::Error::from(io::ErrorKind::NotFound);
    assert!(suitecase::assertions::errors::io_error_kind(&e.kind(), &io::ErrorKind::NotFound).is_ok());
    assert_eq!(
        suitecase::assertions::errors::io_error_kind(&e.kind(), &io::ErrorKind::Other).unwrap_err(),
        "assertion failed: `io_error_kind`\n  expected: `Other`\n    actual: `NotFound`"
    );
}

#[test]
fn file_and_dir_checks() {
    assert!(file_exists("\"a.txt\"", &Entry::File).is_ok());
    assert_eq!(
        file_exists("\"d\"", &Entry::Dir).unwrap_err(),
        "assertion failed: `file_exists`: path exists but is not a file: \"d\""
    );
    assert_eq!(
        file_exists("\"x\"", &Entry::Missing("No such file or directory (os error 2)".to_string())).unwrap_err(),
        "assertion failed: `file_exists` \"x\": No such file or directory (os error 2)"
    );
    assert!(no_file_exists("\"x\"", &Entry::Missing("gone".to_string())).is_ok());
    assert!(no_file_exists("\"d\"", &Entry::Dir).is_ok());
    assert!(no_file_exists("\"a\"", &Entry::File).is_err());
    assert!(dir_exists("\"d\"", &Entry::Dir).is_ok());
    assert!(dir_exists("\"f\"", &Entry::File).is_err());
    assert!(no_dir_exists("\"f\"", &Entry::File).is_ok());
    assert_eq!(
        no_dir_exists("\"d\"", &Entry::Dir).unwrap_err(),
        "assertion failed: `no_dir_exists`: directory unexpectedly exists: \"d\""
    );
}

#[test]
fn identity_verdict_passes_exactly_when_identity_is_the_wanted_one() {
    assert!(identity_verdict(true, true, "m").is_ok());
    assert!(identity_verdict(false, false, "m").is_ok());
    assert_eq!(identity_verdict(false, true, "m").unwrap_err(), "m");
    assert_eq!(identity_verdict(true, false, "n").unwrap_err(), "n");
}

#[test]
fn not_same_ref_fails_on_one_reference() {
    let v = 5;
    assert_eq!(
        not_same_ref(&v, &v).unwrap_err(),
        "assertion failed: `not_same_ref`: references point to the same allocation"
    );
}
