//! Tests of the post-pass name filter: exclusion, inclusion, their
//! combination, and the handling of malformed patterns.

use makeparse::filter::{filter_targets, FilterError};
use makeparse::types::Target;

fn targets(names: &[&str]) -> Vec<Target> {
    names.iter().map(|n| Target::new(n.to_string())).collect()
}

fn names(ts: &[Target]) -> Vec<String> {
    ts.iter().map(|t| t.name.clone()).collect()
}

#[test]
fn no_patterns_pass_everything_through() {
    let ts = filter_targets(targets(&["build", "clean"]), true, None, None).unwrap();
    assert_eq!(names(&ts), vec!["build", "clean"]);
}

#[test]
fn exclusion_then_inclusion() {
    let input = &["build", "build-debug", "clean"];
    let excluded = filter_targets(
        targets(input),
        false,
        Some(vec!["^clean$".to_string()]),
        None,
    )
    .unwrap();
    assert_eq!(names(&excluded), vec!["build", "build-debug"]);

    let narrowed = filter_targets(
        targets(input),
        false,
        Some(vec!["^clean$".to_string()]),
        Some(vec!["^build".to_string()]),
    )
    .unwrap();
    assert_eq!(names(&narrowed), vec!["build", "build-debug"]);
}

#[test]
fn inclusion_alone_narrows() {
    let ts = filter_targets(
        targets(&["build", "test", "buildall"]),
        false,
        None,
        Some(vec!["^build".to_string()]),
    )
    .unwrap();
    assert_eq!(names(&ts), vec!["build", "buildall"]);
}

#[test]
fn inclusion_matching_nothing_keeps_nothing() {
    let ts = filter_targets(
        targets(&["build", "test"]),
        false,
        None,
        Some(vec!["^x".to_string()]),
    )
    .unwrap();
    assert!(ts.is_empty());
}

#[test]
fn exclusion_applies_before_inclusion() {
    // a name matching both an exclusion and an inclusion is dropped
    let ts = filter_targets(
        targets(&["build", "buildall"]),
        false,
        Some(vec!["all$".to_string()]),
        Some(vec!["^build".to_string()]),
    )
    .unwrap();
    assert_eq!(names(&ts), vec!["build"]);
}

#[test]
fn survivors_keep_scan_order() {
    let ts = filter_targets(
        targets(&["c", "a", "b", "aa"]),
        false,
        Some(vec!["^b$".to_string()]),
        None,
    )
    .unwrap();
    assert_eq!(names(&ts), vec!["c", "a", "aa"]);
}

#[test]
fn malformed_pattern_is_fatal_in_strict_mode() {
    let err = filter_targets(
        targets(&["build"]),
        true,
        Some(vec!["([".to_string()]),
        None,
    )
    .unwrap_err();
    assert_eq!(err, FilterError { pattern: "([".to_string() });
}

#[test]
fn first_malformed_pattern_is_reported_exclusions_first() {
    let err = filter_targets(
        targets(&["build"]),
        true,
        Some(vec!["^ok$".to_string(), "(bad".to_string()]),
        Some(vec!["[worse".to_string()]),
    )
    .unwrap_err();
    assert_eq!(err.pattern, "(bad");
}

#[test]
fn malformed_include_is_fatal_in_strict_mode() {
    let err = filter_targets(
        targets(&["build"]),
        true,
        None,
        Some(vec!["[".to_string()]),
    )
    .unwrap_err();
    assert_eq!(err.pattern, "[");
}

#[test]
fn malformed_pattern_is_dropped_outside_strict_mode() {
    // the bad exclusion is dropped; the good one still applies
    let ts = filter_targets(
        targets(&["build", "clean"]),
        false,
        Some(vec!["([".to_string(), "^clean$".to_string()]),
        None,
    )
    .unwrap();
    assert_eq!(names(&ts), vec!["build"]);
}

#[test]
fn include_set_of_only_bad_patterns_keeps_nothing() {
    // the inclusion set stays present though all its patterns were dropped
    let ts = filter_targets(
        targets(&["build"]),
        false,
        None,
        Some(vec!["([".to_string()]),
    )
    .unwrap();
    assert!(ts.is_empty());
}

#[test]
fn filtering_preserves_target_fields() {
    let mut t = Target::new("keep".to_string());
    t.default = true;
    t.output = Some(vec!["out/dir".to_string()]);
    let ts = filter_targets(vec![t], false, Some(vec!["^drop$".to_string()]), None).unwrap();
    assert_eq!(ts.len(), 1);
    assert_eq!(ts[0].name, "keep");
    assert!(ts[0].default);
    assert_eq!(ts[0].output, Some(vec!["out/dir".to_string()]));
}
