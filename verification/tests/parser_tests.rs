//! Tests of the line scanner: target discovery, default marking, comment
//! skipping, variable assignment and the per-line classification priority.

use makeparse::parser::{ParseError, Parser};
use makeparse::resolve::ResolveError;

fn lines(ls: &[&str]) -> Vec<String> {
    ls.iter().map(|s| s.to_string()).collect()
}

#[test]
fn plain_targets_in_order() {
    let mut p = Parser::new();
    let ts = p
        .parse_lines(&lines(&["build:", "test:", "clean:"]), false)
        .unwrap();
    assert_eq!(ts.len(), 3);
    assert_eq!(ts[0].name, "build");
    assert!(ts[0].default);
    assert_eq!(ts[1].name, "test");
    assert!(!ts[1].default);
    assert_eq!(ts[2].name, "clean");
    assert!(!ts[2].default);
    assert!(ts.iter().all(|t| t.output.is_none()));
}

#[test]
fn comments_and_blank_lines_are_inert() {
    let mut p = Parser::new();
    let ts = p
        .parse_lines(
            &lines(&["# a comment", "", "all:", "    # indented comment", "\t# tab comment", "other:"]),
            true,
        )
        .unwrap();
    assert_eq!(ts.len(), 2);
    assert_eq!(ts[0].name, "all");
    assert_eq!(ts[1].name, "other");
}

#[test]
fn target_takes_priority_over_assignment() {
    // `CC:=gcc` begins with a word followed by `:`, so it declares a target
    // named CC; it never also binds a variable.
    let mut p = Parser::new();
    let ts = p.parse_lines(&lines(&["CC:=gcc"]), true).unwrap();
    assert_eq!(ts.len(), 1);
    assert_eq!(ts[0].name, "CC");
    assert!(p.resolve_line("$(CC)").is_err());
}

#[test]
fn assignment_forms_and_values() {
    let mut p = Parser::new();
    p.parse_lines(
        &lines(&["PLAIN = one", "SPACED ?= two", "HYPHEN-NAME = three", "TIGHT=four"]),
        true,
    )
    .unwrap();
    assert_eq!(p.resolve_line("$(PLAIN)").unwrap(), "one");
    assert_eq!(p.resolve_line("$(SPACED)").unwrap(), "two");
    assert_eq!(p.resolve_line("${HYPHEN-NAME}").unwrap(), "three");
    assert_eq!(p.resolve_line("$(TIGHT)").unwrap(), "four");
}

#[test]
fn assignment_value_stops_before_comment() {
    let mut p = Parser::new();
    p.parse_lines(&lines(&["X = hello # trailing words"]), true).unwrap();
    // the value runs up to the `#`, keeping the space before it
    assert_eq!(p.resolve_line("$(X)").unwrap(), "hello ");
}

#[test]
fn later_assignment_overwrites_earlier() {
    let mut p = Parser::new();
    p.parse_lines(&lines(&["V = first", "V = second"]), true).unwrap();
    assert_eq!(p.resolve_line("$(V)").unwrap(), "second");
}

#[test]
fn references_are_substituted_in_lines() {
    let mut p = Parser::new();
    let ts = p
        .parse_lines(&lines(&["NAME = deploy", "$(NAME):"]), true)
        .unwrap();
    assert_eq!(ts.len(), 1);
    assert_eq!(ts[0].name, "deploy");
    assert!(ts[0].default);
}

#[test]
fn current_target_reference_tracks_most_recent_target() {
    let mut p = Parser::new();
    p.parse_lines(&lines(&["alpha:", "beta:"]), true).unwrap();
    assert_eq!(p.resolve_line("$@").unwrap(), "beta");

    // declaring the targets in the other order changes the resolution result
    let mut q = Parser::new();
    q.parse_lines(&lines(&["beta:", "alpha:"]), true).unwrap();
    assert_eq!(q.resolve_line("$@").unwrap(), "alpha");
}

#[test]
fn variable_bound_to_current_target_sigil() {
    // the line `WHO = $@` is resolved when scanned, so WHO holds whichever
    // target was declared most recently before it
    let mut p = Parser::new();
    p.parse_lines(&lines(&["alpha:", "beta:", "WHO = $@"]), true).unwrap();
    assert_eq!(p.resolve_line("$(WHO)").unwrap(), "beta");

    let mut q = Parser::new();
    q.parse_lines(&lines(&["beta:", "alpha:", "WHO = $@"]), true).unwrap();
    assert_eq!(q.resolve_line("$(WHO)").unwrap(), "alpha");
}

#[test]
fn sigil_inside_a_larger_value_tracks_the_current_target() {
    let mut p = Parser::new();
    p.parse_lines(&lines(&["alpha:", "beta:", "CMD = touch $@.stamp"]), true).unwrap();
    assert_eq!(p.resolve_line("$(CMD)").unwrap(), "touch beta.stamp");

    let mut q = Parser::new();
    q.parse_lines(&lines(&["beta:", "alpha:", "CMD = touch $@.stamp"]), true).unwrap();
    assert_eq!(q.resolve_line("$(CMD)").unwrap(), "touch alpha.stamp");
}

#[test]
fn undefined_variable_is_fatal_in_strict_mode() {
    let mut p = Parser::new();
    let err = p
        .parse_lines(&lines(&["ok:", "X = $(MISSING)"]), true)
        .unwrap_err();
    assert_eq!(
        err,
        ParseError { line: 1, error: ResolveError::Undefined { name: "MISSING".to_string() } }
    );
}

#[test]
fn undefined_variable_skips_line_outside_strict_mode() {
    let mut p = Parser::new();
    let ts = p
        .parse_lines(&lines(&["X = $(MISSING)", "ok:"]), false)
        .unwrap();
    assert_eq!(ts.len(), 1);
    assert_eq!(ts[0].name, "ok");
    // the failing assignment contributed nothing
    assert!(p.resolve_line("$(X)").is_err());
}

#[test]
fn output_from_mkdir_line() {
    let mut p = Parser::new();
    let ts = p
        .parse_lines(&lines(&["build:", "    mkdir -p build/out"]), true)
        .unwrap();
    assert_eq!(ts[0].output, Some(vec!["build/out".to_string()]));
}

#[test]
fn output_from_dash_o_flag() {
    let mut p = Parser::new();
    let ts = p
        .parse_lines(&lines(&["build:", "    gcc -o build/out/bin main.c"]), true)
        .unwrap();
    assert_eq!(ts[0].output, Some(vec!["build/out/bin".to_string()]));
}

#[test]
fn output_from_tagged_comment() {
    let mut p = Parser::new();
    let ts = p
        .parse_lines(&lines(&["build:", "# Output: dist/lib.so"]), true)
        .unwrap();
    assert_eq!(ts[0].output, Some(vec!["dist/lib.so".to_string()]));
}

#[test]
fn only_first_output_candidate_is_recorded() {
    let mut p = Parser::new();
    let ts = p
        .parse_lines(
            &lines(&["build:", "    mkdir -p first/dir", "    gcc -o second/bin main.c"]),
            true,
        )
        .unwrap();
    assert_eq!(ts[0].output, Some(vec!["first/dir".to_string()]));
}

#[test]
fn output_subpattern_priority_on_one_line() {
    // the line matches both the mkdir pattern and the -o pattern; the mkdir
    // pattern comes first, so its trailing token wins
    let mut p = Parser::new();
    let ts = p
        .parse_lines(&lines(&["build:", "    mkdir -o flagged trailing"]), true)
        .unwrap();
    assert_eq!(ts[0].output, Some(vec!["trailing".to_string()]));
}

#[test]
fn output_belongs_to_most_recent_target() {
    let mut p = Parser::new();
    let ts = p
        .parse_lines(
            &lines(&["one:", "    mkdir a", "two:", "    mkdir b"]),
            true,
        )
        .unwrap();
    assert_eq!(ts[0].output, Some(vec!["a".to_string()]));
    assert_eq!(ts[1].output, Some(vec!["b".to_string()]));
}

#[test]
fn unindented_commands_give_no_output() {
    let mut p = Parser::new();
    let ts = p
        .parse_lines(&lines(&["build:", "mkdir plain", "gcc -o bin main.c"]), false)
        .unwrap();
    assert_eq!(ts.len(), 1);
    assert_eq!(ts[0].output, None);
}

#[test]
fn ordinary_comment_is_never_an_output() {
    // a comment matching the mkdir heuristic is skipped before classification
    let mut p = Parser::new();
    let ts = p
        .parse_lines(&lines(&["build:", "    # mkdir not/really"]), true)
        .unwrap();
    assert_eq!(ts[0].output, None);
}

#[test]
fn tab_and_double_unit_indentation_are_recognized() {
    let mut p = Parser::new();
    let ts = p
        .parse_lines(&lines(&["a:", "\tmkdir out1", "b:", "        mkdir out2"]), true)
        .unwrap();
    assert_eq!(ts[0].output, Some(vec!["out1".to_string()]));
    assert_eq!(ts[1].output, Some(vec!["out2".to_string()]));
}

#[test]
fn leftover_spaces_after_indent_units_break_recognition() {
    // five spaces are one unit and one leftover space, so `mkdir` does not
    // stand immediately after the indentation
    let mut p = Parser::new();
    let ts = p.parse_lines(&lines(&["a:", "     mkdir out"]), true).unwrap();
    assert_eq!(ts[0].output, None);
}

#[test]
fn current_target_reference_before_any_target_is_undefined() {
    let mut p = Parser::new();
    let err = p.parse_lines(&lines(&["X = $@"]), true).unwrap_err();
    assert_eq!(
        err,
        ParseError { line: 0, error: ResolveError::Undefined { name: "@".to_string() } }
    );
}

#[test]
fn reparsing_gives_identical_output() {
    let file = ["VAR = x", "build:", "    mkdir -p out", "clean:"];
    let mut p = Parser::new();
    let first = p.parse_lines(&lines(&file), false).unwrap();
    let mut q = Parser::new();
    let second = q.parse_lines(&lines(&file), false).unwrap();
    assert_eq!(first.len(), second.len());
    for (a, b) in first.iter().zip(second.iter()) {
        assert_eq!(a.name, b.name);
        assert_eq!(a.default, b.default);
        assert_eq!(a.output, b.output);
    }
}
