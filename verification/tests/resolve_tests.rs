//! Tests of the variable resolver in isolation: substitution of the three
//! reference forms, cycle detection, and undefined-name reporting.

use makeparse::resolve::{resolve_text, ResolveError};
use makeparse::vars::VarMap;

#[test]
fn text_without_references_is_unchanged() {
    let m = VarMap::new();
    assert_eq!(resolve_text(&m, "plain text, no references").unwrap(), "plain text, no references");
    assert_eq!(resolve_text(&m, "").unwrap(), "");
    // a lone `$` or an unclosed form is not a reference
    assert_eq!(resolve_text(&m, "cost: $5 and $(unclosed").unwrap(), "cost: $5 and $(unclosed");
}

#[test]
fn parenthesized_and_braced_forms_substitute() {
    let mut m = VarMap::new();
    m.insert("CC".to_string(), "gcc".to_string());
    assert_eq!(resolve_text(&m, "$(CC) -c main.c").unwrap(), "gcc -c main.c");
    assert_eq!(resolve_text(&m, "${CC} -c main.c").unwrap(), "gcc -c main.c");
    assert_eq!(resolve_text(&m, "x$(CC)y${CC}z").unwrap(), "xgccygccz");
}

#[test]
fn self_reference_uses_current_target_binding() {
    let mut m = VarMap::new();
    m.insert("@".to_string(), "install".to_string());
    assert_eq!(resolve_text(&m, "echo $@").unwrap(), "echo install");
}

#[test]
fn nested_values_resolve_recursively() {
    let mut m = VarMap::new();
    m.insert("A".to_string(), "$(B)/lib".to_string());
    m.insert("B".to_string(), "/usr".to_string());
    assert_eq!(resolve_text(&m, "path=$(A)").unwrap(), "path=/usr/lib");
}

#[test]
fn undefined_variable_names_exactly_the_missing_name() {
    let m = VarMap::new();
    let err = resolve_text(&m, "use $(NOWHERE) here").unwrap_err();
    assert_eq!(err, ResolveError::Undefined { name: "NOWHERE".to_string() });
}

#[test]
fn undefined_variable_inside_a_value() {
    let mut m = VarMap::new();
    m.insert("A".to_string(), "$(GONE)".to_string());
    let err = resolve_text(&m, "$(A)").unwrap_err();
    assert_eq!(err, ResolveError::Undefined { name: "GONE".to_string() });
}

#[test]
fn recursive_chain_fails_and_names_a_cycle_member() {
    let mut m = VarMap::new();
    m.insert("A".to_string(), "$(B)".to_string());
    m.insert("B".to_string(), "$(A)".to_string());
    match resolve_text(&m, "$(A)") {
        Err(ResolveError::Recursive { name }) => {
            assert!(name == "A" || name == "B");
        },
        other => panic!("expected a recursive-dependency error, got {:?}", other),
    }
}

#[test]
fn direct_self_cycle_fails() {
    let mut m = VarMap::new();
    m.insert("SELF".to_string(), "$(SELF)".to_string());
    assert_eq!(
        resolve_text(&m, "${SELF}").unwrap_err(),
        ResolveError::Recursive { name: "SELF".to_string() }
    );
}

#[test]
fn leftmost_reference_fails_first() {
    let mut m = VarMap::new();
    m.insert("OK".to_string(), "fine".to_string());
    let err = resolve_text(&m, "$(MISSING) then $(OK)").unwrap_err();
    assert_eq!(err, ResolveError::Undefined { name: "MISSING".to_string() });
}

#[test]
fn resolved_values_may_contain_dollar_signs() {
    // the re-scan after the splice finds no reference form in `$$`
    let mut m = VarMap::new();
    m.insert("D".to_string(), "$$".to_string());
    assert_eq!(resolve_text(&m, "$(D)").unwrap(), "$$");
}

#[test]
fn splice_created_reference_is_resolved() {
    // the spliced `$` joins the following `@` into a self-reference, which
    // the re-scan from the top of the mutated text picks up
    let mut m = VarMap::new();
    m.insert("D".to_string(), "$".to_string());
    m.insert("@".to_string(), "t".to_string());
    assert_eq!(resolve_text(&m, "$(D)@").unwrap(), "t");
}

#[test]
fn splice_created_reference_at_left_boundary_is_resolved() {
    // the `$` before the splice joins the spliced `@` into a self-reference
    let mut m = VarMap::new();
    m.insert("D".to_string(), "@".to_string());
    m.insert("@".to_string(), "t".to_string());
    assert_eq!(resolve_text(&m, "$$(D)x").unwrap(), "tx");
}

#[test]
fn splice_rejoining_parentheses_is_resolved() {
    // the spliced fragment `$(X` and the trailing `)` form a new reference
    let mut m = VarMap::new();
    m.insert("F".to_string(), "$(X".to_string());
    m.insert("X".to_string(), "done".to_string());
    assert_eq!(resolve_text(&m, "$(F))").unwrap(), "done");
}
