//! A serialization round trip for the produced target list, through the
//! JSON collaborator: encoding the records, printing, reparsing and
//! decoding reproduces the same structured records.

use makeparse::parser::Parser;
use makeparse::types::Target;
use serde_json::Value;

fn target_to_value(t: &Target) -> Value {
    let mut m = serde_json::Map::new();
    m.insert("name".to_string(), Value::String(t.name.clone()));
    m.insert("default".to_string(), Value::Bool(t.default));
    let output = match &t.output {
        None => Value::Null,
        Some(paths) => Value::Array(paths.iter().map(|p| Value::String(p.clone())).collect()),
    };
    m.insert("output".to_string(), output);
    Value::Object(m)
}

fn value_to_target(v: &Value) -> Target {
    let name = v.get("name").unwrap().as_str().unwrap().to_string();
    let default = v.get("default").unwrap().as_bool().unwrap();
    let output = match v.get("output").unwrap() {
        Value::Null => None,
        Value::Array(items) => Some(
            items
                .iter()
                .map(|p| p.as_str().unwrap().to_string())
                .collect(),
        ),
        other => panic!("unexpected output encoding: {:?}", other),
    };
    Target { name, default, output }
}

fn assert_same(a: &[Target], b: &[Target]) {
    assert_eq!(a.len(), b.len());
    for (x, y) in a.iter().zip(b.iter()) {
        assert_eq!(x.name, y.name);
        assert_eq!(x.default, y.default);
        assert_eq!(x.output, y.output);
    }
}

#[test]
fn serialized_target_list_round_trips() {
    let mut p = Parser::new();
    let ts = p
        .parse_lines(
            &[
                "OUT = build".to_string(),
                "all:".to_string(),
                "    mkdir -p $(OUT)/bin".to_string(),
                "clean:".to_string(),
            ]
            .to_vec(),
            true,
        )
        .unwrap();

    let encoded = Value::Array(ts.iter().map(target_to_value).collect());
    let text = serde_json::to_string_pretty(&encoded).unwrap();
    let reparsed: Value = serde_json::from_str(&text).unwrap();
    let decoded: Vec<Target> = reparsed
        .as_array()
        .unwrap()
        .iter()
        .map(value_to_target)
        .collect();
    assert_same(&ts, &decoded);
}

#[test]
fn round_trip_keeps_empty_and_missing_outputs_apart() {
    let with_output = Target {
        name: "a".to_string(),
        default: true,
        output: Some(vec!["x/y".to_string()]),
    };
    let without_output = Target { name: "b".to_string(), default: false, output: None };
    let ts = vec![with_output, without_output];

    let encoded = Value::Array(ts.iter().map(target_to_value).collect());
    let text = serde_json::to_string_pretty(&encoded).unwrap();
    let reparsed: Value = serde_json::from_str(&text).unwrap();
    let decoded: Vec<Target> = reparsed
        .as_array()
        .unwrap()
        .iter()
        .map(value_to_target)
        .collect();
    assert_same(&ts, &decoded);
}

#[test]
fn target_equality_goes_by_name() {
    let a = Target { name: "same".to_string(), default: true, output: None };
    let b = Target {
        name: "same".to_string(),
        default: false,
        output: Some(vec!["out".to_string()]),
    };
    let c = Target::new("other".to_string());
    assert!(a == b);
    assert!(a != c);
}
