use comfy_serve::json::{inputs_writable, json_clone, workflow_with_input, JsonValue};
use comfy_serve::json_text::{json_text, parse_json};

fn s(t: &str) -> JsonValue {
    JsonValue::Str(t.to_string())
}

fn obj(members: Vec<(&str, JsonValue)>) -> JsonValue {
    JsonValue::Object(members.into_iter().map(|(k, v)| (k.to_string(), v)).collect())
}

fn sample_workflow() -> JsonValue {
    obj(vec![
        (
            "3",
            obj(vec![
                ("class_type", s("CLIPTextEncode")),
                ("inputs", obj(vec![("text", s("a cat"))])),
            ]),
        ),
        ("5", obj(vec![("class_type", s("Note")), ("inputs", s("oops"))])),
    ])
}

#[test]
fn json_text_writes_compact_json() {
    let v = obj(vec![
        ("a", s("x\"y\n")),
        (
            "b",
            JsonValue::Array(vec![
                JsonValue::Number("1".to_string()),
                JsonValue::Bool(true),
                JsonValue::Null,
            ]),
        ),
        ("c", obj(vec![])),
    ]);
    assert_eq!(json_text(&v), "{\"a\":\"x\\\"y\\n\",\"b\":[1,true,null],\"c\":{}}");
}

#[test]
fn json_text_escapes_control_characters() {
    let v = s("tab\there\u{1}\u{1f}\\/é");
    assert_eq!(json_text(&v), "\"tab\\there\\u0001\\u001f\\\\/é\"");
    let w = s("\u{8}\u{c}\r");
    assert_eq!(json_text(&w), "\"\\b\\f\\r\"");
}

#[test]
fn json_text_of_empty_array_and_scalars() {
    assert_eq!(json_text(&JsonValue::Array(vec![])), "[]");
    assert_eq!(json_text(&JsonValue::Bool(false)), "false");
    assert_eq!(json_text(&JsonValue::Number("-2.5e3".to_string())), "-2500.0");
    assert_eq!(json_text(&JsonValue::Number("12".to_string())), "12");
}

#[test]
fn workflow_with_input_sets_a_field() {
    let wf = workflow_with_input(sample_workflow(), "3", "text".to_string(), s("a dog"));
    let expected = obj(vec![
        (
            "3",
            obj(vec![
                ("class_type", s("CLIPTextEncode")),
                ("inputs", obj(vec![("text", s("a dog"))])),
            ]),
        ),
        ("5", obj(vec![("class_type", s("Note")), ("inputs", s("oops"))])),
    ]);
    assert_eq!(json_text(&wf), json_text(&expected));
}

#[test]
fn workflow_with_input_adds_a_new_field() {
    let wf = workflow_with_input(sample_workflow(), "3", "seed".to_string(), JsonValue::Number("7".to_string()));
    assert_eq!(
        json_text(&wf),
        "{\"3\":{\"class_type\":\"CLIPTextEncode\",\"inputs\":{\"seed\":7,\"text\":\"a cat\"}},\"5\":{\"class_type\":\"Note\",\"inputs\":\"oops\"}}"
    );
}

#[test]
fn workflow_with_input_leaves_missing_nodes_alone() {
    let before = json_text(&sample_workflow());
    let wf = workflow_with_input(sample_workflow(), "42", "text".to_string(), s("x"));
    assert_eq!(json_text(&wf), before);
    let wf2 = workflow_with_input(sample_workflow(), "5", "text".to_string(), s("x"));
    assert_eq!(json_text(&wf2), before);
}

#[test]
fn inputs_writable_detects_non_object_inputs() {
    let wf = sample_workflow();
    assert!(inputs_writable(&wf, "3"));
    assert!(!inputs_writable(&wf, "5"));
    assert!(inputs_writable(&wf, "missing"));
}

#[test]
fn json_clone_copies_deeply() {
    let wf = sample_workflow();
    let c = json_clone(&wf);
    assert_eq!(json_text(&c), json_text(&wf));
}

#[test]
fn json_text_orders_members_by_key() {
    let v = obj(vec![("b", JsonValue::Null), ("a", JsonValue::Bool(true))]);
    assert_eq!(json_text(&v), "{\"a\":true,\"b\":null}");
}

#[test]
fn parse_json_reads_values() {
    let v = parse_json("{\"x\": [1, 2.5, \"s\", null, false], \"y\": {}}").unwrap();
    assert_eq!(json_text(&v), "{\"x\":[1,2.5,\"s\",null,false],\"y\":{}}");
    match parse_json("\"just text\"") {
        Some(JsonValue::Str(s)) => assert_eq!(s, "just text"),
        _ => panic!("a JSON string"),
    }
    assert!(parse_json("not json").is_none());
    assert!(parse_json("{\"a\": 1").is_none());
    assert!(parse_json("").is_none());
}
