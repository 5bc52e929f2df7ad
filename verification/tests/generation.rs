use comfy_serve::config::{FieldInputTarget, WorkflowConfig, WorkflowFieldMap};
use comfy_serve::generate::{
    active_workflow, available_workflows, edit_field_value, edit_takes_image, edit_workflow,
    field_action, fill_edit, fill_generate,
    fill_generation, generation_workflow, generation_writable, image_failure_message,
    incoming_string, number_value, select_workflow, EditAction, FieldAction, SelectError,
};
use comfy_serve::json::JsonValue;
use comfy_serve::json_text::json_text;

fn s(t: &str) -> JsonValue {
    JsonValue::Str(t.to_string())
}

fn obj(members: Vec<(&str, JsonValue)>) -> JsonValue {
    JsonValue::Object(members.into_iter().map(|(k, v)| (k.to_string(), v)).collect())
}

fn field(node: &str, name: &str, exposed: &str) -> WorkflowFieldMap {
    WorkflowFieldMap {
        original_node_id: node.to_string(),
        original_field_name: name.to_string(),
        exposed_as: exposed.to_string(),
        required: false,
        input_target: FieldInputTarget::Text,
        is_value_map: false,
        map_keys: String::new(),
        map_values: String::new(),
        randomize: false,
    }
}

fn wfc(active: bool) -> WorkflowConfig {
    WorkflowConfig { active, file_name: "x.json".to_string(), exposed_fields: vec![] }
}

fn workflow() -> JsonValue {
    obj(vec![
        ("3", obj(vec![("inputs", obj(vec![("text", s("old"))]))])),
        ("5", obj(vec![("inputs", obj(vec![("seed", JsonValue::Number("1".to_string()))]))])),
    ])
}

fn params(p: Vec<(&str, JsonValue)>) -> Vec<(String, JsonValue)> {
    p.into_iter().map(|(k, v)| (k.to_string(), v)).collect()
}

#[test]
fn numbers_are_written_in_decimal() {
    assert_eq!(json_text(&number_value(0)), "0");
    assert_eq!(json_text(&number_value(42)), "42");
    assert_eq!(json_text(&number_value(u64::MAX)), "18446744073709551615");
}

#[test]
fn incoming_values_as_text() {
    assert_eq!(incoming_string(&s("abc")), "abc");
    assert_eq!(incoming_string(&JsonValue::Bool(true)), "true");
    assert_eq!(incoming_string(&JsonValue::Number("3.5".to_string())), "3.5");
    assert_eq!(incoming_string(&JsonValue::Null), "null");
    assert_eq!(incoming_string(&JsonValue::Array(vec![s("a")])), "[\"a\"]");
}

#[test]
fn missing_required_parameter_refuses() {
    let mut f = field("3", "text", "prompt");
    f.required = true;
    match field_action(&f, &params(vec![])) {
        FieldAction::Missing(m) => assert_eq!(m, "Missing required parameter: prompt"),
        _ => panic!("expected a refusal"),
    }
    f.required = false;
    assert!(matches!(field_action(&f, &params(vec![])), FieldAction::Skip));
}

#[test]
fn plain_parameter_is_set_as_given() {
    let f = field("3", "text", "prompt");
    match field_action(&f, &params(vec![("other", s("x")), ("prompt", s("a dog"))])) {
        FieldAction::Assign(v) => assert_eq!(json_text(&v), "\"a dog\""),
        _ => panic!("expected a value"),
    }
}

#[test]
fn value_map_translates_listed_values() {
    let mut f = field("5", "value", "turbo");
    f.is_value_map = true;
    f.map_keys = "true,false".to_string();
    f.map_values = "0,0.9".to_string();
    match field_action(&f, &params(vec![("turbo", JsonValue::Bool(true))])) {
        FieldAction::Assign(v) => assert_eq!(json_text(&v), "0"),
        _ => panic!("expected a mapped value"),
    }
    match field_action(&f, &params(vec![("turbo", s("false"))])) {
        FieldAction::Assign(v) => assert_eq!(json_text(&v), "0.9"),
        _ => panic!("expected a mapped value"),
    }
    match field_action(&f, &params(vec![("turbo", JsonValue::Bool(false))])) {
        FieldAction::Assign(v) => assert_eq!(json_text(&v), "0.9"),
        _ => panic!("a boolean is compared by its text"),
    }
    match field_action(&f, &params(vec![("turbo", s("maybe"))])) {
        FieldAction::Assign(v) => assert_eq!(json_text(&v), "\"maybe\""),
        _ => panic!("an unlisted value is set as given"),
    }
}

#[test]
fn value_map_compares_numbers_by_their_text() {
    let mut f = field("5", "steps", "quality");
    f.is_value_map = true;
    f.map_keys = "1,2".to_string();
    f.map_values = "10,20".to_string();
    match field_action(&f, &params(vec![("quality", JsonValue::Number("2".to_string()))])) {
        FieldAction::Assign(v) => assert_eq!(json_text(&v), "20"),
        _ => panic!("a number is compared by its text"),
    }
}

#[test]
fn value_map_entries_are_trimmed_and_may_be_short() {
    let mut f = field("5", "value", "mode");
    f.is_value_map = true;
    f.map_keys = " fast , slow , extra".to_string();
    f.map_values = "1 , 2".to_string();
    match field_action(&f, &params(vec![("mode", s("slow"))])) {
        FieldAction::Assign(v) => assert_eq!(json_text(&v), "2"),
        _ => panic!("expected a mapped value"),
    }
    f.map_values = "1 , euler a".to_string();
    match field_action(&f, &params(vec![("mode", s("slow"))])) {
        FieldAction::Assign(v) => assert_eq!(json_text(&v), "\"euler a\""),
        _ => panic!("a mapped value that is not JSON is set as text"),
    }
    match field_action(&f, &params(vec![("mode", s("extra"))])) {
        FieldAction::Assign(v) => assert_eq!(json_text(&v), "\"extra\""),
        _ => panic!("a key without a value leaves the value as given"),
    }
}

#[test]
fn image_parameters_are_processed() {
    let mut f = field("9", "image", "picture");
    f.input_target = FieldInputTarget::ImageBase64;
    match field_action(&f, &params(vec![("picture", s("aGVsbG8="))])) {
        FieldAction::Image(t) => assert_eq!(t, "aGVsbG8="),
        _ => panic!("expected an image"),
    }
    assert_eq!(image_failure_message("picture", "bad"), "Image processing failed for picture: bad");
}

#[test]
fn model_names_select_workflows() {
    let ws = vec![
        ("old_flow".to_string(), wfc(false)),
        ("my_workflow".to_string(), wfc(true)),
        ("other".to_string(), wfc(true)),
    ];
    match select_workflow(&ws, Some("my_workflow".to_string())) {
        Ok((n, i)) => {
            assert_eq!(n, "my_workflow");
            assert_eq!(i, 1);
        }
        Err(_) => panic!("active workflow"),
    }
    match select_workflow(&ws, Some("my-workflow".to_string())) {
        Ok((n, i)) => {
            assert_eq!(n, "my_workflow");
            assert_eq!(i, 1);
        }
        Err(_) => panic!("slugified name is recovered"),
    }
    match select_workflow(&ws, None) {
        Ok((n, _)) => assert_eq!(n, "my_workflow"),
        Err(_) => panic!("first active workflow"),
    }
    let e = select_workflow(&ws, Some("old-flow".to_string())).unwrap_err();
    assert!(matches!(e, SelectError::Inactive));
    assert_eq!(e.edit_message(), "Workflow is inactive");
    assert_eq!(e.generation_message(), "Workflow not active or not found");
    let e = select_workflow(&ws, Some("ghost".to_string())).unwrap_err();
    assert_eq!(e.edit_message(), "Workflow 'ghost' not found");
    let none: Vec<(String, WorkflowConfig)> = vec![("a".to_string(), wfc(false))];
    let e = select_workflow(&none, None).unwrap_err();
    assert_eq!(e.generation_message(), "No active workflows configured");
    assert_eq!(e.edit_message(), "No active workflows configured");
}

#[test]
fn active_workflows_and_models() {
    let ws = vec![
        ("a".to_string(), wfc(true)),
        ("b".to_string(), wfc(false)),
        ("c".to_string(), wfc(true)),
    ];
    assert_eq!(active_workflow(&ws, "a"), Some(0));
    assert_eq!(active_workflow(&ws, "b"), None);
    assert_eq!(active_workflow(&ws, "zz"), None);
    let on_disk = vec!["c".to_string(), "b".to_string()];
    assert_eq!(available_workflows(&ws, &on_disk), vec![2]);
}

#[test]
fn generation_sets_prompt_and_seeds() {
    let mut seed = field("5", "seed", "seed");
    seed.randomize = true;
    let fields = vec![field("3", "text", "prompt"), seed, field("5", "cfg", "cfg")];
    let wf = fill_generation(workflow(), &fields, "a red fox", &vec![1, 77, 3]).unwrap();
    assert_eq!(
        json_text(&wf),
        "{\"3\":{\"inputs\":{\"text\":\"a red fox\"}},\"5\":{\"inputs\":{\"seed\":77}}}"
    );
    let wf2 = generation_workflow(workflow(), &fields, "a red fox").unwrap();
    let text = json_text(&wf2);
    assert!(text.starts_with("{\"3\":{\"inputs\":{\"text\":\"a red fox\"}},\"5\":{\"inputs\":{\"seed\":"));
}

#[test]
fn generation_refuses_prompt_on_image() {
    let mut p = field("3", "image", "prompt");
    p.input_target = FieldInputTarget::ImageUrl;
    let fields = vec![p];
    assert_eq!(
        fill_generation(workflow(), &fields, "x", &vec![0]).unwrap_err(),
        "The prompt field is mapped to an image input, which is not supported by the /v1/images/generations endpoint."
    );
    assert!(generation_writable(&workflow(), &fields));
}

#[test]
fn generation_writable_detects_broken_nodes() {
    let wf = obj(vec![("3", obj(vec![("inputs", s("x"))]))]);
    assert!(!generation_writable(&wf, &vec![field("3", "text", "prompt")]));
    assert!(generation_writable(&wf, &vec![field("3", "text", "cfg")]));
}

#[test]
fn edit_fields() {
    let mut r = field("5", "seed", "seed");
    r.randomize = true;
    match edit_field_value(&field("3", "text", "prompt"), "make it blue", 5) {
        EditAction::Assign(v) => assert_eq!(json_text(&v), "\"make it blue\""),
        _ => panic!("prompt"),
    }
    assert!(matches!(edit_field_value(&field("9", "image", "image"), "p", 5), EditAction::Image));
    match edit_field_value(&r, "p", 12) {
        EditAction::Assign(v) => assert_eq!(json_text(&v), "12"),
        _ => panic!("seed"),
    }
    assert!(matches!(edit_field_value(&field("5", "cfg", "cfg"), "p", 5), EditAction::Skip));
    assert!(edit_takes_image(&field("9", "image", "image")));
    assert!(!edit_takes_image(&field("9", "image", "prompt")));
    assert!(!edit_takes_image(&r));
}

#[test]
fn generate_fill_sets_every_field() {
    let mut img = field("5", "image", "picture");
    img.input_target = FieldInputTarget::ImageBase64;
    let fields = vec![field("3", "text", "prompt"), img, field("9", "x", "absent")];
    let p = params(vec![("prompt", s("a cat")), ("picture", s("aGk="))]);
    let images = vec![Ok(String::new()), Ok("aGk=".to_string()), Ok(String::new())];
    let wf = workflow();
    let out = fill_generate(wf, &fields, &p, &images).unwrap().unwrap();
    assert_eq!(json_text(&out), "{\"3\":{\"inputs\":{\"text\":\"a cat\"}},\"5\":{\"inputs\":{\"image\":\"aGk=\",\"seed\":1}}}");
}

#[test]
fn generate_fill_refuses_in_order() {
    let mut req = field("3", "text", "prompt");
    req.required = true;
    let mut img = field("5", "image", "picture");
    img.input_target = FieldInputTarget::ImageUrl;
    let fields = vec![img, req];
    let p = params(vec![("picture", s("zzz"))]);
    let failed = vec![Err("bad".to_string()), Ok(String::new())];
    assert_eq!(fill_generate(workflow(), &fields, &p, &failed).unwrap().unwrap_err(), "Image processing failed for picture: bad");
    let ok = vec![Ok("u".to_string()), Ok(String::new())];
    assert_eq!(fill_generate(workflow(), &fields, &p, &ok).unwrap().unwrap_err(), "Missing required parameter: prompt");
    let broken = obj(vec![("5", obj(vec![("inputs", s("x"))]))]);
    assert!(fill_generate(broken, &fields, &p, &ok).is_none());
}

#[test]
fn edit_fill_sets_prompt_image_and_seed() {
    let mut seed = field("5", "seed", "seed");
    seed.randomize = true;
    let fields = vec![field("3", "text", "prompt"), field("5", "image", "image"), seed];
    let images = vec![Ok(String::new()), Ok("up.png".to_string()), Ok(String::new())];
    let out = fill_edit(workflow(), &fields, "blue", &vec![0, 0, 9], &images).unwrap().unwrap();
    assert_eq!(json_text(&out), "{\"3\":{\"inputs\":{\"text\":\"blue\"}},\"5\":{\"inputs\":{\"image\":\"up.png\",\"seed\":9}}}");
    let failed = vec![Ok(String::new()), Err("no".to_string()), Ok(String::new())];
    assert_eq!(fill_edit(workflow(), &fields, "blue", &vec![0, 0, 9], &failed).unwrap().unwrap_err(), "Failed to process image: no");
    let drawn = edit_workflow(workflow(), &fields, "blue", &images).unwrap().unwrap();
    assert!(json_text(&drawn).contains("\"image\":\"up.png\""));
}
