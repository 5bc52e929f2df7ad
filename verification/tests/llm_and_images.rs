use comfy_serve::config::{
    answer_is_yes, find_workflow, is_legacy_config, Config, FieldInputTarget, LlmConfig,
    WorkflowConfig,
};
use comfy_serve::images::{image_source, output_base64, raw_image_plan, ImageSource, RawImagePlan};
use comfy_serve::json::JsonValue;
use comfy_serve::json_text::json_text;
use comfy_serve::llm::{choose_model, mapping_text, restructure_request, status_error, INSTRUCTIONS};
use comfy_serve::OutputAsset;

fn llm(base: &str, model: Option<&str>, key: Option<&str>) -> LlmConfig {
    LlmConfig {
        base_url: base.to_string(),
        model: model.map(|m| m.to_string()),
        api_key: key.map(|k| k.to_string()),
    }
}

#[test]
fn llm_request_shape() {
    let wf = JsonValue::Object(vec![("3".to_string(), JsonValue::Object(vec![]))]);
    let r = restructure_request(&llm("https://api.openai.com/v1//", Some("gpt-4o"), Some("sk-1")), &wf, "expose the seed");
    assert_eq!(r.url, "https://api.openai.com/v1/chat/completions");
    assert_eq!(r.bearer, Some("sk-1".to_string()));
    let body: serde_json::Value = serde_json::from_str(&json_text(&r.body)).unwrap();
    assert_eq!(body["model"], "gpt-4o");
    assert_eq!(body["messages"][0]["role"], "system");
    assert_eq!(body["messages"][0]["content"], INSTRUCTIONS);
    assert_eq!(body["messages"][1]["role"], "user");
    assert_eq!(body["messages"][1]["content"], "User Prompt: expose the seed\n\nWorkflow JSON:\n{\"3\":{}}");
    let r2 = restructure_request(&llm("http://localhost:1234/v1", None, Some("")), &wf, "p");
    assert_eq!(r2.url, "http://localhost:1234/v1/chat/completions");
    assert_eq!(r2.bearer, None);
    assert!(json_text(&r2.body).starts_with("{\"messages\":"));
}

#[test]
fn instructions_ask_for_mappings_only() {
    assert!(INSTRUCTIONS.starts_with("You are an automated ComfyUI workflow parser.\n"));
    assert!(INSTRUCTIONS.contains("\"mappings\": ["));
    assert!(INSTRUCTIONS.ends_with("}\n"));
}

#[test]
fn requested_model_overrides() {
    assert_eq!(choose_model(Some("a".to_string()), Some("b".to_string())), Some("b".to_string()));
    assert_eq!(choose_model(Some("a".to_string()), Some("  ".to_string())), None);
    assert_eq!(choose_model(Some("a".to_string()), None), Some("a".to_string()));
    assert_eq!(choose_model(None, Some(" x ".to_string())), Some(" x ".to_string()));
}

#[test]
fn code_fences_are_removed() {
    let fenced = vec!["  ```json\n{\"mappings\": []}\n```  ".to_string(), "ignored".to_string()];
    assert_eq!(mapping_text(&fenced), "{\"mappings\": []}");
    assert_eq!(mapping_text(&vec!["```\n{}\n```".to_string()]), "{}");
    assert_eq!(mapping_text(&vec![" {\"a\":1} ".to_string()]), "{\"a\":1}");
    assert_eq!(mapping_text(&vec![]), "");
    assert_eq!(status_error("quota"), "LLM returned error: quota");
}

#[test]
fn image_values_by_target() {
    match image_source("anything", FieldInputTarget::Text) {
        ImageSource::Passthrough(s) => assert_eq!(s, "anything"),
        _ => panic!("text passes through"),
    }
    match image_source("https://x/y.png", FieldInputTarget::ImageUrl) {
        ImageSource::Passthrough(s) => assert_eq!(s, "https://x/y.png"),
        _ => panic!("a URL for a URL target passes through"),
    }
    match image_source("http://x/y.png", FieldInputTarget::ComfyUpload) {
        ImageSource::Fetch(s) => assert_eq!(s, "http://x/y.png"),
        _ => panic!("a URL is fetched"),
    }
    match image_source("data:image/png;base64, aGVsbG8= ", FieldInputTarget::ImageBase64) {
        ImageSource::Bytes(b) => assert_eq!(b, b"hello".to_vec()),
        _ => panic!("a data URL is decoded"),
    }
    match image_source("aGk=", FieldInputTarget::ImageUrl) {
        ImageSource::Bytes(b) => assert_eq!(b, b"hi".to_vec()),
        _ => panic!("plain base64 is decoded"),
    }
    match image_source("not base64!", FieldInputTarget::ImageBase64) {
        ImageSource::Invalid(m) => assert!(m.starts_with("Base64 Error: ")),
        _ => panic!("invalid base64 is reported"),
    }
}

#[test]
fn raw_image_plans() {
    match raw_image_plan(&b"hello".to_vec(), FieldInputTarget::ImageBase64, None) {
        RawImagePlan::Inline(s) => assert_eq!(s, "aGVsbG8="),
        _ => panic!("inline"),
    }
    match raw_image_plan(&vec![1], FieldInputTarget::ImageUrl, Some("example.com:3000")) {
        RawImagePlan::HostTemp { id, url } => {
            assert_eq!(id.len(), 36);
            assert_eq!(url, format!("http://example.com:3000/api/temp-images/{}", id));
        }
        _ => panic!("hosted"),
    }
    match raw_image_plan(&vec![1], FieldInputTarget::ImageUrl, None) {
        RawImagePlan::HostTemp { id, url } => assert_eq!(url, format!("http://127.0.0.1:3000/api/temp-images/{}", id)),
        _ => panic!("hosted"),
    }
    match raw_image_plan(&vec![1], FieldInputTarget::ComfyUpload, None) {
        RawImagePlan::Upload { filename } => {
            assert!(filename.starts_with("comfy_serve_temp_"));
            assert!(filename.ends_with(".png"));
            assert_eq!(filename.len(), "comfy_serve_temp_".len() + 36 + 4);
        }
        _ => panic!("upload"),
    }
    match raw_image_plan(&vec![1], FieldInputTarget::Text, None) {
        RawImagePlan::Invalid(m) => assert_eq!(m, "Invalid target for raw image bytes"),
        _ => panic!("text takes no bytes"),
    }
}

#[test]
fn outputs_are_returned_as_base64() {
    let a = OutputAsset { data: b"hi".to_vec(), content_type: "image/png".to_string(), extension: "png".to_string(), filename: None };
    assert_eq!(output_base64(&a), "aGk=");
}

#[test]
fn configuration_defaults_and_lookups() {
    let c = Config::default();
    assert_eq!(c.comfyui_url, "http://127.0.0.1:8188");
    assert!(c.llm.is_none());
    assert!(c.workflows.is_empty());
    assert!(!c.enable_openai_compat);
    assert_eq!(FieldInputTarget::default(), FieldInputTarget::Text);
    let ws = vec![
        ("a".to_string(), WorkflowConfig { active: true, file_name: "a.json".to_string(), exposed_fields: vec![] }),
        ("b".to_string(), WorkflowConfig { active: false, file_name: "b.json".to_string(), exposed_fields: vec![] }),
    ];
    assert_eq!(find_workflow(&ws, "b"), Some(1));
    assert_eq!(find_workflow(&ws, "c"), None);
}

#[test]
fn legacy_config_detection() {
    assert!(is_legacy_config("[workflows.\"a\"]\nactive = true\n"));
    assert!(!is_legacy_config("[workflows.\"a\"]\ninput_target = \"text\"\n"));
    assert!(!is_legacy_config("comfyui_url = \"x\"\n"));
    assert!(answer_is_yes(" y\n"));
    assert!(answer_is_yes("Y"));
    assert!(!answer_is_yes("yes"));
    assert!(!answer_is_yes(""));
}

#[test]
fn only_canonical_base64_is_decoded() {
    // Missing padding and stray trailing bits are refused: text that decodes
    // is exactly the encoding of its bytes.
    match image_source("aGk", FieldInputTarget::ImageBase64) {
        ImageSource::Invalid(m) => assert!(m.starts_with("Base64 Error: ")),
        _ => panic!("unpadded base64 is refused"),
    }
    match image_source("aGl=", FieldInputTarget::ImageBase64) {
        ImageSource::Invalid(m) => assert!(m.starts_with("Base64 Error: ")),
        _ => panic!("trailing bits are refused"),
    }
    match image_source("aGk=", FieldInputTarget::ImageBase64) {
        ImageSource::Bytes(b) => match raw_image_plan(&b, FieldInputTarget::ImageBase64, None) {
            RawImagePlan::Inline(s) => assert_eq!(s, "aGk="),
            _ => panic!("inline"),
        },
        _ => panic!("canonical base64 is decoded"),
    }
}
