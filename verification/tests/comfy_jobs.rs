use comfy_serve::comfy::{
    cleanup_filenames, finish_outputs, has_node_errors, history_asset, history_outputs,
    history_url, is_cleanup_target, prepare_prompt, prompt_url, upload_url, view_url,
    websocket_url, workflow_name, ws_step, ExecutionProgress, HistoryFile, WsEvent,
};
use comfy_serve::json::JsonValue;
use comfy_serve::json_text::json_text;
use comfy_serve::{derive_content_type, OutputAsset};

fn s(t: &str) -> JsonValue {
    JsonValue::Str(t.to_string())
}

fn obj(members: Vec<(&str, JsonValue)>) -> JsonValue {
    JsonValue::Object(members.into_iter().map(|(k, v)| (k.to_string(), v)).collect())
}

fn asset(name: Option<&str>) -> OutputAsset {
    OutputAsset {
        data: vec![1, 2, 3],
        content_type: "image/png".to_string(),
        extension: "png".to_string(),
        filename: name.map(|n| n.to_string()),
    }
}

#[test]
fn content_types_by_extension() {
    assert_eq!(derive_content_type("out.png"), ("image/png".to_string(), "png".to_string()));
    assert_eq!(derive_content_type("Photo.JPEG"), ("image/jpeg".to_string(), "jpg".to_string()));
    assert_eq!(derive_content_type("a.jpg"), ("image/jpeg".to_string(), "jpg".to_string()));
    assert_eq!(derive_content_type("x.webp"), ("image/webp".to_string(), "webp".to_string()));
    assert_eq!(derive_content_type("x.gif"), ("image/gif".to_string(), "gif".to_string()));
    assert_eq!(derive_content_type("x.bmp"), ("image/bmp".to_string(), "bmp".to_string()));
    assert_eq!(derive_content_type("a.b.wav"), ("audio/wav".to_string(), "wav".to_string()));
    assert_eq!(derive_content_type("song.mp3"), ("audio/mpeg".to_string(), "mp3".to_string()));
    assert_eq!(derive_content_type("x.Flac"), ("audio/flac".to_string(), "flac".to_string()));
    assert_eq!(derive_content_type("x.opus"), ("audio/opus".to_string(), "opus".to_string()));
    assert_eq!(derive_content_type("png"), ("image/png".to_string(), "png".to_string()));
    assert_eq!(derive_content_type("archive.tar.gz"), ("application/octet-stream".to_string(), "bin".to_string()));
    assert_eq!(derive_content_type(""), ("application/octet-stream".to_string(), "bin".to_string()));
}

#[test]
fn prepare_prompt_salts_save_nodes() {
    let prompt = obj(vec![
        ("1", obj(vec![("class_type", s("SaveImageWebsocket")), ("inputs", obj(vec![]))])),
        ("2", obj(vec![("class_type", s("SaveImage")), ("inputs", obj(vec![("filename_prefix", s("p"))]))])),
        ("3", obj(vec![("class_type", s("KSampler")), ("inputs", obj(vec![]))])),
    ]);
    let (p, ws) = prepare_prompt(prompt, "cid", false);
    assert_eq!(ws, vec!["1".to_string()]);
    assert_eq!(
        json_text(&p),
        "{\"1\":{\"class_type\":\"SaveImageWebsocket\",\"inputs\":{\"comfy_serve_salt\":\"cid\"}},\"2\":{\"class_type\":\"SaveImage\",\"inputs\":{\"filename_prefix\":\"p\"}},\"3\":{\"class_type\":\"KSampler\",\"inputs\":{}}}"
    );
}

#[test]
fn prepare_prompt_salts_disk_saves_when_cleaning_up() {
    let prompt = obj(vec![
        ("2", obj(vec![("class_type", s("SaveAudioMP3")), ("inputs", obj(vec![]))])),
        ("4", obj(vec![("class_type", s("SaveImageWebsocket"))])),
    ]);
    let (p, ws) = prepare_prompt(prompt, "z", true);
    assert_eq!(ws, vec!["4".to_string()]);
    assert_eq!(
        json_text(&p),
        "{\"2\":{\"class_type\":\"SaveAudioMP3\",\"inputs\":{\"comfy_serve_salt\":\"z\"}},\"4\":{\"class_type\":\"SaveImageWebsocket\"}}"
    );
}

#[test]
fn comfy_addresses() {
    assert_eq!(prompt_url("http://127.0.0.1:8188"), "http://127.0.0.1:8188/prompt");
    assert_eq!(websocket_url("http://127.0.0.1:8188", "abc"), "ws://127.0.0.1:8188/ws?clientId=abc");
    assert_eq!(websocket_url("https://host", "c"), "wss://host/ws?clientId=c");
    assert_eq!(history_url("http://h", "p1"), "http://h/history/p1");
    assert_eq!(upload_url("http://h"), "http://h/upload/image");
    let f = HistoryFile { filename: "a.png".to_string(), subfolder: "".to_string(), folder_type: "output".to_string() };
    assert_eq!(view_url("http://h", &f), "http://h/view?filename=a.png&subfolder=&type=output");
}

#[test]
fn websocket_messages_drive_the_job() {
    let ws_nodes = vec!["9".to_string()];
    let mut progress = ExecutionProgress { current_node: String::new(), assets: vec![] };
    let other_job = WsEvent::Text(Some(("executing".to_string(), obj(vec![("prompt_id", s("other")), ("node", JsonValue::Null)]))));
    assert!(!ws_step(&mut progress, other_job, "p1", &ws_nodes));
    let start = WsEvent::Text(Some(("executing".to_string(), obj(vec![("prompt_id", s("p1")), ("node", s("9"))]))));
    assert!(!ws_step(&mut progress, start, "p1", &ws_nodes));
    assert_eq!(progress.current_node, "9");
    assert!(!ws_step(&mut progress, WsEvent::Binary(vec![0, 0, 0, 1, 0, 0, 0, 2, 137, 80]), "p1", &ws_nodes));
    assert!(!ws_step(&mut progress, WsEvent::Binary(vec![1, 2, 3, 4, 5, 6, 7, 8]), "p1", &ws_nodes));
    assert_eq!(progress.assets.len(), 1);
    assert_eq!(progress.assets[0].data, vec![137, 80]);
    assert_eq!(progress.assets[0].content_type, "image/png");
    assert_eq!(progress.assets[0].extension, "png");
    assert!(progress.assets[0].filename.is_none());
    assert!(!ws_step(&mut progress, WsEvent::Text(None), "p1", &ws_nodes));
    assert!(!ws_step(&mut progress, WsEvent::Other, "p1", &ws_nodes));
    let status = WsEvent::Text(Some(("status".to_string(), obj(vec![("node", JsonValue::Null)]))));
    assert!(!ws_step(&mut progress, status, "p1", &ws_nodes));
    let done = WsEvent::Text(Some(("executing".to_string(), obj(vec![("node", JsonValue::Null)]))));
    assert!(ws_step(&mut progress, done, "p1", &ws_nodes));
}

#[test]
fn binary_from_other_nodes_is_ignored() {
    let ws_nodes = vec!["9".to_string()];
    let mut progress = ExecutionProgress { current_node: "3".to_string(), assets: vec![] };
    assert!(!ws_step(&mut progress, WsEvent::Binary(vec![0; 20]), "p1", &ws_nodes));
    assert!(progress.assets.is_empty());
}

#[test]
fn history_lists_images_then_audio() {
    let history = obj(vec![(
        "p1",
        obj(vec![(
            "outputs",
            obj(vec![
                (
                    "7",
                    obj(vec![
                        ("audio", JsonValue::Array(vec![obj(vec![("filename", s("a.flac")), ("subfolder", s("snd")), ("type", s("temp"))])])),
                        ("images", JsonValue::Array(vec![obj(vec![("filename", s("i.png"))]), obj(vec![("subfolder", s("x"))])])),
                    ]),
                ),
                ("8", obj(vec![("images", JsonValue::Array(vec![obj(vec![("filename", s("j.webp")), ("type", s("output"))])]))])),
            ]),
        )]),
    )]);
    let files = history_outputs(&history, "p1");
    let got: Vec<(String, String, String)> = files.iter().map(|f| (f.filename.clone(), f.subfolder.clone(), f.folder_type.clone())).collect();
    assert_eq!(
        got,
        vec![
            ("i.png".to_string(), "".to_string(), "output".to_string()),
            ("a.flac".to_string(), "snd".to_string(), "temp".to_string()),
            ("j.webp".to_string(), "".to_string(), "output".to_string()),
        ]
    );
    assert!(history_outputs(&history, "p2").is_empty());
    let a = history_asset(&files[1], vec![9]);
    assert_eq!(a.content_type, "audio/flac");
    assert_eq!(a.extension, "flac");
    assert_eq!(a.filename, Some("a.flac".to_string()));
}

#[test]
fn cleanup_names_are_unique() {
    let assets = vec![asset(Some("a.png")), asset(None), asset(Some("b.png")), asset(Some("a.png"))];
    assert_eq!(cleanup_filenames(&assets), vec!["a.png".to_string(), "b.png".to_string()]);
    let names = cleanup_filenames(&assets);
    assert!(is_cleanup_target(&"b.png".to_string(), &names));
    assert!(!is_cleanup_target(&"keep_me.png".to_string(), &names));
}

#[test]
fn no_outputs_is_an_error() {
    assert_eq!(finish_outputs(vec![]).unwrap_err(), "No outputs generated");
    assert_eq!(finish_outputs(vec![asset(None)]).unwrap().len(), 1);
}

#[test]
fn node_errors_are_a_non_empty_object() {
    assert!(!has_node_errors(&None));
    assert!(!has_node_errors(&Some(obj(vec![]))));
    assert!(has_node_errors(&Some(obj(vec![("3", s("bad"))]))));
}

#[test]
fn workflow_files_are_json_files() {
    assert_eq!(workflow_name("my-workflow.json"), Some("my-workflow".to_string()));
    assert_eq!(workflow_name("x.y.json"), Some("x.y".to_string()));
    assert_eq!(workflow_name(".json"), None);
    assert_eq!(workflow_name("a.JSON"), None);
    assert_eq!(workflow_name("readme"), None);
    assert_eq!(workflow_name("a.json.bak"), None);
}

#[test]
fn workflow_files_are_read_as_json() {
    let (name, wf) = comfy_serve::comfy::workflow_entry("flux.json", "{\"3\": {\"inputs\": {}}}").unwrap();
    assert_eq!(name, "flux");
    assert_eq!(json_text(&wf), "{\"3\":{\"inputs\":{}}}");
    assert!(comfy_serve::comfy::workflow_entry("flux.json", "{broken").is_none());
    assert!(comfy_serve::comfy::workflow_entry("notes.txt", "{}").is_none());
}

#[test]
fn websocket_text_frames_are_read_as_messages() {
    let m = comfy_serve::comfy::ws_text_message("{\"type\": \"executing\", \"data\": {\"node\": null}}").unwrap();
    assert_eq!(m.0, "executing");
    assert_eq!(json_text(&m.1), "{\"node\":null}");
    let a = comfy_serve::comfy::ws_text_message("[\"status\", 1]").unwrap();
    assert_eq!(a.0, "status");
    assert!(comfy_serve::comfy::ws_text_message("{\"type\": 3, \"data\": {}}").is_none());
    assert!(comfy_serve::comfy::ws_text_message("{\"type\": \"x\"}").is_none());
    assert!(comfy_serve::comfy::ws_text_message("garbage").is_none());
}
