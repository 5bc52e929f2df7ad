//! What the proxy decides around one ComfyUI job: the media type of an
//! output file, the preparation of the prompt, the progress messages of the
//! websocket, the outputs listed in the job history and the clean-up list.
use vstd::prelude::*;

use crate::json::{
    as_str, find_member, get, get_member, index, input_of, input_settable, insert_member,
    lemma_get_insert, lemma_get_replace, lemma_member_index, lemma_member_index_same_keys,
    lemma_array_view, lemma_object_view, member_index, member_text, members_view, node_with_input,
    with_input, json_clone, Json, JsonValue,
};
use crate::json_text::{json_parse, parse_json};
use crate::multipart::sub_bytes;
use crate::text::{
    after_last, after_last_chars, ascii_lower, chars_of, eq_ignore_ascii_case, eq_ignore_ascii_case_chars,
    join_str, replace_all, replace_chars, starts_with, starts_with_chars, string_clone,
    string_of, str_eq, strings_view, sub_chars, eq_chars, text_opt, contains_string,
};

verus! {

broadcast use vstd::string::group_string_axioms;

/// Represents an output asset (image or audio) retrieved from ComfyUI.
#[derive(Debug, Clone)]
pub struct OutputAsset {
    pub data: Vec<u8>,
    pub content_type: String,
    pub extension: String,
    pub filename: Option<String>,
}

/// The MIME type and canonical extension for a file extension, compared
/// without regard to ASCII case. (A non-ASCII character never lower-cases to
/// one of these all-ASCII extensions, so this is the comparison that
/// `to_lowercase` followed by `==` makes.)
pub open spec fn media_type_for(ext: Seq<char>) -> (Seq<char>, Seq<char>) {
    if eq_ignore_ascii_case(ext, "png"@) {
        ("image/png"@, "png"@)
    } else if eq_ignore_ascii_case(ext, "jpg"@) || eq_ignore_ascii_case(ext, "jpeg"@) {
        ("image/jpeg"@, "jpg"@)
    } else if eq_ignore_ascii_case(ext, "webp"@) {
        ("image/webp"@, "webp"@)
    } else if eq_ignore_ascii_case(ext, "gif"@) {
        ("image/gif"@, "gif"@)
    } else if eq_ignore_ascii_case(ext, "bmp"@) {
        ("image/bmp"@, "bmp"@)
    } else if eq_ignore_ascii_case(ext, "wav"@) {
        ("audio/wav"@, "wav"@)
    } else if eq_ignore_ascii_case(ext, "mp3"@) {
        ("audio/mpeg"@, "mp3"@)
    } else if eq_ignore_ascii_case(ext, "flac"@) {
        ("audio/flac"@, "flac"@)
    } else if eq_ignore_ascii_case(ext, "opus"@) {
        ("audio/opus"@, "opus"@)
    } else {
        ("application/octet-stream"@, "bin"@)
    }
}

/// The MIME type and extension that a file name implies: decided by the
/// text after its last `.` (all of the name when it has none).
pub open spec fn content_type_of(filename: Seq<char>) -> (Seq<char>, Seq<char>) {
    media_type_for(after_last(filename, '.'))
}

fn ext_is(ext: &Vec<char>, lit: &str) -> (r: bool)
    ensures
        r == eq_ignore_ascii_case(ext@, lit@),
{
    eq_ignore_ascii_case_chars(ext, &chars_of(lit))
}

/// Derives the MIME content-type and file extension from a filename.
pub fn derive_content_type(filename: &str) -> (r: (String, String))
    ensures
        (r.0@, r.1@) == content_type_of(filename@),
{
    let ext = after_last_chars(&chars_of(filename), '.');
    if ext_is(&ext, "png") {
        (String::from_str("image/png"), String::from_str("png"))
    } else if ext_is(&ext, "jpg") || ext_is(&ext, "jpeg") {
        (String::from_str("image/jpeg"), String::from_str("jpg"))
    } else if ext_is(&ext, "webp") {
        (String::from_str("image/webp"), String::from_str("webp"))
    } else if ext_is(&ext, "gif") {
        (String::from_str("image/gif"), String::from_str("gif"))
    } else if ext_is(&ext, "bmp") {
        (String::from_str("image/bmp"), String::from_str("bmp"))
    } else if ext_is(&ext, "wav") {
        (String::from_str("audio/wav"), String::from_str("wav"))
    } else if ext_is(&ext, "mp3") {
        (String::from_str("audio/mpeg"), String::from_str("mp3"))
    } else if ext_is(&ext, "flac") {
        (String::from_str("audio/flac"), String::from_str("flac"))
    } else if ext_is(&ext, "opus") {
        (String::from_str("audio/opus"), String::from_str("opus"))
    } else {
        (String::from_str("application/octet-stream"), String::from_str("bin"))
    }
}

/// `c` upper-cased in ASCII.
pub open spec fn ascii_upper(c: char) -> char {
    if 'a' <= c && c <= 'z' {
        ((c as int) - 32) as char
    } else {
        c
    }
}

/// `s` upper-cased in ASCII.
pub open spec fn ascii_upper_text(s: Seq<char>) -> Seq<char> {
    s.map_values(|c: char| ascii_upper(c))
}

/// The part after the last `.` of `a.e` is `e` when `e` has no `.`.
proof fn lemma_after_dot(a: Seq<char>, e: Seq<char>)
    requires
        !e.contains('.'),
    ensures
        after_last(a + seq!['.'] + e, '.') == e,
    decreases e.len(),
{
    let s = a + seq!['.'] + e;
    if e.len() == 0 {
        assert(s.last() == '.');
    } else {
        assert(e.last() != '.') by {
            assert(e[e.len() - 1] == e.last());
        }
        assert(!e.drop_last().contains('.')) by {
            if e.drop_last().contains('.') {
                let k = choose|k: int| 0 <= k < e.drop_last().len() && e.drop_last()[k] == '.';
                assert(e[k] == '.');
            }
        }
        lemma_after_dot(a, e.drop_last());
        assert(s.drop_last() =~= a + seq!['.'] + e.drop_last());
        assert(e.drop_last().push(e.last()) =~= e);
    }
}

/// Law: the content type of a file name depends only on the text after its
/// last `.`, and not on its ASCII case.
pub proof fn lemma_content_type_ignores_case(a: Seq<char>, b: Seq<char>, e: Seq<char>)
    requires
        !e.contains('.'),
    ensures
        content_type_of(a + seq!['.'] + e) == content_type_of(b + seq!['.'] + ascii_upper_text(e)),
{
    let u = ascii_upper_text(e);
    assert(!u.contains('.')) by {
        if u.contains('.') {
            let k = choose|k: int| 0 <= k < u.len() && u[k] == '.';
            assert(u[k] == ascii_upper(e[k]));
            assert(e.contains('.')) by {
                assert(e[k] == '.');
            }
        }
    }
    lemma_after_dot(a, e);
    lemma_after_dot(b, u);
    assert forall|p: Seq<char>| #[trigger] eq_ignore_ascii_case(u, p) == eq_ignore_ascii_case(e, p) by {
        assert forall|i: int| 0 <= i < e.len() implies ascii_lower(#[trigger] u[i]) == ascii_lower(e[i]) by {
            assert(u[i] == ascii_upper(e[i]));
        }
    }
}

/// Law: every file name gets one of the known extensions (or `bin`), and a
/// name with that extension gets the same content type again.
pub proof fn lemma_content_type_round_trip(name: Seq<char>)
    ensures
        ({
            let (c, x) = content_type_of(name);
            &&& x == "png"@ || x == "jpg"@ || x == "webp"@ || x == "gif"@ || x == "bmp"@ || x == "wav"@
                || x == "mp3"@ || x == "flac"@ || x == "opus"@ || x == "bin"@
            &&& content_type_of("f"@ + seq!['.'] + x) == (c, x)
        }),
{
    reveal_strlit("png");
    reveal_strlit("jpg");
    reveal_strlit("jpeg");
    reveal_strlit("webp");
    reveal_strlit("gif");
    reveal_strlit("bmp");
    reveal_strlit("wav");
    reveal_strlit("mp3");
    reveal_strlit("flac");
    reveal_strlit("opus");
    reveal_strlit("bin");
    let x = content_type_of(name).1;
    assert(!x.contains('.')) by {
        if x.contains('.') {
            let k = choose|k: int| 0 <= k < x.len() && x[k] == '.';
        }
    }
    lemma_after_dot("f"@, x);
    assert(ascii_lower(x[0]) == x[0] as int);
    assert(ascii_lower(x[1]) == x[1] as int);
}

// ---------------------------------------------------------------------------
// Preparing the prompt
// ---------------------------------------------------------------------------

/// The input through which the proxy keeps ComfyUI from serving a node from
/// its cache.
pub open spec fn salt_key() -> Seq<char> {
    "comfy_serve_salt"@
}

/// The `class_type` of a workflow node, when it is a string.
pub open spec fn class_type(node: Json) -> Option<Seq<char>> {
    as_str(index(node, "class_type"@))
}

/// A node class that sends its images over the websocket.
pub open spec fn is_websocket_save(class: Seq<char>) -> bool {
    class == "SaveImageWebsocket"@
}

/// A node class that saves its output to disk.
pub open spec fn is_disk_save(class: Seq<char>) -> bool {
    starts_with(class, "SaveImage"@) || starts_with(class, "SaveAudio"@)
}

/// A node whose result must be computed afresh: a websocket save node, or a
/// disk save node when the saved files are cleaned up afterwards.
pub open spec fn needs_salt(node: Json, cleanup: bool) -> bool {
    match class_type(node) {
        Some(c) => is_websocket_save(c) || (is_disk_save(c) && cleanup),
        None => false,
    }
}

/// The prompt as it is submitted: each node that needs it gets the salt
/// `salt` among its inputs.
pub open spec fn prepared_prompt(prompt: Json, salt: Seq<char>, cleanup: bool) -> Json {
    match prompt {
        Json::Object(nodes) => Json::Object(
            Seq::new(
                nodes.len(),
                |i: int|
                    (
                        nodes[i].0,
                        if needs_salt(nodes[i].1, cleanup) {
                            with_input(nodes[i].1, salt_key(), Json::Str(salt))
                        } else {
                            nodes[i].1
                        },
                    ),
            ),
        ),
        _ => prompt,
    }
}

/// A node that needs the salt and has an `inputs` object reads the salt
/// back from the prepared prompt.
proof fn lemma_node_salted(prompt: Json, salt: Seq<char>, cleanup: bool, node_id: Seq<char>)
    requires
        get(prompt, node_id) matches Some(node) && needs_salt(node, cleanup),
        input_settable(prompt, node_id),
    ensures
        input_of(prepared_prompt(prompt, salt, cleanup), node_id, salt_key()) == Some(Json::Str(salt)),
{
    match prompt {
        Json::Object(nodes) => {
            let prepared = Seq::new(
                nodes.len(),
                |i: int|
                    (
                        nodes[i].0,
                        if needs_salt(nodes[i].1, cleanup) {
                            with_input(nodes[i].1, salt_key(), Json::Str(salt))
                        } else {
                            nodes[i].1
                        },
                    ),
            );
            assert(prepared_prompt(prompt, salt, cleanup) == Json::Object(prepared));
            lemma_member_index_same_keys(nodes, prepared, node_id);
            lemma_member_index(nodes, node_id);
            let i = member_index(nodes, node_id)->0;
            let node = nodes[i].1;
            match node {
                Json::Object(m) => {
                    lemma_member_index(m, "inputs"@);
                    let j = member_index(m, "inputs"@)->0;
                    match m[j].1 {
                        Json::Object(inp) => {
                            lemma_get_replace(
                                m,
                                j,
                                Json::Object(insert_member(inp, salt_key(), Json::Str(salt))),
                                "inputs"@,
                            );
                            lemma_get_insert(inp, salt_key(), Json::Str(salt), salt_key());
                        },
                        _ => {},
                    }
                },
                _ => {},
            }
        },
        _ => {},
    }
}

/// Law: every websocket save node that has an `inputs` object is submitted
/// with the job's salt among its inputs, so ComfyUI runs it afresh instead
/// of serving its cached result.
pub proof fn lemma_websocket_nodes_salted(prompt: Json, salt: Seq<char>, cleanup: bool, node_id: Seq<char>)
    requires
        get(prompt, node_id) matches Some(node) && class_type(node) == Some(
            "SaveImageWebsocket"@,
        ),
        input_settable(prompt, node_id),
    ensures
        input_of(prepared_prompt(prompt, salt, cleanup), node_id, salt_key()) == Some(Json::Str(salt)),
{
    lemma_node_salted(prompt, salt, cleanup, node_id);
}

/// Law: when the saved files are cleaned up, every node whose class begins
/// with `SaveImage` or `SaveAudio` and that has an `inputs` object is
/// submitted with the job's salt among its inputs, so ComfyUI writes its
/// files afresh instead of serving a cached result whose files are gone.
pub proof fn lemma_disk_save_nodes_salted(prompt: Json, salt: Seq<char>, node_id: Seq<char>)
    requires
        get(prompt, node_id) matches Some(node) && class_type(node) matches Some(c) && (
        starts_with(c, "SaveImage"@) || starts_with(c, "SaveAudio"@)),
        input_settable(prompt, node_id),
    ensures
        input_of(prepared_prompt(prompt, salt, true), node_id, salt_key()) == Some(Json::Str(salt)),
{
    lemma_node_salted(prompt, salt, true, node_id);
}

/// The ids of the websocket save nodes among `nodes`, in order.
pub open spec fn websocket_node_ids(nodes: Seq<(Seq<char>, Json)>) -> Seq<Seq<char>>
    decreases nodes.len(),
{
    if nodes.len() == 0 {
        Seq::empty()
    } else {
        let prev = websocket_node_ids(nodes.drop_last());
        match class_type(nodes.last().1) {
            Some(c) => if is_websocket_save(c) {
                prev.push(nodes.last().0)
            } else {
                prev
            },
            None => prev,
        }
    }
}

/// The ids of the websocket save nodes of a prompt.
pub open spec fn websocket_nodes(prompt: Json) -> Seq<Seq<char>> {
    match prompt {
        Json::Object(nodes) => websocket_node_ids(nodes),
        _ => Seq::empty(),
    }
}

/// The class of a node, when it has a string `class_type`.
fn node_class(node: &JsonValue) -> (r: Option<Vec<char>>)
    ensures
        r matches Some(c) ==> class_type(node@) == Some(c@),
        r is None ==> class_type(node@) is None,
{
    match member_text(node, "class_type") {
        Some(s) => Some(chars_of(s.as_str())),
        None => None,
    }
}

/// Adds the salt `client_id` to the inputs of every node that must not be
/// served from ComfyUI's cache (every websocket save node, and every disk
/// save node when `cleanup` is on), and returns the ids of the websocket
/// save nodes, whose binary messages carry the images.
pub fn prepare_prompt(prompt: JsonValue, client_id: &str, cleanup: bool) -> (r: (JsonValue, Vec<String>))
    ensures
        r.0@ == prepared_prompt(prompt@, client_id@, cleanup),
        r.1@.len() == websocket_nodes(prompt@).len(),
        forall|k: int| 0 <= k < r.1@.len() ==> #[trigger] r.1@[k]@ == websocket_nodes(prompt@)[k],
{
    let ws_class = chars_of("SaveImageWebsocket");
    let image_prefix = chars_of("SaveImage");
    let audio_prefix = chars_of("SaveAudio");
    let mut ws_nodes: Vec<String> = Vec::new();
    match prompt {
        JsonValue::Object(mut nodes) => {
            proof {
                lemma_object_view(nodes);
            }
            let ghost n0 = members_view(nodes@);
            let ghost target = prepared_prompt(Json::Object(n0), client_id@, cleanup);
            let mut i: usize = 0;
            while i < nodes.len()
                invariant
                    i <= nodes@.len() == n0.len(),
                    ws_class@ == "SaveImageWebsocket"@,
                    image_prefix@ == "SaveImage"@,
                    audio_prefix@ == "SaveAudio"@,
                    forall|k: int| i <= k < n0.len() ==> #[trigger] members_view(nodes@)[k] == n0[k],
                    forall|k: int|
                        0 <= k < i ==> #[trigger] members_view(nodes@)[k] == (n0[k].0, if needs_salt(
                            n0[k].1,
                            cleanup,
                        ) {
                            with_input(n0[k].1, salt_key(), Json::Str(client_id@))
                        } else {
                            n0[k].1
                        }),
                    ws_nodes@.len() == websocket_node_ids(n0.take(i as int)).len(),
                    forall|k: int|
                        0 <= k < ws_nodes@.len() ==> #[trigger] ws_nodes@[k]@ == websocket_node_ids(
                            n0.take(i as int),
                        )[k],
                decreases nodes@.len() - i,
            {
                let ghost before = nodes@;
                let ghost wbefore = ws_nodes@;
                assert(n0.take(i + 1).drop_last() =~= n0.take(i as int));
                assert(n0.take(i + 1).last() == n0[i as int]);
                let (key, node) = nodes.remove(i);
                assert(members_view(before)[i as int] == (key@, node@));
                let class = node_class(&node);
                let (is_ws, is_disk) = match &class {
                    Some(c) => (
                        crate::text::eq_chars(c, &ws_class),
                        starts_with_chars(c, &image_prefix) || starts_with_chars(c, &audio_prefix),
                    ),
                    None => (false, false),
                };
                if is_ws {
                    ws_nodes.push(string_clone(&key));
                }
                let node2 = if is_ws || (is_disk && cleanup) {
                    node_with_input(node, String::from_str("comfy_serve_salt"), JsonValue::Str(String::from_str(client_id)))
                } else {
                    node
                };
                nodes.insert(i, (key, node2));
                proof {
                    assert(members_view(nodes@) =~= members_view(before).update(i as int, (key@, node2@)));
                    assert forall|k: int| 0 <= k < ws_nodes@.len() implies #[trigger] ws_nodes@[k]@
                        == websocket_node_ids(n0.take(i + 1))[k] by {
                        if k < wbefore.len() {
                            assert(ws_nodes@[k] == wbefore[k]);
                        }
                    }
                }
                i = i + 1;
            }
            proof {
                assert(n0.take(nodes@.len() as int) =~= n0);
                lemma_object_view(nodes);
                assert(members_view(nodes@) =~= match target {
                    Json::Object(t) => t,
                    _ => Seq::empty(),
                });
            }
            (JsonValue::Object(nodes), ws_nodes)
        },
        other => (other, ws_nodes),
    }
}

// ---------------------------------------------------------------------------
// Addresses of the ComfyUI API
// ---------------------------------------------------------------------------

/// The address to which a prompt is submitted.
pub fn prompt_url(base_url: &str) -> (r: String)
    ensures
        r@ == base_url@ + "/prompt"@,
{
    join_str(base_url, "/prompt")
}

/// The websocket address of the ComfyUI instance for one client: `http://`
/// becomes `ws://` and `https://` becomes `wss://`.
pub open spec fn websocket_url_of(base_url: Seq<char>, client_id: Seq<char>) -> Seq<char> {
    replace_all(replace_all(base_url, "http://"@, "ws://"@), "https://"@, "wss://"@)
        + "/ws?clientId="@ + client_id
}

/// The websocket address on which the progress of `client_id`'s jobs comes.
pub fn websocket_url(base_url: &str, client_id: &str) -> (r: String)
    ensures
        r@ == websocket_url_of(base_url@, client_id@),
{
    proof {
        reveal_strlit("http://");
        reveal_strlit("https://");
    }
    let b = chars_of(base_url);
    let step1 = replace_chars(&b, &chars_of("http://"), &chars_of("ws://"));
    let step2 = replace_chars(&step1, &chars_of("https://"), &chars_of("wss://"));
    let mut r = string_of(&step2);
    r.append("/ws?clientId=");
    r.append(client_id);
    r
}

/// The address of the history of one job.
pub fn history_url(base_url: &str, prompt_id: &str) -> (r: String)
    ensures
        r@ == base_url@ + "/history/"@ + prompt_id@,
{
    let mut r = join_str(base_url, "/history/");
    r.append(prompt_id);
    r
}

/// The address from which one output file is fetched.
pub fn view_url(base_url: &str, file: &HistoryFile) -> (r: String)
    ensures
        r@ == base_url@ + "/view?filename="@ + file.filename@ + "&subfolder="@ + file.subfolder@
            + "&type="@ + file.folder_type@,
{
    let mut r = join_str(base_url, "/view?filename=");
    r.append(file.filename.as_str());
    r.append("&subfolder=");
    r.append(file.subfolder.as_str());
    r.append("&type=");
    r.append(file.folder_type.as_str());
    r
}

/// The address to which an input image is uploaded.
pub fn upload_url(base_url: &str) -> (r: String)
    ensures
        r@ == base_url@ + "/upload/image"@,
{
    join_str(base_url, "/upload/image")
}

// ---------------------------------------------------------------------------
// Following the job on the websocket
// ---------------------------------------------------------------------------

/// An output as plain values: data, content type, extension, file name.
pub open spec fn asset_view(a: OutputAsset) -> (Seq<u8>, Seq<char>, Seq<char>, Option<Seq<char>>) {
    (
        a.data@,
        a.content_type@,
        a.extension@,
        match a.filename {
            Some(f) => Some(f@),
            None => None,
        },
    )
}

/// What the proxy knows while a job runs: the node being executed and the
/// images received so far.
pub struct ExecutionProgress {
    pub current_node: String,
    pub assets: Vec<OutputAsset>,
}

/// A message from the websocket: a text message (its `type` and `data`
/// when it reads as such), a binary message, or any other frame.
pub enum WsEvent {
    Text(Option<(String, JsonValue)>),
    Binary(Vec<u8>),
    Other,
}

/// What a text message means for the job `prompt_id`: whether it ends the
/// job, and the node that now runs, if it names one.
pub open spec fn text_effect(kind: Seq<char>, data: Json, prompt_id: Seq<char>) -> (bool, Option<Seq<char>>) {
    if kind != "executing"@ {
        (false, None)
    } else {
        match as_str(index(data, "prompt_id"@)) {
            Some(p) if p != prompt_id => (false, None),
            _ => match get(data, "node"@) {
                Some(Json::Null) => (true, None),
                _ => match as_str(index(data, "node"@)) {
                    Some(n) => (false, Some(n)),
                    None => (false, None),
                },
            },
        }
    }
}

/// Law: a text message ends the job exactly when it is of type `executing`,
/// its `node` is null, and its `prompt_id` is this job's or is not given;
/// whether a `prompt_id` is present makes no difference to a message that
/// carries this job's id or none. A message for this job that names a node
/// by text makes that node the running one without ending the job.
pub proof fn lemma_job_end(kind: Seq<char>, data: Json, prompt_id: Seq<char>)
    ensures
        text_effect(kind, data, prompt_id).0 <==> (kind == "executing"@ && get(data, "node"@)
            == Some(Json::Null) && (as_str(index(data, "prompt_id"@)) is None || as_str(
            index(data, "prompt_id"@),
        ) == Some(prompt_id))),
        kind == "executing"@ && (as_str(index(data, "prompt_id"@)) is None || as_str(
            index(data, "prompt_id"@),
        ) == Some(prompt_id)) && as_str(index(data, "node"@)) is Some ==> text_effect(
            kind,
            data,
            prompt_id,
        ) == (false, as_str(index(data, "node"@))),
        !(kind == "executing"@ && (as_str(index(data, "prompt_id"@)) is None || as_str(
            index(data, "prompt_id"@),
        ) == Some(prompt_id))) ==> text_effect(kind, data, prompt_id) == (false, None::<Seq<char>>),
{
}

/// The image that a binary message carries: what follows its first eight
/// bytes, when it comes from a websocket save node and is longer than that.
pub open spec fn binary_image(bin: Seq<u8>, current_node: Seq<char>, ws_nodes: Seq<Seq<char>>) -> Option<Seq<u8>> {
    if ws_nodes.contains(current_node) && bin.len() > 8 {
        Some(bin.skip(8))
    } else {
        None
    }
}

/// Takes one websocket message into account; returns whether the job is
/// done. A text message of type `executing` for this job either ends it
/// (its `node` is null) or names the node that now runs; a binary message
/// from a websocket save node adds its image (after the first eight bytes)
/// as a PNG output.
pub fn ws_step(progress: &mut ExecutionProgress, event: WsEvent, prompt_id: &str, ws_nodes: &Vec<String>) -> (done: bool)
    ensures
        match event {
            WsEvent::Text(Some((kind, data))) => {
                let (d, node) = text_effect(kind@, data@, prompt_id@);
                &&& done == d
                &&& final(progress).current_node@ == match node {
                    Some(n) => n,
                    None => old(progress).current_node@,
                }
                &&& final(progress).assets@ == old(progress).assets@
            },
            WsEvent::Binary(bin) => {
                &&& !done
                &&& final(progress).current_node@ == old(progress).current_node@
                &&& match binary_image(bin@, old(progress).current_node@, strings_view(ws_nodes@)) {
                    Some(img) => {
                        &&& final(progress).assets@.len() == old(progress).assets@.len() + 1
                        &&& forall|k: int| 0 <= k < old(progress).assets@.len() ==> #[trigger] final(progress).assets@[k] == old(progress).assets@[k]
                        &&& asset_view(final(progress).assets@.last()) == (img, "image/png"@, "png"@, None::<Seq<char>>)
                    },
                    None => final(progress).assets@ == old(progress).assets@,
                }
            },
            _ => !done && final(progress).current_node@ == old(progress).current_node@
                && final(progress).assets@ == old(progress).assets@,
        },
{
    match event {
        WsEvent::Text(Some((kind, data))) => {
            if !str_eq(kind.as_str(), "executing") {
                return false;
            }
            if let Some(pid) = member_text(&data, "prompt_id") {
                if !str_eq(pid.as_str(), prompt_id) {
                    return false;
                }
            }
            match get_member(&data, "node") {
                Some(JsonValue::Null) => {
                    return true;
                },
                _ => {},
            }
            match member_text(&data, "node") {
                Some(n) => {
                    progress.current_node = string_clone(n);
                },
                None => {},
            }
            false
        },
        WsEvent::Binary(bin) => {
            if contains_string(ws_nodes, &progress.current_node) && bin.len() > 8 {
                let img = sub_bytes(bin.as_slice(), 8, bin.len());
                assert(img@ =~= bin@.skip(8));
                progress.assets.push(OutputAsset {
                    data: img,
                    content_type: String::from_str("image/png"),
                    extension: String::from_str("png"),
                    filename: None,
                });
            }
            false
        },
        _ => false,
    }
}


// ---------------------------------------------------------------------------
// Outputs listed in the job history
// ---------------------------------------------------------------------------

/// One output file that the history of a job lists.
pub struct HistoryFile {
    pub filename: String,
    pub subfolder: String,
    pub folder_type: String,
}

/// A listed file as plain values.
pub open spec fn history_file_view(f: HistoryFile) -> (Seq<char>, Seq<char>, Seq<char>) {
    (f.filename@, f.subfolder@, f.folder_type@)
}

/// The file that one item of an `images` or `audio` list names, when it has
/// a string `filename`; the subfolder defaults to empty and the folder type
/// to `output`.
pub open spec fn file_entry(item: Json) -> Option<(Seq<char>, Seq<char>, Seq<char>)> {
    match as_str(index(item, "filename"@)) {
        Some(f) => Some(
            (
                f,
                match as_str(index(item, "subfolder"@)) {
                    Some(s) => s,
                    None => ""@,
                },
                match as_str(index(item, "type"@)) {
                    Some(t) => t,
                    None => "output"@,
                },
            ),
        ),
        None => None,
    }
}

/// The files that a list of items names, in order.
pub open spec fn file_entries(items: Seq<Json>) -> Seq<(Seq<char>, Seq<char>, Seq<char>)>
    decreases items.len(),
{
    if items.len() == 0 {
        Seq::empty()
    } else {
        file_entries(items.drop_last()) + match file_entry(items.last()) {
            Some(e) => seq![e],
            None => Seq::empty(),
        }
    }
}

/// The files that member `key` of a node output lists, when it is an array.
pub open spec fn listed_files(node_output: Json, key: Seq<char>) -> Seq<(Seq<char>, Seq<char>, Seq<char>)> {
    match get(node_output, key) {
        Some(Json::Array(items)) => file_entries(items),
        _ => Seq::empty(),
    }
}

/// The files that the node outputs list: for each node in order, its images
/// and then its audio files.
pub open spec fn output_files(outputs: Seq<(Seq<char>, Json)>) -> Seq<(Seq<char>, Seq<char>, Seq<char>)>
    decreases outputs.len(),
{
    if outputs.len() == 0 {
        Seq::empty()
    } else {
        output_files(outputs.drop_last()) + listed_files(outputs.last().1, "images"@) + listed_files(
            outputs.last().1,
            "audio"@,
        )
    }
}

/// The files that the history of job `prompt_id` lists under its `outputs`.
pub open spec fn history_files(history: Json, prompt_id: Seq<char>) -> Seq<(Seq<char>, Seq<char>, Seq<char>)> {
    match get(history, prompt_id) {
        Some(h) => match get(h, "outputs"@) {
            Some(Json::Object(outs)) => output_files(outs),
            _ => Seq::empty(),
        },
        None => Seq::empty(),
    }
}

/// Every item of `items` that names a file gives one entry, in order, and
/// no other item gives one.
proof fn lemma_file_entries_kept(items: Seq<Json>)
    ensures
        file_entries(items) == items.filter(|it: Json| file_entry(it) is Some).map_values(
            |it: Json| file_entry(it)->0,
        ),
    decreases items.len(),
{
    reveal(Seq::filter);
    if items.len() > 0 {
        lemma_file_entries_kept(items.drop_last());
        let prev = items.drop_last().filter(|it: Json| file_entry(it) is Some);
        if file_entry(items.last()) is Some {
            assert(items.filter(|it: Json| file_entry(it) is Some) == prev.push(items.last()));
            assert(prev.push(items.last()).map_values(|it: Json| file_entry(it)->0) =~= prev.map_values(
                |it: Json| file_entry(it)->0,
            ) + seq![file_entry(items.last())->0]);
        } else {
            assert(items.filter(|it: Json| file_entry(it) is Some) == prev);
            assert(file_entries(items) =~= file_entries(items.drop_last()));
        }
    } else {
        assert(items.filter(|it: Json| file_entry(it) is Some) =~= items);
        assert(file_entries(items) =~= items.map_values(|it: Json| file_entry(it)->0));
    }
}

/// When every item names a file, each item gives its entry, at its own
/// position.
proof fn lemma_file_entries_all_named(items: Seq<Json>)
    requires
        forall|k: int| 0 <= k < items.len() ==> #[trigger] file_entry(items[k]) is Some,
    ensures
        file_entries(items).len() == items.len(),
        forall|k: int| 0 <= k < items.len() ==> #[trigger] file_entries(items)[k] == file_entry(
            items[k],
        )->0,
    decreases items.len(),
{
    if items.len() > 0 {
        let d = items.drop_last();
        assert forall|k: int| 0 <= k < d.len() implies #[trigger] file_entry(d[k]) is Some by {
            assert(d[k] == items[k]);
        }
        lemma_file_entries_all_named(d);
        assert(file_entry(items[items.len() - 1]) is Some);
        assert forall|k: int| 0 <= k < items.len() implies #[trigger] file_entries(items)[k]
            == file_entry(items[k])->0 by {
            if k < d.len() {
                assert(d[k] == items[k]);
            }
        }
    }
}

/// Law: the files listed for a node output under `images` (or `audio`) are
/// exactly the items of that array that name a file by a string
/// `filename`, every one of them, in order; when every item names a file,
/// the k-th file is the k-th item's.
pub proof fn lemma_listed_files_complete(node_output: Json, key: Seq<char>, items: Seq<Json>)
    requires
        get(node_output, key) == Some(Json::Array(items)),
    ensures
        listed_files(node_output, key) == items.filter(|it: Json| file_entry(it) is Some).map_values(
            |it: Json| file_entry(it)->0,
        ),
        listed_files(node_output, key).len() == items.filter(|it: Json| file_entry(it) is Some).len(),
        (forall|k: int| 0 <= k < items.len() ==> #[trigger] file_entry(items[k]) is Some) ==> (
        listed_files(node_output, key).len() == items.len() && forall|k: int|
            0 <= k < items.len() ==> #[trigger] listed_files(node_output, key)[k] == file_entry(
                items[k],
            )->0),
{
    lemma_file_entries_kept(items);
    if forall|k: int| 0 <= k < items.len() ==> #[trigger] file_entry(items[k]) is Some {
        lemma_file_entries_all_named(items);
    }
}

/// Law: the files of several node outputs are those of each node in turn:
/// a node contributes its images and then its audio files, and the outputs
/// of `a` followed by `b` list the files of `a` and then those of `b`.
pub proof fn lemma_output_files_in_turn(a: Seq<(Seq<char>, Json)>, b: Seq<(Seq<char>, Json)>)
    ensures
        output_files(a + b) == output_files(a) + output_files(b),
        forall|k: Seq<char>, v: Json|
            #[trigger] output_files(seq![(k, v)]) == listed_files(v, "images"@) + listed_files(
                v,
                "audio"@,
            ),
    decreases b.len(),
{
    assert forall|k: Seq<char>, v: Json|
        #[trigger] output_files(seq![(k, v)]) == listed_files(v, "images"@) + listed_files(
            v,
            "audio"@,
        ) by {
        let one = seq![(k, v)];
        assert(one.drop_last() =~= Seq::<(Seq<char>, Json)>::empty());
        assert(output_files(one.drop_last()) == Seq::<(Seq<char>, Seq<char>, Seq<char>)>::empty());
        assert(output_files(one) =~= listed_files(v, "images"@) + listed_files(v, "audio"@));
    }
    if b.len() == 0 {
        assert(a + b =~= a);
        assert(output_files(a) + output_files(b) =~= output_files(a));
    } else {
        lemma_output_files_in_turn(a, b.drop_last());
        assert((a + b).drop_last() =~= a + b.drop_last());
        assert((a + b).last() == b.last());
        assert(output_files(a + b) =~= output_files(a) + output_files(b));
    }
}

/// The text of member `key`, or `default` when it is not a string.
fn text_or(v: &JsonValue, key: &str, default: &str) -> (r: String)
    ensures
        r@ == match as_str(index(v@, key@)) {
            Some(s) => s,
            None => default@,
        },
{
    match member_text(v, key) {
        Some(s) => string_clone(s),
        None => String::from_str(default),
    }
}

/// Appends the files that member `key` of a node output lists.
fn collect_listed(node_output: &JsonValue, key: &str, out: &mut Vec<HistoryFile>)
    ensures
        final(out)@.map_values(|f: HistoryFile| history_file_view(f)) == old(out)@.map_values(
            |f: HistoryFile| history_file_view(f),
        ) + listed_files(node_output@, key@),
{
    let ghost start = old(out)@.map_values(|f: HistoryFile| history_file_view(f));
    match get_member(node_output, key) {
        Some(JsonValue::Array(items)) => {
            proof {
                crate::json::lemma_array_view(*items);
            }
            let ghost iv = Seq::new(items@.len(), |i: int| crate::json::json_view(items@[i]));
            let mut i: usize = 0;
            assert(iv.take(0) =~= Seq::<Json>::empty());
            assert(start + file_entries(Seq::<Json>::empty()) =~= start);
            while i < items.len()
                invariant
                    i <= items@.len() == iv.len(),
                    iv == Seq::new(items@.len(), |i: int| crate::json::json_view(items@[i])),
                    start == old(out)@.map_values(|f: HistoryFile| history_file_view(f)),
                    out@.map_values(|f: HistoryFile| history_file_view(f)) == start + file_entries(
                        iv.take(i as int),
                    ),
                decreases items@.len() - i,
            {
                assert(iv.take(i + 1).drop_last() =~= iv.take(i as int));
                assert(iv.take(i + 1).last() == items@[i as int]@);
                let item = &items[i];
                let ghost before = out@;
                match member_text(item, "filename") {
                    Some(f) => {
                        let entry = HistoryFile {
                            filename: string_clone(f),
                            subfolder: text_or(item, "subfolder", ""),
                            folder_type: text_or(item, "type", "output"),
                        };
                        out.push(entry);
                        assert(out@.map_values(|f: HistoryFile| history_file_view(f)) =~= before.map_values(
                            |f: HistoryFile| history_file_view(f),
                        ).push(history_file_view(entry)));
                        assert(start + file_entries(iv.take(i + 1)) =~= start + file_entries(iv.take(i as int)) + seq![history_file_view(entry)]);
                    },
                    None => {
                        assert(start + file_entries(iv.take(i + 1)) =~= start + file_entries(iv.take(i as int)));
                    },
                }
                i = i + 1;
            }
            assert(iv.take(items@.len() as int) =~= iv);
        },
        _ => {
            assert(old(out)@.map_values(|f: HistoryFile| history_file_view(f)) + Seq::<(Seq<char>, Seq<char>, Seq<char>)>::empty()
                =~= old(out)@.map_values(|f: HistoryFile| history_file_view(f)));
        },
    }
}

/// The output files that the history of job `prompt_id` lists: for each
/// node output in order, its `images` and then its `audio` entries that
/// have a string `filename`.
pub fn history_outputs(history: &JsonValue, prompt_id: &str) -> (r: Vec<HistoryFile>)
    ensures
        r@.map_values(|f: HistoryFile| history_file_view(f)) == history_files(history@, prompt_id@),
{
    let mut out: Vec<HistoryFile> = Vec::new();
    assert(out@.map_values(|f: HistoryFile| history_file_view(f)) =~= Seq::<(Seq<char>, Seq<char>, Seq<char>)>::empty());
    match get_member(history, prompt_id) {
        Some(h) => match get_member(h, "outputs") {
            Some(JsonValue::Object(outs)) => {
                proof {
                    lemma_object_view(*outs);
                }
                let ghost ov = members_view(outs@);
                let mut i: usize = 0;
                assert(ov.take(0) =~= Seq::<(Seq<char>, Json)>::empty());
                while i < outs.len()
                    invariant
                        i <= outs@.len() == ov.len(),
                        ov == members_view(outs@),
                        out@.map_values(|f: HistoryFile| history_file_view(f)) == output_files(
                            ov.take(i as int),
                        ),
                    decreases outs@.len() - i,
                {
                    assert(ov.take(i + 1).drop_last() =~= ov.take(i as int));
                    assert(ov.take(i + 1).last() == ov[i as int]);
                    collect_listed(&outs[i].1, "images", &mut out);
                    collect_listed(&outs[i].1, "audio", &mut out);
                    i = i + 1;
                }
                assert(ov.take(outs@.len() as int) =~= ov);
                out
            },
            _ => out,
        },
        None => out,
    }
}

/// The output made of a file fetched from the history: its media type and
/// extension follow from its file name.
pub fn history_asset(file: &HistoryFile, data: Vec<u8>) -> (r: OutputAsset)
    ensures
        asset_view(r) == (data@, content_type_of(file.filename@).0, content_type_of(file.filename@).1, Some(file.filename@)),
{
    let (content_type, extension) = derive_content_type(file.filename.as_str());
    OutputAsset { data, content_type, extension, filename: Some(string_clone(&file.filename)) }
}

// ---------------------------------------------------------------------------
// Finishing the job
// ---------------------------------------------------------------------------

/// The file name of an output, if it was saved to disk.
pub open spec fn asset_name(a: OutputAsset) -> Option<Seq<char>> {
    match a.filename {
        Some(f) => Some(f@),
        None => None,
    }
}

/// Some output was saved under the file name `n`.
pub open spec fn named_by(assets: Seq<OutputAsset>, n: Seq<char>) -> bool {
    exists|k: int| 0 <= k < assets.len() && asset_name(assets[k]) == Some(n)
}

/// `n` is among the names.
pub open spec fn listed_name(names: Seq<String>, n: Seq<char>) -> bool {
    exists|i: int| 0 <= i < names.len() && names[i]@ == n
}

/// The file names of the outputs, each once: the files to remove from the
/// output folder after the job.
pub fn cleanup_filenames(assets: &Vec<OutputAsset>) -> (r: Vec<String>)
    ensures
        forall|i: int, j: int| 0 <= i < j < r@.len() ==> r@[i]@ != r@[j]@,
        forall|i: int| 0 <= i < r@.len() ==> named_by(assets@, #[trigger] r@[i]@),
        forall|k: int|
            0 <= k < assets@.len() ==> (#[trigger] asset_name(assets@[k]) matches Some(n) ==> listed_name(r@, n)),
{
    let mut names: Vec<String> = Vec::new();
    let mut k: usize = 0;
    while k < assets.len()
        invariant
            k <= assets@.len(),
            forall|i: int, j: int| 0 <= i < j < names@.len() ==> names@[i]@ != names@[j]@,
            forall|i: int| 0 <= i < names@.len() ==> named_by(assets@, #[trigger] names@[i]@),
            forall|m: int|
                0 <= m < k ==> (#[trigger] asset_name(assets@[m]) matches Some(n) ==> listed_name(names@, n)),
        decreases assets@.len() - k,
    {
        match &assets[k].filename {
            Some(f) => {
                assert(asset_name(assets@[k as int]) == Some(f@));
                let mut seen = false;
                let mut i: usize = 0;
                while i < names.len()
                    invariant
                        i <= names@.len(),
                        !seen ==> forall|j: int| 0 <= j < i ==> names@[j]@ != f@,
                        seen ==> listed_name(names@, f@),
                    decreases names@.len() - i,
                {
                    if names[i] == *f {
                        seen = true;
                    }
                    i = i + 1;
                }
                if !seen {
                    let ghost before = names@;
                    names.push(string_clone(f));
                    proof {
                        assert(names@[names@.len() - 1]@ == f@);
                        assert(listed_name(names@, f@));
                        assert forall|m: int| 0 <= m < k implies (#[trigger] asset_name(assets@[m]) matches Some(n) ==> listed_name(names@, n)) by {
                            if let Some(n) = asset_name(assets@[m]) {
                                let i = choose|i: int| 0 <= i < before.len() && before[i]@ == n;
                                assert(names@[i] == before[i]);
                            }
                        }
                        assert forall|i: int| 0 <= i < names@.len() implies named_by(assets@, #[trigger] names@[i]@) by {
                            if i < before.len() {
                                assert(names@[i] == before[i]);
                            } else {
                                assert(asset_name(assets@[k as int]) == Some(names@[i]@));
                            }
                        }
                    }
                }
            },
            None => {},
        }
        k = k + 1;
    }
    names
}

/// The outputs of a job, or the error when it produced none.
pub fn finish_outputs(assets: Vec<OutputAsset>) -> (r: Result<Vec<OutputAsset>, String>)
    ensures
        assets@.len() == 0 ==> (r matches Err(e) && e@ == "No outputs generated"@),
        assets@.len() > 0 ==> r == Ok::<Vec<OutputAsset>, String>(assets),
{
    if assets.len() == 0 {
        Err(String::from_str("No outputs generated"))
    } else {
        Ok(assets)
    }
}

/// Whether the response to a submitted prompt reports node errors: a
/// non-empty `node_errors` object.
pub fn has_node_errors(node_errors: &Option<JsonValue>) -> (r: bool)
    requires
        node_errors matches Some(e) ==> e is Object,
    ensures
        r == (node_errors matches Some(JsonValue::Object(m)) && m@.len() > 0),
{
    match node_errors {
        Some(JsonValue::Object(m)) => m.len() > 0,
        _ => false,
    }
}

/// Whether a file found under the output folder is one of the job's
/// outputs, to be removed.
pub fn is_cleanup_target(name: &String, filenames: &Vec<String>) -> (r: bool)
    ensures
        r == strings_view(filenames@).contains(name@),
{
    contains_string(filenames, name)
}

// ---------------------------------------------------------------------------
// Workflow files
// ---------------------------------------------------------------------------

/// The position of the last `c` in `s`.
pub open spec fn last_index_of(s: Seq<char>, c: char) -> Option<int>
    decreases s.len(),
{
    if s.len() == 0 {
        None
    } else if s.last() == c {
        Some(s.len() - 1)
    } else {
        last_index_of(s.drop_last(), c)
    }
}

/// The workflow that a file in the workflow folder holds: a file whose
/// extension (after the last `.`, which does not start the name) is
/// `json` holds the workflow named by the rest of its name (`Path::extension`
/// and `Path::file_stem`).
pub open spec fn workflow_file_name(file_name: Seq<char>) -> Option<Seq<char>> {
    match last_index_of(file_name, '.') {
        Some(i) => if i > 0 && file_name.skip(i + 1) == "json"@ {
            Some(file_name.take(i))
        } else {
            None
        },
        None => None,
    }
}

/// The name of the workflow that the file `file_name` of the workflow
/// folder holds, if it is a workflow file.
pub fn workflow_name(file_name: &str) -> (r: Option<String>)
    ensures
        text_opt(r) == workflow_file_name(file_name@),
{
    let s = chars_of(file_name);
    let mut j: usize = s.len();
    assert(s@.take(s.len() as int) =~= s@);
    while j > 0 && s[j - 1] != '.'
        invariant
            j <= s@.len() == s.len(),
            last_index_of(s@, '.') == last_index_of(s@.take(j as int), '.'),
        decreases j,
    {
        assert(s@.take(j as int).drop_last() =~= s@.take(j - 1));
        j = j - 1;
    }
    if j == 0 {
        assert(s@.take(0) =~= Seq::<char>::empty());
        return None;
    }
    let dot = j - 1;
    assert(s@.take(j as int).last() == '.');
    assert(last_index_of(s@, '.') == Some(dot as int));
    if dot == 0 {
        return None;
    }
    let ext = sub_chars(&s, j, s.len());
    assert(ext@ =~= s@.skip(dot + 1));
    if eq_chars(&ext, &chars_of("json")) {
        let stem = sub_chars(&s, 0, dot);
        assert(stem@ =~= s@.take(dot as int));
        Some(string_of(&stem))
    } else {
        None
    }
}

/// The workflow that a file of the workflow folder holds: its name and
/// the JSON value of its text, when the file is a workflow file whose text
/// is JSON.
pub fn workflow_entry(file_name: &str, content: &str) -> (r: Option<(String, JsonValue)>)
    ensures
        workflow_file_name(file_name@) is None ==> r is None,
        workflow_file_name(file_name@) matches Some(n) ==> match json_parse(content@) {
            Some(j) => r matches Some(e) && e.0@ == n && e.1@ == j,
            None => r is None,
        },
{
    match workflow_name(file_name) {
        Some(name) => match parse_json(content) {
            Some(json) => Some((name, json)),
            None => None,
        },
        None => None,
    }
}

/// The `type` and `data` of a websocket message, as a message with those
/// two fields reads from JSON: an object with a string `type` and a `data`
/// member, or an array of a string and a value.
pub open spec fn ws_message(j: Json) -> Option<(Seq<char>, Json)> {
    match j {
        Json::Object(_) => match (get(j, "type"@), get(j, "data"@)) {
            (Some(Json::Str(t)), Some(d)) => Some((t, d)),
            _ => None,
        },
        Json::Array(a) => if a.len() == 2 {
            match a[0] {
                Json::Str(t) => Some((t, a[1])),
                _ => None,
            }
        } else {
            None
        },
        _ => None,
    }
}

/// Reads a websocket text frame as a message: its `type` and `data`, or
/// `None` when the text is not such a message. The frame is read through
/// the parsed JSON tree, where a member written twice keeps its last value,
/// so a frame that repeats `type` or `data` is read, not refused.
pub fn ws_text_message(text: &str) -> (r: Option<(String, JsonValue)>)
    ensures
        (match r {
            Some((t, d)) => Some((t@, d@)),
            None => None,
        }) == match json_parse(text@) {
            Some(j) => ws_message(j),
            None => None,
        },
{
    match parse_json(text) {
        Some(v) => {
            let ghost j = v@;
            match v {
                JsonValue::Object(m) => {
                    let obj = JsonValue::Object(m);
                    assert(obj@ == j);
                    let kind = match member_text(&obj, "type") {
                        Some(t) => string_clone(t),
                        None => {
                            return None;
                        },
                    };
                    match get_member(&obj, "data") {
                        Some(d) => Some((kind, json_clone(d))),
                        None => None,
                    }
                },
                JsonValue::Array(mut a) => {
                    proof {
                        lemma_array_view(a);
                    }
                    if a.len() != 2 {
                        return None;
                    }
                    let data = a.pop().unwrap();
                    let first = a.pop().unwrap();
                    match first {
                        JsonValue::Str(t) => Some((t, data)),
                        _ => None,
                    }
                },
                _ => None,
            }
        },
        None => None,
    }
}

} // verus!
