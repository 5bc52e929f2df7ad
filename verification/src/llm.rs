//! Asking an OpenAI-compatible LLM to suggest parameter mappings for a
//! workflow: the request that is sent, and the cleaning of its reply.
use vstd::prelude::*;

use crate::config::LlmConfig;
use crate::json::{json_view, members_view, Json, JsonValue};
use crate::json_text::{json_serialize, json_text};
use crate::text::{
    chars_of, ends_with, ends_with_chars, join_str, starts_with, starts_with_chars, string_clone,
    string_of, strip_trailing, strip_trailing_chars, sub_chars, text_opt, trim, trim_chars,
};

verus! {

broadcast use vstd::string::group_string_axioms;

/// The chat completions endpoint under a base URL, whatever trailing
/// slashes the base URL has.
pub open spec fn completions_url(base_url: Seq<char>) -> Seq<char> {
    strip_trailing(base_url, '/') + "/chat/completions"@
}

/// The instructions sent as the system message.
pub open spec fn restructure_instructions() -> Seq<char> {
    INSTRUCTIONS@
}

/// The user message: the request in words, then the workflow as compact
/// JSON.
pub open spec fn user_message(prompt: Seq<char>, workflow: Json) -> Seq<char> {
    "User Prompt: "@ + prompt + "\n\nWorkflow JSON:\n"@ + json_serialize(workflow)
}

/// A chat message.
pub open spec fn chat_message(role: Seq<char>, content: Seq<char>) -> Json {
    Json::Object(seq![("role"@, Json::Str(role)), ("content"@, Json::Str(content))])
}

/// The body of the chat completion request: the model when one is
/// configured, and the system and user messages.
pub open spec fn chat_body(model: Option<Seq<char>>, prompt: Seq<char>, workflow: Json) -> Json {
    let messages = (
        "messages"@,
        Json::Array(
            seq![
                chat_message("system"@, restructure_instructions()),
                chat_message("user"@, user_message(prompt, workflow)),
            ],
        ),
    );
    match model {
        Some(m) => Json::Object(seq![("model"@, Json::Str(m)), messages]),
        None => Json::Object(seq![messages]),
    }
}

/// A request to the LLM.
pub struct LlmRequest {
    /// Where the request is posted.
    pub url: String,
    /// The bearer token, when an API key is configured.
    pub bearer: Option<String>,
    /// The JSON body.
    pub body: JsonValue,
}

/// The instructions that ask the LLM for parameter mappings.
pub const INSTRUCTIONS: &'static str = r#"You are an automated ComfyUI workflow parser.
The user wants to map specific properties from the provided ComfyUI workflow JSON to a simplified API structure.
Find the exact Node IDs and internal field names in the JSON that match the user's request.

You MUST output ONLY a valid JSON object containing a "mappings" array. Do not include markdown formatting or backticks.
Schema for the output:
{
  "mappings": [
    {
      "original_node_id": "string",
      "original_field_name": "string",
      "exposed_as": "string",
      "required": boolean (default to false unless user explicitly requires it),
      "input_target": "string" (one of: "text", "image_base64", "image_url", "comfy_upload". Default to "text" unless the field handles images),
      "is_value_map": boolean (true if user wants to map incoming values like true/false to specific numbers/strings),
      "map_keys": "string" (comma separated incoming values, e.g. "true,false", or "" if not used),
      "map_values": "string" (comma separated mapped ComfyUI values, e.g. "0,0.9", or "" if not used)
    }
  ]
}
"#;

fn message(role: &str, content: String) -> (r: JsonValue)
    ensures
        r@ == chat_message(role@, content@),
{
    let mut m: Vec<(String, JsonValue)> = Vec::new();
    m.push((String::from_str("role"), JsonValue::Str(String::from_str(role))));
    m.push((String::from_str("content"), JsonValue::Str(content)));
    let r = JsonValue::Object(m);
    proof {
        crate::json::lemma_object_view(m);
        assert(members_view(m@) =~= seq![("role"@, Json::Str(role@)), ("content"@, Json::Str(content@))]);
    }
    r
}

/// The request that asks the LLM of `llm` to map the parameters that
/// `prompt` describes onto fields of `workflow`.
pub fn restructure_request(llm: &LlmConfig, workflow: &JsonValue, prompt: &str) -> (r: LlmRequest)
    ensures
        r.url@ == completions_url(llm.base_url@),
        r.bearer matches Some(k) ==> (llm.api_key matches Some(a) && a@.len() > 0 && k@ == a@),
        r.bearer is None ==> (llm.api_key matches Some(a) ==> a@.len() == 0),
        r.body@ == chat_body(
            text_opt(llm.model),
            prompt@,
            workflow@,
        ),
{
    let base = strip_trailing_chars(&chars_of(llm.base_url.as_str()), '/');
    let mut url = string_of(&base);
    url.append("/chat/completions");
    let bearer = match &llm.api_key {
        Some(k) => if k.as_str().is_empty() {
            None
        } else {
            Some(string_clone(k))
        },
        None => None,
    };
    let mut user = join_str("User Prompt: ", prompt);
    user.append("\n\nWorkflow JSON:\n");
    let wf_text = json_text(workflow);
    user.append(wf_text.as_str());
    let system = message("system", String::from_str(INSTRUCTIONS));
    let user_msg = message("user", user);
    let mut messages: Vec<JsonValue> = Vec::new();
    messages.push(system);
    messages.push(user_msg);
    let msgs = JsonValue::Array(messages);
    proof {
        crate::json::lemma_array_view(messages);
        assert(Seq::new(messages@.len(), |i: int| json_view(messages@[i])) =~= seq![
            chat_message("system"@, restructure_instructions()),
            chat_message("user"@, user_message(prompt@, workflow@)),
        ]);
    }
    let mut members: Vec<(String, JsonValue)> = Vec::new();
    match &llm.model {
        Some(m) => {
            members.push((String::from_str("model"), JsonValue::Str(string_clone(m))));
        },
        None => {},
    }
    members.push((String::from_str("messages"), msgs));
    let body = JsonValue::Object(members);
    proof {
        crate::json::lemma_object_view(members);
        let mv = text_opt(llm.model);
        let entry = (
            "messages"@,
            Json::Array(
                seq![
                    chat_message("system"@, restructure_instructions()),
                    chat_message("user"@, user_message(prompt@, workflow@)),
                ],
            ),
        );
        match mv {
            Some(mm) => {
                assert(members_view(members@) =~= seq![("model"@, Json::Str(mm)), entry]);
            },
            None => {
                assert(members_view(members@) =~= seq![entry]);
            },
        }
    }
    LlmRequest { url, bearer, body }
}

/// The model for a restructuring request: a requested model replaces the
/// configured one, and a requested model that is blank clears it.
pub open spec fn chosen_model(configured: Option<Seq<char>>, requested: Option<Seq<char>>) -> Option<
    Seq<char>,
> {
    match requested {
        Some(m) => if trim(m).len() > 0 {
            Some(m)
        } else {
            None
        },
        None => configured,
    }
}

/// The model that a restructuring request uses.
pub fn choose_model(configured: Option<String>, requested: Option<String>) -> (r: Option<String>)
    ensures
        text_opt(r) == chosen_model(text_opt(configured), text_opt(requested)),
{
    match requested {
        Some(m) => {
            if trim_chars(&chars_of(m.as_str())).len() > 0 {
                Some(m)
            } else {
                None
            }
        },
        None => configured,
    }
}

/// A reply with the Markdown code fence that some models add removed:
/// trimmed, without a leading ```` ```json ```` or ```` ``` ```` and a
/// trailing ```` ``` ````, and trimmed again.
pub open spec fn unfenced(content: Seq<char>) -> Seq<char> {
    let t = trim(content);
    let a = if starts_with(t, "```json"@) {
        t.skip(7)
    } else if starts_with(t, "```"@) {
        t.skip(3)
    } else {
        t
    };
    let b = if ends_with(a, "```"@) {
        a.take(a.len() - 3)
    } else {
        a
    };
    trim(b)
}

/// The text of the LLM's reply that should hold the mappings: the content
/// of its first choice, or nothing when it has none, without code fences.
pub fn mapping_text(choices: &Vec<String>) -> (r: String)
    ensures
        r@ == unfenced(if choices@.len() > 0 {
            choices@[0]@
        } else {
            Seq::empty()
        }),
{
    let content = if choices.len() > 0 {
        chars_of(choices[0].as_str())
    } else {
        Vec::new()
    };
    let t = trim_chars(&content);
    let json_fence = chars_of("```json");
    let fence = chars_of("```");
    proof {
        reveal_strlit("```json");
        reveal_strlit("```");
    }
    let a = if starts_with_chars(&t, &json_fence) {
        sub_chars(&t, 7, t.len())
    } else if starts_with_chars(&t, &fence) {
        sub_chars(&t, 3, t.len())
    } else {
        sub_chars(&t, 0, t.len())
    };
    assert(t@.subrange(0, t@.len() as int) =~= t@);
    assert(t@.subrange(7, t@.len() as int) =~= t@.skip(7));
    assert(t@.subrange(3, t@.len() as int) =~= t@.skip(3));
    let b = if ends_with_chars(&a, &fence) {
        sub_chars(&a, 0, a.len() - 3)
    } else {
        sub_chars(&a, 0, a.len())
    };
    assert(a@.subrange(0, a@.len() as int) =~= a@);
    string_of(&trim_chars(&b))
}

/// The error for a reply whose status is not a success.
pub fn status_error(body: &str) -> (r: String)
    ensures
        r@ == "LLM returned error: "@ + body@,
{
    join_str("LLM returned error: ", body)
}

} // verus!
