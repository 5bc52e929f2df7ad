//! The gates in front of the endpoints, with the status and message of a
//! refused request, and the OpenAPI description of the OpenAI-compatible
//! endpoints.
use vstd::prelude::*;

use crate::auth::{
    api_key_authorized, api_key_valid, bearer_token, bearer_token_of, dashboard_authorized,
    dashboard_token_valid,
};
use crate::text::{strings_view, text_opt};

verus! {

broadcast use vstd::string::group_string_axioms;

/// A refused request: the HTTP status and the message of the response.
pub struct Refusal {
    pub status: u16,
    pub message: String,
}

/// The text of an optional header.
pub open spec fn header_text(h: Option<&str>) -> Option<Seq<char>> {
    match h {
        Some(s) => Some(s@),
        None => None,
    }
}

/// The refusal of a request to an API endpoint whose key is not accepted.
pub fn api_gate(api_keys: &Vec<String>, header: Option<&str>) -> (r: Option<Refusal>)
    ensures
        r is None <==> api_key_valid(strings_view(api_keys@), bearer_token_of(header_text(header))),
        r matches Some(x) ==> x.status == 401 && x.message@ == "Invalid or missing API key"@,
{
    if api_key_authorized(api_keys, header) {
        None
    } else {
        Some(Refusal { status: 401, message: String::from_str("Invalid or missing API key") })
    }
}

/// The refusal of a request to an OpenAI-compatible endpoint: first the
/// API key, then whether those endpoints are enabled.
pub fn openai_gate(api_keys: &Vec<String>, header: Option<&str>, enabled: bool) -> (r: Option<
    Refusal,
>)
    ensures
        !api_key_valid(strings_view(api_keys@), bearer_token_of(header_text(header))) ==> (r matches Some(
            x,
        ) && x.status == 401 && x.message@ == "Invalid or missing API key"@),
        api_key_valid(strings_view(api_keys@), bearer_token_of(header_text(header))) && !enabled ==> (
        r matches Some(x) && x.status == 403 && x.message@ == "OpenAI compat is disabled"@),
        api_key_valid(strings_view(api_keys@), bearer_token_of(header_text(header))) && enabled ==> r is None,
{
    match api_gate(api_keys, header) {
        Some(x) => Some(x),
        None => if enabled {
            None
        } else {
            Some(Refusal { status: 403, message: String::from_str("OpenAI compat is disabled") })
        },
    }
}

/// The refusal of a dashboard request whose bearer token is not the token
/// of the current session.
pub fn dashboard_gate(header: Option<&str>, session: &Option<String>) -> (r: Option<Refusal>)
    ensures
        r is None <==> dashboard_token_valid(bearer_token_of(header_text(header)), text_opt(*session)),
        r matches Some(x) ==> x.status == 401 && x.message@ == "Unauthorized"@,
{
    let token = bearer_token(header);
    if dashboard_authorized(token.as_str(), session) {
        None
    } else {
        Some(Refusal { status: 401, message: String::from_str("Unauthorized") })
    }
}

/// The OpenAPI description of the OpenAI-compatible endpoints, as JSON
/// text.
pub const OPENAPI_DOCUMENT: &'static str = r#"{
    "openapi": "3.0.0",
    "info": {
        "title": "comfy-serve OpenAI Compatible API",
        "version": "1.0.0",
        "description": "OpenAI compatible endpoints mapping to ComfyUI Workflows"
    },
    "servers": [
        {
            "url": "/v1"
        }
    ],
    "paths": {
        "/models": {
            "get": {
                "summary": "List available models (workflows)",
                "responses": {
                    "200": {
                        "description": "Successful response"
                    }
                }
            }
        },
        "/images/generations": {
            "post": {
                "summary": "Create image from prompt",
                "requestBody": {
                    "required": true,
                    "content": {
                        "application/json": {
                            "schema": {
                                "type": "object",
                                "properties": {
                                    "prompt": { "type": "string" },
                                    "model": { "type": "string" }
                                },
                                "required": ["prompt"]
                            }
                        }
                    }
                },
                "responses": {
                    "200": { "description": "Successful image generation" }
                }
            }
        },
        "/images/edits": {
            "post": {
                "summary": "Edit or create image from multipart form data",
                "requestBody": {
                    "required": true,
                    "content": {
                        "multipart/form-data": {
                            "schema": {
                                "type": "object",
                                "properties": {
                                    "prompt": { "type": "string" },
                                    "image": { "type": "string", "format": "binary" },
                                    "model": { "type": "string" }
                                },
                                "required": ["prompt", "image"]
                            }
                        }
                    }
                },
                "responses": {
                    "200": { "description": "Successful image edit" }
                }
            }
        }
    }
}"#;

} // verus!
