//! Request-shaping logic of a proxy server in front of a ComfyUI instance.

pub mod api;
pub mod auth;
pub mod comfy;
pub mod config;
pub mod form;
pub mod framing;
pub mod generate;
pub mod images;
pub mod json;
pub mod json_text;
pub mod llm;
pub mod multipart;
pub mod text;

pub use auth::{hash_password, verify_password};
pub use comfy::{derive_content_type, OutputAsset};
pub use config::{Config, FieldInputTarget, LlmConfig, WorkflowConfig, WorkflowFieldMap};
pub use multipart::parse_lenient_multipart;
