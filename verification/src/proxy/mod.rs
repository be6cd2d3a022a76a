//! The translation between the OpenAI-compatible surface and the gateway.

pub mod alias;
pub mod b64;
pub mod chat_log;
pub mod chat_reply;
pub mod chat_request;
pub mod chunk;
pub mod decode;
pub mod envelope;
pub mod fabrix;
pub mod fields;
pub mod fingerprint;
pub mod fold;
pub mod gate;
pub mod image_backend;
pub mod images;
pub mod models;
pub mod reply_laws;
pub mod request;
pub mod scan;
pub mod think;
pub mod tools;
pub mod turn;
pub mod turn_laws;
pub mod usage;
pub mod validate;

pub use envelope::{
    method_not_allowed_envelope, openai_type, too_large, CHAT_BODY_LIMIT, IMAGE_BODY_LIMIT,
};
pub use gate::{authorize, fabrix_headers_line, inbound_auth_line};
