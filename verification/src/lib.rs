//! Translation core of a local proxy that serves an in-house AI gateway through
//! an OpenAI-compatible surface.

pub mod bytes;
pub mod commands;
pub mod config;
pub mod ids;
pub mod json;
pub mod laws;
pub mod logstore;
pub mod number;
pub mod openai;
pub mod port;
pub mod proxy;
pub mod state;
pub mod text;
pub mod tray;
