//! What holds of the library's operations, told by their inputs and results.

pub mod calls;
pub mod changes;
pub mod chunk;
pub mod conversation;
pub mod gate;
pub mod images;
pub mod log;
pub mod message;
pub mod models;
pub mod prompt;
pub mod reply;
pub mod service;
pub mod stream;
pub mod text;
pub mod upstream;
pub mod usage;
pub mod validation;
