//! Verified core of the Basemark command-line client: the Markdown <-> Tiptap
//! JSON conversion, the configuration rules and the construction of API
//! requests.
pub mod json;
pub mod text;
pub mod markdown;
pub mod render;
pub mod codec;
pub mod config;
pub mod api;
