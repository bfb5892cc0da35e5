//! Verified core of a bridge that turns the Gemini web interface into an
//! OpenAI-compatible API: prompt building, response parsing, request
//! decoding and the protocol helpers that sit between them.

pub mod json;
pub mod text;
pub mod models;
pub mod base64;
pub mod config;
pub mod pattern;
pub mod gemini;
pub mod tools;
pub mod ids;
pub mod server;
pub mod multimodal;
