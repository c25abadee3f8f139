//! Data exchanged with the text-completion provider, and the decisions made
//! on it. Sending and decoding are the caller's business.

pub mod common;
pub mod gemini_client;
