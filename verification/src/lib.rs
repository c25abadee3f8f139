//! The decisions of a small note-taking application, verified.
//!
//! The heart is [`embeddings`]: the bookkeeping of a semantic index over
//! notes. The nearest-neighbour graph itself and the arithmetic that turns a
//! text into a vector live with the caller; this crate decides which
//! internal id a note gets, which ids are still live, and which neighbours
//! reported by the graph may be shown. [`laws`] proves what holds of that
//! bookkeeping across operations.
//!
//! Around it: how notes are created, selected by a text query and listed
//! ([`commands`], [`ordering`]), and what is sent to and read from a
//! text-completion provider ([`llm_client`]).

pub mod distance;
pub mod text;
pub mod note;
pub mod embeddings;
pub mod commands;
pub mod ordering;
pub mod laws;
pub mod llm_client;
