//! The logic of a code search service.
//!
//! `engine` holds what an index is made of and how a search is answered,
//! `service` what the daemon decides while it reindexes and serves requests, and
//! `commands` what the command line asks, reads and shows. `text`, `paths`,
//! `json` and `sorting` are what those share. `laws` states what the operations
//! are for.
//!
//! Similarities, scores and embeddings are carried as the bits of 32-bit floats;
//! the arithmetic on them is left to the caller.
pub mod commands;
pub mod engine;
pub mod json;
pub mod laws;
pub mod paths;
pub mod service;
pub mod sorting;
pub mod text;
