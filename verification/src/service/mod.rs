//! The daemon: reindexing and the HTTP surface.
pub mod events;
pub mod file_selection;
pub mod global_search;
pub mod hash_cache;
pub mod memory;
pub mod reindex;
pub mod runs;
pub mod server;
pub mod sse;
