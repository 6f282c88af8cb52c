//! The search engine: what an index holds and how it answers.
pub mod caches;
pub mod chunk;
pub mod indexer;
pub mod indexing;
pub mod intent;
pub mod kg;
pub mod listing;
pub mod memguard;
pub mod registry;
pub mod search;
pub mod table;
