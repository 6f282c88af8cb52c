//! What the operations of the library are for, stated of their inputs and their
//! results.
//!
//! Each law relates what goes in and what comes out directly, over all inputs: it
//! says what every result satisfies, what has to be among the results, in which
//! order they come, or how the results of two calls relate.
pub mod answers;
pub mod checkup;
pub mod chunks;
pub mod client;
pub mod figures;
pub mod global;
pub mod indexing;
pub mod listing;
pub mod paths;
pub mod projects;
pub mod ranking;
pub mod reindexing;
pub mod search;
pub mod selection;
pub mod setup;
pub mod text;
pub mod views;
