//! What the command line does.
pub mod add;
pub mod convert;
pub mod daemon_guard;
pub mod daemon_utils;
pub mod dashboard;
pub mod doctor;
pub mod format;
pub mod index;
pub mod integrate;
pub mod reindex;
pub mod reindex_client;
pub mod serve;
pub mod service;
pub mod start;
pub mod status;
pub mod stop;
pub mod ui;
