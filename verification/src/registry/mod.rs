//! The tunnel registry: which tunnel leads to which pod, kept up to date by pod events and asked
//! over http.
pub mod api;
pub mod state;
pub mod watcher;
