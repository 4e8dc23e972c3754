//! The decisions of a websocket tunnel: tunnel registry, tunnel lookup, bandwidth quotas,
//! and the file copies and shells that run through a tunnel.
pub mod cli;
pub mod jitter;
pub mod rate_limiter;
pub mod registry;
pub mod resolver;
pub mod scp;
pub mod shell;
pub mod ssh;
pub mod text;
pub mod uuids;
