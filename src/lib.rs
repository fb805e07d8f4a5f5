//! Sharded document-store access layer for a chat service: shard routing,
//! live re-sharding overlays, per-connection circuit breaking and
//! capacity-bounded message segments.

pub mod backoff;
pub mod text;
pub mod errors;
pub mod messaging;
pub mod segments;
pub mod health;
pub mod mappings;
pub mod user;
pub mod hook;
pub mod metrics;
