//! Core of a message streaming broker: batch and message codecs, partitioned
//! append-only logs with retention, per-user authorization, sessions, and the
//! computational parts of the HTTP edge (CORS planning, endpoint paths).
pub mod error;
pub mod bytes_support;
pub mod message;
pub mod batch;
pub mod permissions;
pub mod perm_store;
pub mod permissioner;
pub mod compression;
pub mod session;
pub mod http_plan;
pub mod partition;
pub mod recovery;
pub mod registry;
pub mod topic;
