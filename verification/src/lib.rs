//! Verified core of a release-redirect service for a kernel project and a
//! storage-filesystem project: a version model for dotted release
//! identifiers, a compatibility matcher that picks the newest release under
//! a ceiling, TTL-gated cache entries, and the aggregation rules that turn
//! fetched feed contents into release snapshots.

pub mod cache;
pub mod kernel;
pub mod listing;
pub mod text;
pub mod version;
pub mod zfs;
