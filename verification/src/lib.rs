//! Release-orchestration core: changeset records, bump-level aggregation,
//! semantic-version computation, dependency-aware package ordering, and
//! changelog synthesis, shared by every supported build ecosystem.

pub mod changelog;
pub mod changeset;
pub mod config;
pub mod error;
pub mod resolver;
pub mod text;
pub mod version;
