//! A library for reconciling declared p2panda schema definitions against an
//! append-only log of signed operations.
//!
//! The core pipeline: declared schemas are ordered by a dependency graph,
//! paired with the current state materialized from the persisted commit log,
//! diffed into per-field and per-schema create/update/no-op decisions, signed
//! in dependency order, and appended to the lock file.

pub mod commands;
pub mod error;
pub mod execute;
pub mod files;
pub mod graph;
pub mod laws;
pub mod materialize;
pub mod names;
pub mod plan;
pub mod schema;
pub mod schema_file;
pub mod state;
pub mod store;
