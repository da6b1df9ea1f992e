//! Semantic engine for isolated agent sessions: changesets, symbol claims,
//! session workspaces and three-way symbol-level merges.

pub mod text;
pub mod concurrent;
pub mod ids;
pub mod metrics;
pub mod storage;
pub mod repo;
pub mod tool_ops;
pub mod graph;
pub mod domain;
pub mod changeset;
pub mod conflict;
pub mod parser;
pub mod workspace;
