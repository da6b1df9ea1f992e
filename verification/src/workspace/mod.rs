//! Session workspaces: overlays, session graphs, merges and their manager.

pub mod conflict;
pub mod merge;
pub mod overlay;
pub mod session_graph;
pub mod session_workspace;
pub mod session_manager;
pub mod cache;
