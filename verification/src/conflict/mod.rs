//! Symbol-level conflict handling: three-way merge, claims and payloads.

pub mod ast_merge;
pub mod claim_tracker;
pub mod valkey_claim_tracker;
pub mod payload;
