//! Values the shared workspace cache holds: workspace snapshots and cached
//! overlay entries.

use vstd::prelude::*;
use crate::workspace::session_workspace::{SessionWorkspace, WorkspaceMode, workspace_state_label};

verus! {

/// A point-in-time snapshot of a session workspace's metadata, as other
/// replicas read it back.
#[derive(Debug, Clone)]
pub struct WorkspaceSnapshot {
    pub session_id: u128,
    pub repo_id: u128,
    pub agent_id: String,
    pub agent_name: String,
    pub changeset_id: u128,
    pub intent: String,
    pub base_commit: String,
    /// Lifecycle state label (e.g. "active").
    pub state: String,
    /// Mode label ("ephemeral" or "persistent").
    pub mode: String,
}

/// A cached overlay file entry, mirroring an overlay entry.
#[derive(Debug, Clone)]
pub enum CachedOverlayEntry {
    Modified { content: Vec<u8>, hash: String },
    Added { content: Vec<u8>, hash: String },
    Deleted,
}

/// The snapshot of a workspace that is written to the cache when it is
/// created.
pub fn workspace_snapshot(ws: &SessionWorkspace) -> (r: WorkspaceSnapshot)
    ensures
        r.session_id == ws.session_id,
        r.repo_id == ws.repo_id,
        r.agent_id@ == ws.agent_id@,
        r.agent_name@ == ws.agent_name@,
        r.changeset_id == ws.changeset_id,
        r.intent@ == ws.intent@,
        r.base_commit@ == ws.base_commit@,
        r.state@ == workspace_state_label(ws.state),
        r.mode@ == (match ws.mode {
            WorkspaceMode::Ephemeral => "ephemeral"@,
            WorkspaceMode::Persistent { .. } => "persistent"@,
        }),
{
    WorkspaceSnapshot {
        session_id: ws.session_id,
        repo_id: ws.repo_id,
        agent_id: ws.agent_id.clone(),
        agent_name: ws.agent_name.clone(),
        changeset_id: ws.changeset_id,
        intent: ws.intent.clone(),
        base_commit: ws.base_commit.clone(),
        state: String::from_str(ws.state.as_str()),
        mode: String::from_str(ws.mode.as_str()),
    }
}

} // verus!
