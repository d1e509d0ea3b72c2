//! Stored records of the daemon.
use vstd::prelude::*;

verus! {

/// A stored message of a session.
#[derive(Debug, Clone)]
pub struct Message {
    pub id: i64,
    pub session_id: String,
    pub sequence: i64,
    pub message_type: String,
    pub payload: String,
    pub created_at: i64,
}

/// A stored worktree.
#[derive(Debug, Clone)]
pub struct Worktree {
    pub id: String,
    pub name: String,
    pub path: String,
    pub branch: String,
    pub repo_id: String,
    pub setup_script: Option<String>,
    pub created_at: i64,
    pub last_active: i64,
}

/// A stored git repository.
#[derive(Debug, Clone)]
pub struct GitRepoRow {
    pub id: String,
    pub name: String,
    pub repo_path: String,
    pub worktree_mode: String,
    pub local_subfolder: String,
    pub custom_path: Option<String>,
    pub setup_script: Option<String>,
    pub auto_gitignore: i64,
    pub created_at: i64,
    pub last_active: i64,
}

/// A stored permission decision.
#[derive(Debug, Clone)]
pub struct PermissionGrant {
    pub id: i64,
    pub session_id: String,
    pub tool_name: String,
    pub pattern: Option<String>,
    pub action: String,
    pub created_at: i64,
}

/// A stored connected client.
#[derive(Debug, Clone)]
pub struct ConnectedClient {
    pub client_id: String,
    pub session_id: Option<String>,
    pub client_type: String,
    pub has_input_lock: i64,
    pub connected_at: i64,
    pub last_heartbeat: i64,
}

/// A stored to-do item of a session.
#[derive(Debug, Clone)]
pub struct Todo {
    pub id: i64,
    pub session_id: String,
    pub subject: String,
    pub description: Option<String>,
    pub active_form: String,
    pub status: String,
    pub sequence: i64,
    pub updated_at: i64,
}

/// The status of a session.
#[derive(Debug, Clone, Copy, PartialEq, Eq, Structural)]
pub enum SessionStatus {
    Idle,
    Active,
    Completed,
    Error,
}

impl SessionStatus {
    /// The stored name of the status.
    pub open spec fn name(&self) -> Seq<char> {
        match self {
            SessionStatus::Idle => "idle"@,
            SessionStatus::Active => "active"@,
            SessionStatus::Completed => "completed"@,
            SessionStatus::Error => "error"@,
        }
    }

    /// The stored name of the status.
    pub fn as_str(&self) -> (r: &'static str)
        ensures
            r@ == self.name(),
    {
        match self {
            SessionStatus::Idle => "idle",
            SessionStatus::Active => "active",
            SessionStatus::Completed => "completed",
            SessionStatus::Error => "error",
        }
    }
}

} // verus!
