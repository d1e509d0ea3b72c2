//! Error types of the orchestration layer.
use vstd::prelude::*;

verus! {

/// An error of the storage layer, carried with the text it renders as.
#[derive(Debug)]
pub enum DatabaseError {
    /// The row asked for does not exist.
    NotFound(String),
    /// Any other failure of the store.
    Other(String),
}

impl DatabaseError {
    /// The text of the error.
    pub open spec fn text(&self) -> Seq<char> {
        match self {
            DatabaseError::NotFound(m) => m@,
            DatabaseError::Other(m) => m@,
        }
    }

    /// Renders the error as text.
    pub fn to_string(&self) -> (s: String)
        ensures
            s@ == self.text(),
    {
        match self {
            DatabaseError::NotFound(m) => m.clone(),
            DatabaseError::Other(m) => m.clone(),
        }
    }
}

/// Errors from the subagent manager and the step scheduler.
#[derive(Debug)]
pub enum ManagerError {
    PoolFull,
    SpawnFailed { reason: String },
    NotFound { id: String },
    AlreadyCompleted { id: String },
    OrchestrationNotFound { id: String },
    Database(DatabaseError),
    Validation { message: String },
}

impl ManagerError {
    /// The human-readable text of the error.
    pub open spec fn text(&self) -> Seq<char> {
        match self {
            ManagerError::PoolFull => "Subprocess pool is full"@,
            ManagerError::SpawnFailed { reason } => "Failed to spawn subprocess: "@ + reason@,
            ManagerError::NotFound { id } => "Subagent not found: "@ + id@,
            ManagerError::AlreadyCompleted { id } => "Subagent already completed: "@ + id@,
            ManagerError::OrchestrationNotFound { id } => "Orchestration not found: "@ + id@,
            ManagerError::Database(e) => "Database error: "@ + e.text(),
            ManagerError::Validation { message } => "Validation error: "@ + message@,
        }
    }

    /// Renders the error as text.
    pub fn to_string(&self) -> (s: String)
        ensures
            s@ == self.text(),
    {
        match self {
            ManagerError::PoolFull => "Subprocess pool is full".to_owned(),
            ManagerError::SpawnFailed { reason } => {
                let mut s = "Failed to spawn subprocess: ".to_owned();
                s.append(reason.as_str());
                s
            },
            ManagerError::NotFound { id } => {
                let mut s = "Subagent not found: ".to_owned();
                s.append(id.as_str());
                s
            },
            ManagerError::AlreadyCompleted { id } => {
                let mut s = "Subagent already completed: ".to_owned();
                s.append(id.as_str());
                s
            },
            ManagerError::OrchestrationNotFound { id } => {
                let mut s = "Orchestration not found: ".to_owned();
                s.append(id.as_str());
                s
            },
            ManagerError::Database(e) => {
                let mut s = "Database error: ".to_owned();
                let t = e.to_string();
                s.append(t.as_str());
                s
            },
            ManagerError::Validation { message } => {
                let mut s = "Validation error: ".to_owned();
                s.append(message.as_str());
                s
            },
        }
    }
}

} // verus!
