use betcode_daemon::errors::{DatabaseError, ManagerError};
use betcode_daemon::models::SessionStatus;

#[test]
fn session_status_names() {
    assert_eq!(SessionStatus::Idle.as_str(), "idle");
    assert_eq!(SessionStatus::Active.as_str(), "active");
    assert_eq!(SessionStatus::Completed.as_str(), "completed");
    assert_eq!(SessionStatus::Error.as_str(), "error");
}

#[test]
fn manager_error_texts() {
    assert_eq!(ManagerError::PoolFull.to_string(), "Subprocess pool is full");
    assert_eq!(ManagerError::NotFound { id: "x".into() }.to_string(), "Subagent not found: x");
    assert_eq!(ManagerError::AlreadyCompleted { id: "x".into() }.to_string(), "Subagent already completed: x");
    assert_eq!(ManagerError::OrchestrationNotFound { id: "o".into() }.to_string(), "Orchestration not found: o");
    assert_eq!(ManagerError::SpawnFailed { reason: "r".into() }.to_string(), "Failed to spawn subprocess: r");
    assert_eq!(ManagerError::Database(DatabaseError::Other("d".into())).to_string(), "Database error: d");
}
