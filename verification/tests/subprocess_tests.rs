use betcode_daemon::subprocess::{
    check_capacity, pool_limit, spawn_args_for, PermissionStrategy, PoolError, RelayError, SpawnConfig,
    SubprocessError, working_dir_for,
};

fn config(strategy: PermissionStrategy) -> SpawnConfig {
    SpawnConfig {
        working_directory: "/tmp".to_string(),
        prompt: None,
        resume_session: None,
        model: None,
        permission_strategy: strategy,
    }
}

#[test]
fn spawn_config_defaults() {
    assert!(matches!(PermissionStrategy::default(), PermissionStrategy::PromptToolStdio));
}

#[test]
fn capacity_check_reports_exhaustion() {
    assert!(check_capacity(0, 2).is_ok());
    match check_capacity(2, 2) {
        Err(e) => assert_eq!(e.to_string(), "Subprocess pool exhausted (2/2)"),
        Ok(()) => panic!("expected exhaustion"),
    }
}

#[test]
fn spawn_arguments_per_strategy() {
    let base = ["--output-format", "stream-json", "--input-format", "stream-json", "--verbose"];
    let mut expected: Vec<&str> = base.to_vec();
    expected.extend(["--permission-prompt-tool", "stdio"]);
    assert_eq!(spawn_args_for(&config(PermissionStrategy::PromptToolStdio)), expected);

    let mut full = config(PermissionStrategy::AllowedTools(vec!["Read".into()]));
    full.prompt = Some("hi".into());
    full.resume_session = Some("s1".into());
    full.model = Some("opus".into());
    let mut expected: Vec<&str> = base.to_vec();
    expected.extend(["--allowedTools", "Read", "-p", "hi", "--include-partial-messages", "--resume", "s1", "--model", "opus"]);
    assert_eq!(spawn_args_for(&full), expected);

    assert_eq!(spawn_args_for(&config(PermissionStrategy::AllowedTools(vec![]))), base.to_vec());
    let mut expected: Vec<&str> = base.to_vec();
    expected.push("--dangerously-skip-permissions");
    assert_eq!(spawn_args_for(&config(PermissionStrategy::SkipPermissions)), expected);
}

#[test]
fn pool_default_concurrency() {
    assert_eq!(pool_limit(0), 5);
    assert_eq!(pool_limit(3), 3);
    assert_eq!(PoolError::Closed.to_string(), "Subprocess pool has been closed");
}

#[test]
fn error_texts() {
    assert_eq!(SubprocessError::ProcessNotFound { id: "p".into() }.to_string(), "Process not found: p");
    assert_eq!(SubprocessError::ProcessExited { id: "p".into() }.to_string(), "Process already exited: p");
    assert_eq!(SubprocessError::SpawnFailed { reason: "x".into() }.to_string(), "Failed to spawn subprocess: x");
    let e = RelayError::Subprocess(SubprocessError::ProcessNotFound { id: "p".into() });
    assert_eq!(e.to_string(), "Subprocess error: Process not found: p");
    assert_eq!(RelayError::SessionNotFound { session_id: "s".into() }.to_string(), "Session not found: s");
    assert_eq!(RelayError::Serialization("bad".into()).to_string(), "Failed to serialize message: bad");
    assert_eq!(RelayError::StdinClosed { session_id: "s".into() }.to_string(), "Subprocess stdin closed for session: s");
    assert_eq!(RelayError::Storage("db".into()).to_string(), "Storage error: db");
}

#[test]
fn relay_sessions_spawn_interactively() {
    let config = betcode_daemon::subprocess::relay_spawn_config(betcode_daemon::subprocess::RelaySessionConfig {
        session_id: "s1".into(),
        working_directory: "/w".into(),
        model: Some("m".into()),
        resume_session: Some("r".into()),
        worktree_id: String::new(),
    });
    assert_eq!(config.working_directory, "/w");
    assert!(config.prompt.is_none());
    assert_eq!(config.model.as_deref(), Some("m"));
    assert_eq!(config.resume_session.as_deref(), Some("r"));
    assert!(matches!(
        config.permission_strategy,
        betcode_daemon::subprocess::PermissionStrategy::PromptToolStdio
    ));
}

#[test]
fn working_dir_falls_back_when_missing_or_empty() {
    assert_eq!(working_dir_for("/work", true, "/home/u".to_string()), "/work");
    assert_eq!(working_dir_for("/work", false, "/home/u".to_string()), "/home/u");
    assert_eq!(working_dir_for("", true, "/home/u".to_string()), "/home/u");
}
