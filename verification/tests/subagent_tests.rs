use betcode_daemon::errors::ManagerError;
use betcode_daemon::subagent::{
    classify_exit, command_args_for, effective_timeout, signed_decimal_string, spawn_admission, terminal_event,
    validate_config,
    ProcessExit, SubagentConfig, TerminalEvent,
};

fn test_config() -> SubagentConfig {
    SubagentConfig {
        id: "test-sa-1".to_string(),
        parent_session_id: "parent-1".to_string(),
        prompt: "Write tests".to_string(),
        model: None,
        working_directory: "/tmp".to_string(),
        allowed_tools: vec![],
        max_turns: 10,
        auto_approve: false,
        timeout_secs: 30,
    }
}

#[test]
fn spawn_validates_empty_prompt() {
    let mut config = test_config();
    config.prompt = String::new();
    let err = validate_config(&config).unwrap_err();
    assert!(err.to_string().contains("prompt must not be empty"));
}

#[test]
fn spawn_validates_auto_approve_requires_tools() {
    let mut config = test_config();
    config.auto_approve = true;
    config.allowed_tools = vec![];
    let err = validate_config(&config).unwrap_err();
    assert!(err.to_string().contains("auto_approve requires"));
}

#[test]
fn valid_config_passes() {
    assert!(validate_config(&test_config()).is_ok());
}

#[test]
fn command_line_of_a_subagent() {
    let mut config = test_config();
    config.auto_approve = true;
    config.allowed_tools = vec!["Read".into(), "Bash".into()];
    config.model = Some("opus".into());
    assert_eq!(
        command_args_for(&config),
        vec![
            "--output-format", "stream-json", "--input-format", "stream-json", "--verbose", "--allowedTools", "Read",
            "Bash", "-p", "Write tests", "--model", "opus", "--max-turns", "10",
        ]
    );
    let plain = test_config();
    let mut no_turns = plain.clone();
    no_turns.max_turns = 0;
    assert_eq!(
        command_args_for(&no_turns),
        vec!["--output-format", "stream-json", "--input-format", "stream-json", "--verbose", "-p", "Write tests"]
    );
}

#[test]
fn timeout_defaults_to_ten_minutes() {
    assert_eq!(effective_timeout(0), 600);
    assert_eq!(effective_timeout(30), 30);
}

#[test]
fn exits_are_classified() {
    let ok = classify_exit(ProcessExit::Exited(Some(0)));
    assert_eq!((ok.status, ok.exit_code, ok.summary.as_deref()), ("completed", Some(0), Some("Completed successfully")));
    let bad = classify_exit(ProcessExit::Exited(Some(2)));
    assert_eq!((bad.status, bad.exit_code, bad.summary.as_deref()), ("failed", Some(2), Some("Exited with code 2")));
    let signaled = classify_exit(ProcessExit::Exited(None));
    assert_eq!(signaled.summary.as_deref(), Some("Exited with code -1"));
    assert_eq!(signaled.exit_code, None);
    let err = classify_exit(ProcessExit::WaitFailed("io".into()));
    assert_eq!((err.status, err.summary.as_deref()), ("failed", Some("Process error: io")));
    let late = classify_exit(ProcessExit::TimedOut);
    assert_eq!((late.status, late.summary.as_deref()), ("failed", Some("Timed out")));
}

#[test]
fn terminal_events_follow_status() {
    match terminal_event("completed", Some(0), Some("done".into())) {
        TerminalEvent::Completed { exit_code, result_summary } => assert_eq!((exit_code, result_summary.as_str()), (0, "done")),
        other => panic!("unexpected {other:?}"),
    }
    match terminal_event("cancelled", None, None) {
        TerminalEvent::Cancelled { reason } => assert_eq!(reason, ""),
        other => panic!("unexpected {other:?}"),
    }
    match terminal_event("failed", None, Some("Timed out".into())) {
        TerminalEvent::Failed { exit_code, error_message } => assert_eq!((exit_code, error_message.as_str()), (-1, "Timed out")),
        other => panic!("unexpected {other:?}"),
    }
}

#[test]
fn signed_decimals() {
    assert_eq!(signed_decimal_string(-1), "-1");
    assert_eq!(signed_decimal_string(i64::MIN), "-9223372036854775808");
    assert_eq!(signed_decimal_string(42), "42");
}

#[test]
fn spawn_admission_validates_before_the_pool() {
    let mut config = test_config();
    assert!(spawn_admission(&config, 1).is_ok());
    assert!(matches!(spawn_admission(&config, 0), Err(ManagerError::PoolFull)));
    config.prompt = String::new();
    match spawn_admission(&config, 0) {
        Err(ManagerError::Validation { message }) => assert_eq!(message, "prompt must not be empty"),
        other => panic!("unexpected {other:?}"),
    }
}
