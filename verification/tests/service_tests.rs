use betcode_daemon::service::{
    effective_max, exit_daemon_reply, parse_service_command, reload_message, reload_summary, ServiceCommand, ServiceExecutor,
};

#[test]
fn test_execute_pwd() {
    let executor = ServiceExecutor::new("/tmp/work".to_string());
    let result = executor.execute_pwd();
    assert!(result.is_ok());
    assert_eq!(result.ok().unwrap(), "/tmp/work");
}

#[test]
fn cd_targets_join_relative_paths() {
    let executor = ServiceExecutor::new("/tmp/work".to_string());
    assert_eq!(executor.cd_target("sub"), "/tmp/work/sub");
    assert_eq!(executor.cd_target("/etc"), "/etc");
    let root = ServiceExecutor::new("/".to_string());
    assert_eq!(root.cd_target("usr"), "/usr");
}

#[test]
fn cd_applies_only_resolved_directories() {
    let mut executor = ServiceExecutor::new("/tmp".to_string());
    let err = executor.execute_cd("nonexistent", None).unwrap_err();
    assert_eq!(err.message, "Failed to resolve path: /tmp/nonexistent");
    assert_eq!(executor.cwd(), "/tmp");
    let err = executor.execute_cd("file.txt", Some(("/tmp/file.txt".to_string(), false))).unwrap_err();
    assert_eq!(err.message, "Not a directory: /tmp/file.txt");
    assert!(executor.execute_cd("sub", Some(("/tmp/sub".to_string(), true))).is_ok());
    assert_eq!(executor.cwd(), "/tmp/sub");
}

#[test]
fn service_commands_are_read() {
    let none: Vec<String> = vec![];
    assert!(matches!(parse_service_command("pwd", &none), ServiceCommand::Pwd));
    match parse_service_command("cd", &none) {
        ServiceCommand::Cd { path } => assert_eq!(path, "~"),
        other => panic!("unexpected {other:?}"),
    }
    match parse_service_command("bash", &vec!["echo hi".to_string()]) {
        ServiceCommand::Bash { command } => assert_eq!(command, "echo hi"),
        other => panic!("unexpected {other:?}"),
    }
    match parse_service_command("bash", &vec![String::new()]) {
        ServiceCommand::Rejected { message } => assert_eq!(message, "No command provided"),
        other => panic!("unexpected {other:?}"),
    }
    assert!(matches!(parse_service_command("exit-daemon", &none), ServiceCommand::ExitDaemon));
    assert!(matches!(parse_service_command("reload-remote", &none), ServiceCommand::ReloadRemote));
    match parse_service_command("frobnicate", &none) {
        ServiceCommand::Rejected { message } => assert_eq!(message, "Unknown service command: frobnicate"),
        other => panic!("unexpected {other:?}"),
    }
}

#[test]
fn reload_texts() {
    assert_eq!(reload_message(12, 3, 0), "Reloaded 12 commands, 3 plugin entries");
    assert_eq!(reload_message(1, 0, 2), "Reloaded 1 commands, 0 plugin entries (2 warnings)");
    assert_eq!(reload_summary("Reloaded 1 commands, 0 plugin entries", 4, 100), "Reloaded 1 commands, 0 plugin entries, 4 agents, 100 files");
}

#[test]
fn listing_limit_defaults() {
    assert_eq!(effective_max(0), 20);
    assert_eq!(effective_max(7), 7);
}

#[test]
fn exit_daemon_reply_says_shutting_down() {
    assert_eq!(exit_daemon_reply(), "Daemon shutting down...");
    assert!(exit_daemon_reply().contains("shutting down"));
}
