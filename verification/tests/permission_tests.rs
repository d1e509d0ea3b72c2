use betcode_daemon::permission::{
    DaemonPermissionEngine, GrantTable, PendingConfig, PendingManager, PendingRequestParams, PermissionError,
    PermissionEvalRequest, PermissionEvaluation, PermissionResponse, RuleAction,
};

fn params(id: &str, session: &str, connected: bool) -> PendingRequestParams {
    PendingRequestParams {
        request_id: id.to_string(),
        session_id: session.to_string(),
        tool_name: "Bash".to_string(),
        description: "run".to_string(),
        input_json: "{}".to_string(),
        target_client: Some("c1".to_string()),
        client_connected: connected,
    }
}

fn eval_request<'a>(session: &'a str, id: &'a str, tool: &'a str, path: Option<&'a str>) -> PermissionEvalRequest<'a> {
    PermissionEvalRequest {
        session_id: session,
        request_id: id,
        tool_name: tool,
        description: "d",
        input_json: "{}",
        path,
        target_client: None,
        client_connected: true,
    }
}

#[test]
fn default_pending_config() {
    let c = PendingConfig::default();
    assert_eq!((c.connected_timeout, c.disconnected_timeout, c.cleanup_interval), (60_000, 604_800_000, 60_000));
}

#[test]
fn take_returns_what_was_added_once() {
    let mut m = PendingManager::with_defaults();
    let r = m.create(params("r1", "s1", true), 1_000);
    assert_eq!(r.expires_at, 61_000);
    assert!(m.contains("r1"));
    let taken = m.take("r1").unwrap();
    assert_eq!(taken.request_id, "r1");
    assert!(m.take("r1").is_none());
    assert_eq!(m.count(), 0);
}

#[test]
fn cleanup_removes_exactly_expired() {
    let mut m = PendingManager::with_defaults();
    m.create(params("fast", "s1", true), 0);
    m.create(params("slow", "s1", false), 0);
    assert!(!m.get("fast").unwrap().is_expired(60_000));
    let removed = m.cleanup_expired(60_001);
    assert_eq!(removed, vec!["fast"]);
    assert!(m.contains("slow"));
    assert_eq!(m.get_for_session("s1").len(), 1);
}

#[test]
fn reconnecting_client_refreshes_expiry() {
    let mut m = PendingManager::with_defaults();
    m.create(params("r1", "s1", false), 0);
    m.update_client_status("c1", true, 5_000);
    let r = m.get("r1").unwrap();
    assert!(r.client_connected);
    assert_eq!(r.expires_at, 65_000);
}

#[test]
fn latest_session_grant_wins() {
    let mut t = GrantTable::new();
    t.add_session_grant("s1", "Bash", None, true);
    assert_eq!(t.check_session_grant("s1", "Bash", None), Some(true));
    t.add_session_grant("s1", "Bash", None, false);
    assert_eq!(t.check_session_grant("s1", "Bash", None), Some(false));
    assert_eq!(t.check_session_grant("s2", "Bash", None), None);
    t.clear_session_grants("s1");
    assert_eq!(t.check_session_grant("s1", "Bash", None), None);
}

#[test]
fn path_patterns_are_prefixes() {
    let mut t = GrantTable::new();
    t.add_session_grant("s1", "Edit", Some("/repo/src"), true);
    assert_eq!(t.check_session_grant("s1", "Edit", Some("/repo/src/main.rs")), Some(true));
    assert_eq!(t.check_session_grant("s1", "Edit", Some("/etc/passwd")), None);
}

#[test]
fn engine_evaluates_grants_stored_actions_and_rules() {
    let mut e = DaemonPermissionEngine::new(PendingConfig::default());
    let req = eval_request("s1", "r1", "Read", None);
    assert!(matches!(e.evaluate(&req, None, RuleAction::Allow, 0), PermissionEvaluation::Allowed { cached: false }));
    assert!(matches!(e.evaluate(&req, None, RuleAction::Deny, 0), PermissionEvaluation::Denied { cached: false }));
    assert!(matches!(e.evaluate(&req, Some("allow"), RuleAction::Deny, 0), PermissionEvaluation::Allowed { cached: true }));
    assert!(matches!(e.evaluate(&req, Some("deny"), RuleAction::Allow, 0), PermissionEvaluation::Denied { cached: true }));
    match e.evaluate(&req, None, RuleAction::Ask, 100) {
        PermissionEvaluation::Pending { request } => {
            assert_eq!(request.request_id, "r1");
            assert_eq!(request.expires_at, 60_100);
        }
        other => panic!("unexpected {other:?}"),
    }
    assert!(e.get_pending("r1").is_some());
}

#[test]
fn engine_response_remembers_session_decision() {
    let mut e = DaemonPermissionEngine::new(PendingConfig::default());
    let req = eval_request("s1", "r1", "Bash", None);
    e.evaluate(&req, None, RuleAction::Ask, 0);
    let out = e
        .process_response(PermissionResponse {
            request_id: "r1".to_string(),
            granted: true,
            remember_session: true,
            remember_permanent: false,
        })
        .unwrap();
    assert!(out.granted);
    let again = eval_request("s1", "r2", "Bash", None);
    assert!(matches!(e.evaluate(&again, None, RuleAction::Ask, 0), PermissionEvaluation::Allowed { cached: true }));
    match e.process_response(PermissionResponse {
        request_id: "r1".to_string(),
        granted: true,
        remember_session: false,
        remember_permanent: false,
    }) {
        Err(err) => assert_eq!(err.to_string(), "Permission request not found: r1"),
        Ok(_) => panic!("a response is taken once"),
    }
    assert_eq!(PermissionError::Database("x".into()).to_string(), "Database error: x");
}
