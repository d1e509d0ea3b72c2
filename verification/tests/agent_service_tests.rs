use betcode_daemon::agent_service::{
    check_grant_tool, compaction_report, key_exchange_refusal, lock_client_id, plan_compaction,
    route_request, session_list_limit, session_not_active, start_plan, ClientRequest, Compaction,
    HandlerAction, StartConversation,
};
use betcode_daemon::relay::PermissionDecision;
use betcode_daemon::rpc::RpcCode;

fn start(model: &str) -> StartConversation {
    StartConversation {
        session_id: "s1".into(),
        model: model.into(),
        working_directory: "/work".into(),
        worktree_id: "wt".into(),
    }
}

#[test]
fn requests_before_start_are_ignored() {
    match route_request(ClientRequest::Message { content: "hi".into() }, None) {
        HandlerAction::Ignore { warning: Some(w) } => {
            assert_eq!(w, "Received message before session start")
        }
        other => panic!("unexpected {other:?}"),
    }
    assert!(matches!(
        route_request(
            ClientRequest::Permission { request_id: "r".into(), decision: PermissionDecision::AllowOnce },
            None
        ),
        HandlerAction::Ignore { warning: None }
    ));
    assert!(matches!(
        route_request(ClientRequest::Cancel { reason: "x".into() }, None),
        HandlerAction::Ignore { warning: None }
    ));
}

#[test]
fn requests_after_start_go_to_the_session() {
    let sid = Some("s1".to_string());
    match route_request(ClientRequest::Message { content: "hi".into() }, sid.clone()) {
        HandlerAction::SendMessage { session_id, content } => {
            assert_eq!(session_id, "s1");
            assert_eq!(content, "hi");
        }
        other => panic!("unexpected {other:?}"),
    }
    match route_request(
        ClientRequest::QuestionResponse { question_id: "q".into(), answers: vec![("a".into(), "b".into())] },
        sid.clone(),
    ) {
        HandlerAction::AnswerQuestion { session_id, question_id, answers } => {
            assert_eq!(session_id, "s1");
            assert_eq!(question_id, "q");
            assert_eq!(answers.len(), 1);
        }
        other => panic!("unexpected {other:?}"),
    }
    assert!(matches!(
        route_request(ClientRequest::Cancel { reason: "x".into() }, sid.clone()),
        HandlerAction::Cancel { .. }
    ));
    assert!(matches!(route_request(ClientRequest::Start(start("")), sid), HandlerAction::Start(_)));
    match route_request(ClientRequest::Empty, None) {
        HandlerAction::Ignore { warning: Some(w) } => assert_eq!(w, "Received empty request"),
        other => panic!("unexpected {other:?}"),
    }
    match route_request(ClientRequest::Encrypted, None) {
        HandlerAction::Ignore { warning: Some(w) } => {
            assert_eq!(w, "Received encrypted request on local gRPC \u{2014} ignoring")
        }
        other => panic!("unexpected {other:?}"),
    }
}

#[test]
fn new_session_starts_fresh() {
    let (config, is_new) = start_plan(start(""), Some("default-model".into()), None);
    assert!(is_new);
    assert_eq!(config.model.as_deref(), Some("default-model"));
    assert_eq!(config.resume_session, None);
    assert_eq!(config.session_id, "s1");
    assert_eq!(config.working_directory, "/work");
    assert_eq!(config.worktree_id, "wt");
}

#[test]
fn existing_session_resumes_stored_agent_session() {
    let (config, is_new) = start_plan(start("m2"), Some("d".into()), Some(Some("cli-9".into())));
    assert!(!is_new);
    assert_eq!(config.model.as_deref(), Some("m2"));
    assert_eq!(config.resume_session.as_deref(), Some("cli-9"));
    let (config, _) = start_plan(start("m2"), None, Some(Some(String::new())));
    assert_eq!(config.resume_session, None);
    let (config, _) = start_plan(start("m2"), None, Some(None));
    assert_eq!(config.resume_session, None);
}

#[test]
fn listing_limit_defaults_to_fifty() {
    assert_eq!(session_list_limit(0), 50);
    assert_eq!(session_list_limit(7), 7);
}

#[test]
fn compaction_keeps_recent_half_but_at_least_ten() {
    assert_eq!(plan_compaction(0, 100), Compaction::Keep);
    assert_eq!(plan_compaction(100, 100), Compaction::DeleteBefore { cutoff: 50 });
    assert_eq!(plan_compaction(12, 12), Compaction::DeleteBefore { cutoff: 2 });
    assert_eq!(plan_compaction(5, 5), Compaction::Keep);
    assert_eq!(plan_compaction(30, 200), Compaction::DeleteBefore { cutoff: 185 });
    assert_eq!(compaction_report(100, 49), (51, 4900));
}

#[test]
fn service_statuses() {
    let st = session_not_active("s9");
    assert_eq!(st.code, RpcCode::NotFound);
    assert_eq!(st.message, "Session s9 not active");
    let st = check_grant_tool("").unwrap_err();
    assert_eq!(st.code, RpcCode::InvalidArgument);
    assert_eq!(st.message, "tool_name must not be empty");
    assert!(check_grant_tool("Bash").is_ok());
    let st = key_exchange_refusal();
    assert_eq!(st.code, RpcCode::Unimplemented);
    assert_eq!(lock_client_id(Some("c1".into()), "x"), "c1");
    assert_eq!(lock_client_id(None, "abc"), "unary-abc");
}

#[test]
fn handler_grants_only_allow_once_and_allow_session() {
    let sid = Some("s1".to_string());
    let granted = |d: PermissionDecision| match route_request(
        ClientRequest::Permission { request_id: "r".into(), decision: d },
        sid.clone(),
    ) {
        HandlerAction::AnswerPermission { session_id, request_id, granted, .. } => {
            assert_eq!(session_id, "s1");
            assert_eq!(request_id, "r");
            granted
        }
        other => panic!("unexpected {other:?}"),
    };
    assert!(granted(PermissionDecision::AllowOnce));
    assert!(granted(PermissionDecision::AllowSession));
    assert!(!granted(PermissionDecision::AllowWithEdit));
    assert!(!granted(PermissionDecision::Deny));
}
