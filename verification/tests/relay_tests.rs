use betcode_daemon::bridge::{
    AgentEventKind, ControlRequest, ControlRequestType, Message, ResultSubtype, SessionResult,
    SystemInit, Usage,
};
use betcode_daemon::json::JsonValue;
use betcode_daemon::relay::{
    event_message_type, permission_response, question_response, user_input_event, user_message_line,
    PermissionDecision, RelayState, SessionIdUpdate, StdoutPipeline,
};

fn s(t: &str) -> JsonValue {
    JsonValue::Str(t.to_string())
}

fn obj(members: Vec<(&str, JsonValue)>) -> JsonValue {
    JsonValue::Object(members.into_iter().map(|(k, v)| (k.to_string(), v)).collect())
}

fn get<'a>(v: &'a JsonValue, key: &str) -> &'a JsonValue {
    match v {
        JsonValue::Object(ms) => {
            &ms.iter().find(|(k, _)| k == key).unwrap_or_else(|| panic!("no member {key}")).1
        }
        _ => panic!("not an object"),
    }
}

fn text(v: &JsonValue) -> &str {
    match v {
        JsonValue::Str(t) => t.as_str(),
        _ => panic!("not text"),
    }
}

fn can_use(request_id: &str, tool: &str, input: JsonValue) -> Message {
    Message::ControlRequest(ControlRequest {
        request_id: request_id.to_string(),
        request: ControlRequestType::CanUseTool { tool_name: tool.to_string(), input },
    })
}

#[test]
fn permission_allow_json_includes_original_input() {
    let original_input =
        obj(vec![("command", s("cargo test")), ("timeout", JsonValue::Number("30000".into()))]);
    let msg = permission_response("req_p1", true, original_input);

    assert_eq!(text(get(&msg, "type")), "control_response");
    assert_eq!(text(get(get(&msg, "response"), "subtype")), "success");
    assert_eq!(text(get(get(&msg, "response"), "request_id")), "req_p1");

    let response = get(get(&msg, "response"), "response");
    assert_eq!(text(get(response, "behavior")), "allow");
    let updated = get(response, "updatedInput");
    assert_eq!(text(get(updated, "command")), "cargo test");
    assert!(matches!(get(updated, "timeout"), JsonValue::Number(n) if n == "30000"));
}

#[test]
fn permission_allow_json_with_empty_input() {
    let msg = permission_response("req_p3", true, obj(vec![]));
    let response = get(get(&msg, "response"), "response");
    assert_eq!(text(get(response, "behavior")), "allow");
    assert!(matches!(get(response, "updatedInput"), JsonValue::Object(ms) if ms.is_empty()));
}

#[test]
fn permission_deny_json_includes_message() {
    let msg = permission_response("req_p2", false, obj(vec![("command", s("rm -rf /"))]));
    assert_eq!(text(get(&msg, "type")), "control_response");
    assert_eq!(text(get(get(&msg, "response"), "subtype")), "success");
    assert_eq!(text(get(get(&msg, "response"), "request_id")), "req_p2");
    let response = get(get(&msg, "response"), "response");
    assert_eq!(text(get(response, "behavior")), "deny");
    assert!(matches!(get(response, "interrupt"), JsonValue::Bool(true)));
    assert_eq!(text(get(response, "message")), "User denied permission");
}

#[test]
fn question_response_json_format_matches_protocol() {
    let answers = vec![("Which database?".to_string(), "SQLite".to_string())];
    let original_input = obj(vec![(
        "questions",
        JsonValue::Array(vec![obj(vec![("question", s("Which database?"))])]),
    )]);
    let msg = question_response("req_q1", &answers, original_input);
    assert_eq!(text(get(&msg, "type")), "control_response");
    assert_eq!(text(get(get(&msg, "response"), "subtype")), "success");
    assert_eq!(text(get(get(&msg, "response"), "request_id")), "req_q1");
    let response = get(get(&msg, "response"), "response");
    assert_eq!(text(get(response, "behavior")), "allow");
    let updated = get(response, "updatedInput");
    assert_eq!(text(get(get(updated, "answers"), "Which database?")), "SQLite");
    assert!(matches!(get(updated, "questions"), JsonValue::Array(_)));
}

#[test]
fn question_response_replaces_earlier_answers() {
    let answers = vec![("q".to_string(), "new".to_string())];
    let input = obj(vec![("answers", obj(vec![("q", s("old"))])), ("x", s("y"))]);
    let msg = question_response("r", &answers, input);
    let updated = get(get(get(&msg, "response"), "response"), "updatedInput");
    match updated {
        JsonValue::Object(ms) => {
            assert_eq!(ms.iter().filter(|(k, _)| k == "answers").count(), 1);
            assert_eq!(ms.len(), 2);
        }
        _ => panic!("not an object"),
    }
    assert_eq!(text(get(get(updated, "answers"), "q")), "new");
}

#[test]
fn process_permission_allow_session_caches_grant() {
    let mut relay = RelayState::new();
    assert!(relay
        .route_permission("req-as".into(), "Bash".into(), obj(vec![("command", s("cargo test"))]))
        .is_none());
    let (granted, input) = relay.process_permission_response("req-as", PermissionDecision::AllowSession);
    assert!(granted);
    assert_eq!(text(get(&input, "command")), "cargo test");
    assert_eq!(relay.list_grants(), vec![("Bash".to_string(), true)]);
    let (_, again) = relay.process_permission_response("req-as", PermissionDecision::AllowOnce);
    assert!(matches!(again, JsonValue::Object(ms) if ms.is_empty()));
}

#[test]
fn process_permission_allow_once_does_not_cache() {
    let mut relay = RelayState::new();
    relay.route_permission("req-ao".into(), "Write".into(), obj(vec![("file", s("/tmp/test.txt"))]));
    let (granted, input) = relay.process_permission_response("req-ao", PermissionDecision::AllowOnce);
    assert!(granted);
    assert_eq!(text(get(&input, "file")), "/tmp/test.txt");
    assert!(relay.list_grants().is_empty());
}

#[test]
fn process_permission_deny_cleans_pending() {
    let mut relay = RelayState::new();
    relay.route_permission("req-d".into(), "Bash".into(), obj(vec![("command", s("rm -rf /"))]));
    let (granted, input) = relay.process_permission_response("req-d", PermissionDecision::Deny);
    assert!(!granted);
    assert_eq!(text(get(&input, "command")), "rm -rf /");
    assert!(relay.list_grants().is_empty());
    let (_, again) = relay.process_permission_response("req-d", PermissionDecision::Deny);
    assert!(matches!(again, JsonValue::Object(ms) if ms.is_empty()));
}

#[test]
fn process_permission_allow_with_edit_grants_without_caching() {
    let mut relay = RelayState::new();
    relay.route_permission("req-awe".into(), "Bash".into(), obj(vec![("command", s("cargo build"))]));
    let (granted, _) = relay.process_permission_response("req-awe", PermissionDecision::AllowWithEdit);
    assert!(granted);
    assert!(relay.list_grants().is_empty());
}

#[test]
fn standing_grant_answers_at_once() {
    let mut relay = RelayState::new();
    relay.set_grant("Bash".into(), false);
    let answer = relay
        .route_permission("r1".into(), "Bash".into(), obj(vec![("command", s("ls"))]))
        .unwrap();
    assert_eq!(text(get(get(get(&answer, "response"), "response"), "behavior")), "deny");
    relay.clear_grants("Bash");
    assert!(relay.list_grants().is_empty());
    relay.set_grant("A".into(), true);
    relay.set_grant("B".into(), true);
    relay.clear_grants("");
    assert!(relay.list_grants().is_empty());
}

#[test]
fn answer_question_uses_held_input() {
    let mut relay = RelayState::new();
    relay.hold_question("q1".into(), obj(vec![("questions", JsonValue::Array(vec![]))]));
    let answer = relay.answer_question("q1", &vec![("Q".to_string(), "A".to_string())]);
    let updated = get(get(get(&answer, "response"), "response"), "updatedInput");
    assert!(matches!(get(updated, "questions"), JsonValue::Array(_)));
    assert_eq!(text(get(get(updated, "answers"), "Q")), "A");
    let answer = relay.answer_question("q1", &vec![]);
    let updated = get(get(get(&answer, "response"), "response"), "updatedInput");
    assert!(matches!(get(updated, "answers"), JsonValue::Object(ms) if ms.is_empty()));
}

#[test]
fn answer_permission_builds_the_reply() {
    let mut relay = RelayState::new();
    relay.route_permission("p".into(), "Edit".into(), obj(vec![("path", s("a.rs"))]));
    let answer = relay.answer_permission("p", PermissionDecision::AllowOnce);
    let inner = get(get(&answer, "response"), "response");
    assert_eq!(text(get(inner, "behavior")), "allow");
    assert_eq!(text(get(get(inner, "updatedInput"), "path")), "a.rs");
}

#[test]
fn answer_held_permission_uses_the_given_grant() {
    let mut relay = RelayState::new();
    relay.route_permission("p".into(), "Edit".into(), obj(vec![("path", s("a.rs"))]));
    let answer = relay.answer_held_permission("p", false);
    let inner = get(get(&answer, "response"), "response");
    assert_eq!(text(get(inner, "behavior")), "deny");
    assert!(relay.list_grants().is_empty());
    let again = relay.answer_held_permission("p", true);
    let inner = get(get(&again, "response"), "response");
    assert_eq!(text(get(inner, "behavior")), "allow");
}

#[test]
fn pipeline_holds_permission_requests_without_grant() {
    let mut relay = RelayState::new();
    let mut p = StdoutPipeline::new(0, "agent".into());
    let msg = can_use("r1", "Bash", obj(vec![("command", s("ls"))]));
    assert!(p.accepts(&msg, 0));
    let out = p.on_line(msg, 0, &mut relay);
    assert!(out.replies.is_empty());
    assert_eq!(out.events.len(), 1);
    assert_eq!(out.forwarded, vec![true]);
    assert_eq!(out.events[0].sequence, 1);
    assert!(matches!(out.events[0].kind, AgentEventKind::PermissionRequest { .. }));
    let (granted, input) = relay.process_permission_response("r1", PermissionDecision::AllowOnce);
    assert!(granted);
    assert_eq!(text(get(&input, "command")), "ls");
    assert_eq!(p.event_count(), 1);
}

#[test]
fn pipeline_answers_from_standing_grant() {
    let mut relay = RelayState::new();
    relay.set_grant("Bash".into(), true);
    let mut p = StdoutPipeline::new(0, "agent".into());
    let out = p.on_line(can_use("r1", "Bash", obj(vec![("command", s("ls"))])), 0, &mut relay);
    assert_eq!(out.replies.len(), 1);
    assert_eq!(text(get(get(get(&out.replies[0], "response"), "response"), "behavior")), "allow");
    assert_eq!(out.forwarded, vec![false]);
    assert_eq!(p.event_count(), 0);
    assert!(p.finish().is_some());
}

#[test]
fn pipeline_holds_questions() {
    let mut relay = RelayState::new();
    let mut p = StdoutPipeline::new(0, "agent".into());
    let input = obj(vec![(
        "questions",
        JsonValue::Array(vec![obj(vec![
            ("question", s("Pick")),
            ("options", JsonValue::Array(vec![obj(vec![("label", s("A"))])])),
        ])]),
    )]);
    let out = p.on_line(can_use("q1", "AskUserQuestion", input), 0, &mut relay);
    assert!(matches!(out.events[0].kind, AgentEventKind::UserQuestion { .. }));
    let answer = relay.answer_question("q1", &vec![("Pick".into(), "A".into())]);
    let updated = get(get(get(&answer, "response"), "response"), "updatedInput");
    assert!(matches!(get(updated, "questions"), JsonValue::Array(_)));
}

#[test]
fn pipeline_restarts_numbering_after_user_input() {
    let mut relay = RelayState::new();
    let mut p = StdoutPipeline::new(0, "agent".into());
    let init = Message::SystemInit(SystemInit {
        session_id: "cli-1".into(),
        model: "m".into(),
        cwd: "/w".into(),
    });
    let out = p.on_line(init, 0, &mut relay);
    assert_eq!(out.events[0].sequence, 1);
    assert!(matches!(out.session_id_update, SessionIdUpdate::Store(ref id) if id == "cli-1"));
    let out = p.on_line(can_use("r1", "Bash", obj(vec![])), 5, &mut relay);
    assert_eq!(out.events[0].sequence, 6);
    assert!(matches!(out.session_id_update, SessionIdUpdate::Keep));
    assert_eq!(p.sequence(), 6);
}

#[test]
fn pipeline_clears_session_id_after_session_error() {
    let mut relay = RelayState::new();
    let mut p = StdoutPipeline::new(0, "agent".into());
    let init = Message::SystemInit(SystemInit {
        session_id: "cli-1".into(),
        model: "m".into(),
        cwd: "/w".into(),
    });
    p.on_line(init, 0, &mut relay);
    let result = Message::Result(SessionResult {
        subtype: ResultSubtype::ErrorDuringExecution,
        session_id: "cli-1".into(),
        duration_ms: 10,
        usage: Usage {
            input_tokens: 3,
            output_tokens: 4,
            cache_read_input_tokens: 0,
            cache_creation_input_tokens: 0,
        },
        is_error: true,
        errors: vec!["No conversation found".into()],
    });
    let out = p.on_line(result, 0, &mut relay);
    assert_eq!(out.usage_reports, vec![(3, 4)]);
    assert!(matches!(out.session_id_update, SessionIdUpdate::Clear));
    assert!(out.forwarded.iter().all(|f| *f));
    assert!(p.finish().is_none());
}

#[test]
fn pipeline_reports_silent_subprocess() {
    let p = StdoutPipeline::new(0, "agent-cli".into());
    let e = p.finish().unwrap();
    assert_eq!(e.sequence, 0);
    match e.kind {
        AgentEventKind::Error { code, message, is_fatal } => {
            assert_eq!(code, "subprocess_failed");
            assert_eq!(
                message,
                "agent-cli subprocess exited without producing output. Check daemon logs for stderr details."
            );
            assert!(is_fatal);
        }
        _ => panic!("expected an error"),
    }
}

#[test]
fn user_message_line_matches_the_stream_format() {
    let line = user_message_line("hello", None);
    assert_eq!(text(get(&line, "type")), "user");
    assert_eq!(text(get(get(&line, "message"), "role")), "user");
    assert_eq!(text(get(get(&line, "message"), "content")), "hello");
    assert_eq!(text(get(&line, "session_id")), "default");
    assert!(matches!(get(&line, "parent_tool_use_id"), JsonValue::Null));
    match &line {
        JsonValue::Object(ms) => assert_eq!(ms.len(), 4),
        _ => panic!("not an object"),
    }
    let line = user_message_line("hi", Some("agent-7"));
    assert_eq!(text(get(&line, "agent_id")), "agent-7");
    let line = user_message_line("hi", Some(""));
    match &line {
        JsonValue::Object(ms) => assert!(ms.iter().all(|(k, _)| k != "agent_id")),
        _ => panic!("not an object"),
    }
}

#[test]
fn events_are_stored_by_kind() {
    let e = user_input_event(9, "typed");
    assert_eq!(e.sequence, 9);
    assert_eq!(event_message_type(&e.kind), "user");
    assert_eq!(
        event_message_type(&AgentEventKind::TurnComplete { stop_reason: "end_turn".into() }),
        "result"
    );
    assert_eq!(
        event_message_type(&AgentEventKind::TextDelta { text: "x".into(), is_complete: false }),
        "stream_event"
    );
    assert_eq!(
        event_message_type(&AgentEventKind::PermissionRequest {
            request_id: "r".into(),
            tool_name: "t".into(),
            description: String::new(),
            input: JsonValue::Null,
        }),
        "control_request"
    );
    assert_eq!(
        event_message_type(&AgentEventKind::Error {
            code: "c".into(),
            message: "m".into(),
            is_fatal: false
        }),
        "stream_event"
    );
}
