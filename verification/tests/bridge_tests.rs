use betcode_daemon::bridge::{
    describe_tool, AgentActivity, AgentEventKind, AssistantMessage, ContentBlock, ControlRequest,
    ControlRequestType, Delta, EventBridge, Message, ResultSubtype, SessionResult, StopReason, StreamEvent,
    StreamEventType, SystemInit, ToolResult, Usage, UserMessage,
};
use betcode_daemon::json::JsonValue;

fn s(t: &str) -> JsonValue {
    JsonValue::Str(t.to_string())
}

fn obj(members: Vec<(&str, JsonValue)>) -> JsonValue {
    JsonValue::Object(members.into_iter().map(|(k, v)| (k.to_string(), v)).collect())
}

fn bridge() -> EventBridge {
    EventBridge::new("agent".to_string())
}

fn stream(event_type: StreamEventType) -> Message {
    Message::StreamEvent(StreamEvent { event_type })
}

fn can_use(request_id: &str, tool: &str, input: JsonValue) -> Message {
    Message::ControlRequest(ControlRequest {
        request_id: request_id.to_string(),
        request: ControlRequestType::CanUseTool { tool_name: tool.to_string(), input },
    })
}

fn question_input(question: &str, labels: &[&str], multi: bool) -> JsonValue {
    let options = labels.iter().map(|l| obj(vec![("label", s(l)), ("description", s(""))])).collect();
    obj(vec![(
        "questions",
        JsonValue::Array(vec![obj(vec![
            ("question", s(question)),
            ("options", JsonValue::Array(options)),
            ("multi_select", JsonValue::Bool(multi)),
        ])]),
    )])
}

fn result(subtype: ResultSubtype, is_error: bool, errors: Vec<&str>) -> Message {
    Message::Result(SessionResult {
        subtype,
        session_id: "sess".to_string(),
        duration_ms: 1000,
        usage: Usage { input_tokens: 100, output_tokens: 50, cache_read_input_tokens: 0, cache_creation_input_tokens: 0 },
        is_error,
        errors: errors.into_iter().map(String::from).collect(),
    })
}

#[test]
fn bridge_starts_at_sequence_zero() {
    let bridge = bridge();
    assert_eq!(bridge.sequence(), 0);
}

#[test]
fn bridge_with_start_sequence_continues_from_offset() {
    let mut bridge = EventBridge::with_start_sequence(42, "agent".to_string());
    assert_eq!(bridge.sequence(), 42);
    let events = bridge.convert(stream(StreamEventType::MessageStart));
    assert_eq!(events.len(), 1);
    assert_eq!(events[0].sequence, 43);
    assert_eq!(bridge.sequence(), 43);
}

#[test]
fn system_init_produces_session_info() {
    let mut bridge = bridge();
    let init = SystemInit { session_id: "test-123".to_string(), model: "model-x".to_string(), cwd: "/tmp".to_string() };
    let events = bridge.convert(Message::SystemInit(init));
    assert_eq!(events.len(), 1);
    assert_eq!(bridge.sequence(), 1);
    let info = bridge.session_info().unwrap();
    assert_eq!(info.session_id, "test-123");
    assert_eq!(info.working_directory, "/tmp");
}

#[test]
fn text_delta_produces_text_event() {
    let mut bridge = bridge();
    let events = bridge.convert(stream(StreamEventType::ContentBlockDelta { index: 0, delta: Delta::Text("Hello".to_string()) }));
    assert_eq!(events.len(), 1);
    match &events[0].kind {
        AgentEventKind::TextDelta { text, is_complete } => {
            assert_eq!(text, "Hello");
            assert!(!is_complete);
        }
        other => panic!("Expected TextDelta, got {other:?}"),
    }
}

#[test]
fn empty_text_delta_is_suppressed() {
    let mut bridge = bridge();
    let events = bridge.convert(stream(StreamEventType::ContentBlockDelta { index: 0, delta: Delta::Text(String::new()) }));
    assert!(events.is_empty());
}

#[test]
fn content_block_stop_produces_no_event() {
    let mut bridge = bridge();
    assert!(bridge.convert(stream(StreamEventType::ContentBlockStop { index: 0 })).is_empty());
}

#[test]
fn input_json_delta_produces_no_event() {
    let mut bridge = bridge();
    let events = bridge.convert(stream(StreamEventType::ContentBlockDelta {
        index: 1,
        delta: Delta::InputJson("{\"command\":".to_string()),
    }));
    assert!(events.is_empty());
}

#[test]
fn message_start_and_stop_change_status() {
    let mut bridge = bridge();
    match &bridge.convert(stream(StreamEventType::MessageStart))[0].kind {
        AgentEventKind::StatusChange { status, .. } => assert_eq!(*status, AgentActivity::Thinking),
        other => panic!("unexpected {other:?}"),
    }
    match &bridge.convert(stream(StreamEventType::MessageStop))[0].kind {
        AgentEventKind::StatusChange { status, .. } => assert_eq!(*status, AgentActivity::Idle),
        other => panic!("unexpected {other:?}"),
    }
}

#[test]
fn assistant_with_tool_use_produces_tool_call_start() {
    let mut bridge = bridge();
    let msg = AssistantMessage {
        content: vec![
            ContentBlock::Text { text: "Let me run that.".to_string() },
            ContentBlock::ToolUse { id: "tool_1".to_string(), name: "Bash".to_string(), input: obj(vec![("command", s("ls -la"))]) },
        ],
        stop_reason: StopReason::ToolUse,
    };
    let events = bridge.convert(Message::Assistant(msg));
    assert_eq!(events.len(), 1);
    match &events[0].kind {
        AgentEventKind::ToolCallStart { tool_id, tool_name, description, .. } => {
            assert_eq!(tool_name, "Bash");
            assert_eq!(tool_id, "tool_1");
            assert_eq!(description, "ls -la");
        }
        other => panic!("Expected ToolCallStart, got {other:?}"),
    }
}

#[test]
fn assistant_end_turn_produces_turn_complete() {
    let mut bridge = bridge();
    let msg = AssistantMessage { content: vec![ContentBlock::Text { text: "Done!".to_string() }], stop_reason: StopReason::EndTurn };
    let events = bridge.convert(Message::Assistant(msg));
    assert_eq!(events.len(), 1);
    match &events[0].kind {
        AgentEventKind::TurnComplete { stop_reason } => assert_eq!(stop_reason, "end_turn"),
        other => panic!("unexpected {other:?}"),
    }
}

#[test]
fn assistant_tool_use_no_turn_complete() {
    let mut bridge = bridge();
    let msg = AssistantMessage {
        content: vec![ContentBlock::ToolUse {
            id: "t1".to_string(),
            name: "Read".to_string(),
            input: obj(vec![("file_path", s("/tmp/foo.rs"))]),
        }],
        stop_reason: StopReason::ToolUse,
    };
    let events = bridge.convert(Message::Assistant(msg));
    assert_eq!(events.len(), 1);
    assert!(matches!(&events[0].kind, AgentEventKind::ToolCallStart { .. }));
}

#[test]
fn user_message_produces_tool_call_results() {
    let mut bridge = bridge();
    let msg = UserMessage {
        content: vec![
            ToolResult { tool_use_id: "tool_1".to_string(), content: "file1.rs\nfile2.rs".to_string(), is_error: false },
            ToolResult { tool_use_id: "tool_2".to_string(), content: "permission denied".to_string(), is_error: true },
        ],
    };
    let events = bridge.convert(Message::User(msg));
    assert_eq!(events.len(), 2);
    match (&events[0].kind, &events[1].kind) {
        (
            AgentEventKind::ToolCallResult { tool_id: a, is_error: ea, .. },
            AgentEventKind::ToolCallResult { tool_id: b, is_error: eb, .. },
        ) => {
            assert_eq!((a.as_str(), *ea), ("tool_1", false));
            assert_eq!((b.as_str(), *eb), ("tool_2", true));
        }
        other => panic!("unexpected {other:?}"),
    }
    assert_eq!((events[0].sequence, events[1].sequence), (1, 2));
}

#[test]
fn tool_description_bash() {
    assert_eq!(describe_tool("Bash", &obj(vec![("command", s("cargo test"))])), "cargo test");
}

#[test]
fn tool_description_read() {
    assert_eq!(describe_tool("Read", &obj(vec![("file_path", s("/tmp/foo.rs"))])), "/tmp/foo.rs");
}

#[test]
fn tool_description_grep() {
    assert_eq!(describe_tool("Grep", &obj(vec![("pattern", s("fn main")), ("path", s("src/"))])), "fn main in src/");
    assert_eq!(describe_tool("Grep", &obj(vec![("pattern", s("x"))])), "x in .");
}

#[test]
fn tool_description_unknown_tool_uses_first_string() {
    assert_eq!(describe_tool("SomeNewTool", &obj(vec![("count", JsonValue::Number("7".to_string())), ("query", s("search term"))])), "search term");
}

#[test]
fn tool_description_null_input() {
    assert!(describe_tool("Bash", &JsonValue::Null).is_empty());
}

#[test]
fn tool_description_truncates_long_command() {
    let long_cmd = "x".repeat(200);
    let desc = describe_tool("Bash", &obj(vec![("command", s(&long_cmd))]));
    assert!(desc.len() <= 124);
    assert!(desc.ends_with("..."));
}

#[test]
fn tool_description_web_prefers_url() {
    assert_eq!(describe_tool("WebFetch", &obj(vec![("url", s("https://a")), ("query", s("q"))])), "https://a");
    assert_eq!(describe_tool("WebSearch", &obj(vec![("query", s("q"))])), "q");
    assert_eq!(describe_tool("WebFetch", &obj(vec![("url", JsonValue::Number("7".to_string())), ("query", s("q"))])), "");
}

#[test]
fn permission_request_includes_description() {
    let mut bridge = bridge();
    let events = bridge.convert(can_use("req_1", "Bash", obj(vec![("command", s("rm -rf /tmp/test"))])));
    assert_eq!(events.len(), 1);
    match &events[0].kind {
        AgentEventKind::PermissionRequest { request_id, tool_name, description, .. } => {
            assert_eq!(tool_name, "Bash");
            assert_eq!(description, "rm -rf /tmp/test");
            assert_eq!(request_id, "req_1");
        }
        other => panic!("Expected PermissionRequest, got {other:?}"),
    }
}

#[test]
fn ask_user_question_produces_user_question_event() {
    let mut bridge = bridge();
    let input = obj(vec![(
        "questions",
        JsonValue::Array(vec![obj(vec![
            ("question", s("Which database?")),
            (
                "options",
                JsonValue::Array(vec![
                    obj(vec![("label", s("PostgreSQL")), ("description", s("Full-featured RDBMS"))]),
                    obj(vec![("label", s("SQLite")), ("description", s("Embedded database"))]),
                ]),
            ),
            ("multi_select", JsonValue::Bool(false)),
        ])]),
    )]);
    let events = bridge.convert(can_use("req_q1", "AskUserQuestion", input));
    assert_eq!(events.len(), 1);
    match &events[0].kind {
        AgentEventKind::UserQuestion { question_id, question, options, multi_select } => {
            assert_eq!(question_id, "req_q1");
            assert_eq!(question, "Which database?");
            assert_eq!(options.len(), 2);
            assert_eq!(options[0].label, "PostgreSQL");
            assert_eq!(options[0].value, "PostgreSQL");
            assert_eq!(options[0].description, "Full-featured RDBMS");
            assert_eq!(options[1].label, "SQLite");
            assert!(!multi_select);
        }
        other => panic!("Expected UserQuestion, got {other:?}"),
    }
}

#[test]
fn ask_user_question_multi_select() {
    let mut bridge = bridge();
    let events = bridge.convert(can_use("req_q2", "AskUserQuestion", question_input("Which features?", &["Auth", "Cache"], true)));
    match &events[0].kind {
        AgentEventKind::UserQuestion { question, multi_select, .. } => {
            assert!(*multi_select);
            assert_eq!(question, "Which features?");
        }
        other => panic!("Expected UserQuestion, got {other:?}"),
    }
}

#[test]
fn ask_user_question_not_treated_as_permission() {
    let mut bridge = bridge();
    let events = bridge.convert(can_use("req_q3", "AskUserQuestion", question_input("Pick one", &["A"], false)));
    assert_eq!(events.len(), 1);
    assert!(!matches!(&events[0].kind, AgentEventKind::PermissionRequest { .. }));
}

#[test]
fn regular_tool_permission_still_works() {
    let mut bridge = bridge();
    let events = bridge.convert(can_use("req_p1", "Bash", obj(vec![("command", s("ls"))])));
    assert!(matches!(&events[0].kind, AgentEventKind::PermissionRequest { .. }));
}

#[test]
fn permission_request_stores_original_input() {
    let mut bridge = bridge();
    bridge.convert(can_use("req_perm_1", "Bash", obj(vec![("command", s("rm -rf /tmp/test"))])));
    match bridge.take_permission_input("req_perm_1") {
        Some(JsonValue::Object(members)) => {
            assert_eq!(members.len(), 1);
            assert_eq!(members[0].0, "command");
            assert!(matches!(&members[0].1, JsonValue::Str(t) if t == "rm -rf /tmp/test"));
        }
        other => panic!("unexpected {other:?}"),
    }
}

#[test]
fn take_permission_input_returns_none_after_taken() {
    let mut bridge = bridge();
    bridge.convert(can_use("req_perm_2", "Bash", obj(vec![("command", s("ls"))])));
    assert!(bridge.take_permission_input("req_perm_2").is_some());
    assert!(bridge.take_permission_input("req_perm_2").is_none());
}

#[test]
fn take_permission_input_returns_none_for_unknown_id() {
    let mut bridge = bridge();
    assert!(bridge.take_permission_input("nonexistent").is_none());
}

#[test]
fn ask_user_question_does_not_store_permission_input() {
    let mut bridge = bridge();
    bridge.convert(can_use("req_q_only", "AskUserQuestion", question_input("Pick", &["A"], false)));
    assert!(bridge.take_permission_input("req_q_only").is_none());
    assert!(bridge.take_question_input("req_q_only").is_some());
    assert!(bridge.take_question_input("req_q_only").is_none());
}

#[test]
fn sequence_increments_only_for_emitted_events() {
    let mut bridge = bridge();
    bridge.convert(stream(StreamEventType::MessageStart));
    assert_eq!(bridge.sequence(), 1);
    bridge.convert(stream(StreamEventType::ContentBlockDelta { index: 0, delta: Delta::Text("hi".to_string()) }));
    assert_eq!(bridge.sequence(), 2);
    bridge.convert(stream(StreamEventType::ContentBlockStop { index: 0 }));
    assert_eq!(bridge.sequence(), 2);
}

#[test]
fn handle_result_error_emits_error_event() {
    let mut bridge = bridge();
    let events = bridge.convert(result(
        ResultSubtype::Unknown("error_during_execution".to_string()),
        true,
        vec!["No conversation found with session ID: abc-123"],
    ));
    assert_eq!(events.len(), 3);
    match &events[0].kind {
        AgentEventKind::Error { code, message, is_fatal } => {
            assert_eq!(code, "session_error");
            assert!(message.contains("No conversation found"));
            assert!(*is_fatal);
        }
        other => panic!("Expected Error, got {other:?}"),
    }
    assert!(matches!(&events[1].kind, AgentEventKind::Usage { .. }));
    match &events[2].kind {
        AgentEventKind::StatusChange { status, .. } => assert_eq!(*status, AgentActivity::Idle),
        other => panic!("unexpected {other:?}"),
    }
}

#[test]
fn handle_result_success_no_error_event() {
    let mut bridge = bridge();
    let events = bridge.convert(result(ResultSubtype::Success, false, vec![]));
    assert_eq!(events.len(), 2);
    match &events[0].kind {
        AgentEventKind::Usage { input_tokens, output_tokens, duration_ms, .. } => {
            assert_eq!((*input_tokens, *output_tokens, *duration_ms), (100, 50, 1000));
        }
        other => panic!("unexpected {other:?}"),
    }
    assert!(matches!(&events[1].kind, AgentEventKind::StatusChange { .. }));
}

#[test]
fn handle_result_is_error_true_but_subtype_success_no_errors_is_not_fatal() {
    let mut bridge = bridge();
    let events = bridge.convert(result(ResultSubtype::Success, true, vec![]));
    assert_eq!(events.len(), 2);
    assert!(matches!(&events[0].kind, AgentEventKind::Usage { .. }));
}

#[test]
fn result_error_messages_join_or_name_the_subtype() {
    let mut bridge = bridge();
    let events = bridge.convert(result(ResultSubtype::ErrorMaxTurns, true, vec!["a", "b"]));
    match &events[0].kind {
        AgentEventKind::Error { message, .. } => assert_eq!(message, "a; b"),
        other => panic!("unexpected {other:?}"),
    }
    let events = bridge.convert(result(ResultSubtype::Unknown("odd".to_string()), true, vec![]));
    match &events[0].kind {
        AgentEventKind::Error { message, .. } => assert_eq!(message, "agent exited with error (subtype: Unknown(\"odd\"))"),
        other => panic!("unexpected {other:?}"),
    }
}

#[test]
fn unknown_messages_give_nothing() {
    let mut bridge = bridge();
    assert!(bridge.convert(Message::Unknown { msg_type: "mystery".to_string() }).is_empty());
    assert_eq!(bridge.sequence(), 0);
}
