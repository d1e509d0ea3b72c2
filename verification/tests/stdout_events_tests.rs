use betcode_daemon::json::{parse_json_text, JsonValue};
use betcode_daemon::stdout_events::{
    events_of_message, parse_stdout_line, stdout_line_events, tag_events, SubagentEventKind,
};
use betcode_daemon::timestamp::Timestamp;

const NOW: Timestamp = Timestamp { seconds: 1_768_473_000, nanos: 0 };

fn s(t: &str) -> JsonValue {
    JsonValue::Str(t.to_string())
}

fn obj(members: Vec<(&str, JsonValue)>) -> JsonValue {
    JsonValue::Object(members.into_iter().map(|(k, v)| (k.to_string(), v)).collect())
}

#[test]
fn parse_stdout_text_delta() {
    let line = r#"{"type":"content_block_delta","delta":{"type":"text_delta","text":"Hello"}}"#;
    let events = parse_stdout_line("sa-1", line, NOW);
    assert_eq!(events.len(), 1);
    assert_eq!(events[0].subagent_id, "sa-1");
    assert_eq!(events[0].timestamp, Some(NOW));
    match &events[0].event {
        Some(SubagentEventKind::Output { text, is_complete }) => {
            assert_eq!(text, "Hello");
            assert!(!is_complete);
        }
        other => panic!("Expected Output, got {other:?}"),
    }
}

#[test]
fn parse_stdout_empty_text_delta_suppressed() {
    let line = r#"{"type":"content_block_delta","delta":{"type":"text_delta","text":""}}"#;
    assert!(parse_stdout_line("sa-1", line, NOW).is_empty());
}

#[test]
fn parse_stdout_non_json() {
    assert!(parse_stdout_line("sa-1", "not json at all", NOW).is_empty());
}

#[test]
fn parse_stdout_unknown_type() {
    let line = r#"{"type":"unknown_event","data":123}"#;
    assert!(parse_stdout_line("sa-1", line, NOW).is_empty());
}

#[test]
fn parse_stdout_control_request() {
    let line = r#"{"type":"control_request","request_id":"req-1","request":{"type":"CanUseTool","tool_name":"Bash","input":{"command":"ls"}}}"#;
    let events = parse_stdout_line("sa-1", line, NOW);
    assert_eq!(events.len(), 1);
    assert_eq!(events[0].subagent_id, "sa-1");
    match &events[0].event {
        Some(SubagentEventKind::PermissionRequest { request_id, tool_name, description }) => {
            assert_eq!(request_id, "req-1");
            assert_eq!(tool_name, "Bash");
            assert_eq!(description, "");
        }
        other => panic!("Expected PermissionRequest, got {other:?}"),
    }
}

#[test]
fn json_text_reads_every_kind_of_value() {
    let v = parse_json_text(r#"{"a":[1,2.5,null,true,"x"],"b":{"c":-3}}"#).unwrap();
    let JsonValue::Object(ms) = v else { panic!("not an object") };
    assert_eq!(ms.len(), 2);
    assert_eq!(ms[0].0, "a");
    match &ms[0].1 {
        JsonValue::Array(items) => {
            assert_eq!(items.len(), 5);
            assert!(matches!(&items[0], JsonValue::Number(n) if n == "1"));
            assert!(matches!(&items[1], JsonValue::Number(n) if n == "2.5"));
            assert!(matches!(items[2], JsonValue::Null));
            assert!(matches!(items[3], JsonValue::Bool(true)));
            assert!(matches!(&items[4], JsonValue::Str(t) if t == "x"));
        }
        _ => panic!("not an array"),
    }
    match &ms[1].1 {
        JsonValue::Object(inner) => assert!(matches!(&inner[0].1, JsonValue::Number(n) if n == "-3")),
        _ => panic!("not an object"),
    }
    assert!(parse_json_text("{").is_none());
}

#[test]
fn assistant_message_gives_text_then_tool_uses() {
    let msg = obj(vec![
        ("type", s("assistant")),
        (
            "message",
            obj(vec![(
                "content",
                JsonValue::Array(vec![
                    obj(vec![("type", s("text")), ("text", s("Hi "))]),
                    obj(vec![("type", s("tool_use")), ("id", s("t1")), ("name", s("Read"))]),
                    obj(vec![("type", s("text")), ("text", s("there"))]),
                    obj(vec![("type", s("tool_use"))]),
                ]),
            )]),
        ),
    ]);
    let events = events_of_message(&msg);
    assert_eq!(events.len(), 3);
    match &events[0] {
        SubagentEventKind::Output { text, .. } => assert_eq!(text, "Hi there"),
        other => panic!("unexpected {other:?}"),
    }
    match &events[1] {
        SubagentEventKind::ToolUse { tool_id, tool_name, .. } => assert_eq!((tool_id.as_str(), tool_name.as_str()), ("t1", "Read")),
        other => panic!("unexpected {other:?}"),
    }
    match &events[2] {
        SubagentEventKind::ToolUse { tool_id, tool_name, .. } => assert_eq!((tool_id.as_str(), tool_name.as_str()), ("", "")),
        other => panic!("unexpected {other:?}"),
    }
}

#[test]
fn values_without_type_give_nothing() {
    assert!(events_of_message(&JsonValue::Null).is_empty());
    assert!(events_of_message(&JsonValue::Array(vec![])).is_empty());
    assert!(events_of_message(&obj(vec![("type", JsonValue::Bool(true))])).is_empty());
}

#[test]
fn line_events_are_tagged_in_order() {
    let line = r#"{"type":"assistant","message":{"content":[{"type":"text","text":"hi"},{"type":"tool_use","id":"t1","name":"Read"}]}}"#;
    let kinds = stdout_line_events(line);
    assert_eq!(kinds.len(), 2);
    let events = tag_events("sa-2", NOW, kinds);
    assert_eq!(events.len(), 2);
    for e in &events {
        assert_eq!(e.subagent_id, "sa-2");
        assert_eq!(e.timestamp, Some(NOW));
    }
    assert!(matches!(&events[0].event, Some(SubagentEventKind::Output { text, .. }) if text == "hi"));
    assert!(matches!(&events[1].event, Some(SubagentEventKind::ToolUse { tool_id, tool_name, .. }) if tool_id == "t1" && tool_name == "Read"));
}
