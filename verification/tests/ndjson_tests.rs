use betcode_daemon::bridge::{
    ContentBlock, ControlRequestType, Delta, Message, ResultSubtype, StopReason, StreamEventType,
};
use betcode_daemon::json::JsonValue;
use betcode_daemon::ndjson::parse_message_line;

fn read(line: &str) -> Message {
    parse_message_line(line).expect("a JSON line")
}

#[test]
fn non_json_lines_give_nothing() {
    assert!(parse_message_line("not json").is_none());
}

#[test]
fn system_init_and_other_system_messages() {
    match read(r#"{"type":"system","subtype":"init","session_id":"s1","model":"m","cwd":"/w"}"#) {
        Message::SystemInit(s) => {
            assert_eq!(s.session_id, "s1");
            assert_eq!(s.model, "m");
            assert_eq!(s.cwd, "/w");
        }
        other => panic!("unexpected {other:?}"),
    }
    match read(r#"{"type":"system","subtype":"status"}"#) {
        Message::Unknown { msg_type } => assert_eq!(msg_type, "system"),
        other => panic!("unexpected {other:?}"),
    }
    match read(r#"{"no_type":1}"#) {
        Message::Unknown { msg_type } => assert_eq!(msg_type, ""),
        other => panic!("unexpected {other:?}"),
    }
}

#[test]
fn assistant_blocks_and_stop_reason() {
    let line = r#"{"type":"assistant","message":{"stop_reason":"tool_use","content":[{"type":"text","text":"hi"},{"type":"tool_use","id":"t1","name":"Read","input":{"path":"a"}},{"type":"thinking"}]}}"#;
    match read(line) {
        Message::Assistant(a) => {
            assert_eq!(a.stop_reason, StopReason::ToolUse);
            assert_eq!(a.content.len(), 3);
            assert!(matches!(&a.content[0], ContentBlock::Text { text } if text == "hi"));
            match &a.content[1] {
                ContentBlock::ToolUse { id, name, input } => {
                    assert_eq!(id, "t1");
                    assert_eq!(name, "Read");
                    match input {
                        JsonValue::Object(m) => assert_eq!(m.len(), 1),
                        other => panic!("unexpected {other:?}"),
                    }
                }
                other => panic!("unexpected {other:?}"),
            }
            assert!(matches!(a.content[2], ContentBlock::Other));
        }
        other => panic!("unexpected {other:?}"),
    }
    match read(r#"{"type":"assistant","message":{"content":"x"}}"#) {
        Message::Assistant(a) => {
            assert!(a.content.is_empty());
            assert_eq!(a.stop_reason, StopReason::Unknown);
        }
        other => panic!("unexpected {other:?}"),
    }
}

#[test]
fn stream_events() {
    match read(r#"{"type":"stream_event","event":{"type":"content_block_delta","index":2,"delta":{"type":"text_delta","text":"ab"}}}"#) {
        Message::StreamEvent(e) => match e.event_type {
            StreamEventType::ContentBlockDelta { index, delta: Delta::Text(t) } => {
                assert_eq!(index, 2);
                assert_eq!(t, "ab");
            }
            other => panic!("unexpected {other:?}"),
        },
        other => panic!("unexpected {other:?}"),
    }
    match read(r#"{"type":"stream_event","event":{"type":"content_block_stop","index":-1}}"#) {
        Message::StreamEvent(e) => {
            assert!(matches!(e.event_type, StreamEventType::ContentBlockStop { index: 0 }))
        }
        other => panic!("unexpected {other:?}"),
    }
    match read(r#"{"type":"stream_event","event":{"type":"message_stop"}}"#) {
        Message::StreamEvent(e) => assert!(matches!(e.event_type, StreamEventType::MessageStop)),
        other => panic!("unexpected {other:?}"),
    }
}

#[test]
fn control_requests() {
    match read(r#"{"type":"control_request","request_id":"r1","request":{"subtype":"can_use_tool","tool_name":"Bash"}}"#) {
        Message::ControlRequest(c) => {
            assert_eq!(c.request_id, "r1");
            match c.request {
                ControlRequestType::CanUseTool { tool_name, input } => {
                    assert_eq!(tool_name, "Bash");
                    assert!(matches!(input, JsonValue::Null));
                }
                other => panic!("unexpected {other:?}"),
            }
        }
        other => panic!("unexpected {other:?}"),
    }
    match read(r#"{"type":"control_request","request_id":"r2","request":{"subtype":"interrupt"}}"#) {
        Message::ControlRequest(c) => assert!(matches!(c.request, ControlRequestType::Unknown)),
        other => panic!("unexpected {other:?}"),
    }
}

#[test]
fn results_with_usage_and_errors() {
    let line = r#"{"type":"result","subtype":"error_max_turns","session_id":"s","duration_ms":1500,"is_error":true,"errors":["a",1,"b"],"usage":{"input_tokens":10,"output_tokens":5000000000,"cache_read_input_tokens":2.5}}"#;
    match read(line) {
        Message::Result(r) => {
            assert!(matches!(r.subtype, ResultSubtype::ErrorMaxTurns));
            assert_eq!(r.session_id, "s");
            assert_eq!(r.duration_ms, 1500);
            assert!(r.is_error);
            assert_eq!(r.errors, vec!["a".to_string(), "b".to_string()]);
            assert_eq!(r.usage.input_tokens, 10);
            assert_eq!(r.usage.output_tokens, u32::MAX);
            assert_eq!(r.usage.cache_read_input_tokens, 0);
            assert_eq!(r.usage.cache_creation_input_tokens, 0);
        }
        other => panic!("unexpected {other:?}"),
    }
    match read(r#"{"type":"result","subtype":"odd","duration_ms":99999999999999999999}"#) {
        Message::Result(r) => {
            assert!(matches!(&r.subtype, ResultSubtype::Unknown(s) if s == "odd"));
            assert_eq!(r.duration_ms, 0);
            assert!(!r.is_error);
        }
        other => panic!("unexpected {other:?}"),
    }
}

#[test]
fn user_tool_results() {
    let line = r#"{"type":"user","message":{"content":[{"type":"tool_result","tool_use_id":"t1","content":"done"},{"type":"text","text":"skip"},{"type":"tool_result","tool_use_id":"t2","is_error":true,"content":[{"type":"text","text":"l1"},{"type":"image"},{"type":"text","text":"l2"}]},{"type":"tool_result","tool_use_id":"t3","content":7}]}}"#;
    match read(line) {
        Message::User(u) => {
            assert_eq!(u.content.len(), 3);
            assert_eq!(u.content[0].tool_use_id, "t1");
            assert_eq!(u.content[0].content, "done");
            assert!(!u.content[0].is_error);
            assert_eq!(u.content[1].tool_use_id, "t2");
            assert_eq!(u.content[1].content, "l1\nl2");
            assert!(u.content[1].is_error);
            assert_eq!(u.content[2].content, "");
        }
        other => panic!("unexpected {other:?}"),
    }
}
