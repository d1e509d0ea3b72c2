//! The events that one line of a subagent's NDJSON output stands for: the
//! line is read as JSON, and the value decides what it reports.
use vstd::prelude::*;

use crate::json::{
    field, get_field, items_view, json_of_text, json_view, lemma_field_by_view, lemma_items_view_index, opt_json_view,
    parse_json_text, text_is, text_of, text_or_blank, text_or_empty, JsonValue,
};
use crate::text::same_text;
use crate::timestamp::Timestamp;

verus! {

/// What a subagent's output line reports.
#[derive(Debug)]
pub enum SubagentEventKind {
    Output { text: String, is_complete: bool },
    ToolUse { tool_id: String, tool_name: String, description: String },
    PermissionRequest { request_id: String, tool_name: String, description: String },
}

/// A reported event as the specifications see it.
pub enum EventView {
    Output { text: Seq<char>, is_complete: bool },
    ToolUse { tool_id: Seq<char>, tool_name: Seq<char>, description: Seq<char> },
    PermissionRequest { request_id: Seq<char>, tool_name: Seq<char>, description: Seq<char> },
}

impl View for SubagentEventKind {
    type V = EventView;

    open spec fn view(&self) -> EventView {
        match self {
            SubagentEventKind::Output { text, is_complete } => EventView::Output { text: text@, is_complete: *is_complete },
            SubagentEventKind::ToolUse { tool_id, tool_name, description } => EventView::ToolUse {
                tool_id: tool_id@,
                tool_name: tool_name@,
                description: description@,
            },
            SubagentEventKind::PermissionRequest { request_id, tool_name, description } => EventView::PermissionRequest {
                request_id: request_id@,
                tool_name: tool_name@,
                description: description@,
            },
        }
    }
}

/// The views of a list of events.
pub open spec fn views(es: Seq<SubagentEventKind>) -> Seq<EventView> {
    es.map_values(|e: SubagentEventKind| e@)
}

/// The text a content block contributes: its `text` when its `type` is
/// `text`.
pub open spec fn block_text(b: JsonValue) -> Seq<char> {
    if text_of(field(Some(b), "type"@)) == Some("text"@) {
        text_or_empty(field(Some(b), "text"@))
    } else {
        Seq::empty()
    }
}

/// The text of the text blocks, joined in order.
pub open spec fn joined_text(blocks: Seq<JsonValue>) -> Seq<char>
    decreases blocks.len(),
{
    if blocks.len() == 0 {
        Seq::empty()
    } else {
        joined_text(blocks.drop_last()) + block_text(blocks.last())
    }
}

/// The tool uses among the blocks, in order.
pub open spec fn tool_uses(blocks: Seq<JsonValue>) -> Seq<EventView>
    decreases blocks.len(),
{
    if blocks.len() == 0 {
        Seq::empty()
    } else {
        let b = blocks.last();
        let rest = tool_uses(blocks.drop_last());
        if text_of(field(Some(b), "type"@)) == Some("tool_use"@) {
            rest.push(
                EventView::ToolUse {
                    tool_id: text_or_empty(field(Some(b), "id"@)),
                    tool_name: text_or_empty(field(Some(b), "name"@)),
                    description: Seq::empty(),
                },
            )
        } else {
            rest
        }
    }
}

/// The content blocks of an assistant message, if it has a list of them.
pub open spec fn content_blocks(msg: JsonValue) -> Option<Seq<JsonValue>> {
    match field(field(Some(msg), "message"@), "content"@) {
        Some(JsonValue::Array(items)) => Some(items@),
        _ => None,
    }
}

/// The events a message stands for, by its `type`: an assistant message
/// gives its joined text (when not empty) and then its tool uses; a content
/// delta gives its text (when not empty); a control request gives a
/// permission request; anything else gives nothing.
pub open spec fn message_events(msg: JsonValue) -> Seq<EventView> {
    let kind = text_or_empty(field(Some(msg), "type"@));
    if kind == "assistant"@ {
        let blocks = match content_blocks(msg) {
            Some(b) => b,
            None => Seq::empty(),
        };
        let text = joined_text(blocks);
        let head = if text.len() > 0 {
            seq![EventView::Output { text, is_complete: false }]
        } else {
            Seq::empty()
        };
        head + tool_uses(blocks)
    } else if kind == "content_block_delta"@ {
        let text = text_or_empty(field(field(Some(msg), "delta"@), "text"@));
        if text.len() > 0 {
            seq![EventView::Output { text, is_complete: false }]
        } else {
            Seq::empty()
        }
    } else if kind == "control_request"@ {
        seq![
            EventView::PermissionRequest {
                request_id: text_or_empty(field(Some(msg), "request_id"@)),
                tool_name: text_or_empty(field(field(Some(msg), "request"@), "tool_name"@)),
                description: Seq::empty(),
            },
        ]
    } else {
        Seq::empty()
    }
}

/// The events a message of a subagent's output stands for (see
/// `message_events`).
pub fn events_of_message(msg: &JsonValue) -> (r: Vec<SubagentEventKind>)
    ensures
        views(r@) == message_events(*msg),
{
    let kind = text_or_blank(get_field(Some(msg), "type"));
    if same_text(kind.as_str(), "assistant") {
        let content = get_field(get_field(Some(msg), "message"), "content");
        let empty: Vec<JsonValue> = Vec::new();
        let items: &Vec<JsonValue> = match content {
            Some(JsonValue::Array(items)) => items,
            _ => &empty,
        };
        let ghost blocks = items@;
        assert(blocks == match content_blocks(*msg) {
            Some(b) => b,
            None => Seq::<JsonValue>::empty(),
        });
        let mut text = String::new();
        let mut i: usize = 0;
        while i < items.len()
            invariant
                i <= items.len(),
                blocks == items@,
                text@ == joined_text(blocks.take(i as int)),
            decreases items.len() - i,
        {
            assert(blocks.take(i as int + 1).drop_last() =~= blocks.take(i as int));
            assert(blocks.take(i as int + 1).last() == items@[i as int]);
            let b = &items[i];
            if text_is(get_field(Some(b), "type"), "text") {
                let t = text_or_blank(get_field(Some(b), "text"));
                text.append(t.as_str());
            }
            i = i + 1;
        }
        assert(blocks.take(i as int) =~= blocks);
        let mut events: Vec<SubagentEventKind> = Vec::new();
        if !text.as_str().is_empty() {
            events.push(SubagentEventKind::Output { text, is_complete: false });
        }
        let ghost head = views(events@);
        let mut k: usize = 0;
        while k < items.len()
            invariant
                k <= items.len(),
                blocks == items@,
                views(events@) == head + tool_uses(blocks.take(k as int)),
            decreases items.len() - k,
        {
            assert(blocks.take(k as int + 1).drop_last() =~= blocks.take(k as int));
            assert(blocks.take(k as int + 1).last() == items@[k as int]);
            let b = &items[k];
            if text_is(get_field(Some(b), "type"), "tool_use") {
                let ghost before = views(events@);
                let e = SubagentEventKind::ToolUse {
                    tool_id: text_or_blank(get_field(Some(b), "id")),
                    tool_name: text_or_blank(get_field(Some(b), "name")),
                    description: String::new(),
                };
                events.push(e);
                assert(views(events@) =~= before.push(e@));
            }
            k = k + 1;
        }
        assert(blocks.take(k as int) =~= blocks);
        events
    } else if same_text(kind.as_str(), "content_block_delta") {
        let text = text_or_blank(get_field(get_field(Some(msg), "delta"), "text"));
        let mut events: Vec<SubagentEventKind> = Vec::new();
        if !text.as_str().is_empty() {
            events.push(SubagentEventKind::Output { text, is_complete: false });
        }
        events
    } else if same_text(kind.as_str(), "control_request") {
        let e = SubagentEventKind::PermissionRequest {
            request_id: text_or_blank(get_field(Some(msg), "request_id")),
            tool_name: text_or_blank(get_field(get_field(Some(msg), "request"), "tool_name")),
            description: String::new(),
        };
        let mut events: Vec<SubagentEventKind> = Vec::new();
        events.push(e);
        events
    } else {
        Vec::new()
    }
}

/// Blocks of the same views contribute the same text and tool uses.
proof fn lemma_blocks_by_view(a: Seq<JsonValue>, b: Seq<JsonValue>)
    requires
        items_view(a) == items_view(b),
    ensures
        joined_text(a) == joined_text(b),
        tool_uses(a) == tool_uses(b),
    decreases a.len(),
{
    lemma_items_view_index(a);
    lemma_items_view_index(b);
    if a.len() > 0 {
        assert(items_view(a).drop_last() == items_view(a.drop_last()));
        assert(items_view(b).drop_last() == items_view(b.drop_last()));
        lemma_blocks_by_view(a.drop_last(), b.drop_last());
        assert(a.len() == b.len());
        assert(items_view(a)[a.len() - 1] == items_view(b)[a.len() - 1]);
        let n = a.len() - 1;
        assert(items_view(a)[n] == json_view(a[n]));
        assert(items_view(b)[n] == json_view(b[n]));
        assert(json_view(a.last()) == json_view(b.last()));
        let (x, y) = (Some(a.last()), Some(b.last()));
        assert(opt_json_view(x) == opt_json_view(y));
        lemma_field_by_view(x, y, "type"@);
        lemma_field_by_view(field(x, "type"@), field(y, "type"@), "type"@);
        lemma_field_by_view(x, y, "text"@);
        lemma_field_by_view(field(x, "text"@), field(y, "text"@), "text"@);
        lemma_field_by_view(x, y, "id"@);
        lemma_field_by_view(field(x, "id"@), field(y, "id"@), "id"@);
        lemma_field_by_view(x, y, "name"@);
        lemma_field_by_view(field(x, "name"@), field(y, "name"@), "name"@);
    }
}

/// The events of a message depend on its JSON view alone.
pub proof fn lemma_message_events_by_view(m1: JsonValue, m2: JsonValue)
    requires
        json_view(m1) == json_view(m2),
    ensures
        message_events(m1) == message_events(m2),
{
    let (x, y) = (Some(m1), Some(m2));
    assert(opt_json_view(x) == opt_json_view(y));
    lemma_field_by_view(x, y, "type"@);
    lemma_field_by_view(field(x, "type"@), field(y, "type"@), "type"@);
    lemma_field_by_view(x, y, "message"@);
    lemma_field_by_view(field(x, "message"@), field(y, "message"@), "content"@);
    let (cx, cy) = (field(field(x, "message"@), "content"@), field(field(y, "message"@), "content"@));
    match (cx, cy) {
        (Some(JsonValue::Array(ia)), Some(JsonValue::Array(ib))) => {
            lemma_blocks_by_view(ia@, ib@);
        },
        _ => {},
    }
    lemma_field_by_view(x, y, "delta"@);
    lemma_field_by_view(field(x, "delta"@), field(y, "delta"@), "text"@);
    lemma_field_by_view(field(field(x, "delta"@), "text"@), field(field(y, "delta"@), "text"@), "text"@);
    lemma_field_by_view(x, y, "request_id"@);
    lemma_field_by_view(field(x, "request_id"@), field(y, "request_id"@), "request_id"@);
    lemma_field_by_view(x, y, "request"@);
    lemma_field_by_view(field(x, "request"@), field(y, "request"@), "tool_name"@);
    lemma_field_by_view(
        field(field(x, "request"@), "tool_name"@),
        field(field(y, "request"@), "tool_name"@),
        "tool_name"@,
    );
}

/// The events one line of a subagent's output stands for: none when the
/// line is not JSON, else those of the message it holds (which depend on
/// the message's JSON view alone, see `lemma_message_events_by_view`).
pub open spec fn line_events(line: Seq<char>) -> Seq<EventView> {
    match json_of_text(line) {
        Some(j) => message_events(choose|m: JsonValue| json_view(m) == j),
        None => Seq::empty(),
    }
}

/// The kinds of the events one line of a subagent's output stands for (see
/// `line_events`).
pub fn stdout_line_events(line: &str) -> (r: Vec<SubagentEventKind>)
    ensures
        views(r@) == line_events(line@),
        match json_of_text(line@) {
            None => r@.len() == 0,
            Some(j) => (exists|m: JsonValue| json_view(m) == j) && forall|m: JsonValue|
                json_view(m) == j ==> views(r@) == message_events(m),
        },
{
    match parse_json_text(line) {
        Some(m) => {
            let r = events_of_message(&m);
            proof {
                assert forall|m2: JsonValue| json_view(m2) == json_of_text(line@).unwrap() implies views(r@)
                    == message_events(m2) by {
                    lemma_message_events_by_view(m, m2);
                }
                let c = choose|m2: JsonValue| json_view(m2) == json_of_text(line@).unwrap();
                assert(json_view(c) == json_of_text(line@).unwrap());
            }
            r
        },
        None => {
            let r: Vec<SubagentEventKind> = Vec::new();
            assert(views(r@) =~= Seq::<EventView>::empty());
            r
        },
    }
}

/// An event of a subagent, as it is broadcast: who reported it, when, and
/// what.
#[derive(Debug)]
pub struct SubagentEvent {
    pub subagent_id: String,
    pub timestamp: Option<Timestamp>,
    pub event: Option<SubagentEventKind>,
}

/// The events `es` are the kinds `ks` in order, each from `subagent_id`
/// and stamped `now`.
pub open spec fn tagged(es: Seq<SubagentEvent>, subagent_id: Seq<char>, now: Timestamp, ks: Seq<EventView>) -> bool {
    &&& es.len() == ks.len()
    &&& forall|i: int|
        0 <= i < es.len() ==> {
            &&& (#[trigger] es[i]).subagent_id@ == subagent_id
            &&& es[i].timestamp == Some(now)
            &&& es[i].event matches Some(k) && k@ == ks[i]
        }
}

/// Stamps event kinds, in order, with the subagent that reported them and
/// the time.
pub fn tag_events(subagent_id: &str, now: Timestamp, kinds: Vec<SubagentEventKind>) -> (r: Vec<SubagentEvent>)
    ensures
        tagged(r@, subagent_id@, now, views(kinds@)),
{
    let ghost orig = kinds@;
    let mut rest = kinds;
    let total = rest.len();
    let mut out: Vec<SubagentEvent> = Vec::new();
    let mut k: usize = 0;
    while rest.len() > 0
        invariant
            k <= orig.len() == total,
            rest@ == orig.skip(k as int),
            tagged(out@, subagent_id@, now, views(orig.take(k as int))),
        decreases rest@.len(),
    {
        let e = rest.remove(0);
        assert(e == orig[k as int]);
        let ghost before = out@;
        out.push(SubagentEvent { subagent_id: subagent_id.to_owned(), timestamp: Some(now), event: Some(e) });
        proof {
            let ks = views(orig.take(k as int + 1));
            assert(views(orig.take(k as int + 1)) =~= views(orig.take(k as int)).push(e@));
            assert forall|i: int| 0 <= i < out@.len() implies {
                &&& (#[trigger] out@[i]).subagent_id@ == subagent_id@
                &&& out@[i].timestamp == Some(now)
                &&& out@[i].event matches Some(x) && x@ == ks[i]
            } by {
                if i < before.len() {
                    assert(out@[i] == before[i]);
                }
            }
        }
        assert(rest@ =~= orig.skip(k as int + 1));
        k = k + 1;
    }
    assert(orig.take(k as int) =~= orig);
    out
}

/// The events one line of a subagent's output stands for (see
/// `line_events`), each from `subagent_id` and stamped `now`.
pub fn parse_stdout_line(subagent_id: &str, line: &str, now: Timestamp) -> (r: Vec<SubagentEvent>)
    ensures
        tagged(r@, subagent_id@, now, line_events(line@)),
{
    tag_events(subagent_id, now, stdout_line_events(line))
}

} // verus!
