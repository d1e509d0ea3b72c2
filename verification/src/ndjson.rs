//! Reading the stream-JSON messages of an agent subprocess: each line, once
//! read as JSON, becomes a `Message` by its `type` and the members each type
//! carries. A member that is missing or of another kind reads as its empty
//! value (empty text, `false`, `0`, an empty list).
use vstd::prelude::*;

use crate::bridge::{
    AssistantMessage, ContentBlock, ControlRequest, ControlRequestType, Delta, Message, ResultSubtype, SessionResult,
    StopReason, StreamEvent, StreamEventType, SystemInit, ToolResult, Usage, UserMessage,
};
use crate::json::{
    field, get_field, get_text, json_of_text, json_view, parse_json_text, text_is, text_of, text_or_blank, text_or_empty,
    JsonValue, JsonView,
};
use crate::text::{chars_of, same_text};
use crate::timestamp::{all_digits, digits_value, is_digit};

verus! {

// ---------------------------------------------------------------------------
// Members
// ---------------------------------------------------------------------------

/// The value a reference stands for.
pub open spec fn deref(v: Option<&JsonValue>) -> Option<JsonValue> {
    match v {
        Some(y) => Some(*y),
        None => None,
    }
}

/// The text of member `key`, or empty.
pub open spec fn text_at(v: Option<JsonValue>, key: Seq<char>) -> Seq<char> {
    text_or_empty(field(v, key))
}

/// The `type` of a value, when it is text.
pub open spec fn kind_of(v: Option<JsonValue>) -> Option<Seq<char>> {
    text_of(field(v, "type"@))
}

/// Member `key` when it is a boolean, else `false`.
pub open spec fn bool_at(v: Option<JsonValue>, key: Seq<char>) -> bool {
    match field(v, key) {
        Some(JsonValue::Bool(b)) => b,
        _ => false,
    }
}

/// A value that is a whole number from 0 to `u64::MAX`, written in decimal
/// digits.
pub open spec fn number_u64(v: Option<JsonValue>) -> Option<u64> {
    match v {
        Some(JsonValue::Number(n)) => if n@.len() > 0 && all_digits(n@) && digits_value(n@) <= u64::MAX {
            Some(digits_value(n@) as u64)
        } else {
            None
        },
        _ => None,
    }
}

/// Member `key` as a `u64`, or 0.
pub open spec fn u64_at(v: Option<JsonValue>, key: Seq<char>) -> u64 {
    match number_u64(field(v, key)) {
        Some(n) => n,
        None => 0,
    }
}

/// Member `key` as a token count: a `u64` capped at `u32::MAX`, or 0.
pub open spec fn count_at(v: Option<JsonValue>, key: Seq<char>) -> u32 {
    match number_u64(field(v, key)) {
        Some(n) => if n <= u32::MAX {
            n as u32
        } else {
            u32::MAX
        },
        None => 0,
    }
}

/// The view of a member, `null` when it is missing.
pub open spec fn view_or_null(v: Option<JsonValue>) -> JsonView {
    match v {
        Some(x) => json_view(x),
        None => JsonView::Null,
    }
}

/// The items of a value that is a list, else none.
pub open spec fn items_of(v: Option<JsonValue>) -> Seq<JsonValue> {
    match v {
        Some(JsonValue::Array(items)) => items@,
        _ => Seq::empty(),
    }
}

fn text_member(v: Option<&JsonValue>, key: &str) -> (r: String)
    ensures
        r@ == text_at(deref(v), key@),
{
    text_or_blank(get_field(v, key))
}

fn kind_is(v: Option<&JsonValue>, t: &str) -> (r: bool)
    ensures
        r == (kind_of(deref(v)) == Some(t@)),
{
    text_is(get_field(v, "type"), t)
}

fn bool_member(v: Option<&JsonValue>, key: &str) -> (r: bool)
    ensures
        r == bool_at(deref(v), key@),
{
    match get_field(v, key) {
        Some(JsonValue::Bool(b)) => *b,
        _ => false,
    }
}

fn copy_or_null(v: Option<&JsonValue>) -> (r: JsonValue)
    ensures
        json_view(r) == view_or_null(deref(v)),
{
    match v {
        Some(x) => x.duplicate(),
        None => JsonValue::Null,
    }
}

proof fn lemma_digits_prefix(s: Seq<char>, k: int)
    requires
        0 <= k <= s.len(),
        all_digits(s),
    ensures
        0 <= digits_value(s.take(k)) <= digits_value(s),
    decreases s.len() - k,
{
    if k < s.len() {
        lemma_digits_prefix(s, k + 1);
        assert(s.take(k + 1).drop_last() =~= s.take(k));
        assert(s.take(k + 1).last() == s[k]);
        assert(is_digit(s[k]));
    } else {
        assert(s.take(k) =~= s);
        lemma_digits_nonneg(s);
    }
}

proof fn lemma_digits_nonneg(s: Seq<char>)
    requires
        all_digits(s),
    ensures
        digits_value(s) >= 0,
    decreases s.len(),
{
    if s.len() > 0 {
        assert(is_digit(s[s.len() - 1]));
        assert forall|i: int| 0 <= i < s.drop_last().len() implies is_digit(#[trigger] s.drop_last()[i]) by {
            assert(s.drop_last()[i] == s[i]);
        }
        lemma_digits_nonneg(s.drop_last());
    }
}

/// Reads a value as a `u64` (see `number_u64`).
fn number_value(v: Option<&JsonValue>) -> (r: Option<u64>)
    ensures
        r == number_u64(deref(v)),
{
    let n = match v {
        Some(JsonValue::Number(n)) => n,
        _ => return None,
    };
    let s = chars_of(n.as_str());
    let ghost t = n@;
    assert(s@ == t);
    if s.len() == 0 {
        return None;
    }
    let mut i: usize = 0;
    while i < s.len()
        invariant
            i <= s.len(),
            s@ == t,
            t == n@,
            deref(v) == Some(JsonValue::Number(*n)),
            forall|j: int| 0 <= j < i ==> is_digit(#[trigger] t[j]),
        decreases s.len() - i,
    {
        if !('0' <= s[i] && s[i] <= '9') {
            assert(!is_digit(t[i as int]));
            assert(!all_digits(t));
            assert(deref(v) == Some(JsonValue::Number(*n)));
            return None;
        }
        i = i + 1;
    }
    assert(all_digits(t));
    let limit: u128 = 18446744073709551615;
    let mut acc: u128 = 0;
    let mut k: usize = 0;
    while k < s.len()
        invariant
            k <= s.len(),
            s@ == t,
            t == n@,
            deref(v) == Some(JsonValue::Number(*n)),
            all_digits(t),
            limit == u64::MAX,
            acc == digits_value(t.take(k as int)),
            acc <= limit,
        decreases s.len() - k,
    {
        assert(t.take(k as int + 1).drop_last() =~= t.take(k as int));
        assert(t.take(k as int + 1).last() == t[k as int]);
        assert(is_digit(t[k as int]));
        let d = (s[k] as u32 - '0' as u32) as u128;
        acc = acc * 10 + d;
        assert(acc == digits_value(t.take(k as int + 1)));
        if acc > limit {
            proof {
                lemma_digits_prefix(t, k as int + 1);
                assert(deref(v) == Some(JsonValue::Number(*n)));
            }
            return None;
        }
        k = k + 1;
    }
    assert(t.take(k as int) =~= t);
    Some(acc as u64)
}

fn u64_member(v: Option<&JsonValue>, key: &str) -> (r: u64)
    ensures
        r == u64_at(deref(v), key@),
{
    match number_value(get_field(v, key)) {
        Some(n) => n,
        None => 0,
    }
}

fn count_member(v: Option<&JsonValue>, key: &str) -> (r: u32)
    ensures
        r == count_at(deref(v), key@),
{
    match number_value(get_field(v, key)) {
        Some(n) => if n <= 4294967295 {
            n as u32
        } else {
            4294967295
        },
        None => 0,
    }
}


// ---------------------------------------------------------------------------
// Parts of messages
// ---------------------------------------------------------------------------

/// A content block read from `b`: text, a tool use (its input `null` when
/// missing), or another kind.
pub open spec fn block_decoded(b: JsonValue, c: ContentBlock) -> bool {
    let v = Some(b);
    if kind_of(v) == Some("text"@) {
        c matches ContentBlock::Text { text } && text@ == text_at(v, "text"@)
    } else if kind_of(v) == Some("tool_use"@) {
        &&& c matches ContentBlock::ToolUse { id, name, input }
        &&& id@ == text_at(v, "id"@)
        &&& name@ == text_at(v, "name"@)
        &&& json_view(input) == view_or_null(field(v, "input"@))
    } else {
        c is Other
    }
}

/// The blocks read from `items`, one for one.
pub open spec fn blocks_decoded(items: Seq<JsonValue>, blocks: Seq<ContentBlock>) -> bool {
    &&& items.len() == blocks.len()
    &&& forall|i: int| 0 <= i < items.len() ==> block_decoded(items[i], #[trigger] blocks[i])
}

/// The stop reason an assistant message gives.
pub open spec fn stop_reason_of(m: Option<JsonValue>) -> StopReason {
    let r = text_of(field(m, "stop_reason"@));
    if r == Some("end_turn"@) {
        StopReason::EndTurn
    } else if r == Some("tool_use"@) {
        StopReason::ToolUse
    } else if r == Some("max_tokens"@) {
        StopReason::MaxTokens
    } else if r == Some("stop_sequence"@) {
        StopReason::StopSequence
    } else {
        StopReason::Unknown
    }
}

/// A content delta read from `d`.
pub open spec fn delta_decoded(d: Option<JsonValue>, x: Delta) -> bool {
    if kind_of(d) == Some("text_delta"@) {
        x matches Delta::Text(t) && t@ == text_at(d, "text"@)
    } else if kind_of(d) == Some("input_json_delta"@) {
        x matches Delta::InputJson(t) && t@ == text_at(d, "partial_json"@)
    } else {
        x is Unknown
    }
}

/// A streaming event read from `e`.
pub open spec fn stream_event_decoded(e: Option<JsonValue>, t: StreamEventType) -> bool {
    let index = u64_at(e, "index"@);
    if kind_of(e) == Some("content_block_delta"@) {
        t matches StreamEventType::ContentBlockDelta { index: i, delta } && i == index && delta_decoded(
            field(e, "delta"@),
            delta,
        )
    } else if kind_of(e) == Some("content_block_stop"@) {
        t matches StreamEventType::ContentBlockStop { index: i } && i == index
    } else if kind_of(e) == Some("message_start"@) {
        t is MessageStart
    } else if kind_of(e) == Some("message_stop"@) {
        t is MessageStop
    } else {
        t is Other
    }
}

/// How a session ended, read from its subtype text.
pub open spec fn subtype_decoded(s: Seq<char>, r: ResultSubtype) -> bool {
    if s == "success"@ {
        r is Success
    } else if s == "error_max_turns"@ {
        r is ErrorMaxTurns
    } else if s == "error_during_execution"@ {
        r is ErrorDuringExecution
    } else {
        r matches ResultSubtype::Unknown(t) && t@ == s
    }
}

/// The texts among `items`, in order.
pub open spec fn texts_of(items: Seq<JsonValue>) -> Seq<Seq<char>>
    decreases items.len(),
{
    if items.len() == 0 {
        Seq::empty()
    } else {
        let rest = texts_of(items.drop_last());
        match text_of(Some(items.last())) {
            Some(t) => rest.push(t),
            None => rest,
        }
    }
}

/// The `text` members among `parts`, in order.
pub open spec fn part_texts(parts: Seq<JsonValue>) -> Seq<Seq<char>>
    decreases parts.len(),
{
    if parts.len() == 0 {
        Seq::empty()
    } else {
        let rest = part_texts(parts.drop_last());
        match text_of(field(Some(parts.last()), "text"@)) {
            Some(t) => rest.push(t),
            None => rest,
        }
    }
}

/// Texts joined with line breaks between them.
pub open spec fn join_lines(ts: Seq<Seq<char>>) -> Seq<char>
    decreases ts.len(),
{
    if ts.len() == 0 {
        Seq::empty()
    } else if ts.len() == 1 {
        ts[0]
    } else {
        join_lines(ts.drop_last()) + "\n"@ + ts.last()
    }
}

/// The output of a tool result: its text, or the texts of its parts on
/// separate lines; empty for anything else.
pub open spec fn tool_output(c: Option<JsonValue>) -> Seq<char> {
    match c {
        Some(JsonValue::Str(s)) => s@,
        Some(JsonValue::Array(parts)) => join_lines(part_texts(parts@)),
        _ => Seq::empty(),
    }
}

/// The tool results among `items` (those of type `tool_result`): the call's
/// ID, its output and whether it failed.
pub open spec fn tool_results_of(items: Seq<JsonValue>) -> Seq<(Seq<char>, Seq<char>, bool)>
    decreases items.len(),
{
    if items.len() == 0 {
        Seq::empty()
    } else {
        let rest = tool_results_of(items.drop_last());
        let v = Some(items.last());
        if kind_of(v) == Some("tool_result"@) {
            rest.push((text_at(v, "tool_use_id"@), tool_output(field(v, "content"@)), bool_at(v, "is_error"@)))
        } else {
            rest
        }
    }
}

/// The views of tool results.
pub open spec fn tool_results_view(rs: Seq<ToolResult>) -> Seq<(Seq<char>, Seq<char>, bool)> {
    rs.map_values(|t: ToolResult| (t.tool_use_id@, t.content@, t.is_error))
}

fn block_of(b: &JsonValue) -> (c: ContentBlock)
    ensures
        block_decoded(*b, c),
{
    let v = Some(b);
    if kind_is(v, "text") {
        ContentBlock::Text { text: text_member(v, "text") }
    } else if kind_is(v, "tool_use") {
        ContentBlock::ToolUse {
            id: text_member(v, "id"),
            name: text_member(v, "name"),
            input: copy_or_null(get_field(v, "input")),
        }
    } else {
        ContentBlock::Other
    }
}

fn blocks_of(items: &Vec<JsonValue>) -> (r: Vec<ContentBlock>)
    ensures
        blocks_decoded(items@, r@),
{
    let mut r: Vec<ContentBlock> = Vec::new();
    let mut i: usize = 0;
    while i < items.len()
        invariant
            i <= items.len(),
            r@.len() == i,
            forall|j: int| 0 <= j < i ==> block_decoded(items@[j], #[trigger] r@[j]),
        decreases items.len() - i,
    {
        let c = block_of(&items[i]);
        r.push(c);
        i = i + 1;
    }
    r
}

fn stop_reason_from(m: Option<&JsonValue>) -> (r: StopReason)
    ensures
        r == stop_reason_of(deref(m)),
{
    let s = get_field(m, "stop_reason");
    if text_is(s, "end_turn") {
        StopReason::EndTurn
    } else if text_is(s, "tool_use") {
        StopReason::ToolUse
    } else if text_is(s, "max_tokens") {
        StopReason::MaxTokens
    } else if text_is(s, "stop_sequence") {
        StopReason::StopSequence
    } else {
        StopReason::Unknown
    }
}

fn stream_event_from(e: Option<&JsonValue>) -> (t: StreamEventType)
    ensures
        stream_event_decoded(deref(e), t),
{
    let index = u64_member(e, "index");
    if kind_is(e, "content_block_delta") {
        let d = get_field(e, "delta");
        let delta = if kind_is(d, "text_delta") {
            Delta::Text(text_member(d, "text"))
        } else if kind_is(d, "input_json_delta") {
            Delta::InputJson(text_member(d, "partial_json"))
        } else {
            Delta::Unknown
        };
        StreamEventType::ContentBlockDelta { index, delta }
    } else if kind_is(e, "content_block_stop") {
        StreamEventType::ContentBlockStop { index }
    } else if kind_is(e, "message_start") {
        StreamEventType::MessageStart
    } else if kind_is(e, "message_stop") {
        StreamEventType::MessageStop
    } else {
        StreamEventType::Other
    }
}

fn subtype_from(s: String) -> (r: ResultSubtype)
    ensures
        subtype_decoded(s@, r),
{
    if same_text(s.as_str(), "success") {
        ResultSubtype::Success
    } else if same_text(s.as_str(), "error_max_turns") {
        ResultSubtype::ErrorMaxTurns
    } else if same_text(s.as_str(), "error_during_execution") {
        ResultSubtype::ErrorDuringExecution
    } else {
        ResultSubtype::Unknown(s)
    }
}

fn texts_from(items: &Vec<JsonValue>) -> (r: Vec<String>)
    ensures
        r.deep_view() == texts_of(items@),
{
    let mut r: Vec<String> = Vec::new();
    let mut i: usize = 0;
    while i < items.len()
        invariant
            i <= items.len(),
            r.deep_view() == texts_of(items@.take(i as int)),
        decreases items.len() - i,
    {
        assert(items@.take(i as int + 1).drop_last() =~= items@.take(i as int));
        assert(items@.take(i as int + 1).last() == items@[i as int]);
        let ghost before = r.deep_view();
        match get_text(Some(&items[i])) {
            Some(t) => {
                r.push(t.clone());
                assert(r.deep_view() =~= before.push(t@));
            },
            None => {},
        }
        i = i + 1;
    }
    assert(items@.take(i as int) =~= items@);
    r
}

fn tool_output_from(c: Option<&JsonValue>) -> (r: String)
    ensures
        r@ == tool_output(deref(c)),
{
    match c {
        Some(JsonValue::Str(s)) => s.clone(),
        Some(JsonValue::Array(parts)) => {
            let mut out = String::new();
            let mut first = true;
            let mut i: usize = 0;
            while i < parts.len()
                invariant
                    i <= parts.len(),
                    out@ == join_lines(part_texts(parts@.take(i as int))),
                    first == (part_texts(parts@.take(i as int)).len() == 0),
                decreases parts.len() - i,
            {
                assert(parts@.take(i as int + 1).drop_last() =~= parts@.take(i as int));
                assert(parts@.take(i as int + 1).last() == parts@[i as int]);
                let ghost pt = part_texts(parts@.take(i as int));
                match get_text(get_field(Some(&parts[i]), "text")) {
                    Some(t) => {
                        if !first {
                            out.append("\n");
                        }
                        out.append(t.as_str());
                        first = false;
                        proof {
                            let np = pt.push(t@);
                            assert(np.drop_last() =~= pt);
                            if pt.len() == 0 {
                                assert(np.len() == 1);
                                assert(out@ =~= np[0]);
                            } else {
                                assert(out@ =~= join_lines(pt) + "\n"@ + t@);
                            }
                        }
                    },
                    None => {},
                }
                i = i + 1;
            }
            assert(parts@.take(i as int) =~= parts@);
            out
        },
        _ => String::new(),
    }
}

fn tool_results_from(items: &Vec<JsonValue>) -> (r: Vec<ToolResult>)
    ensures
        tool_results_view(r@) == tool_results_of(items@),
{
    let mut r: Vec<ToolResult> = Vec::new();
    let mut i: usize = 0;
    while i < items.len()
        invariant
            i <= items.len(),
            tool_results_view(r@) == tool_results_of(items@.take(i as int)),
        decreases items.len() - i,
    {
        assert(items@.take(i as int + 1).drop_last() =~= items@.take(i as int));
        assert(items@.take(i as int + 1).last() == items@[i as int]);
        let ghost before = tool_results_view(r@);
        let v = Some(&items[i]);
        if kind_is(v, "tool_result") {
            let t = ToolResult {
                tool_use_id: text_member(v, "tool_use_id"),
                content: tool_output_from(get_field(v, "content")),
                is_error: bool_member(v, "is_error"),
            };
            let ghost tv = (t.tool_use_id@, t.content@, t.is_error);
            r.push(t);
            assert(tool_results_view(r@) =~= before.push(tv));
        }
        i = i + 1;
    }
    assert(items@.take(i as int) =~= items@);
    r
}


// ---------------------------------------------------------------------------
// Messages
// ---------------------------------------------------------------------------

/// The message read from a JSON value, by its `type` (empty when missing):
/// `system` with subtype `init`, `assistant`, `stream_event`,
/// `control_request`, `result` and `user`; any other type (a `system`
/// message of another subtype too) is unknown and keeps its type text.
pub open spec fn message_decoded(v: JsonValue, m: Message) -> bool {
    let o = Some(v);
    let t = text_at(o, "type"@);
    if t == "system"@ && text_of(field(o, "subtype"@)) == Some("init"@) {
        &&& m matches Message::SystemInit(s)
        &&& s.session_id@ == text_at(o, "session_id"@)
        &&& s.model@ == text_at(o, "model"@)
        &&& s.cwd@ == text_at(o, "cwd"@)
    } else if t == "assistant"@ {
        let msg = field(o, "message"@);
        &&& m matches Message::Assistant(a)
        &&& a.stop_reason == stop_reason_of(msg)
        &&& blocks_decoded(items_of(field(msg, "content"@)), a.content@)
    } else if t == "stream_event"@ {
        m matches Message::StreamEvent(e) && stream_event_decoded(field(o, "event"@), e.event_type)
    } else if t == "control_request"@ {
        let r = field(o, "request"@);
        &&& m matches Message::ControlRequest(c)
        &&& c.request_id@ == text_at(o, "request_id"@)
        &&& if text_of(field(r, "subtype"@)) == Some("can_use_tool"@) {
            &&& c.request matches ControlRequestType::CanUseTool { tool_name, input }
            &&& tool_name@ == text_at(r, "tool_name"@)
            &&& json_view(input) == view_or_null(field(r, "input"@))
        } else {
            c.request is Unknown
        }
    } else if t == "result"@ {
        let u = field(o, "usage"@);
        &&& m matches Message::Result(res)
        &&& subtype_decoded(text_at(o, "subtype"@), res.subtype)
        &&& res.session_id@ == text_at(o, "session_id"@)
        &&& res.duration_ms == u64_at(o, "duration_ms"@)
        &&& res.usage.input_tokens == count_at(u, "input_tokens"@)
        &&& res.usage.output_tokens == count_at(u, "output_tokens"@)
        &&& res.usage.cache_read_input_tokens == count_at(u, "cache_read_input_tokens"@)
        &&& res.usage.cache_creation_input_tokens == count_at(u, "cache_creation_input_tokens"@)
        &&& res.is_error == bool_at(o, "is_error"@)
        &&& res.errors.deep_view() == texts_of(items_of(field(o, "errors"@)))
    } else if t == "user"@ {
        &&& m matches Message::User(um)
        &&& tool_results_view(um.content@) == tool_results_of(items_of(field(field(o, "message"@), "content"@)))
    } else {
        m matches Message::Unknown { msg_type } && msg_type@ == t
    }
}

/// Reads one stream-JSON message of the subprocess (see
/// `message_decoded`).
pub fn message_of_json(v: &JsonValue) -> (m: Message)
    ensures
        message_decoded(*v, m),
{
    let o = Some(v);
    let t = text_member(o, "type");
    if same_text(t.as_str(), "system") && text_is(get_field(o, "subtype"), "init") {
        Message::SystemInit(
            SystemInit {
                session_id: text_member(o, "session_id"),
                model: text_member(o, "model"),
                cwd: text_member(o, "cwd"),
            },
        )
    } else if same_text(t.as_str(), "assistant") {
        let msg = get_field(o, "message");
        let content = match get_field(msg, "content") {
            Some(JsonValue::Array(items)) => blocks_of(items),
            _ => {
                let r: Vec<ContentBlock> = Vec::new();
                r
            },
        };
        Message::Assistant(AssistantMessage { content, stop_reason: stop_reason_from(msg) })
    } else if same_text(t.as_str(), "stream_event") {
        Message::StreamEvent(StreamEvent { event_type: stream_event_from(get_field(o, "event")) })
    } else if same_text(t.as_str(), "control_request") {
        let r = get_field(o, "request");
        let request = if text_is(get_field(r, "subtype"), "can_use_tool") {
            ControlRequestType::CanUseTool {
                tool_name: text_member(r, "tool_name"),
                input: copy_or_null(get_field(r, "input")),
            }
        } else {
            ControlRequestType::Unknown
        };
        Message::ControlRequest(ControlRequest { request_id: text_member(o, "request_id"), request })
    } else if same_text(t.as_str(), "result") {
        let u = get_field(o, "usage");
        let errors = match get_field(o, "errors") {
            Some(JsonValue::Array(items)) => texts_from(items),
            _ => {
                let r: Vec<String> = Vec::new();
                assert(r.deep_view() =~= texts_of(Seq::<JsonValue>::empty()));
                r
            },
        };
        Message::Result(
            SessionResult {
                subtype: subtype_from(text_member(o, "subtype")),
                session_id: text_member(o, "session_id"),
                duration_ms: u64_member(o, "duration_ms"),
                usage: Usage {
                    input_tokens: count_member(u, "input_tokens"),
                    output_tokens: count_member(u, "output_tokens"),
                    cache_read_input_tokens: count_member(u, "cache_read_input_tokens"),
                    cache_creation_input_tokens: count_member(u, "cache_creation_input_tokens"),
                },
                is_error: bool_member(o, "is_error"),
                errors,
            },
        )
    } else if same_text(t.as_str(), "user") {
        let content = match get_field(get_field(o, "message"), "content") {
            Some(JsonValue::Array(items)) => tool_results_from(items),
            _ => {
                let r: Vec<ToolResult> = Vec::new();
                assert(tool_results_view(r@) =~= tool_results_of(Seq::<JsonValue>::empty()));
                r
            },
        };
        Message::User(UserMessage { content })
    } else {
        Message::Unknown { msg_type: t }
    }
}


/// Reads one line of the subprocess: `None` when it is not JSON, else the
/// message of the JSON value it holds (see `message_decoded`).
pub fn parse_message_line(line: &str) -> (r: Option<Message>)
    ensures
        match json_of_text(line@) {
            None => r is None,
            Some(j) => r matches Some(m) && exists|v: JsonValue| json_view(v) == j && message_decoded(v, m),
        },
{
    match parse_json_text(line) {
        Some(v) => Some(message_of_json(&v)),
        None => None,
    }
}

} // verus!
