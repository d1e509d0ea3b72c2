//! The event bridge of a relay session: it turns the NDJSON messages of an
//! agent CLI subprocess into numbered agent events, and keeps what later
//! answers need (tool names of open tool calls, the inputs of open
//! questions and permission requests, the session's identity).
use vstd::prelude::*;

use crate::json::{field, get_field, get_text, json_view, text_is, text_of, text_or_blank, text_or_empty, JsonValue, JsonView};
use crate::keyed::KeyedList;
use crate::text::{truncate_str, truncation};

verus! {

// ---------------------------------------------------------------------------
// Messages
// ---------------------------------------------------------------------------

/// The first message of a session.
#[derive(Debug)]
pub struct SystemInit {
    pub session_id: String,
    pub model: String,
    pub cwd: String,
}

/// A block of an assistant message.
#[derive(Debug)]
pub enum ContentBlock {
    Text { text: String },
    ToolUse { id: String, name: String, input: JsonValue },
    Other,
}

/// Why an assistant message ended.
#[derive(Debug, Clone, Copy, PartialEq, Eq, Structural)]
pub enum StopReason {
    EndTurn,
    ToolUse,
    MaxTokens,
    StopSequence,
    Unknown,
}

/// An assistant message.
#[derive(Debug)]
pub struct AssistantMessage {
    pub content: Vec<ContentBlock>,
    pub stop_reason: StopReason,
}

/// The change a content delta carries.
#[derive(Debug)]
pub enum Delta {
    Text(String),
    InputJson(String),
    Unknown,
}

/// The kind of a streaming event.
#[derive(Debug)]
pub enum StreamEventType {
    ContentBlockDelta { index: u64, delta: Delta },
    ContentBlockStop { index: u64 },
    MessageStart,
    MessageStop,
    Other,
}

/// A streaming event.
#[derive(Debug)]
pub struct StreamEvent {
    pub event_type: StreamEventType,
}

/// What a control request asks.
#[derive(Debug)]
pub enum ControlRequestType {
    CanUseTool { tool_name: String, input: JsonValue },
    Unknown,
}

/// A control request of the subprocess.
#[derive(Debug)]
pub struct ControlRequest {
    pub request_id: String,
    pub request: ControlRequestType,
}

/// How a session ended.
#[derive(Debug)]
pub enum ResultSubtype {
    Success,
    ErrorMaxTurns,
    ErrorDuringExecution,
    Unknown(String),
}

/// Token counts of a session.
#[derive(Debug, Clone, Copy)]
pub struct Usage {
    pub input_tokens: u32,
    pub output_tokens: u32,
    pub cache_read_input_tokens: u32,
    pub cache_creation_input_tokens: u32,
}

/// The last message of a turn.
#[derive(Debug)]
pub struct SessionResult {
    pub subtype: ResultSubtype,
    pub session_id: String,
    pub duration_ms: u64,
    pub usage: Usage,
    pub is_error: bool,
    pub errors: Vec<String>,
}

/// The result of one tool call.
#[derive(Debug)]
pub struct ToolResult {
    pub tool_use_id: String,
    pub content: String,
    pub is_error: bool,
}

/// A user message: tool results.
#[derive(Debug)]
pub struct UserMessage {
    pub content: Vec<ToolResult>,
}

/// One NDJSON message of the subprocess.
#[derive(Debug)]
pub enum Message {
    SystemInit(SystemInit),
    Assistant(AssistantMessage),
    StreamEvent(StreamEvent),
    ControlRequest(ControlRequest),
    Result(SessionResult),
    User(UserMessage),
    Unknown { msg_type: String },
}

// ---------------------------------------------------------------------------
// Events
// ---------------------------------------------------------------------------

/// What the agent is doing.
#[derive(Debug, Clone, Copy, PartialEq, Eq, Structural)]
pub enum AgentActivity {
    Thinking,
    Idle,
}

/// One answer option of a question.
#[derive(Debug)]
pub struct QuestionOption {
    pub value: String,
    pub label: String,
    pub description: String,
}

/// The identity of a session.
#[derive(Debug, Clone)]
pub struct SessionInfo {
    pub session_id: String,
    pub model: String,
    pub working_directory: String,
}

/// What an agent event reports.
#[derive(Debug)]
pub enum AgentEventKind {
    SessionInfo(SessionInfo),
    ToolCallStart { tool_id: String, tool_name: String, input: JsonValue, description: String },
    TurnComplete { stop_reason: String },
    TextDelta { text: String, is_complete: bool },
    StatusChange { status: AgentActivity, message: String },
    PermissionRequest { request_id: String, tool_name: String, description: String, input: JsonValue },
    UserQuestion { question_id: String, question: String, options: Vec<QuestionOption>, multi_select: bool },
    ToolCallResult { tool_id: String, output: String, is_error: bool, duration_ms: u32 },
    Error { code: String, message: String, is_fatal: bool },
    Usage {
        input_tokens: u32,
        output_tokens: u32,
        cache_read_tokens: u32,
        cache_creation_tokens: u32,
        duration_ms: u32,
    },
    /// What the user sent, recorded so that a resumed session shows it.
    UserInput { content: String },
}

/// A numbered agent event.
#[derive(Debug)]
pub struct AgentEvent {
    pub sequence: u64,
    pub kind: AgentEventKind,
}

/// An answer option as the specifications see it.
pub struct OptionView {
    pub value: Seq<char>,
    pub label: Seq<char>,
    pub description: Seq<char>,
}

/// An event as the specifications see it.
pub enum EventView {
    SessionInfo { session_id: Seq<char>, model: Seq<char>, working_directory: Seq<char> },
    ToolCallStart { tool_id: Seq<char>, tool_name: Seq<char>, input: JsonView, description: Seq<char> },
    TurnComplete { stop_reason: Seq<char> },
    TextDelta { text: Seq<char>, is_complete: bool },
    StatusChange { status: AgentActivity, message: Seq<char> },
    PermissionRequest { request_id: Seq<char>, tool_name: Seq<char>, description: Seq<char>, input: JsonView },
    UserQuestion { question_id: Seq<char>, question: Seq<char>, options: Seq<OptionView>, multi_select: bool },
    ToolCallResult { tool_id: Seq<char>, output: Seq<char>, is_error: bool, duration_ms: u32 },
    Error { code: Seq<char>, message: Seq<char>, is_fatal: bool },
    Usage {
        input_tokens: u32,
        output_tokens: u32,
        cache_read_tokens: u32,
        cache_creation_tokens: u32,
        duration_ms: u32,
    },
    UserInput { content: Seq<char> },
}

impl View for QuestionOption {
    type V = OptionView;

    open spec fn view(&self) -> OptionView {
        OptionView { value: self.value@, label: self.label@, description: self.description@ }
    }
}

impl View for AgentEventKind {
    type V = EventView;

    open spec fn view(&self) -> EventView {
        match self {
            AgentEventKind::SessionInfo(i) => EventView::SessionInfo {
                session_id: i.session_id@,
                model: i.model@,
                working_directory: i.working_directory@,
            },
            AgentEventKind::ToolCallStart { tool_id, tool_name, input, description } => EventView::ToolCallStart {
                tool_id: tool_id@,
                tool_name: tool_name@,
                input: json_view(*input),
                description: description@,
            },
            AgentEventKind::TurnComplete { stop_reason } => EventView::TurnComplete { stop_reason: stop_reason@ },
            AgentEventKind::TextDelta { text, is_complete } => EventView::TextDelta {
                text: text@,
                is_complete: *is_complete,
            },
            AgentEventKind::StatusChange { status, message } => EventView::StatusChange {
                status: *status,
                message: message@,
            },
            AgentEventKind::PermissionRequest { request_id, tool_name, description, input } => EventView::PermissionRequest {
                request_id: request_id@,
                tool_name: tool_name@,
                description: description@,
                input: json_view(*input),
            },
            AgentEventKind::UserQuestion { question_id, question, options, multi_select } => EventView::UserQuestion {
                question_id: question_id@,
                question: question@,
                options: option_views(options@),
                multi_select: *multi_select,
            },
            AgentEventKind::ToolCallResult { tool_id, output, is_error, duration_ms } => EventView::ToolCallResult {
                tool_id: tool_id@,
                output: output@,
                is_error: *is_error,
                duration_ms: *duration_ms,
            },
            AgentEventKind::Error { code, message, is_fatal } => EventView::Error {
                code: code@,
                message: message@,
                is_fatal: *is_fatal,
            },
            AgentEventKind::Usage {
                input_tokens,
                output_tokens,
                cache_read_tokens,
                cache_creation_tokens,
                duration_ms,
            } => EventView::Usage {
                input_tokens: *input_tokens,
                output_tokens: *output_tokens,
                cache_read_tokens: *cache_read_tokens,
                cache_creation_tokens: *cache_creation_tokens,
                duration_ms: *duration_ms,
            },
            AgentEventKind::UserInput { content } => EventView::UserInput { content: content@ },
        }
    }
}

/// The views of a list of answer options.
pub open spec fn option_views(os: Seq<QuestionOption>) -> Seq<OptionView> {
    os.map_values(|o: QuestionOption| o@)
}

/// The views of a list of event kinds.
pub open spec fn kind_views(ks: Seq<AgentEventKind>) -> Seq<EventView> {
    ks.map_values(|k: AgentEventKind| k@)
}

// ---------------------------------------------------------------------------
// Tool descriptions
// ---------------------------------------------------------------------------

/// The first member of an object whose value is text.
pub open spec fn first_text(entries: Seq<(String, JsonValue)>) -> Option<Seq<char>>
    decreases entries.len(),
{
    if entries.len() == 0 {
        None
    } else {
        match entries[0].1 {
            JsonValue::Str(s) => Some(s@),
            _ => first_text(entries.drop_first()),
        }
    }
}

/// A short human-readable summary of a tool call: the command of `Bash`
/// (cut to 120 bytes), the file of `Read`, `Write` and `Edit`, `<pattern>
/// in <path>` for `Grep` (pattern cut to 60 bytes, path `.` by default), the
/// pattern of `Glob`, the URL (or else the query) of `WebFetch` and
/// `WebSearch` (cut to 120 bytes), the query of `ToolSearch`, and for any
/// other tool its first text value (cut to 80 bytes). Empty when the input
/// is not an object or has no such value.
pub open spec fn tool_description(name: Seq<char>, input: JsonValue) -> Seq<char> {
    let obj = Some(input);
    match input {
        JsonValue::Object(entries) => if name == "Bash"@ {
            match text_of(field(obj, "command"@)) {
                Some(c) => truncation(c, 120),
                None => Seq::empty(),
            }
        } else if name == "Read"@ || name == "Write"@ || name == "Edit"@ {
            text_or_empty(field(obj, "file_path"@))
        } else if name == "Grep"@ {
            truncation(text_or_empty(field(obj, "pattern"@)), 60) + " in "@ + match text_of(field(obj, "path"@)) {
                Some(p) => p,
                None => "."@,
            }
        } else if name == "Glob"@ {
            text_or_empty(field(obj, "pattern"@))
        } else if name == "WebFetch"@ || name == "WebSearch"@ {
            let v = match field(obj, "url"@) {
                Some(u) => Some(u),
                None => field(obj, "query"@),
            };
            match text_of(v) {
                Some(s) => truncation(s, 120),
                None => Seq::empty(),
            }
        } else if name == "ToolSearch"@ {
            text_or_empty(field(obj, "query"@))
        } else {
            match first_text(entries@) {
                Some(s) => truncation(s, 80),
                None => Seq::empty(),
            }
        },
        _ => Seq::empty(),
    }
}

fn first_text_of(entries: &Vec<(String, JsonValue)>) -> (r: Option<&String>)
    ensures
        match r {
            Some(s) => first_text(entries@) == Some(s@),
            None => first_text(entries@) is None,
        },
{
    let mut i: usize = 0;
    assert(entries@.skip(0) =~= entries@);
    while i < entries.len()
        invariant
            i <= entries.len(),
            first_text(entries@) == first_text(entries@.skip(i as int)),
        decreases entries.len() - i,
    {
        assert(entries@.skip(i as int).drop_first() =~= entries@.skip(i as int + 1));
        assert(entries@.skip(i as int)[0] == entries@[i as int]);
        match &entries[i].1 {
            JsonValue::Str(s) => {
                return Some(s);
            },
            _ => {},
        }
        i = i + 1;
    }
    None
}

fn opt_ref(v: &JsonValue) -> (r: Option<&JsonValue>)
    ensures
        r == Some(v),
{
    Some(v)
}

/// The text of `v`, cut to `max` bytes; empty when `v` is not text.
fn cut_text(v: Option<&JsonValue>, max: usize) -> (r: String)
    ensures
        r@ == match text_of(
            match v {
                Some(y) => Some(*y),
                None => None,
            },
        ) {
            Some(s) => truncation(s, max as nat),
            None => Seq::empty(),
        },
{
    match get_text(v) {
        Some(s) => truncate_str(s.as_str(), max),
        None => String::new(),
    }
}

/// A short human-readable summary of a tool call (see `tool_description`).
pub fn describe_tool(name: &str, input: &JsonValue) -> (r: String)
    ensures
        r@ == tool_description(name@, *input),
{
    let entries = match input {
        JsonValue::Object(entries) => entries,
        _ => {
            return String::new();
        },
    };
    let obj = opt_ref(input);
    if crate::text::same_text(name, "Bash") {
        cut_text(get_field(obj, "command"), 120)
    } else if crate::text::same_text(name, "Read") || crate::text::same_text(name, "Write")
        || crate::text::same_text(name, "Edit") {
        text_or_blank(get_field(obj, "file_path"))
    } else if crate::text::same_text(name, "Grep") {
        let pattern = text_or_blank(get_field(obj, "pattern"));
        let mut r = truncate_str(pattern.as_str(), 60);
        r.append(" in ");
        match get_text(get_field(obj, "path")) {
            Some(p) => r.append(p.as_str()),
            None => r.append("."),
        }
        r
    } else if crate::text::same_text(name, "Glob") {
        text_or_blank(get_field(obj, "pattern"))
    } else if crate::text::same_text(name, "WebFetch") || crate::text::same_text(name, "WebSearch") {
        let v = match get_field(obj, "url") {
            Some(u) => Some(u),
            None => get_field(obj, "query"),
        };
        cut_text(v, 120)
    } else if crate::text::same_text(name, "ToolSearch") {
        text_or_blank(get_field(obj, "query"))
    } else {
        match first_text_of(entries) {
            Some(s) => truncate_str(s.as_str(), 80),
            None => String::new(),
        }
    }
}

// ---------------------------------------------------------------------------
// Questions
// ---------------------------------------------------------------------------

/// The first question of an `AskUserQuestion` input.
pub open spec fn first_question(input: JsonValue) -> Option<JsonValue> {
    match field(Some(input), "questions"@) {
        Some(JsonValue::Array(qs)) => if qs@.len() > 0 {
            Some(qs@[0])
        } else {
            None
        },
        _ => None,
    }
}

/// An answer option read from its JSON: its label serves as its value.
pub open spec fn option_of(o: JsonValue) -> OptionView {
    OptionView {
        value: text_or_empty(field(Some(o), "label"@)),
        label: text_or_empty(field(Some(o), "label"@)),
        description: text_or_empty(field(Some(o), "description"@)),
    }
}

/// The answer options read from a list of JSON values.
pub open spec fn options_of(os: Seq<JsonValue>) -> Seq<OptionView> {
    os.map_values(|o: JsonValue| option_of(o))
}

/// The answer options of a question.
pub open spec fn question_options(q: Option<JsonValue>) -> Seq<OptionView> {
    match field(q, "options"@) {
        Some(JsonValue::Array(os)) => options_of(os@),
        _ => Seq::empty(),
    }
}

/// Whether a question allows several answers: `multi_select`, or else
/// `multiSelect`, when it is a boolean.
pub open spec fn question_multi(q: Option<JsonValue>) -> bool {
    let v = match field(q, "multi_select"@) {
        Some(v) => Some(v),
        None => field(q, "multiSelect"@),
    };
    match v {
        Some(JsonValue::Bool(b)) => b,
        _ => false,
    }
}

/// The question event of an `AskUserQuestion` request.
pub open spec fn question_event(request_id: Seq<char>, input: JsonValue) -> EventView {
    let q = first_question(input);
    EventView::UserQuestion {
        question_id: request_id,
        question: text_or_empty(field(q, "question"@)),
        options: question_options(q),
        multi_select: question_multi(q),
    }
}

fn option_from(o: &JsonValue) -> (r: QuestionOption)
    ensures
        r@ == option_of(*o),
{
    QuestionOption {
        value: text_or_blank(get_field(opt_ref(o), "label")),
        label: text_or_blank(get_field(opt_ref(o), "label")),
        description: text_or_blank(get_field(opt_ref(o), "description")),
    }
}

fn question_from(request_id: String, input: &JsonValue) -> (r: AgentEventKind)
    ensures
        r@ == question_event(request_id@, *input),
{
    let first: Option<&JsonValue> = match get_field(opt_ref(input), "questions") {
        Some(JsonValue::Array(qs)) => if qs.len() > 0 {
            Some(&qs[0])
        } else {
            None
        },
        _ => None,
    };
    let ghost q = first_question(*input);
    assert(q == match first {
        Some(y) => Some(*y),
        None => None,
    });
    let question = text_or_blank(get_field(first, "question"));
    let mv = match get_field(first, "multi_select") {
        Some(v) => Some(v),
        None => get_field(first, "multiSelect"),
    };
    let multi_select = match mv {
        Some(JsonValue::Bool(b)) => *b,
        _ => false,
    };
    let mut options: Vec<QuestionOption> = Vec::new();
    match get_field(first, "options") {
        Some(JsonValue::Array(os)) => {
            let mut i: usize = 0;
            while i < os.len()
                invariant
                    i <= os.len(),
                    option_views(options@) == options_of(os@.take(i as int)),
                decreases os.len() - i,
            {
                let opt = option_from(&os[i]);
                let ghost before = options@;
                options.push(opt);
                proof {
                    let ov = option_views(options@);
                    let want = options_of(os@.take(i as int + 1));
                    assert(options@ == before.push(opt));
                    assert(before.len() == i) by {
                        assert(option_views(before).len() == options_of(os@.take(i as int)).len());
                    }
                    assert(ov.len() == want.len());
                    assert forall|j: int| 0 <= j < ov.len() implies ov[j] == want[j] by {
                        if j < i {
                            assert(option_views(before)[j] == options_of(os@.take(i as int))[j]);
                            assert(options@[j] == before[j]);
                            assert(os@.take(i as int + 1)[j] == os@.take(i as int)[j]);
                        } else {
                            assert(options@[j] == opt);
                            assert(os@.take(i as int + 1)[j] == os@[i as int]);
                        }
                    }
                    assert(ov =~= want);
                }
                i = i + 1;
            }
            assert(os@.take(i as int) =~= os@);
        },
        _ => {},
    }
    let r = AgentEventKind::UserQuestion { question_id: request_id, question, options, multi_select };
    assert(r@ == question_event(request_id@, *input)) by {
        assert(question_options(q) =~= option_views(options@));
    }
    r
}

// ---------------------------------------------------------------------------
// What each message reports
// ---------------------------------------------------------------------------

/// The `Debug` text of a string (quoted and escaped), as `format!("{:?}")`
/// writes it.
pub uninterp spec fn debug_text(s: Seq<char>) -> Seq<char>;

/// Calls `format!("{:?}", s)`: the standard `Debug` rendering of a string,
/// named by `debug_text` (a function of the string alone).
#[verifier::external_body]
fn debug_quoted(s: &str) -> (r: String)
    ensures
        r@ == debug_text(s@),
{
    format!("{:?}", s)
}

/// The `Debug` text of a result subtype.
pub open spec fn subtype_text(st: ResultSubtype) -> Seq<char> {
    match st {
        ResultSubtype::Success => "Success"@,
        ResultSubtype::ErrorMaxTurns => "ErrorMaxTurns"@,
        ResultSubtype::ErrorDuringExecution => "ErrorDuringExecution"@,
        ResultSubtype::Unknown(s) => "Unknown("@ + debug_text(s@) + ")"@,
    }
}

/// Texts joined with `; ` between them.
pub open spec fn joined(ts: Seq<Seq<char>>) -> Seq<char>
    decreases ts.len(),
{
    if ts.len() == 0 {
        Seq::empty()
    } else if ts.len() == 1 {
        ts[0]
    } else {
        joined(ts.drop_last()) + "; "@ + ts.last()
    }
}

/// A result reports a real error: it says so and either its subtype is not
/// success or it carries error messages. (A success without messages that
/// says it erred is not taken as an error.)
pub open spec fn has_real_error(r: SessionResult) -> bool {
    r.is_error && (!(r.subtype is Success) || r.errors@.len() > 0)
}

/// The message of a result's error: its error messages joined, or when it
/// has none, `<agent> exited with error (subtype: <subtype>)`.
pub open spec fn result_error_message(label: Seq<char>, r: SessionResult) -> Seq<char> {
    if r.errors@.len() == 0 {
        label + " exited with error (subtype: "@ + subtype_text(r.subtype) + ")"@
    } else {
        joined(r.errors.deep_view())
    }
}

/// The events of a result: an error when it reports a real one, then the
/// usage and a change to idle.
pub open spec fn result_events(label: Seq<char>, r: SessionResult) -> Seq<EventView> {
    let error = if has_real_error(r) {
        seq![EventView::Error { code: "session_error"@, message: result_error_message(label, r), is_fatal: true }]
    } else {
        Seq::empty()
    };
    error + seq![
        EventView::Usage {
            input_tokens: r.usage.input_tokens,
            output_tokens: r.usage.output_tokens,
            cache_read_tokens: r.usage.cache_read_input_tokens,
            cache_creation_tokens: r.usage.cache_creation_input_tokens,
            duration_ms: r.duration_ms as u32,
        },
        EventView::StatusChange { status: AgentActivity::Idle, message: Seq::empty() },
    ]
}

/// The tool calls that an assistant message starts, in order.
pub open spec fn tool_call_events(blocks: Seq<ContentBlock>) -> Seq<EventView>
    decreases blocks.len(),
{
    if blocks.len() == 0 {
        Seq::empty()
    } else {
        let rest = tool_call_events(blocks.drop_last());
        match blocks.last() {
            ContentBlock::ToolUse { id, name, input } => rest.push(
                EventView::ToolCallStart {
                    tool_id: id@,
                    tool_name: name@,
                    input: json_view(input),
                    description: tool_description(name@, input),
                },
            ),
            _ => rest,
        }
    }
}

/// The open tool calls after an assistant message: each tool use is
/// recorded under its ID with its tool name.
pub open spec fn tools_after(m: Map<Seq<char>, String>, blocks: Seq<ContentBlock>) -> Map<Seq<char>, String>
    decreases blocks.len(),
{
    if blocks.len() == 0 {
        m
    } else {
        let r = tools_after(m, blocks.drop_last());
        match blocks.last() {
            ContentBlock::ToolUse { id, name, .. } => r.insert(id@, name),
            _ => r,
        }
    }
}

/// The events of a streaming event: non-empty text deltas, and the start
/// (thinking) and stop (idle) of a message.
pub open spec fn stream_events(e: StreamEventType) -> Seq<EventView> {
    match e {
        StreamEventType::ContentBlockDelta { delta, .. } => match delta {
            Delta::Text(t) => if t@.len() > 0 {
                seq![EventView::TextDelta { text: t@, is_complete: false }]
            } else {
                Seq::empty()
            },
            _ => Seq::empty(),
        },
        StreamEventType::MessageStart => seq![
            EventView::StatusChange { status: AgentActivity::Thinking, message: Seq::empty() },
        ],
        StreamEventType::MessageStop => seq![
            EventView::StatusChange { status: AgentActivity::Idle, message: Seq::empty() },
        ],
        _ => Seq::empty(),
    }
}

/// The events of a control request: a question for `AskUserQuestion`, a
/// permission request for any other tool.
pub open spec fn control_events(req: ControlRequest) -> Seq<EventView> {
    match req.request {
        ControlRequestType::CanUseTool { tool_name, input } => if tool_name@ == "AskUserQuestion"@ {
            seq![question_event(req.request_id@, input)]
        } else {
            seq![
                EventView::PermissionRequest {
                    request_id: req.request_id@,
                    tool_name: tool_name@,
                    description: tool_description(tool_name@, input),
                    input: json_view(input),
                },
            ]
        },
        ControlRequestType::Unknown => Seq::empty(),
    }
}

/// The tool results of a user message, in order.
pub open spec fn result_views(rs: Seq<ToolResult>) -> Seq<EventView> {
    rs.map_values(
        |t: ToolResult|
            EventView::ToolCallResult { tool_id: t.tool_use_id@, output: t.content@, is_error: t.is_error, duration_ms: 0 },
    )
}

/// The events a message stands for.
pub open spec fn message_events(label: Seq<char>, msg: Message) -> Seq<EventView> {
    match msg {
        Message::SystemInit(init) => seq![
            EventView::SessionInfo {
                session_id: init.session_id@,
                model: init.model@,
                working_directory: init.cwd@,
            },
        ],
        Message::Assistant(a) => tool_call_events(a.content@) + if a.stop_reason == StopReason::EndTurn {
            seq![EventView::TurnComplete { stop_reason: "end_turn"@ }]
        } else {
            Seq::empty()
        },
        Message::StreamEvent(e) => stream_events(e.event_type),
        Message::ControlRequest(req) => control_events(req),
        Message::Result(r) => result_events(label, r),
        Message::User(u) => result_views(u.content@),
        Message::Unknown { .. } => Seq::empty(),
    }
}

/// A bound on the number of events a message stands for.
pub open spec fn message_weight(msg: Message) -> nat {
    match msg {
        Message::Assistant(a) => a.content@.len() + 1,
        Message::User(u) => u.content@.len(),
        Message::Result(_) => 3,
        _ => 2,
    }
}

proof fn lemma_tool_call_events_len(blocks: Seq<ContentBlock>)
    ensures
        tool_call_events(blocks).len() <= blocks.len(),
    decreases blocks.len(),
{
    if blocks.len() > 0 {
        lemma_tool_call_events_len(blocks.drop_last());
    }
}

/// A message stands for no more events than its weight.
pub proof fn lemma_events_within_weight(label: Seq<char>, msg: Message)
    ensures
        message_events(label, msg).len() <= message_weight(msg),
{
    match msg {
        Message::Assistant(a) => lemma_tool_call_events_len(a.content@),
        _ => {},
    }
}

/// The weight of a message.
pub fn message_weight_of(msg: &Message) -> (r: u128)
    ensures
        r == message_weight(*msg),
        r <= u64::MAX as u128 + 1,
{
    match msg {
        Message::Assistant(a) => a.content.len() as u128 + 1,
        Message::User(u) => u.content.len() as u128,
        Message::Result(_) => 3,
        _ => 2,
    }
}

// ---------------------------------------------------------------------------
// The bridge
// ---------------------------------------------------------------------------

/// The abstract state of a bridge.
pub struct BridgeView {
    /// The number of the last event given out.
    pub sequence: u64,
    /// The agent's name, as error messages call it.
    pub agent_label: Seq<char>,
    /// Open tool calls: ID to tool name.
    pub pending_tools: Map<Seq<char>, String>,
    pub session: Option<SessionInfo>,
    /// Inputs of open questions, by request ID.
    pub question_inputs: Map<Seq<char>, JsonValue>,
    /// Inputs of open permission requests, by request ID.
    pub permission_inputs: Map<Seq<char>, JsonValue>,
}

/// The bridge after a message, before its events are numbered.
pub open spec fn state_after(v: BridgeView, msg: Message) -> BridgeView {
    match msg {
        Message::SystemInit(init) => BridgeView {
            session: Some(SessionInfo { session_id: init.session_id, model: init.model, working_directory: init.cwd }),
            ..v
        },
        Message::Assistant(a) => BridgeView { pending_tools: tools_after(v.pending_tools, a.content@), ..v },
        Message::ControlRequest(req) => match req.request {
            ControlRequestType::CanUseTool { tool_name, input } => if tool_name@ == "AskUserQuestion"@ {
                BridgeView { question_inputs: v.question_inputs.insert(req.request_id@, input), ..v }
            } else {
                BridgeView { permission_inputs: v.permission_inputs.insert(req.request_id@, input), ..v }
            },
            ControlRequestType::Unknown => v,
        },
        _ => v,
    }
}

/// Turns the NDJSON messages of a subprocess into numbered agent events.
#[derive(Debug)]
pub struct EventBridge {
    sequence: u64,
    agent_label: String,
    pending_tools: KeyedList<String>,
    session_info: Option<SessionInfo>,
    pending_question_inputs: KeyedList<JsonValue>,
    pending_permission_inputs: KeyedList<JsonValue>,
}

impl View for EventBridge {
    type V = BridgeView;

    closed spec fn view(&self) -> BridgeView {
        BridgeView {
            sequence: self.sequence,
            agent_label: self.agent_label@,
            pending_tools: self.pending_tools.map(),
            session: self.session_info,
            question_inputs: self.pending_question_inputs.map(),
            permission_inputs: self.pending_permission_inputs.map(),
        }
    }
}

fn join_errors(errors: &Vec<String>) -> (r: String)
    ensures
        r@ == joined(errors.deep_view()),
{
    let ghost ev = errors.deep_view();
    let mut r = String::new();
    let mut i: usize = 0;
    while i < errors.len()
        invariant
            i <= errors.len(),
            ev == errors.deep_view(),
            r@ == joined(ev.take(i as int)),
        decreases errors.len() - i,
    {
        assert(ev.take(i as int + 1).drop_last() =~= ev.take(i as int));
        if i > 0 {
            r.append("; ");
        } else {
            assert(ev.take(1)[0] == ev[0]);
        }
        r.append(errors[i].as_str());
        i = i + 1;
    }
    assert(ev.take(i as int) =~= ev);
    r
}

fn subtype_name(st: &ResultSubtype) -> (r: String)
    ensures
        r@ == subtype_text(*st),
{
    match st {
        ResultSubtype::Success => "Success".to_owned(),
        ResultSubtype::ErrorMaxTurns => "ErrorMaxTurns".to_owned(),
        ResultSubtype::ErrorDuringExecution => "ErrorDuringExecution".to_owned(),
        ResultSubtype::Unknown(s) => {
            let mut r = "Unknown(".to_owned();
            let q = debug_quoted(s.as_str());
            r.append(q.as_str());
            r.append(")");
            r
        },
    }
}

fn push_kind(events: &mut Vec<AgentEventKind>, k: AgentEventKind)
    ensures
        kind_views(final(events)@) == kind_views(old(events)@).push(k@),
{
    let ghost before = events@;
    events.push(k);
    assert(kind_views(events@) =~= kind_views(before).push(k@));
}

fn stream_kinds(e: StreamEvent) -> (r: Vec<AgentEventKind>)
    ensures
        kind_views(r@) == stream_events(e.event_type),
{
    let mut events: Vec<AgentEventKind> = Vec::new();
    match e.event_type {
        StreamEventType::ContentBlockDelta { delta, .. } => match delta {
            Delta::Text(t) => {
                if !t.as_str().is_empty() {
                    push_kind(&mut events, AgentEventKind::TextDelta { text: t, is_complete: false });
                }
            },
            _ => {},
        },
        StreamEventType::MessageStart => {
            push_kind(&mut events, AgentEventKind::StatusChange { status: AgentActivity::Thinking, message: String::new() });
        },
        StreamEventType::MessageStop => {
            push_kind(&mut events, AgentEventKind::StatusChange { status: AgentActivity::Idle, message: String::new() });
        },
        _ => {},
    }
    assert(kind_views(events@) =~= stream_events(e.event_type));
    events
}

fn user_kinds(u: UserMessage) -> (r: Vec<AgentEventKind>)
    ensures
        kind_views(r@) == result_views(u.content@),
{
    let mut events: Vec<AgentEventKind> = Vec::new();
    let mut i: usize = 0;
    while i < u.content.len()
        invariant
            i <= u.content.len(),
            kind_views(events@) == result_views(u.content@.take(i as int)),
        decreases u.content.len() - i,
    {
        let t = &u.content[i];
        let k = AgentEventKind::ToolCallResult {
            tool_id: t.tool_use_id.clone(),
            output: t.content.clone(),
            is_error: t.is_error,
            duration_ms: 0,
        };
        push_kind(&mut events, k);
        assert(kind_views(events@) =~= result_views(u.content@.take(i as int + 1)));
        i = i + 1;
    }
    assert(u.content@.take(i as int) =~= u.content@);
    events
}

fn result_kinds(label: &String, r: SessionResult) -> (out: Vec<AgentEventKind>)
    ensures
        kind_views(out@) == result_events(label@, r),
{
    let mut events: Vec<AgentEventKind> = Vec::new();
    let erred = r.is_error && (!matches!(r.subtype, ResultSubtype::Success) || r.errors.len() > 0);
    if erred {
        let message = if r.errors.len() == 0 {
            let mut m = label.clone();
            m.append(" exited with error (subtype: ");
            let st = subtype_name(&r.subtype);
            m.append(st.as_str());
            m.append(")");
            m
        } else {
            join_errors(&r.errors)
        };
        push_kind(&mut events, AgentEventKind::Error { code: "session_error".to_owned(), message, is_fatal: true });
    }
    push_kind(
        &mut events,
        AgentEventKind::Usage {
            input_tokens: r.usage.input_tokens,
            output_tokens: r.usage.output_tokens,
            cache_read_tokens: r.usage.cache_read_input_tokens,
            cache_creation_tokens: r.usage.cache_creation_input_tokens,
            duration_ms: r.duration_ms as u32,
        },
    );
    push_kind(&mut events, AgentEventKind::StatusChange { status: AgentActivity::Idle, message: String::new() });
    assert(kind_views(events@) =~= result_events(label@, r));
    events
}

impl EventBridge {
    /// The internal consistency of the bridge.
    pub closed spec fn wf(&self) -> bool {
        &&& self.pending_tools.wf()
        &&& self.pending_question_inputs.wf()
        &&& self.pending_permission_inputs.wf()
    }

    /// A bridge whose first event is numbered 1; `agent_label` names the
    /// agent in error messages.
    pub fn new(agent_label: String) -> (r: Self)
        ensures
            r.wf(),
            r@ == (BridgeView {
                sequence: 0,
                agent_label: agent_label@,
                pending_tools: Map::empty(),
                session: None,
                question_inputs: Map::empty(),
                permission_inputs: Map::empty(),
            }),
    {
        Self::with_start_sequence(0, agent_label)
    }

    /// A bridge that continues numbering after `start_sequence` (for a
    /// resumed session whose events are already stored).
    pub fn with_start_sequence(start_sequence: u64, agent_label: String) -> (r: Self)
        ensures
            r.wf(),
            r@ == (BridgeView {
                sequence: start_sequence,
                agent_label: agent_label@,
                pending_tools: Map::empty(),
                session: None,
                question_inputs: Map::empty(),
                permission_inputs: Map::empty(),
            }),
    {
        EventBridge {
            sequence: start_sequence,
            agent_label,
            pending_tools: KeyedList::new(),
            session_info: None,
            pending_question_inputs: KeyedList::new(),
            pending_permission_inputs: KeyedList::new(),
        }
    }

    /// The number of the last event given out.
    pub fn sequence(&self) -> (r: u64)
        ensures
            r == self@.sequence,
    {
        self.sequence
    }

    /// The session's identity, once the first message has given it.
    pub fn session_info(&self) -> (r: Option<&SessionInfo>)
        ensures
            match r {
                Some(i) => self@.session == Some(*i),
                None => self@.session is None,
            },
    {
        match &self.session_info {
            Some(i) => Some(i),
            None => None,
        }
    }

    /// Takes the input of an open question; `None` when there is none
    /// under that ID (or it was taken already).
    pub fn take_question_input(&mut self, request_id: &str) -> (r: Option<JsonValue>)
        requires
            old(self).wf(),
        ensures
            final(self).wf(),
            final(self)@ == (BridgeView {
                question_inputs: old(self)@.question_inputs.remove(request_id@),
                ..old(self)@
            }),
            match r {
                Some(v) => old(self)@.question_inputs.dom().contains(request_id@) && old(self)@.question_inputs[request_id@]
                    == v,
                None => !old(self)@.question_inputs.dom().contains(request_id@),
            },
    {
        self.pending_question_inputs.take(request_id)
    }

    /// Takes the input of an open permission request; `None` when there is
    /// none under that ID (or it was taken already).
    pub fn take_permission_input(&mut self, request_id: &str) -> (r: Option<JsonValue>)
        requires
            old(self).wf(),
        ensures
            final(self).wf(),
            final(self)@ == (BridgeView {
                permission_inputs: old(self)@.permission_inputs.remove(request_id@),
                ..old(self)@
            }),
            match r {
                Some(v) => old(self)@.permission_inputs.dom().contains(request_id@)
                    && old(self)@.permission_inputs[request_id@] == v,
                None => !old(self)@.permission_inputs.dom().contains(request_id@),
            },
    {
        self.pending_permission_inputs.take(request_id)
    }

    fn assistant_kinds(&mut self, a: AssistantMessage) -> (r: Vec<AgentEventKind>)
        requires
            old(self).wf(),
        ensures
            final(self).wf(),
            final(self)@ == (BridgeView { pending_tools: tools_after(old(self)@.pending_tools, a.content@), ..old(self)@ }),
            kind_views(r@) == tool_call_events(a.content@) + if a.stop_reason == StopReason::EndTurn {
                seq![EventView::TurnComplete { stop_reason: "end_turn"@ }]
            } else {
                Seq::empty()
            },
    {
        let ghost start = self@;
        let mut events: Vec<AgentEventKind> = Vec::new();
        let mut i: usize = 0;
        while i < a.content.len()
            invariant
                i <= a.content.len(),
                self.wf(),
                self@ == (BridgeView {
                    pending_tools: tools_after(start.pending_tools, a.content@.take(i as int)),
                    ..start
                }),
                kind_views(events@) == tool_call_events(a.content@.take(i as int)),
            decreases a.content.len() - i,
        {
            assert(a.content@.take(i as int + 1).drop_last() =~= a.content@.take(i as int));
            assert(a.content@.take(i as int + 1).last() == a.content@[i as int]);
            match &a.content[i] {
                ContentBlock::ToolUse { id, name, input } => {
                    self.pending_tools.insert(id.clone(), name.clone());
                    let k = AgentEventKind::ToolCallStart {
                        tool_id: id.clone(),
                        tool_name: name.clone(),
                        input: input.duplicate(),
                        description: describe_tool(name.as_str(), input),
                    };
                    push_kind(&mut events, k);
                },
                _ => {},
            }
            i = i + 1;
        }
        assert(a.content@.take(i as int) =~= a.content@);
        if a.stop_reason == StopReason::EndTurn {
            push_kind(&mut events, AgentEventKind::TurnComplete { stop_reason: "end_turn".to_owned() });
        } else {
            assert(kind_views(events@) =~= tool_call_events(a.content@) + Seq::<EventView>::empty());
        }
        events
    }

    fn control_kinds(&mut self, req: ControlRequest) -> (r: Vec<AgentEventKind>)
        requires
            old(self).wf(),
        ensures
            final(self).wf(),
            final(self)@ == state_after(old(self)@, Message::ControlRequest(req)),
            kind_views(r@) == control_events(req),
    {
        let mut events: Vec<AgentEventKind> = Vec::new();
        let ghost r0 = req;
        match req.request {
            ControlRequestType::CanUseTool { tool_name, input } => {
                if crate::text::same_text(tool_name.as_str(), "AskUserQuestion") {
                    let k = question_from(req.request_id.clone(), &input);
                    push_kind(&mut events, k);
                    self.pending_question_inputs.insert(req.request_id, input);
                } else {
                    let k = AgentEventKind::PermissionRequest {
                        request_id: req.request_id.clone(),
                        tool_name: tool_name.clone(),
                        description: describe_tool(tool_name.as_str(), &input),
                        input: input.duplicate(),
                    };
                    push_kind(&mut events, k);
                    self.pending_permission_inputs.insert(req.request_id, input);
                }
            },
            ControlRequestType::Unknown => {},
        }
        assert(kind_views(events@) =~= control_events(r0));
        events
    }

    /// Numbers a list of events after the last number given out.
    fn stamp(&mut self, kinds: Vec<AgentEventKind>) -> (r: Vec<AgentEvent>)
        requires
            old(self)@.sequence + kinds@.len() <= u64::MAX,
        ensures
            final(self).wf() == old(self).wf(),
            final(self)@ == (BridgeView { sequence: (old(self)@.sequence + kinds@.len()) as u64, ..old(self)@ }),
            r@.len() == kinds@.len(),
            forall|i: int|
                0 <= i < r@.len() ==> (#[trigger] r@[i]).sequence == old(self)@.sequence + i + 1 && r@[i].kind@
                    == kinds@[i]@,
    {
        let ghost start = self.sequence;
        let ghost ks = kinds@;
        let ghost v0 = self@;
        let ghost w0 = self.wf();
        let mut rest = kinds;
        let mut out: Vec<AgentEvent> = Vec::new();
        while rest.len() > 0
            invariant
                self@ == (BridgeView { sequence: self.sequence, ..v0 }),
                self.wf() == w0,
                out@.len() + rest@.len() == ks.len(),
                rest@ == ks.skip(out@.len() as int),
                self.sequence == start + out@.len(),
                start + ks.len() <= u64::MAX,
                forall|i: int|
                    0 <= i < out@.len() ==> (#[trigger] out@[i]).sequence == start + i + 1 && out@[i].kind@
                        == ks[i]@,
            decreases rest@.len(),
        {
            let k = rest.remove(0);
            assert(k == ks[out@.len() as int]);
            self.sequence = self.sequence + 1;
            out.push(AgentEvent { sequence: self.sequence, kind: k });
            assert(rest@ =~= ks.skip(out@.len() as int));
        }
        out
    }

    /// Converts one message into its numbered events (see
    /// `message_events`) and records what later answers need (see
    /// `state_after`).
    pub fn convert(&mut self, msg: Message) -> (r: Vec<AgentEvent>)
        requires
            old(self).wf(),
            old(self)@.sequence + message_events(old(self)@.agent_label, msg).len() <= u64::MAX,
        ensures
            final(self).wf(),
            ({
                let ks = message_events(old(self)@.agent_label, msg);
                &&& r@.len() == ks.len()
                &&& forall|i: int|
                    0 <= i < r@.len() ==> (#[trigger] r@[i]).sequence == old(self)@.sequence + i + 1 && r@[i].kind@
                        == ks[i]
                &&& final(self)@ == (BridgeView {
                    sequence: (old(self)@.sequence + ks.len()) as u64,
                    ..state_after(old(self)@, msg)
                })
            }),
    {
        let ghost m0 = msg;
        let ghost label = self@.agent_label;
        let kinds = match msg {
            Message::SystemInit(init) => {
                let info = SessionInfo {
                    session_id: init.session_id.clone(),
                    model: init.model.clone(),
                    working_directory: init.cwd.clone(),
                };
                self.session_info = Some(
                    SessionInfo { session_id: init.session_id, model: init.model, working_directory: init.cwd },
                );
                let mut events: Vec<AgentEventKind> = Vec::new();
                push_kind(&mut events, AgentEventKind::SessionInfo(info));
                events
            },
            Message::Assistant(a) => self.assistant_kinds(a),
            Message::StreamEvent(e) => stream_kinds(e),
            Message::ControlRequest(req) => self.control_kinds(req),
            Message::Result(res) => result_kinds(&self.agent_label, res),
            Message::User(u) => user_kinds(u),
            Message::Unknown { .. } => Vec::new(),
        };
        assert(kind_views(kinds@) =~= message_events(label, m0));
        assert(self@ == state_after(old(self)@, m0));
        self.stamp(kinds)
    }
}

/// An open input is handed out once: after it is taken, taking it again
/// under the same request ID finds nothing (for questions and permission
/// requests alike).
pub proof fn law_inputs_taken_once(v: BridgeView, request_id: Seq<char>)
    ensures
        !v.question_inputs.remove(request_id).dom().contains(request_id),
        !v.permission_inputs.remove(request_id).dom().contains(request_id),
{
}

/// A question's input is kept apart from permission inputs: an
/// `AskUserQuestion` request records its input as a question and leaves
/// the permission inputs as they were; any other tool's request records a
/// permission input and leaves the questions alone.
pub proof fn law_questions_apart_from_permissions(v: BridgeView, req: ControlRequest)
    ensures
        match req.request {
            ControlRequestType::CanUseTool { tool_name, input } => if tool_name@ == "AskUserQuestion"@ {
                &&& state_after(v, Message::ControlRequest(req)).permission_inputs == v.permission_inputs
                &&& state_after(v, Message::ControlRequest(req)).question_inputs[req.request_id@] == input
            } else {
                &&& state_after(v, Message::ControlRequest(req)).question_inputs == v.question_inputs
                &&& state_after(v, Message::ControlRequest(req)).permission_inputs[req.request_id@] == input
            },
            ControlRequestType::Unknown => state_after(v, Message::ControlRequest(req)) == v,
        },
{
}

} // verus!
