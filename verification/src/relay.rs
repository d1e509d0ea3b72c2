//! The relay between a client and an agent subprocess: the answers written
//! to the subprocess for permission requests and questions, the requests
//! waiting for the user, the session's standing permission grants, and the
//! handling of each line the subprocess prints.
use vstd::prelude::*;

use crate::bridge::{
    has_real_error, kind_views, lemma_events_within_weight, message_events, message_weight, message_weight_of,
    state_after, AgentEvent, AgentEventKind, BridgeView, ControlRequestType, EventBridge, EventView, Message,
};
use crate::json::{json_view, members_view, JsonValue, JsonView};
use crate::keyed::{entries_map, keys_distinct, KeyedList};
use crate::text::same_text;

verus! {

// ---------------------------------------------------------------------------
// Answers written to the subprocess
// ---------------------------------------------------------------------------

/// The envelope of every answer to a control request.
pub open spec fn control_response_view(request_id: Seq<char>, inner: JsonView) -> JsonView {
    JsonView::Object(
        seq![
            ("type"@, JsonView::Str("control_response"@)),
            (
                "response"@,
                JsonView::Object(
                    seq![
                        ("subtype"@, JsonView::Str("success"@)),
                        ("request_id"@, JsonView::Str(request_id)),
                        ("response"@, inner),
                    ],
                ),
            ),
        ],
    )
}

/// An answer that lets the tool run with `input`.
pub open spec fn allow_view(input: JsonView) -> JsonView {
    JsonView::Object(seq![("behavior"@, JsonView::Str("allow"@)), ("updatedInput"@, input)])
}

/// The answer to a permission request: allowed, the tool runs with its
/// original input unchanged; denied, the turn is interrupted.
pub open spec fn permission_decision_view(granted: bool, input: JsonView) -> JsonView {
    if granted {
        allow_view(input)
    } else {
        JsonView::Object(
            seq![
                ("behavior"@, JsonView::Str("deny"@)),
                ("message"@, JsonView::Str("User denied permission"@)),
                ("interrupt"@, JsonView::Bool(true)),
            ],
        )
    }
}

/// The members of an object other than those under `key`, in order.
pub open spec fn without_key(ms: Seq<(Seq<char>, JsonView)>, key: Seq<char>) -> Seq<(Seq<char>, JsonView)>
    decreases ms.len(),
{
    if ms.len() == 0 {
        Seq::empty()
    } else {
        let rest = without_key(ms.drop_last(), key);
        if ms.last().0 == key {
            rest
        } else {
            rest.push(ms.last())
        }
    }
}

/// The answers as a JSON object: each question with its answer.
pub open spec fn answers_view(answers: Seq<(String, String)>) -> JsonView {
    JsonView::Object(answers.map_values(|p: (String, String)| (p.0@, JsonView::Str(p.1@))))
}

/// The question's input with the answers set under `answers`; an input
/// that is not an object is left as it is.
pub open spec fn answered_input(input: JsonView, answers: JsonView) -> JsonView {
    match input {
        JsonView::Object(ms) => JsonView::Object(without_key(ms, "answers"@).push(("answers"@, answers))),
        other => other,
    }
}

proof fn lemma_members_push(entries: Seq<(String, JsonValue)>, e: (String, JsonValue))
    ensures
        members_view(entries.push(e)) == members_view(entries).push((e.0@, json_view(e.1))),
{
    assert(entries.push(e).drop_last() =~= entries);
}

fn push_member(entries: &mut Vec<(String, JsonValue)>, key: &str, value: JsonValue)
    ensures
        members_view(final(entries)@) == members_view(old(entries)@).push((key@, json_view(value))),
{
    let k = key.to_owned();
    proof {
        lemma_members_push(entries@, (k, value));
    }
    entries.push((k, value));
}

fn text_value(s: &str) -> (r: JsonValue)
    ensures
        json_view(r) == JsonView::Str(s@),
{
    JsonValue::Str(s.to_owned())
}

fn control_response(request_id: &str, inner: JsonValue) -> (r: JsonValue)
    ensures
        json_view(r) == control_response_view(request_id@, json_view(inner)),
{
    let mut body: Vec<(String, JsonValue)> = Vec::new();
    push_member(&mut body, "subtype", text_value("success"));
    push_member(&mut body, "request_id", text_value(request_id));
    push_member(&mut body, "response", inner);
    let mut outer: Vec<(String, JsonValue)> = Vec::new();
    push_member(&mut outer, "type", text_value("control_response"));
    let ghost bv = members_view(body@);
    push_member(&mut outer, "response", JsonValue::Object(body));
    assert(members_view(outer@) =~= control_response_view(request_id@, json_view(inner))->Object_0) by {
        assert(bv =~= seq![
            ("subtype"@, JsonView::Str("success"@)),
            ("request_id"@, JsonView::Str(request_id@)),
            ("response"@, json_view(inner)),
        ]);
    }
    JsonValue::Object(outer)
}

/// The answer to a permission request: `granted` lets the tool run with
/// its original input, else the turn is interrupted.
pub fn permission_response(request_id: &str, granted: bool, original_input: JsonValue) -> (r: JsonValue)
    ensures
        json_view(r) == control_response_view(request_id@, permission_decision_view(granted, json_view(original_input))),
{
    let mut inner: Vec<(String, JsonValue)> = Vec::new();
    if granted {
        push_member(&mut inner, "behavior", text_value("allow"));
        push_member(&mut inner, "updatedInput", original_input);
        assert(members_view(inner@) =~= allow_view(json_view(original_input))->Object_0);
    } else {
        push_member(&mut inner, "behavior", text_value("deny"));
        push_member(&mut inner, "message", text_value("User denied permission"));
        push_member(&mut inner, "interrupt", JsonValue::Bool(true));
        assert(members_view(inner@) =~= permission_decision_view(false, json_view(original_input))->Object_0);
    }
    control_response(request_id, JsonValue::Object(inner))
}

fn answers_object(answers: &Vec<(String, String)>) -> (r: JsonValue)
    ensures
        json_view(r) == answers_view(answers@),
{
    let mut ms: Vec<(String, JsonValue)> = Vec::new();
    let mut i: usize = 0;
    while i < answers.len()
        invariant
            i <= answers.len(),
            members_view(ms@) == answers@.take(i as int).map_values(
                |p: (String, String)| (p.0@, JsonView::Str(p.1@)),
            ),
        decreases answers.len() - i,
    {
        let ghost before = members_view(ms@);
        push_member(&mut ms, answers[i].0.as_str(), text_value(answers[i].1.as_str()));
        assert(members_view(ms@) =~= answers@.take(i as int + 1).map_values(
            |p: (String, String)| (p.0@, JsonView::Str(p.1@)),
        )) by {
            assert(members_view(ms@) == before.push((answers@[i as int].0@, JsonView::Str(answers@[i as int].1@))));
        }
        i = i + 1;
    }
    assert(answers@.take(i as int) =~= answers@);
    JsonValue::Object(ms)
}

fn with_answers(input: JsonValue, answers: JsonValue) -> (r: JsonValue)
    ensures
        json_view(r) == answered_input(json_view(input), json_view(answers)),
{
    match input {
        JsonValue::Object(ms) => {
            let ghost mv = members_view(ms@);
            let mut kept: Vec<(String, JsonValue)> = Vec::new();
            let mut i: usize = 0;
            while i < ms.len()
                invariant
                    i <= ms.len(),
                    mv == members_view(ms@),
                    members_view(kept@) == without_key(mv.take(i as int), "answers"@),
                decreases ms.len() - i,
            {
                proof {
                    lemma_members_view_take(ms@, i as int + 1);
                    lemma_members_view_take(ms@, i as int);
                    assert(mv.take(i as int + 1).drop_last() =~= mv.take(i as int));
                }
                if !same_text(ms[i].0.as_str(), "answers") {
                    let v = ms[i].1.duplicate();
                    push_member(&mut kept, ms[i].0.as_str(), v);
                }
                i = i + 1;
            }
            proof {
                lemma_members_view_take(ms@, i as int);
            }
            assert(mv.take(i as int) =~= mv);
            push_member(&mut kept, "answers", answers);
            JsonValue::Object(kept)
        },
        other => other,
    }
}

proof fn lemma_members_view_take(ms: Seq<(String, JsonValue)>, i: int)
    requires
        0 <= i <= ms.len(),
    ensures
        members_view(ms).take(i) == members_view(ms.take(i)),
        i < ms.len() ==> members_view(ms)[i] == (ms[i].0@, json_view(ms[i].1)),
        members_view(ms).len() == ms.len(),
    decreases ms.len(),
{
    if ms.len() == 0 {
        assert(members_view(ms).take(i) =~= members_view(ms.take(i)));
    } else if i == ms.len() {
        assert(ms.take(i) =~= ms);
        lemma_members_view_take(ms.drop_last(), i - 1);
        assert(members_view(ms).take(i) =~= members_view(ms));
    } else {
        lemma_members_view_take(ms.drop_last(), i);
        assert(ms.drop_last().take(i) =~= ms.take(i));
        assert(members_view(ms).take(i) =~= members_view(ms.drop_last()).take(i));
        if i < ms.len() - 1 {
            assert(ms.drop_last()[i] == ms[i]);
        }
    }
}

/// The answer to a question: the tool runs with its original input plus
/// the answers.
pub fn question_response(request_id: &str, answers: &Vec<(String, String)>, original_input: JsonValue) -> (r: JsonValue)
    ensures
        json_view(r) == control_response_view(
            request_id@,
            allow_view(answered_input(json_view(original_input), answers_view(answers@))),
        ),
{
    let a = answers_object(answers);
    let updated = with_answers(original_input, a);
    let mut inner: Vec<(String, JsonValue)> = Vec::new();
    push_member(&mut inner, "behavior", text_value("allow"));
    let ghost uv = json_view(updated);
    push_member(&mut inner, "updatedInput", updated);
    assert(members_view(inner@) =~= allow_view(uv)->Object_0);
    control_response(request_id, JsonValue::Object(inner))
}

/// The line written to the subprocess for a user's message; an agent ID is
/// added when one is given and it is not empty.
pub open spec fn user_message_view(content: Seq<char>, agent_id: Option<Seq<char>>) -> JsonView {
    let base = seq![
        ("type"@, JsonView::Str("user"@)),
        ("message"@, JsonView::Object(seq![("role"@, JsonView::Str("user"@)), ("content"@, JsonView::Str(content))])),
        ("session_id"@, JsonView::Str("default"@)),
        ("parent_tool_use_id"@, JsonView::Null),
    ];
    match agent_id {
        Some(a) => if a.len() > 0 {
            JsonView::Object(base.push(("agent_id"@, JsonView::Str(a))))
        } else {
            JsonView::Object(base)
        },
        None => JsonView::Object(base),
    }
}

/// Writes a user's message as the subprocess reads it.
pub fn user_message_line(content: &str, agent_id: Option<&str>) -> (r: JsonValue)
    ensures
        json_view(r) == user_message_view(
            content@,
            match agent_id {
                Some(a) => Some(a@),
                None => None,
            },
        ),
{
    let mut message: Vec<(String, JsonValue)> = Vec::new();
    push_member(&mut message, "role", text_value("user"));
    push_member(&mut message, "content", text_value(content));
    let ghost mv = members_view(message@);
    let mut ms: Vec<(String, JsonValue)> = Vec::new();
    push_member(&mut ms, "type", text_value("user"));
    push_member(&mut ms, "message", JsonValue::Object(message));
    push_member(&mut ms, "session_id", text_value("default"));
    push_member(&mut ms, "parent_tool_use_id", JsonValue::Null);
    let ghost base = members_view(ms@);
    assert(mv =~= seq![("role"@, JsonView::Str("user"@)), ("content"@, JsonView::Str(content@))]);
    match agent_id {
        Some(a) => {
            if !a.is_empty() {
                push_member(&mut ms, "agent_id", text_value(a));
            }
        },
        None => {},
    }
    assert(members_view(ms@) =~= user_message_view(
        content@,
        match agent_id {
            Some(a) => Some(a@),
            None => None,
        },
    )->Object_0);
    JsonValue::Object(ms)
}

/// The kind under which an event is stored for replay.
pub open spec fn stored_type(k: EventView) -> Seq<char> {
    match k {
        EventView::ToolCallResult { .. } | EventView::Usage { .. } | EventView::TurnComplete { .. } => "result"@,
        EventView::PermissionRequest { .. } | EventView::UserQuestion { .. } => "control_request"@,
        EventView::SessionInfo { .. } => "system"@,
        EventView::UserInput { .. } => "user"@,
        _ => "stream_event"@,
    }
}

/// The kind under which an event is stored for replay.
pub fn event_message_type(kind: &AgentEventKind) -> (r: &'static str)
    ensures
        r@ == stored_type(kind@),
{
    match kind {
        AgentEventKind::ToolCallResult { .. } | AgentEventKind::Usage { .. } | AgentEventKind::TurnComplete {
            ..
        } => "result",
        AgentEventKind::PermissionRequest { .. } | AgentEventKind::UserQuestion { .. } => "control_request",
        AgentEventKind::SessionInfo(_) => "system",
        AgentEventKind::UserInput { .. } => "user",
        _ => "stream_event",
    }
}

/// The event that records a user's message under `sequence`.
pub fn user_input_event(sequence: u64, content: &str) -> (r: AgentEvent)
    ensures
        r.sequence == sequence,
        r.kind@ == (EventView::UserInput { content: content@ }),
{
    AgentEvent { sequence, kind: AgentEventKind::UserInput { content: content.to_owned() } }
}

// ---------------------------------------------------------------------------
// Requests waiting for the user, and standing grants
// ---------------------------------------------------------------------------

/// A permission request waiting for the user's decision.
#[derive(Debug)]
pub struct PendingPermission {
    /// The tool's input, handed back when the tool is allowed.
    pub input: JsonValue,
    pub tool_name: String,
}

/// A user's decision on a permission request.
#[derive(Clone, Copy, Debug, PartialEq, Eq, Structural)]
pub enum PermissionDecision {
    Unspecified,
    AllowOnce,
    AllowSession,
    Deny,
    AllowWithEdit,
}

/// Whether a decision lets the tool run.
pub open spec fn allows(d: PermissionDecision) -> bool {
    d == PermissionDecision::AllowOnce || d == PermissionDecision::AllowSession || d
        == PermissionDecision::AllowWithEdit
}

/// The input held under `id`, or the empty object when none is.
pub open spec fn held_input(m: Map<Seq<char>, JsonValue>, id: Seq<char>) -> JsonView {
    if m.dom().contains(id) {
        json_view(m[id])
    } else {
        JsonView::Object(Seq::empty())
    }
}

/// The input of the permission request held under `id`, or the empty
/// object when none is.
pub open spec fn held_permission_input(m: Map<Seq<char>, PendingPermission>, id: Seq<char>) -> JsonView {
    if m.dom().contains(id) {
        json_view(m[id].input)
    } else {
        JsonView::Object(Seq::empty())
    }
}

/// The relay after the user's decision on the request held under
/// `request_id`: the request is no longer held, and allowing it for the
/// session records a standing grant for its tool.
pub open spec fn after_decision(v: RelayView, request_id: Seq<char>, decision: PermissionDecision) -> RelayView {
    RelayView {
        permissions: v.permissions.remove(request_id),
        grants: if v.permissions.dom().contains(request_id) && decision == PermissionDecision::AllowSession {
            v.grants.insert(v.permissions[request_id].tool_name@, true)
        } else {
            v.grants
        },
        ..v
    }
}

/// What the relay of one session holds.
pub struct RelayView {
    /// Permission requests waiting for the user, by request ID.
    pub permissions: Map<Seq<char>, PendingPermission>,
    /// Inputs of questions waiting for the user, by question ID.
    pub questions: Map<Seq<char>, JsonValue>,
    /// Standing decisions for the rest of the session, by tool name.
    pub grants: Map<Seq<char>, bool>,
}

/// The requests of one session that wait for the user, and the session's
/// standing permission grants.
#[derive(Debug)]
pub struct RelayState {
    permissions: KeyedList<PendingPermission>,
    questions: KeyedList<JsonValue>,
    grants: KeyedList<bool>,
}

impl View for RelayState {
    type V = RelayView;

    closed spec fn view(&self) -> RelayView {
        RelayView { permissions: self.permissions.map(), questions: self.questions.map(), grants: self.grants.map() }
    }
}

impl RelayState {
    /// The internal consistency of the state.
    pub closed spec fn wf(&self) -> bool {
        &&& self.permissions.wf()
        &&& self.questions.wf()
        &&& self.grants.wf()
    }

    /// Nothing waiting and no grants.
    pub fn new() -> (r: Self)
        ensures
            r.wf(),
            r@ == (RelayView { permissions: Map::empty(), questions: Map::empty(), grants: Map::empty() }),
    {
        RelayState { permissions: KeyedList::new(), questions: KeyedList::new(), grants: KeyedList::new() }
    }

    /// Records a standing decision for a tool.
    pub fn set_grant(&mut self, tool_name: String, granted: bool)
        requires
            old(self).wf(),
        ensures
            final(self).wf(),
            final(self)@ == (RelayView { grants: old(self)@.grants.insert(tool_name@, granted), ..old(self)@ }),
    {
        self.grants.insert(tool_name, granted);
    }

    /// Clears the standing decision for a tool, or all of them when
    /// `tool_name` is empty.
    pub fn clear_grants(&mut self, tool_name: &str)
        requires
            old(self).wf(),
        ensures
            final(self).wf(),
            final(self)@ == (RelayView {
                grants: if tool_name@.len() == 0 {
                    Map::empty()
                } else {
                    old(self)@.grants.remove(tool_name@)
                },
                ..old(self)@
            }),
    {
        if tool_name.is_empty() {
            self.grants = KeyedList::new();
        } else {
            let _ = self.grants.take(tool_name);
        }
    }

    /// The standing decisions, each tool once.
    pub fn list_grants(&self) -> (r: Vec<(String, bool)>)
        requires
            self.wf(),
        ensures
            keys_distinct(r@),
            entries_map(r@) == self@.grants,
    {
        self.grants.pairs()
    }

    /// Holds the input of a question until the user answers it.
    pub fn hold_question(&mut self, question_id: String, input: JsonValue)
        requires
            old(self).wf(),
        ensures
            final(self).wf(),
            final(self)@ == (RelayView { questions: old(self)@.questions.insert(question_id@, input), ..old(self)@ }),
    {
        self.questions.insert(question_id, input);
    }

    /// Answers a question: the held input (the empty object when none is
    /// held) with the answers set, and the question is no longer held.
    pub fn answer_question(&mut self, question_id: &str, answers: &Vec<(String, String)>) -> (r: JsonValue)
        requires
            old(self).wf(),
        ensures
            final(self).wf(),
            final(self)@ == (RelayView { questions: old(self)@.questions.remove(question_id@), ..old(self)@ }),
            json_view(r) == control_response_view(
                question_id@,
                allow_view(
                    answered_input(held_input(old(self)@.questions, question_id@), answers_view(answers@)),
                ),
            ),
    {
        let input = match self.questions.take(question_id) {
            Some(v) => v,
            None => JsonValue::Object(Vec::new()),
        };
        question_response(question_id, answers, input)
    }

    /// A permission request from the subprocess: answered at once when the
    /// session has a standing decision for the tool (the answer is given
    /// back and nothing is held), else held for the user (and `None`).
    pub fn route_permission(&mut self, request_id: String, tool_name: String, input: JsonValue) -> (r: Option<
        JsonValue,
    >)
        requires
            old(self).wf(),
        ensures
            final(self).wf(),
            old(self)@.grants.dom().contains(tool_name@) ==> {
                &&& final(self)@ == old(self)@
                &&& r matches Some(a) && json_view(a) == control_response_view(
                    request_id@,
                    permission_decision_view(old(self)@.grants[tool_name@], json_view(input)),
                )
            },
            !old(self)@.grants.dom().contains(tool_name@) ==> {
                &&& r is None
                &&& final(self)@ == (RelayView {
                    permissions: old(self)@.permissions.insert(
                        request_id@,
                        PendingPermission { input, tool_name },
                    ),
                    ..old(self)@
                })
            },
    {
        match self.grants.get(tool_name.as_str()) {
            Some(g) => {
                let granted = *g;
                Some(permission_response(request_id.as_str(), granted, input))
            },
            None => {
                self.permissions.insert(request_id, PendingPermission { input, tool_name });
                None
            },
        }
    }

    /// The user's decision on a permission request: whether the tool may
    /// run, and the request's input (the empty object when none is held).
    /// The request is no longer held; allowing it for the session also
    /// records a standing grant for its tool.
    pub fn process_permission_response(&mut self, request_id: &str, decision: PermissionDecision) -> (r: (
        bool,
        JsonValue,
    ))
        requires
            old(self).wf(),
        ensures
            final(self).wf(),
            r.0 == allows(decision),
            final(self)@ == after_decision(old(self)@, request_id@, decision),
            final(self)@.permissions == old(self)@.permissions.remove(request_id@),
            final(self)@.questions == old(self)@.questions,
            old(self)@.permissions.dom().contains(request_id@) ==> {
                let p = old(self)@.permissions[request_id@];
                &&& r.1 == p.input
                &&& final(self)@.grants == if decision == PermissionDecision::AllowSession {
                    old(self)@.grants.insert(p.tool_name@, true)
                } else {
                    old(self)@.grants
                }
            },
            json_view(r.1) == held_permission_input(old(self)@.permissions, request_id@),
            !old(self)@.permissions.dom().contains(request_id@) ==> final(self)@.grants == old(self)@.grants,
    {
        let granted = decision == PermissionDecision::AllowOnce || decision == PermissionDecision::AllowSession
            || decision == PermissionDecision::AllowWithEdit;
        match self.permissions.take(request_id) {
            Some(p) => {
                if decision == PermissionDecision::AllowSession {
                    self.grants.insert(p.tool_name, true);
                }
                (granted, p.input)
            },
            None => (granted, JsonValue::Object(Vec::new())),
        }
    }

    /// Answers a held permission request as the service decided
    /// (`granted`): the held input (the empty object when none is held) is
    /// handed back, the request is no longer held, and no grant is recorded.
    pub fn answer_held_permission(&mut self, request_id: &str, granted: bool) -> (r: JsonValue)
        requires
            old(self).wf(),
        ensures
            final(self).wf(),
            final(self)@ == (RelayView { permissions: old(self)@.permissions.remove(request_id@), ..old(self)@ }),
            json_view(r) == control_response_view(
                request_id@,
                permission_decision_view(granted, held_permission_input(old(self)@.permissions, request_id@)),
            ),
    {
        let input = match self.permissions.take(request_id) {
            Some(p) => p.input,
            None => JsonValue::Object(Vec::new()),
        };
        permission_response(request_id, granted, input)
    }

    /// Answers a permission request with the user's decision (see
    /// `process_permission_response`).
    pub fn answer_permission(&mut self, request_id: &str, decision: PermissionDecision) -> (r: JsonValue)
        requires
            old(self).wf(),
        ensures
            final(self).wf(),
            final(self)@.permissions == old(self)@.permissions.remove(request_id@),
            json_view(r) == control_response_view(
                request_id@,
                permission_decision_view(allows(decision), held_permission_input(old(self)@.permissions, request_id@)),
            ),
    {
        let (granted, input) = self.process_permission_response(request_id, decision);
        permission_response(request_id, granted, input)
    }
}

/// Allowing a request for the session makes a standing grant for its
/// tool: every later request for that tool is answered at once, allowed
/// (see `route_permission`), and the request itself is no longer held.
pub proof fn law_session_grant_answers_later(v: RelayView, request_id: Seq<char>)
    requires
        v.permissions.dom().contains(request_id),
    ensures
        ({
            let after = after_decision(v, request_id, PermissionDecision::AllowSession);
            let tool = v.permissions[request_id].tool_name@;
            &&& after.grants.dom().contains(tool)
            &&& after.grants[tool]
            &&& !after.permissions.dom().contains(request_id)
        }),
{
}

/// Only allowing for the session records a grant: any other decision
/// leaves the standing grants as they were.
pub proof fn law_other_decisions_grant_nothing(v: RelayView, request_id: Seq<char>, decision: PermissionDecision)
    requires
        decision != PermissionDecision::AllowSession,
    ensures
        after_decision(v, request_id, decision).grants == v.grants,
{
}

// ---------------------------------------------------------------------------
// The lines of the subprocess
// ---------------------------------------------------------------------------

/// How the stored session ID of the agent changes after a line.
#[derive(Debug)]
pub enum SessionIdUpdate {
    /// The agent has not said which session it runs.
    Keep,
    /// A session error was seen: the agent's session cannot be resumed, so
    /// the stored ID is cleared.
    Clear,
    /// The agent's session ID, to store for later resumption.
    Store(String),
}

/// What the relay does after one line of the subprocess.
#[derive(Debug)]
pub struct LineOutcome {
    /// Answers to write to the subprocess first, before the events.
    pub replies: Vec<JsonValue>,
    /// The line's events, in order; each is stored.
    pub events: Vec<AgentEvent>,
    /// For each event, whether it goes to the client: a permission request
    /// answered from a standing grant is stored only.
    pub forwarded: Vec<bool>,
    /// Input and output tokens of each usage report among the forwarded
    /// events.
    pub usage_reports: Vec<(u32, u32)>,
    pub session_id_update: SessionIdUpdate,
}

/// The stdout pipeline of a session as the specifications see it.
pub struct PipelineView {
    pub bridge: BridgeView,
    /// The events forwarded so far.
    pub event_count: u64,
    /// Whether a session error has been seen.
    pub had_session_error: bool,
}

/// Turns the lines of a session's subprocess into events, answers and
/// updates.
#[derive(Debug)]
pub struct StdoutPipeline {
    bridge: EventBridge,
    agent_label: String,
    event_count: u64,
    had_session_error: bool,
}

impl View for StdoutPipeline {
    type V = PipelineView;

    closed spec fn view(&self) -> PipelineView {
        PipelineView { bridge: self.bridge@, event_count: self.event_count, had_session_error: self.had_session_error }
    }
}

/// A fresh bridge that numbers after `sequence`.
pub open spec fn fresh_bridge(sequence: u64, label: Seq<char>) -> BridgeView {
    BridgeView {
        sequence,
        agent_label: label,
        pending_tools: Map::empty(),
        session: None,
        question_inputs: Map::empty(),
        permission_inputs: Map::empty(),
    }
}

/// The bridge a line is read with: when the user's input has been
/// numbered past the bridge (`latest` is the last number given out), a
/// fresh bridge that numbers after it.
pub open spec fn restarted(b: BridgeView, latest: u64) -> BridgeView {
    if latest > b.sequence {
        fresh_bridge(latest, b.agent_label)
    } else {
        b
    }
}

/// Whether a line can be numbered without running out of numbers.
pub open spec fn line_fits(v: PipelineView, msg: Message, latest: u64) -> bool {
    restarted(v.bridge, latest).sequence + message_weight(msg) <= u64::MAX
}

/// The permission request a message makes, if it makes one: its ID, tool
/// name and input (a question is not a permission request).
pub open spec fn permission_request_of(msg: Message) -> Option<(Seq<char>, Seq<char>, JsonValue)> {
    match msg {
        Message::ControlRequest(req) => match req.request {
            ControlRequestType::CanUseTool { tool_name, input } => if tool_name@ == "AskUserQuestion"@ {
                None
            } else {
                Some((req.request_id@, tool_name@, input))
            },
            _ => None,
        },
        _ => None,
    }
}

/// The question a message asks, if it asks one: its ID and input.
pub open spec fn question_of(msg: Message) -> Option<(Seq<char>, JsonValue)> {
    match msg {
        Message::ControlRequest(req) => match req.request {
            ControlRequestType::CanUseTool { tool_name, input } => if tool_name@ == "AskUserQuestion"@ {
                Some((req.request_id@, input))
            } else {
                None
            },
            _ => None,
        },
        _ => None,
    }
}

/// Whether a message's permission request is answered from a standing
/// grant.
pub open spec fn answered_by_grant(msg: Message, grants: Map<Seq<char>, bool>) -> bool {
    match permission_request_of(msg) {
        Some((_, tool, _)) => grants.dom().contains(tool),
        None => false,
    }
}

/// The bridge after a line: the message read with the restarted bridge,
/// its events numbered, and the input of its question or permission
/// request handed over to the relay.
pub open spec fn bridge_after_line(b: BridgeView, msg: Message, latest: u64) -> BridgeView {
    let b0 = restarted(b, latest);
    let b1 = state_after(b0, msg);
    let n = message_events(b0.agent_label, msg).len();
    BridgeView {
        sequence: (b0.sequence + n) as u64,
        question_inputs: match question_of(msg) {
            Some((id, _)) => b1.question_inputs.remove(id),
            None => b1.question_inputs,
        },
        permission_inputs: match permission_request_of(msg) {
            Some((id, _, _)) => b1.permission_inputs.remove(id),
            None => b1.permission_inputs,
        },
        ..b1
    }
}

/// The relay after a line: a question is held for the user, and so is a
/// permission request that no standing grant answers.
pub open spec fn relay_after_line(r: RelayView, msg: Message) -> RelayView {
    match question_of(msg) {
        Some((id, input)) => RelayView { questions: r.questions.insert(id, input), ..r },
        None => match permission_request_of(msg) {
            Some((id, tool, input)) => if r.grants.dom().contains(tool) {
                r
            } else {
                RelayView {
                    permissions: r.permissions.insert(
                        id,
                        PendingPermission { input, tool_name: choose|t: String| t@ == tool },
                    ),
                    ..r
                }
            },
            None => r,
        },
    }
}

/// Whether a message reports a session error.
pub open spec fn reports_session_error(msg: Message) -> bool {
    match msg {
        Message::Result(r) => has_real_error(r),
        _ => false,
    }
}

/// The usage a message reports: input and output tokens.
pub open spec fn usage_of(msg: Message) -> Seq<(u32, u32)> {
    match msg {
        Message::Result(r) => seq![(r.usage.input_tokens, r.usage.output_tokens)],
        _ => Seq::empty(),
    }
}

/// Event numbers never go back: after a line, the last number given out is
/// at least the bridge's earlier one and at least the last number given to
/// the user's input, and the line's events take the numbers right after the
/// larger of the two.
pub proof fn law_sequence_never_decreases(b: BridgeView, msg: Message, latest: u64)
    requires
        restarted(b, latest).sequence + message_weight(msg) <= u64::MAX,
    ensures
        bridge_after_line(b, msg, latest).sequence >= b.sequence,
        bridge_after_line(b, msg, latest).sequence >= latest,
        bridge_after_line(b, msg, latest).sequence == (if latest > b.sequence {
            latest
        } else {
            b.sequence
        }) + message_events(b.agent_label, msg).len(),
{
    lemma_events_within_weight(b.agent_label, msg);
}

/// A permission request for a tool with no standing decision is not
/// answered: it is held under its ID with the tool's name and the input it
/// came with, and the standing grants stay as they were.
pub proof fn law_ungranted_request_is_held(r: RelayView, msg: Message)
    requires
        permission_request_of(msg) is Some,
        !r.grants.dom().contains(permission_request_of(msg).unwrap().1),
    ensures
        ({
            let (id, tool, input) = permission_request_of(msg).unwrap();
            let after = relay_after_line(r, msg);
            &&& !answered_by_grant(msg, r.grants)
            &&& after.permissions.dom().contains(id)
            &&& after.permissions[id].input == input
            &&& after.permissions[id].tool_name@ == tool
            &&& after.grants == r.grants
            &&& after.questions == r.questions
        }),
{
    if let Message::ControlRequest(req) = msg {
        if let ControlRequestType::CanUseTool { tool_name, input } = req.request {
            assert(exists|t: String| t@ == tool_name@);
        }
    }
}

impl StdoutPipeline {
    /// The internal consistency of the pipeline.
    pub closed spec fn wf(&self) -> bool {
        &&& self.bridge.wf()
        &&& self.bridge@.agent_label == self.agent_label@
        &&& self.event_count <= self.bridge@.sequence
    }

    /// A pipeline whose first event is numbered after `start_sequence`;
    /// `agent_label` names the agent in messages.
    pub fn new(start_sequence: u64, agent_label: String) -> (r: Self)
        ensures
            r.wf(),
            r@ == (PipelineView {
                bridge: fresh_bridge(start_sequence, agent_label@),
                event_count: 0,
                had_session_error: false,
            }),
    {
        let bridge = EventBridge::with_start_sequence(start_sequence, agent_label.clone());
        StdoutPipeline { bridge, agent_label, event_count: 0, had_session_error: false }
    }

    /// The number of the last event given out.
    pub fn sequence(&self) -> (r: u64)
        ensures
            r == self@.bridge.sequence,
    {
        self.bridge.sequence()
    }

    /// Whether a line can be numbered without running out of numbers.
    pub fn accepts(&self, msg: &Message, latest_seq: u64) -> (r: bool)
        requires
            self.wf(),
        ensures
            r == line_fits(self@, *msg, latest_seq),
    {
        let start = if latest_seq > self.bridge.sequence() {
            latest_seq
        } else {
            self.bridge.sequence()
        };
        start as u128 + message_weight_of(msg) <= u64::MAX as u128
    }

    /// Handles one line of the subprocess, read as `msg`; `latest_seq` is
    /// the last number given out to the session's events, the user's input
    /// included.
    pub fn on_line(&mut self, msg: Message, latest_seq: u64, relay: &mut RelayState) -> (r: LineOutcome)
        requires
            old(self).wf(),
            old(relay).wf(),
            line_fits(old(self)@, msg, latest_seq),
        ensures
            final(self).wf(),
            final(relay).wf(),
            ({
                let b0 = restarted(old(self)@.bridge, latest_seq);
                let ks = message_events(b0.agent_label, msg);
                let auto = answered_by_grant(msg, old(relay)@.grants);
                let had = old(self)@.had_session_error || reports_session_error(msg);
                &&& r.events@.len() == ks.len()
                &&& forall|i: int|
                    0 <= i < ks.len() ==> (#[trigger] r.events@[i]).sequence == b0.sequence + i + 1
                        && r.events@[i].kind@ == ks[i]
                &&& r.forwarded@.len() == ks.len()
                &&& forall|i: int| 0 <= i < ks.len() ==> #[trigger] r.forwarded@[i] == !auto
                &&& (auto ==> ks.len() == 1)
                &&& r.replies@.len() == (if auto {
                    1int
                } else {
                    0
                })
                &&& (auto ==> match permission_request_of(msg) {
                    Some((id, tool, input)) => json_view(r.replies@[0]) == control_response_view(
                        id,
                        permission_decision_view(old(relay)@.grants[tool], json_view(input)),
                    ),
                    None => false,
                })
                &&& r.usage_reports@ == usage_of(msg)
                &&& final(self)@.bridge == bridge_after_line(old(self)@.bridge, msg, latest_seq)
                &&& final(self)@.event_count == old(self)@.event_count + ks.len() - (if auto {
                    1int
                } else {
                    0
                })
                &&& final(self)@.had_session_error == had
                &&& match final(self)@.bridge.session {
                    Some(info) => if had {
                        r.session_id_update is Clear
                    } else {
                        r.session_id_update matches SessionIdUpdate::Store(id) && id@ == info.session_id@
                    },
                    None => r.session_id_update is Keep,
                }
                &&& final(relay)@.grants == old(relay)@.grants
                &&& final(relay)@.questions == relay_after_line(old(relay)@, msg).questions
                &&& final(relay)@.permissions.dom() == relay_after_line(old(relay)@, msg).permissions.dom()
                &&& forall|k: Seq<char>|
                    #![trigger final(relay)@.permissions[k]]
                    final(relay)@.permissions.dom().contains(k) ==> final(relay)@.permissions[k].input
                        == relay_after_line(old(relay)@, msg).permissions[k].input
                        && final(relay)@.permissions[k].tool_name@ == relay_after_line(
                        old(relay)@,
                        msg,
                    ).permissions[k].tool_name@
            }),
    {
        if latest_seq > self.bridge.sequence() {
            self.bridge = EventBridge::with_start_sequence(latest_seq, self.agent_label.clone());
        }
        let ghost b0 = self.bridge@;
        let ghost m0 = msg;
        proof {
            lemma_events_within_weight(b0.agent_label, msg);
        }
        let control: Option<(String, String, bool)> = match &msg {
            Message::ControlRequest(req) => match &req.request {
                ControlRequestType::CanUseTool { tool_name, .. } => Some(
                    (req.request_id.clone(), tool_name.clone(), same_text(tool_name.as_str(), "AskUserQuestion")),
                ),
                _ => None,
            },
            _ => None,
        };
        let session_error = match &msg {
            Message::Result(res) => res.is_error && (!matches!(res.subtype, crate::bridge::ResultSubtype::Success)
                || res.errors.len() > 0),
            _ => false,
        };
        let mut usage_reports: Vec<(u32, u32)> = Vec::new();
        match &msg {
            Message::Result(res) => usage_reports.push((res.usage.input_tokens, res.usage.output_tokens)),
            _ => {},
        }
        assert(usage_reports@ =~= usage_of(m0));
        let events = self.bridge.convert(msg);
        let mut replies: Vec<JsonValue> = Vec::new();
        let mut auto = false;
        match control {
            Some((rid, tool, is_question)) => {
                if is_question {
                    match self.bridge.take_question_input(rid.as_str()) {
                        Some(input) => relay.hold_question(rid, input),
                        None => {},
                    }
                } else {
                    match self.bridge.take_permission_input(rid.as_str()) {
                        Some(input) => match relay.route_permission(rid, tool, input) {
                            Some(a) => {
                                replies.push(a);
                                auto = true;
                            },
                            None => {},
                        },
                        None => {},
                    }
                }
            },
            None => {},
        }
        let n = events.len();
        let mut forwarded: Vec<bool> = Vec::new();
        let mut i: usize = 0;
        while i < n
            invariant
                i <= n,
                forwarded@.len() == i,
                forall|j: int| 0 <= j < i ==> #[trigger] forwarded@[j] == !auto,
            decreases n - i,
        {
            forwarded.push(!auto);
            i = i + 1;
        }
        let sent: u64 = if auto {
            (n - 1) as u64
        } else {
            n as u64
        };
        self.event_count = self.event_count + sent;
        self.had_session_error = self.had_session_error || session_error;
        let session_id_update = match self.bridge.session_info() {
            Some(info) => if self.had_session_error {
                SessionIdUpdate::Clear
            } else {
                SessionIdUpdate::Store(info.session_id.clone())
            },
            None => SessionIdUpdate::Keep,
        };
        LineOutcome { replies, events, forwarded, usage_reports, session_id_update }
    }

    /// Whether any event has been forwarded.
    pub fn event_count(&self) -> (r: u64)
        ensures
            r == self@.event_count,
    {
        self.event_count
    }

    /// The event sent to the client when the subprocess has ended: an
    /// error when it produced no event at all, so that the client does not
    /// wait for ever.
    pub fn finish(&self) -> (r: Option<AgentEvent>)
        requires
            self.wf(),
        ensures
            self@.event_count == 0 ==> (r matches Some(e) && e.sequence == 0 && e.kind@ == (EventView::Error {
                code: "subprocess_failed"@,
                message: self@.bridge.agent_label
                    + " subprocess exited without producing output. Check daemon logs for stderr details."@,
                is_fatal: true,
            })),
            self@.event_count != 0 ==> r is None,
    {
        if self.event_count == 0 {
            let mut message = self.agent_label.clone();
            message.append(" subprocess exited without producing output. Check daemon logs for stderr details.");
            Some(
                AgentEvent {
                    sequence: 0,
                    kind: AgentEventKind::Error { code: "subprocess_failed".to_owned(), message, is_fatal: true },
                },
            )
        } else {
            None
        }
    }
}

} // verus!
