//! The decisions of the agent service: where each client request goes,
//! how a conversation starts, how a session is compacted, and the
//! statuses the service answers with.
use vstd::prelude::*;

use crate::relay::PermissionDecision;
use crate::rpc::{RpcCode, RpcStatus};
use crate::subprocess::RelaySessionConfig;

verus! {

/// A request to start (or rejoin) a conversation.
#[derive(Debug, Clone)]
pub struct StartConversation {
    pub session_id: String,
    /// Empty: the default model.
    pub model: String,
    pub working_directory: String,
    pub worktree_id: String,
}

/// One request of a client's conversation stream.
#[derive(Debug)]
pub enum ClientRequest {
    Start(StartConversation),
    Message { content: String },
    Permission { request_id: String, decision: PermissionDecision },
    QuestionResponse { question_id: String, answers: Vec<(String, String)> },
    Cancel { reason: String },
    /// An end-to-end encrypted request, which only the tunnel layer reads.
    Encrypted,
    /// A request that carries nothing.
    Empty,
}

/// What the service does with a client request.
#[derive(Debug)]
pub enum HandlerAction {
    /// Start the conversation (see `start_plan`).
    Start(StartConversation),
    /// Send the user's message to the session.
    SendMessage { session_id: String, content: String },
    /// Answer a permission request of the session: `granted` is whether
    /// the tool may run (see `handler_grants`).
    AnswerPermission { session_id: String, request_id: String, decision: PermissionDecision, granted: bool },
    /// Answer a question of the session.
    AnswerQuestion { session_id: String, question_id: String, answers: Vec<(String, String)> },
    /// Cancel the session's turn.
    Cancel { session_id: String },
    /// Do nothing, logging the warning if there is one.
    Ignore { warning: Option<&'static str> },
}

/// Whether the service lets a tool run on a client's decision: when the
/// client allows it once or for the session.
pub open spec fn handler_grants(d: PermissionDecision) -> bool {
    d == PermissionDecision::AllowOnce || d == PermissionDecision::AllowSession
}

/// The warning for a message sent before the conversation started.
pub open spec fn early_message_warning() -> Seq<char> {
    "Received message before session start"@
}

/// Decides what to do with a client request; `session_id` is the
/// conversation's session once it has started. Requests other than a
/// start are ignored before that, and only a message is warned about.
pub fn route_request(request: ClientRequest, session_id: Option<String>) -> (r: HandlerAction)
    ensures
        match request {
            ClientRequest::Start(s) => r == HandlerAction::Start(s),
            ClientRequest::Message { content } => match session_id {
                Some(sid) => r == HandlerAction::SendMessage { session_id: sid, content },
                None => r matches HandlerAction::Ignore { warning: Some(w) } && w@ == early_message_warning(),
            },
            ClientRequest::Permission { request_id, decision } => match session_id {
                Some(sid) => r == HandlerAction::AnswerPermission {
                    session_id: sid,
                    request_id,
                    decision,
                    granted: handler_grants(decision),
                },
                None => r == HandlerAction::Ignore { warning: None },
            },
            ClientRequest::QuestionResponse { question_id, answers } => match session_id {
                Some(sid) => r == HandlerAction::AnswerQuestion { session_id: sid, question_id, answers },
                None => r == HandlerAction::Ignore { warning: None },
            },
            ClientRequest::Cancel { .. } => match session_id {
                Some(sid) => r == HandlerAction::Cancel { session_id: sid },
                None => r == HandlerAction::Ignore { warning: None },
            },
            ClientRequest::Encrypted => r matches HandlerAction::Ignore { warning: Some(w) } && w@
                == "Received encrypted request on local gRPC \u{2014} ignoring"@,
            ClientRequest::Empty => r matches HandlerAction::Ignore { warning: Some(w) } && w@
                == "Received empty request"@,
        },
{
    match request {
        ClientRequest::Start(s) => HandlerAction::Start(s),
        ClientRequest::Message { content } => match session_id {
            Some(sid) => HandlerAction::SendMessage { session_id: sid, content },
            None => HandlerAction::Ignore { warning: Some("Received message before session start") },
        },
        ClientRequest::Permission { request_id, decision } => match session_id {
            Some(sid) => {
                let granted = decision == PermissionDecision::AllowOnce || decision == PermissionDecision::AllowSession;
                HandlerAction::AnswerPermission { session_id: sid, request_id, decision, granted }
            },
            None => HandlerAction::Ignore { warning: None },
        },
        ClientRequest::QuestionResponse { question_id, answers } => match session_id {
            Some(sid) => HandlerAction::AnswerQuestion { session_id: sid, question_id, answers },
            None => HandlerAction::Ignore { warning: None },
        },
        ClientRequest::Cancel { .. } => match session_id {
            Some(sid) => HandlerAction::Cancel { session_id: sid },
            None => HandlerAction::Ignore { warning: None },
        },
        ClientRequest::Encrypted => HandlerAction::Ignore {
            warning: Some("Received encrypted request on local gRPC \u{2014} ignoring"),
        },
        ClientRequest::Empty => HandlerAction::Ignore { warning: Some("Received empty request") },
    }
}

/// The model a conversation runs: the requested one, else the default.
pub open spec fn chosen_model(requested: Seq<char>, default_model: Option<Seq<char>>) -> Option<Seq<char>> {
    if requested.len() == 0 {
        default_model
    } else {
        Some(requested)
    }
}

/// The view of an optional text.
pub open spec fn opt_text(o: Option<String>) -> Option<Seq<char>> {
    match o {
        Some(s) => Some(s@),
        None => None,
    }
}

/// The session of the agent to resume: the one stored for a session that
/// exists, when it is stored and not empty.
pub open spec fn resume_of(stored: Option<Option<String>>) -> Option<Seq<char>> {
    match stored {
        Some(Some(id)) => if id@.len() > 0 {
            Some(id@)
        } else {
            None
        },
        _ => None,
    }
}

/// How a conversation starts: the relay configuration, and whether the
/// session is new (and so is created in the store).
pub fn start_plan(start: StartConversation, default_model: Option<String>, stored: Option<Option<String>>) -> (r: (
    RelaySessionConfig,
    bool,
))
    ensures
        r.0.session_id@ == start.session_id@,
        r.0.working_directory@ == start.working_directory@,
        opt_text(r.0.model) == chosen_model(start.model@, opt_text(default_model)),
        opt_text(r.0.resume_session) == resume_of(stored),
        r.0.worktree_id@ == start.worktree_id@,
        r.1 == stored is None,
{
    let model = if start.model.as_str().is_empty() {
        default_model
    } else {
        Some(start.model)
    };
    let is_new = stored.is_none();
    let resume_session = match stored {
        Some(Some(id)) => if id.as_str().is_empty() {
            None
        } else {
            Some(id)
        },
        _ => None,
    };
    (
        RelaySessionConfig {
            session_id: start.session_id,
            working_directory: start.working_directory,
            model,
            resume_session,
            worktree_id: start.worktree_id,
        },
        is_new,
    )
}

/// The number of sessions a listing returns: fifty when the request sets
/// no limit.
pub fn session_list_limit(limit: u32) -> (r: u32)
    ensures
        r == (if limit == 0 {
            50
        } else {
            limit
        }),
{
    if limit == 0 {
        50
    } else {
        limit
    }
}

/// What compacting a session does.
#[derive(Debug, Clone, Copy, PartialEq, Eq, Structural)]
pub enum Compaction {
    /// Nothing to delete.
    Keep,
    /// Delete the messages numbered below `cutoff`.
    DeleteBefore { cutoff: i64 },
}

/// How many of a session's messages compaction keeps: the most recent
/// half, but at least ten (and never more than there are).
pub open spec fn kept_count(messages_before: u32) -> int {
    let half = messages_before / 2;
    let at_least_ten = if half < 10 {
        10
    } else {
        half
    };
    if at_least_ten > messages_before {
        messages_before as int
    } else {
        at_least_ten as int
    }
}

/// Plans the compaction of a session with `messages_before` messages, the
/// last numbered `max_seq`: the cutoff keeps the most recent messages, and
/// a cutoff at or below zero deletes nothing.
pub fn plan_compaction(messages_before: u32, max_seq: i64) -> (r: Compaction)
    requires
        max_seq - kept_count(messages_before) >= i64::MIN,
    ensures
        messages_before == 0 ==> r == Compaction::Keep,
        messages_before != 0 ==> r == (if max_seq - kept_count(messages_before) <= 0 {
            Compaction::Keep
        } else {
            Compaction::DeleteBefore { cutoff: (max_seq - kept_count(messages_before)) as i64 }
        }),
{
    if messages_before == 0 {
        return Compaction::Keep;
    }
    let half = messages_before / 2;
    let at_least_ten = if half < 10 {
        10
    } else {
        half
    };
    let keep = if at_least_ten > messages_before {
        messages_before
    } else {
        at_least_ten
    };
    let cutoff = max_seq - keep as i64;
    if cutoff <= 0 {
        Compaction::Keep
    } else {
        Compaction::DeleteBefore { cutoff }
    }
}

/// The report of a compaction that deleted `deleted` messages: the
/// messages left, and the tokens saved at an estimated hundred per message.
pub fn compaction_report(messages_before: u32, deleted: u64) -> (r: (u32, u32))
    requires
        deleted <= messages_before,
        deleted * 100 <= u32::MAX,
    ensures
        r.0 == messages_before - deleted,
        r.1 == deleted * 100,
{
    let d = deleted as u32;
    (messages_before - d, d * 100)
}

/// The status for a session that has no running relay.
pub fn session_not_active(session_id: &str) -> (r: RpcStatus)
    ensures
        r.code == RpcCode::NotFound,
        r.message@ == "Session "@ + session_id@ + " not active"@,
{
    let mut m = "Session ".to_owned();
    m.append(session_id);
    m.append(" not active");
    RpcStatus { code: RpcCode::NotFound, message: m }
}

/// Checks the tool name of a grant to set.
pub fn check_grant_tool(tool_name: &str) -> (r: Result<(), RpcStatus>)
    ensures
        tool_name@.len() == 0 ==> (r matches Err(st) && st.code == RpcCode::InvalidArgument && st.message@
            == "tool_name must not be empty"@),
        tool_name@.len() != 0 ==> r is Ok,
{
    if tool_name.is_empty() {
        Err(RpcStatus::new(RpcCode::InvalidArgument, "tool_name must not be empty"))
    } else {
        Ok(())
    }
}

/// The answer to a key exchange on a local connection, where it is not
/// offered.
pub fn key_exchange_refusal() -> (r: RpcStatus)
    ensures
        r.code == RpcCode::Unimplemented,
        r.message@ == "ExchangeKeys is only supported over tunnel connections"@,
{
    RpcStatus::new(RpcCode::Unimplemented, "ExchangeKeys is only supported over tunnel connections")
}

/// The client an input lock is taken for: the one the request names, else
/// `unary-<fresh ID>`.
pub fn lock_client_id(named: Option<String>, fresh_id: &str) -> (r: String)
    ensures
        r@ == match named {
            Some(n) => n@,
            None => "unary-"@ + fresh_id@,
        },
{
    match named {
        Some(n) => n,
        None => {
            let mut s = "unary-".to_owned();
            s.append(fresh_id);
            s
        },
    }
}

} // verus!
