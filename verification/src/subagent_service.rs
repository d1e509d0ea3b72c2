//! The checks and conversions of the subagent service: which requests it
//! refuses and with what status, and what it hands the subagent manager.
use vstd::prelude::*;

use crate::errors::{DatabaseError, ManagerError};
use crate::orchestration::{OrchestrationStep, OrchestrationStrategy};
use crate::rpc::{RpcCode, RpcStatus};
use crate::subagent::SubagentConfig;
use crate::text::{decimal, decimal_string};
use crate::timestamp::Timestamp;

verus! {

/// The status of a subagent as the service reports it.
#[derive(Clone, Copy, Debug, PartialEq, Eq, Structural)]
pub enum SubagentStatus {
    Unspecified,
    Pending,
    Running,
    Completed,
    Failed,
    Cancelled,
}

/// The status that a stored status name stands for.
pub open spec fn status_of_name(s: Seq<char>) -> SubagentStatus {
    if s == "pending"@ {
        SubagentStatus::Pending
    } else if s == "running"@ {
        SubagentStatus::Running
    } else if s == "completed"@ {
        SubagentStatus::Completed
    } else if s == "failed"@ {
        SubagentStatus::Failed
    } else if s == "cancelled"@ {
        SubagentStatus::Cancelled
    } else {
        SubagentStatus::Unspecified
    }
}

/// Converts a stored status name; unknown names give `Unspecified`.
pub fn status_str_to_proto(s: &str) -> (r: SubagentStatus)
    ensures
        r == status_of_name(s@),
{
    let t = s.to_owned();
    if t == "pending".to_owned() {
        SubagentStatus::Pending
    } else if t == "running".to_owned() {
        SubagentStatus::Running
    } else if t == "completed".to_owned() {
        SubagentStatus::Completed
    } else if t == "failed".to_owned() {
        SubagentStatus::Failed
    } else if t == "cancelled".to_owned() {
        SubagentStatus::Cancelled
    } else {
        SubagentStatus::Unspecified
    }
}

/// The strategy that a wire value stands for: 2 is sequential, 3 is a
/// DAG, and everything else (1 among them) is parallel.
pub fn strategy_from_i32(v: i32) -> (r: OrchestrationStrategy)
    ensures
        r == (if v == 2 {
            OrchestrationStrategy::Sequential
        } else if v == 3 {
            OrchestrationStrategy::Dag
        } else {
            OrchestrationStrategy::Parallel
        }),
{
    if v == 2 {
        OrchestrationStrategy::Sequential
    } else if v == 3 {
        OrchestrationStrategy::Dag
    } else {
        OrchestrationStrategy::Parallel
    }
}

/// The status code that a manager error is answered with.
pub open spec fn manager_error_code(e: ManagerError) -> RpcCode {
    match e {
        ManagerError::PoolFull => RpcCode::ResourceExhausted,
        ManagerError::SpawnFailed { .. } => RpcCode::Internal,
        ManagerError::NotFound { .. } => RpcCode::NotFound,
        ManagerError::OrchestrationNotFound { .. } => RpcCode::NotFound,
        ManagerError::AlreadyCompleted { .. } => RpcCode::FailedPrecondition,
        ManagerError::Database(DatabaseError::NotFound(_)) => RpcCode::NotFound,
        ManagerError::Database(DatabaseError::Other(_)) => RpcCode::Internal,
        ManagerError::Validation { .. } => RpcCode::InvalidArgument,
    }
}

/// Maps a manager error to the status the service answers with; the
/// message is the error's text.
pub fn manager_err_to_status(e: &ManagerError) -> (r: RpcStatus)
    ensures
        r.code == manager_error_code(*e),
        r.message@ == e.text(),
{
    let code = match e {
        ManagerError::PoolFull => RpcCode::ResourceExhausted,
        ManagerError::SpawnFailed { .. } => RpcCode::Internal,
        ManagerError::NotFound { .. } => RpcCode::NotFound,
        ManagerError::OrchestrationNotFound { .. } => RpcCode::NotFound,
        ManagerError::AlreadyCompleted { .. } => RpcCode::FailedPrecondition,
        ManagerError::Database(DatabaseError::NotFound(_)) => RpcCode::NotFound,
        ManagerError::Database(DatabaseError::Other(_)) => RpcCode::Internal,
        ManagerError::Validation { .. } => RpcCode::InvalidArgument,
    };
    RpcStatus { code, message: e.to_string() }
}

/// A request to spawn a subagent.
#[derive(Debug, Clone)]
pub struct SpawnSubagentRequest {
    pub parent_session_id: String,
    pub prompt: String,
    /// Empty: the default model.
    pub model: String,
    /// Empty: the daemon's working directory.
    pub working_directory: String,
    pub allowed_tools: Vec<String>,
    pub max_turns: i32,
    pub auto_approve: bool,
}

/// Why a spawn request is refused, if it is; the first failing check wins.
pub open spec fn spawn_problem(req: SpawnSubagentRequest) -> Option<Seq<char>> {
    if req.parent_session_id@.len() == 0 {
        Some("parent_session_id must not be empty"@)
    } else if req.prompt@.len() == 0 {
        Some("prompt must not be empty"@)
    } else if req.auto_approve && req.allowed_tools@.len() == 0 {
        Some("auto_approve requires non-empty allowed_tools"@)
    } else {
        None
    }
}

/// Checks a spawn request and turns it into the configuration handed to
/// the manager: `subagent_id` is the ID chosen for it, and `current_dir`
/// the directory used when the request names none. An empty model means
/// the default; the time limit is the manager's default.
pub fn plan_spawn(req: SpawnSubagentRequest, subagent_id: String, current_dir: String) -> (r: Result<
    SubagentConfig,
    RpcStatus,
>)
    ensures
        match spawn_problem(req) {
            Some(m) => r matches Err(st) && st.code == RpcCode::InvalidArgument && st.message@ == m,
            None => r matches Ok(c) && {
                &&& c.id@ == subagent_id@
                &&& c.parent_session_id@ == req.parent_session_id@
                &&& c.prompt@ == req.prompt@
                &&& c.model == (if req.model@.len() == 0 {
                    None::<String>
                } else {
                    Some(req.model)
                })
                &&& c.working_directory@ == (if req.working_directory@.len() == 0 {
                    current_dir@
                } else {
                    req.working_directory@
                })
                &&& c.allowed_tools@ == req.allowed_tools@
                &&& c.max_turns == req.max_turns
                &&& c.auto_approve == req.auto_approve
                &&& c.timeout_secs == 0
            },
        },
{
    if req.parent_session_id.as_str().is_empty() {
        return Err(RpcStatus::new(RpcCode::InvalidArgument, "parent_session_id must not be empty"));
    }
    if req.prompt.as_str().is_empty() {
        return Err(RpcStatus::new(RpcCode::InvalidArgument, "prompt must not be empty"));
    }
    if req.auto_approve && req.allowed_tools.len() == 0 {
        return Err(RpcStatus::new(RpcCode::InvalidArgument, "auto_approve requires non-empty allowed_tools"));
    }
    let model = if req.model.as_str().is_empty() {
        None
    } else {
        Some(req.model)
    };
    let working_directory = if req.working_directory.as_str().is_empty() {
        current_dir
    } else {
        req.working_directory
    };
    Ok(
        SubagentConfig {
            id: subagent_id,
            parent_session_id: req.parent_session_id,
            prompt: req.prompt,
            model,
            working_directory,
            allowed_tools: req.allowed_tools,
            max_turns: req.max_turns,
            auto_approve: req.auto_approve,
            timeout_secs: 0,
        },
    )
}

/// Refuses an empty ID, naming the field.
pub fn require_id(id: &str, field: &str) -> (r: Result<(), RpcStatus>)
    ensures
        id@.len() == 0 ==> (r matches Err(st) && st.code == RpcCode::InvalidArgument && st.message@ == field@
            + " must not be empty"@),
        id@.len() != 0 ==> r is Ok,
{
    if id.is_empty() {
        let mut m = field.to_owned();
        m.append(" must not be empty");
        Err(RpcStatus { code: RpcCode::InvalidArgument, message: m })
    } else {
        Ok(())
    }
}

/// The final status a cancel request reports.
pub fn cancel_final_status(cancelled: bool) -> (r: &'static str)
    ensures
        r@ == (if cancelled {
            "cancelled"@
        } else {
            "not_found"@
        }),
{
    if cancelled {
        "cancelled"
    } else {
        "not_found"
    }
}

/// The ID given to a step that has none: `step-<position>`.
pub open spec fn generated_step_id(i: nat) -> Seq<char> {
    "step-"@ + decimal(i)
}

/// The ID of the step at position `i`.
pub open spec fn prepared_id(id: Seq<char>, i: nat) -> Seq<char> {
    if id.len() == 0 {
        generated_step_id(i)
    } else {
        id
    }
}

/// The dependencies of the step at position `i`: for a sequential plan
/// every step after the first also waits for `step-<i-1>` (the generated
/// ID of the step before it), unless it already lists it.
pub open spec fn prepared_deps(
    deps: Seq<Seq<char>>,
    i: nat,
    strategy: OrchestrationStrategy,
) -> Seq<Seq<char>> {
    if strategy == OrchestrationStrategy::Sequential && i > 0 && !deps.contains(
        generated_step_id((i - 1) as nat),
    ) {
        deps.push(generated_step_id((i - 1) as nat))
    } else {
        deps
    }
}

/// Whether `r` is `s` at position `i` after preparation: the ID and the
/// dependencies are prepared, everything else is kept.
pub open spec fn is_prepared(s: OrchestrationStep, r: OrchestrationStep, i: nat, strategy: OrchestrationStrategy) -> bool {
    &&& r.id@ == prepared_id(s.id@, i)
    &&& r.depends_on.deep_view() == prepared_deps(s.depends_on.deep_view(), i, strategy)
    &&& r.name@ == s.name@
    &&& r.prompt@ == s.prompt@
    &&& r.working_directory@ == s.working_directory@
    &&& r.model@ == s.model@
    &&& r.allowed_tools.deep_view() == s.allowed_tools.deep_view()
    &&& r.max_turns == s.max_turns
    &&& r.auto_approve == s.auto_approve
}

fn generated_id(i: usize) -> (r: String)
    ensures
        r@ == generated_step_id(i as nat),
{
    let mut s = "step-".to_owned();
    let d = decimal_string(i as u64);
    s.append(d.as_str());
    s
}

fn contains_text(v: &Vec<String>, x: &String) -> (r: bool)
    ensures
        r == v.deep_view().contains(x@),
{
    crate::names::contains_name(v, x)
}

fn copy_texts(v: &Vec<String>) -> (r: Vec<String>)
    ensures
        r.deep_view() == v.deep_view(),
{
    let mut r: Vec<String> = Vec::new();
    let mut i: usize = 0;
    while i < v.len()
        invariant
            i <= v.len(),
            r.deep_view() == v.deep_view().take(i as int),
        decreases v.len() - i,
    {
        let ghost before = r.deep_view();
        r.push(v[i].clone());
        assert(r.deep_view() =~= v.deep_view().take(i as int + 1)) by {
            assert(r.deep_view() =~= before.push(v[i as int]@));
        }
        i = i + 1;
    }
    assert(v.deep_view().take(i as int) =~= v.deep_view());
    r
}

fn prepare_step(s: &OrchestrationStep, i: usize, strategy: OrchestrationStrategy) -> (r: OrchestrationStep)
    ensures
        is_prepared(*s, r, i as nat, strategy),
{
    let id = if s.id.as_str().is_empty() {
        generated_id(i)
    } else {
        s.id.clone()
    };
    let mut depends_on = copy_texts(&s.depends_on);
    if strategy == OrchestrationStrategy::Sequential && i > 0 {
        let prev = generated_id(i - 1);
        if !contains_text(&depends_on, &prev) {
            let ghost before = depends_on.deep_view();
            depends_on.push(prev);
            assert(depends_on.deep_view() =~= before.push(generated_step_id((i - 1) as nat)));
        }
    }
    OrchestrationStep {
        id,
        name: s.name.clone(),
        prompt: s.prompt.clone(),
        depends_on,
        working_directory: s.working_directory.clone(),
        model: s.model.clone(),
        allowed_tools: copy_texts(&s.allowed_tools),
        max_turns: s.max_turns,
        auto_approve: s.auto_approve,
    }
}

/// Why an orchestration request is refused, if it is.
pub open spec fn orchestration_problem(parent_session_id: Seq<char>, n_steps: nat) -> Option<Seq<char>> {
    if parent_session_id.len() == 0 {
        Some("parent_session_id must not be empty"@)
    } else if n_steps == 0 {
        Some("steps must not be empty"@)
    } else {
        None
    }
}

/// Checks an orchestration request and prepares its steps: a step without
/// an ID gets `step-<position>`, and under the sequential strategy each
/// step after the first also depends on the generated ID of the step
/// before it. The strategy is read from its wire value.
pub fn plan_orchestration(parent_session_id: &str, strategy: i32, steps: &Vec<OrchestrationStep>) -> (r: Result<
    (OrchestrationStrategy, Vec<OrchestrationStep>),
    RpcStatus,
>)
    ensures
        match orchestration_problem(parent_session_id@, steps@.len()) {
            Some(m) => r matches Err(st) && st.code == RpcCode::InvalidArgument && st.message@ == m,
            None => r matches Ok((st, prepared)) && {
                &&& st == (if strategy == 2 {
                    OrchestrationStrategy::Sequential
                } else if strategy == 3 {
                    OrchestrationStrategy::Dag
                } else {
                    OrchestrationStrategy::Parallel
                })
                &&& prepared@.len() == steps@.len()
                &&& forall|i: int|
                    0 <= i < steps@.len() ==> is_prepared(steps@[i], #[trigger] prepared@[i], i as nat, st)
            },
        },
{
    if parent_session_id.is_empty() {
        return Err(RpcStatus::new(RpcCode::InvalidArgument, "parent_session_id must not be empty"));
    }
    if steps.len() == 0 {
        return Err(RpcStatus::new(RpcCode::InvalidArgument, "steps must not be empty"));
    }
    let st = strategy_from_i32(strategy);
    let mut prepared: Vec<OrchestrationStep> = Vec::new();
    let mut i: usize = 0;
    while i < steps.len()
        invariant
            i <= steps.len(),
            prepared@.len() == i,
            forall|j: int| 0 <= j < i ==> is_prepared(steps@[j], #[trigger] prepared@[j], j as nat, st),
        decreases steps.len() - i,
    {
        let p = prepare_step(&steps[i], i, st);
        prepared.push(p);
        i = i + 1;
    }
    Ok((st, prepared))
}

/// A stored subagent.
#[derive(Debug, Clone)]
pub struct SubagentRow {
    pub id: String,
    pub parent_session_id: String,
    pub prompt: String,
    pub model: Option<String>,
    pub working_directory: Option<String>,
    pub status: String,
    pub auto_approve: i64,
    pub max_turns: i64,
    /// The allowed tools as a JSON list of texts.
    pub allowed_tools: String,
    pub result_summary: Option<String>,
    pub created_at: i64,
    pub completed_at: Option<i64>,
}

/// A subagent as the service reports it.
#[derive(Debug)]
pub struct SubagentInfo {
    pub id: String,
    pub parent_session_id: String,
    pub session_id: String,
    pub name: String,
    pub prompt: String,
    pub model: String,
    pub working_directory: String,
    pub status: SubagentStatus,
    pub auto_approve: bool,
    pub max_turns: i32,
    pub allowed_tools: Vec<String>,
    pub result_summary: String,
    pub created_at: Timestamp,
    pub completed_at: Option<Timestamp>,
}

/// The list of texts a JSON text holds, as `serde_json` reads a
/// `Vec<String>` from it; `None` where it holds no such list.
pub uninterp spec fn json_string_list(text: Seq<char>) -> Option<Seq<Seq<char>>>;

/// Calls `serde_json::from_str::<Vec<String>>`; what it reads is named by
/// `json_string_list`, a function of the text alone.
#[verifier::external_body]
fn parse_string_list(text: &str) -> (r: Option<Vec<String>>)
    ensures
        match r {
            Some(v) => json_string_list(text@) == Some(v.deep_view()),
            None => json_string_list(text@) is None,
        },
{
    serde_json::from_str::<Vec<String>>(text).ok()
}

/// The text of an optional field, empty when it is absent.
pub open spec fn or_empty(o: Option<String>) -> Seq<char> {
    match o {
        Some(s) => s@,
        None => Seq::empty(),
    }
}

fn text_or_blank(o: Option<String>) -> (r: String)
    ensures
        r@ == or_empty(o),
{
    match o {
        Some(s) => s,
        None => String::new(),
    }
}

/// Whether `info` reports `row`: the stored status by name, the allowed
/// tools read from their JSON list (none where it does not read), absent
/// texts as empty ones, and the turn limit cut to 32 bits.
pub open spec fn reports_subagent(row: SubagentRow, info: SubagentInfo) -> bool {
    &&& info.id@ == row.id@
    &&& info.parent_session_id@ == row.parent_session_id@
    &&& info.session_id@ == Seq::<char>::empty()
    &&& info.name@ == Seq::<char>::empty()
    &&& info.prompt@ == row.prompt@
    &&& info.model@ == or_empty(row.model)
    &&& info.working_directory@ == or_empty(row.working_directory)
    &&& info.status == status_of_name(row.status@)
    &&& info.auto_approve == (row.auto_approve != 0)
    &&& info.max_turns == row.max_turns as i32
    &&& info.allowed_tools.deep_view() == match json_string_list(row.allowed_tools@) {
        Some(v) => v,
        None => Seq::empty(),
    }
    &&& info.result_summary@ == or_empty(row.result_summary)
    &&& info.created_at == Timestamp { seconds: row.created_at, nanos: 0 }
    &&& info.completed_at == match row.completed_at {
        Some(t) => Some(Timestamp { seconds: t, nanos: 0 }),
        None => None,
    }
}

/// Reports a stored subagent.
pub fn to_subagent_info(row: SubagentRow) -> (info: SubagentInfo)
    ensures
        reports_subagent(row, info),
{
    let allowed_tools = match parse_string_list(row.allowed_tools.as_str()) {
        Some(v) => v,
        None => {
            let v: Vec<String> = Vec::new();
            assert(v.deep_view() =~= Seq::<Seq<char>>::empty());
            v
        },
    };
    let status = status_str_to_proto(row.status.as_str());
    let completed_at = match row.completed_at {
        Some(t) => Some(Timestamp { seconds: t, nanos: 0 }),
        None => None,
    };
    SubagentInfo {
        id: row.id,
        parent_session_id: row.parent_session_id,
        session_id: String::new(),
        name: String::new(),
        prompt: row.prompt,
        model: text_or_blank(row.model),
        working_directory: text_or_blank(row.working_directory),
        status,
        auto_approve: row.auto_approve != 0,
        max_turns: row.max_turns as i32,
        allowed_tools,
        result_summary: text_or_blank(row.result_summary),
        created_at: Timestamp { seconds: row.created_at, nanos: 0 },
        completed_at,
    }
}

/// The status filter of a listing: none when the request gives none.
pub fn status_filter(filter: &str) -> (r: Option<String>)
    ensures
        match r {
            Some(f) => filter@.len() != 0 && f@ == filter@,
            None => filter@.len() == 0,
        },
{
    if filter.is_empty() {
        None
    } else {
        Some(filter.to_owned())
    }
}

} // verus!
