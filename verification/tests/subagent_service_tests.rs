use betcode_daemon::errors::{DatabaseError, ManagerError};
use betcode_daemon::orchestration::{OrchestrationStep, OrchestrationStrategy};
use betcode_daemon::rpc::RpcCode;
use betcode_daemon::subagent_service::{
    cancel_final_status, manager_err_to_status, plan_orchestration, plan_spawn, require_id,
    status_filter, status_str_to_proto, strategy_from_i32, to_subagent_info, SpawnSubagentRequest,
    SubagentRow, SubagentStatus,
};

#[test]
fn status_str_to_proto_conversion() {
    assert_eq!(status_str_to_proto("pending"), SubagentStatus::Pending);
    assert_eq!(status_str_to_proto("running"), SubagentStatus::Running);
    assert_eq!(status_str_to_proto("completed"), SubagentStatus::Completed);
    assert_eq!(status_str_to_proto("failed"), SubagentStatus::Failed);
    assert_eq!(status_str_to_proto("cancelled"), SubagentStatus::Cancelled);
    assert_eq!(status_str_to_proto("unknown"), SubagentStatus::Unspecified);
}

#[test]
fn strategy_from_i32_values() {
    assert_eq!(strategy_from_i32(1), OrchestrationStrategy::Parallel);
    assert_eq!(strategy_from_i32(2), OrchestrationStrategy::Sequential);
    assert_eq!(strategy_from_i32(3), OrchestrationStrategy::Dag);
    assert_eq!(strategy_from_i32(99), OrchestrationStrategy::Parallel);
}

fn spawn_request(parent: &str, prompt: &str) -> SpawnSubagentRequest {
    SpawnSubagentRequest {
        parent_session_id: parent.to_string(),
        prompt: prompt.to_string(),
        model: String::new(),
        working_directory: String::new(),
        allowed_tools: vec![],
        max_turns: 0,
        auto_approve: false,
    }
}

#[test]
fn spawn_rejects_empty_parent() {
    let err = plan_spawn(spawn_request("", "test"), "id".into(), "/cwd".into()).unwrap_err();
    assert_eq!(err.code, RpcCode::InvalidArgument);
    assert_eq!(err.message, "parent_session_id must not be empty");
}

#[test]
fn spawn_rejects_empty_prompt() {
    let err = plan_spawn(spawn_request("parent-1", ""), "id".into(), "/cwd".into()).unwrap_err();
    assert_eq!(err.code, RpcCode::InvalidArgument);
    assert_eq!(err.message, "prompt must not be empty");
}

#[test]
fn spawn_rejects_auto_approve_without_tools() {
    let mut req = spawn_request("parent-1", "do it");
    req.auto_approve = true;
    let err = plan_spawn(req, "id".into(), "/cwd".into()).unwrap_err();
    assert_eq!(err.code, RpcCode::InvalidArgument);
    assert_eq!(err.message, "auto_approve requires non-empty allowed_tools");
}

#[test]
fn spawn_fills_defaults() {
    let config = plan_spawn(spawn_request("parent-1", "do it"), "sa-1".into(), "/cwd".into()).unwrap();
    assert_eq!(config.id, "sa-1");
    assert_eq!(config.parent_session_id, "parent-1");
    assert_eq!(config.prompt, "do it");
    assert_eq!(config.model, None);
    assert_eq!(config.working_directory, "/cwd");
    assert_eq!(config.timeout_secs, 0);
}

#[test]
fn spawn_keeps_given_model_and_directory() {
    let mut req = spawn_request("parent-1", "do it");
    req.model = "m1".into();
    req.working_directory = "/work".into();
    req.auto_approve = true;
    req.allowed_tools = vec!["Read".into()];
    req.max_turns = 7;
    let config = plan_spawn(req, "sa-2".into(), "/cwd".into()).unwrap();
    assert_eq!(config.model, Some("m1".to_string()));
    assert_eq!(config.working_directory, "/work");
    assert_eq!(config.allowed_tools, vec!["Read".to_string()]);
    assert_eq!(config.max_turns, 7);
    assert!(config.auto_approve);
}

#[test]
fn empty_ids_are_refused_by_field_name() {
    let err = require_id("", "subagent_id").unwrap_err();
    assert_eq!(err.code, RpcCode::InvalidArgument);
    assert_eq!(err.message, "subagent_id must not be empty");
    assert!(require_id("x", "subagent_id").is_ok());
}

#[test]
fn cancel_reports_final_status() {
    assert_eq!(cancel_final_status(true), "cancelled");
    assert_eq!(cancel_final_status(false), "not_found");
}

#[test]
fn manager_errors_map_to_codes() {
    let st = manager_err_to_status(&ManagerError::PoolFull);
    assert_eq!(st.code, RpcCode::ResourceExhausted);
    assert_eq!(st.message, "Subprocess pool is full");
    assert_eq!(
        manager_err_to_status(&ManagerError::SpawnFailed { reason: "x".into() }).code,
        RpcCode::Internal
    );
    assert_eq!(
        manager_err_to_status(&ManagerError::NotFound { id: "a".into() }).code,
        RpcCode::NotFound
    );
    assert_eq!(
        manager_err_to_status(&ManagerError::OrchestrationNotFound { id: "o".into() }).code,
        RpcCode::NotFound
    );
    assert_eq!(
        manager_err_to_status(&ManagerError::AlreadyCompleted { id: "a".into() }).code,
        RpcCode::FailedPrecondition
    );
    let st = manager_err_to_status(&ManagerError::Database(DatabaseError::NotFound("gone".into())));
    assert_eq!(st.code, RpcCode::NotFound);
    assert_eq!(st.message, "Database error: gone");
    assert_eq!(
        manager_err_to_status(&ManagerError::Database(DatabaseError::Other("io".into()))).code,
        RpcCode::Internal
    );
    assert_eq!(
        manager_err_to_status(&ManagerError::Validation { message: "v".into() }).code,
        RpcCode::InvalidArgument
    );
}

fn step(id: &str, deps: &[&str]) -> OrchestrationStep {
    OrchestrationStep {
        id: id.to_string(),
        name: format!("name-{id}"),
        prompt: "p".to_string(),
        depends_on: deps.iter().map(|d| d.to_string()).collect(),
        working_directory: String::new(),
        model: String::new(),
        allowed_tools: vec![],
        max_turns: 0,
        auto_approve: false,
    }
}

#[test]
fn create_orchestration_rejects_empty_session() {
    let err = plan_orchestration("", 1, &vec![step("a", &[])]).unwrap_err();
    assert_eq!(err.code, RpcCode::InvalidArgument);
    assert_eq!(err.message, "parent_session_id must not be empty");
}

#[test]
fn create_orchestration_rejects_empty_steps() {
    let err = plan_orchestration("parent-1", 1, &vec![]).unwrap_err();
    assert_eq!(err.code, RpcCode::InvalidArgument);
    assert_eq!(err.message, "steps must not be empty");
}

#[test]
fn orchestration_steps_get_generated_ids() {
    let (strategy, steps) =
        plan_orchestration("parent-1", 1, &vec![step("", &[]), step("b", &[]), step("", &["b"])])
            .unwrap();
    assert_eq!(strategy, OrchestrationStrategy::Parallel);
    let ids: Vec<&str> = steps.iter().map(|s| s.id.as_str()).collect();
    assert_eq!(ids, vec!["step-0", "b", "step-2"]);
    assert!(steps[0].depends_on.is_empty());
    assert_eq!(steps[2].depends_on, vec!["b".to_string()]);
    assert_eq!(steps[1].name, "name-b");
}

#[test]
fn sequential_orchestration_chains_steps() {
    let (strategy, steps) = plan_orchestration(
        "parent-1",
        2,
        &vec![step("", &[]), step("", &[]), step("", &["step-1"]), step("x", &[])],
    )
    .unwrap();
    assert_eq!(strategy, OrchestrationStrategy::Sequential);
    assert!(steps[0].depends_on.is_empty());
    assert_eq!(steps[1].depends_on, vec!["step-0".to_string()]);
    assert_eq!(steps[2].depends_on, vec!["step-1".to_string()]);
    assert_eq!(steps[3].id, "x");
    assert_eq!(steps[3].depends_on, vec!["step-2".to_string()]);
}

fn row(allowed_tools: &str) -> SubagentRow {
    SubagentRow {
        id: "sa-1".into(),
        parent_session_id: "parent-1".into(),
        prompt: "p".into(),
        model: None,
        working_directory: Some("/w".into()),
        status: "running".into(),
        auto_approve: 1,
        max_turns: 5,
        allowed_tools: allowed_tools.into(),
        result_summary: None,
        created_at: 100,
        completed_at: Some(200),
    }
}

#[test]
fn subagent_rows_are_reported() {
    let info = to_subagent_info(row("[\"Read\",\"Write\"]"));
    assert_eq!(info.allowed_tools, vec!["Read".to_string(), "Write".to_string()]);
    assert_eq!(info.status, SubagentStatus::Running);
    assert!(info.auto_approve);
    assert_eq!(info.max_turns, 5);
    assert_eq!(info.model, "");
    assert_eq!(info.working_directory, "/w");
    assert_eq!(info.created_at.seconds, 100);
    assert_eq!(info.completed_at.map(|t| t.seconds), Some(200));
    assert!(info.session_id.is_empty());
}

#[test]
fn unreadable_tool_list_reports_none() {
    let info = to_subagent_info(row("not json"));
    assert!(info.allowed_tools.is_empty());
    let info = to_subagent_info(row("[1, 2]"));
    assert!(info.allowed_tools.is_empty());
}

#[test]
fn empty_status_filter_lists_all() {
    assert_eq!(status_filter(""), None);
    assert_eq!(status_filter("failed"), Some("failed".to_string()));
}
