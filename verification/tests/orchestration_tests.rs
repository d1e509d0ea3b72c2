use betcode_daemon::orchestration::{
    strategy_name, OrchestrationEvent, OrchestrationRun, OrchestrationStep, OrchestrationStrategy, RunAction,
    StepLaunch,
};

fn step(id: &str, deps: &[&str]) -> OrchestrationStep {
    OrchestrationStep {
        id: id.to_string(),
        name: format!("Step {id}"),
        prompt: format!("do {id}"),
        depends_on: deps.iter().map(|s| s.to_string()).collect(),
        working_directory: String::new(),
        model: String::new(),
        allowed_tools: vec![],
        max_turns: 0,
        auto_approve: false,
    }
}

fn launches(run: &OrchestrationRun) -> Vec<StepLaunch> {
    match run.next_action() {
        RunAction::Launch(ls) => ls,
        other => panic!("expected launches, got {other:?}"),
    }
}

#[test]
fn strategy_names() {
    assert_eq!(strategy_name(OrchestrationStrategy::Sequential), "sequential");
    assert_eq!(strategy_name(OrchestrationStrategy::Dag), "dag");
    assert_eq!(strategy_name(OrchestrationStrategy::Parallel), "parallel");
    assert_eq!(strategy_name(OrchestrationStrategy::Unspecified), "parallel");
}

#[test]
fn cyclic_plan_is_refused() {
    let err = OrchestrationRun::new("o".into(), vec![step("a", &["b"]), step("b", &["a"])]).unwrap_err();
    assert_eq!(err.to_string(), "Validation error: Dependency graph contains a cycle");
}

#[test]
fn sequential_run_passes_context_and_completes() {
    let mut run = OrchestrationRun::new("orch".into(), vec![step("a", &[]), step("b", &["a"])]).unwrap();
    let ls = launches(&run);
    assert_eq!(ls.len(), 1);
    assert_eq!(ls[0].step_id, "a");
    assert_eq!(ls[0].subagent_id, "orch-a");
    assert_eq!(ls[0].prompt, "do a");
    assert_eq!(ls[0].model, None);
    match run.launch_started(&ls[0]) {
        Some(OrchestrationEvent::StepStarted { step_id, subagent_id, name }) => {
            assert_eq!(step_id, "a");
            assert_eq!(subagent_id, "orch-a");
            assert_eq!(name, "Step a");
        }
        other => panic!("unexpected {other:?}"),
    }
    assert!(matches!(run.next_action(), RunAction::Wait));
    assert_eq!(run.running_steps(), vec!["a"]);
    match run.step_finished("a", "completed", Some("found it".into())) {
        Some(OrchestrationEvent::StepCompleted { step_id, result_summary, completed_count, total_count }) => {
            assert_eq!(step_id, "a");
            assert_eq!(result_summary, "found it");
            assert_eq!(completed_count, 1);
            assert_eq!(total_count, 2);
        }
        other => panic!("unexpected {other:?}"),
    }
    let ls = launches(&run);
    assert_eq!(ls.len(), 1);
    assert_eq!(ls[0].prompt, "[Context from step a]: found it\n\ndo b");
    run.launch_started(&ls[0]);
    run.step_finished("b", "completed", None);
    assert!(matches!(run.next_action(), RunAction::Finish));
    let (status, event) = run.outcome();
    assert_eq!(status, "completed");
    match event {
        OrchestrationEvent::Completed { total_steps, succeeded, failed } => {
            assert_eq!((total_steps, succeeded, failed), (2, 2, 0));
        }
        other => panic!("unexpected {other:?}"),
    }
}

#[test]
fn failed_step_blocks_dependents_and_fails_run() {
    let mut run =
        OrchestrationRun::new("o".into(), vec![step("a", &[]), step("b", &["a"]), step("c", &[])]).unwrap();
    let ls = launches(&run);
    assert_eq!(ls.len(), 2);
    match run.launch_failed(&ls[0], "spawn broke".into()) {
        Some(OrchestrationEvent::StepFailed { step_id, error_message, blocked_steps }) => {
            assert_eq!(step_id, "a");
            assert_eq!(error_message, "spawn broke");
            assert_eq!(blocked_steps, vec!["b"]);
        }
        other => panic!("unexpected {other:?}"),
    }
    run.launch_started(&ls[1]);
    match run.step_finished("c", "cancelled", None) {
        Some(OrchestrationEvent::StepFailed { error_message, .. }) => assert_eq!(error_message, "Unknown failure"),
        other => panic!("unexpected {other:?}"),
    }
    assert!(matches!(run.next_action(), RunAction::Finish));
    let (status, event) = run.outcome();
    assert_eq!(status, "failed");
    match event {
        OrchestrationEvent::Failed { error_message, completed_steps, failed_steps } => {
            assert_eq!(error_message, "2 step(s) failed");
            assert_eq!(completed_steps, 0);
            assert_eq!(failed_steps, 2);
        }
        other => panic!("unexpected {other:?}"),
    }
}

#[test]
fn finished_reports_are_ignored_for_steps_not_running() {
    let mut run = OrchestrationRun::new("o".into(), vec![step("a", &[])]).unwrap();
    assert!(run.step_finished("a", "completed", None).is_none());
    let ls = launches(&run);
    run.launch_started(&ls[0]);
    assert!(run.step_finished("a", "running", None).is_none());
    assert!(run.launch_started(&ls[0]).is_none());
    assert!(run.step_finished("a", "failed", Some("boom".into())).is_some());
}

#[test]
fn duplicate_step_ids_are_refused() {
    // Validation counts distinct steps against the list, so a repeated ID
    // fails as a cycle would.
    let err = OrchestrationRun::new("o".into(), vec![step("a", &[]), step("a", &[])]).unwrap_err();
    assert_eq!(err.to_string(), "Validation error: Dependency graph contains a cycle");
}

#[test]
fn launch_carries_step_configuration() {
    let mut s = step("a", &[]);
    s.model = "opus".into();
    s.working_directory = "/work".into();
    s.allowed_tools = vec!["Read".into()];
    s.max_turns = 4;
    s.auto_approve = true;
    let run = OrchestrationRun::new("o".into(), vec![s]).unwrap();
    let ls = launches(&run);
    assert_eq!(ls.len(), 1);
    assert_eq!(ls[0].model.as_deref(), Some("opus"));
    assert_eq!(ls[0].working_directory, "/work");
    assert_eq!(ls[0].allowed_tools, vec!["Read"]);
    assert_eq!(ls[0].max_turns, 4);
    assert!(ls[0].auto_approve);
}
