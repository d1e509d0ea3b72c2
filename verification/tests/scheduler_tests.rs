use betcode_daemon::scheduler::{validate_dag, DagScheduler, StepState};

fn steps(names: &[&str]) -> Vec<String> {
    names.iter().map(|s| (*s).to_string()).collect()
}

fn deps(pairs: &[(&str, &[&str])]) -> Vec<(String, Vec<String>)> {
    pairs
        .iter()
        .map(|(k, v)| ((*k).to_string(), v.iter().map(|s| (*s).to_string()).collect()))
        .collect()
}

fn sorted(mut v: Vec<String>) -> Vec<String> {
    v.sort();
    v
}

#[test]
fn rejects_cycle() {
    let s = steps(&["a", "b", "c"]);
    let d = deps(&[("a", &["c"]), ("b", &["a"]), ("c", &["b"])]);
    let result = DagScheduler::new(s, d);
    assert!(result.is_err());
    let err = result.unwrap_err().to_string();
    assert!(err.contains("cycle"), "Error should mention cycle: {err}");
}

#[test]
fn rejects_self_dependency() {
    let s = steps(&["a"]);
    let d = deps(&[("a", &["a"])]);
    let result = DagScheduler::new(s, d);
    assert!(result.is_err());
    let err = result.unwrap_err().to_string();
    assert!(err.contains("depends on itself"), "Error should mention self-dependency: {err}");
}

#[test]
fn rejects_unknown_dependency() {
    let s = steps(&["a", "b"]);
    let d = deps(&[("a", &["nonexistent"])]);
    let result = DagScheduler::new(s, d);
    assert!(result.is_err());
    let err = result.unwrap_err().to_string();
    assert!(err.contains("unknown step"), "Error should mention unknown step: {err}");
}

#[test]
fn accepts_valid_dag() {
    let s = steps(&["a", "b", "c"]);
    let d = deps(&[("b", &["a"]), ("c", &["b"])]);
    let result = DagScheduler::new(s, d);
    assert!(result.is_ok());
}

#[test]
fn accepts_empty_graph() {
    let s: Vec<String> = vec![];
    let d: Vec<(String, Vec<String>)> = vec![];
    let sched = DagScheduler::new(s, d).unwrap();
    assert!(sched.is_complete());
}

#[test]
fn accepts_no_dependencies() {
    let s = steps(&["a", "b", "c"]);
    let d: Vec<(String, Vec<String>)> = vec![];
    let sched = DagScheduler::new(s, d).unwrap();
    let ready = sched.next_ready();
    assert_eq!(ready.len(), 3);
}

#[test]
fn parallel_all_steps_ready_initially() {
    let s = steps(&["a", "b", "c"]);
    let d: Vec<(String, Vec<String>)> = vec![];
    let sched = DagScheduler::new(s, d).unwrap();
    let ready = sorted(sched.next_ready());
    assert_eq!(ready, vec!["a", "b", "c"]);
}

#[test]
fn parallel_complete_all() {
    let s = steps(&["a", "b", "c"]);
    let d: Vec<(String, Vec<String>)> = vec![];
    let mut sched = DagScheduler::new(s, d).unwrap();
    for id in &["a", "b", "c"] {
        sched.mark_running(id);
    }
    for id in &["a", "b", "c"] {
        sched.mark_completed(id);
    }
    assert!(sched.is_complete());
    let counts = sched.counts();
    assert_eq!(counts.get(&StepState::Completed), Some(3));
}

#[test]
fn sequential_one_at_a_time() {
    let s = steps(&["a", "b", "c"]);
    let d = deps(&[("b", &["a"]), ("c", &["b"])]);
    let mut sched = DagScheduler::new(s, d).unwrap();
    assert_eq!(sched.next_ready(), vec!["a"]);
    sched.mark_running("a");
    assert!(sched.next_ready().is_empty());
    let newly_ready = sched.mark_completed("a");
    assert_eq!(newly_ready, vec!["b"]);
    assert_eq!(sched.next_ready(), vec!["b"]);
    sched.mark_running("b");
    let newly_ready = sched.mark_completed("b");
    assert_eq!(newly_ready, vec!["c"]);
    assert_eq!(sched.next_ready(), vec!["c"]);
    sched.mark_running("c");
    sched.mark_completed("c");
    assert!(sched.is_complete());
}

#[test]
fn dag_diamond_pattern() {
    let s = steps(&["a", "b", "c", "d"]);
    let d = deps(&[("b", &["a"]), ("c", &["a"]), ("d", &["b", "c"])]);
    let mut sched = DagScheduler::new(s, d).unwrap();
    assert_eq!(sched.next_ready(), vec!["a"]);
    sched.mark_running("a");
    let ready = sorted(sched.mark_completed("a"));
    assert_eq!(ready, vec!["b", "c"]);
    sched.mark_running("b");
    sched.mark_running("c");
    sched.mark_completed("b");
    assert!(sched.next_ready().is_empty());
    let newly_ready = sched.mark_completed("c");
    assert_eq!(newly_ready, vec!["d"]);
    sched.mark_running("d");
    sched.mark_completed("d");
    assert!(sched.is_complete());
}

#[test]
fn failure_cascades_to_dependents() {
    let s = steps(&["a", "b", "c"]);
    let d = deps(&[("b", &["a"]), ("c", &["b"])]);
    let mut sched = DagScheduler::new(s, d).unwrap();
    sched.mark_running("a");
    let blocked = sched.mark_failed("a");
    assert_eq!(blocked.len(), 2);
    assert!(blocked.contains(&"b".to_string()));
    assert!(blocked.contains(&"c".to_string()));
    assert_eq!(sched.step_state("a"), Some(StepState::Failed));
    assert_eq!(sched.step_state("b"), Some(StepState::Blocked));
    assert_eq!(sched.step_state("c"), Some(StepState::Blocked));
    assert!(sched.is_complete());
}

#[test]
fn failure_does_not_block_independent_steps() {
    let s = steps(&["a", "b", "c", "d"]);
    let d = deps(&[("c", &["a", "b"])]);
    let mut sched = DagScheduler::new(s, d).unwrap();
    let ready = sorted(sched.next_ready());
    assert_eq!(ready, vec!["a", "b", "d"]);
    sched.mark_running("a");
    sched.mark_running("b");
    sched.mark_running("d");
    let blocked = sched.mark_failed("a");
    assert_eq!(blocked, vec!["c"]);
    sched.mark_completed("d");
    sched.mark_completed("b");
    assert!(sched.is_complete());
    assert_eq!(sched.step_state("d"), Some(StepState::Completed));
    assert_eq!(sched.step_state("c"), Some(StepState::Blocked));
}

#[test]
fn failure_cascades_transitively() {
    let s = steps(&["a", "b", "c", "d"]);
    let d = deps(&[("b", &["a"]), ("c", &["b"]), ("d", &["c"])]);
    let mut sched = DagScheduler::new(s, d).unwrap();
    sched.mark_running("a");
    let blocked = sched.mark_failed("a");
    assert_eq!(blocked.len(), 3);
    assert!(blocked.contains(&"b".to_string()));
    assert!(blocked.contains(&"c".to_string()));
    assert!(blocked.contains(&"d".to_string()));
}

#[test]
fn step_state_returns_none_for_unknown() {
    let s = steps(&["a"]);
    let d: Vec<(String, Vec<String>)> = vec![];
    let sched = DagScheduler::new(s, d).unwrap();
    assert!(sched.step_state("nonexistent").is_none());
}

#[test]
fn running_ids_tracks_correctly() {
    let s = steps(&["a", "b"]);
    let d: Vec<(String, Vec<String>)> = vec![];
    let mut sched = DagScheduler::new(s, d).unwrap();
    assert!(sched.running_ids().is_empty());
    sched.mark_running("a");
    assert_eq!(sched.running_ids(), vec!["a"]);
    sched.mark_running("b");
    let ids = sorted(sched.running_ids());
    assert_eq!(ids, vec!["a", "b"]);
    sched.mark_completed("a");
    assert_eq!(sched.running_ids(), vec!["b"]);
}

#[test]
fn total_steps_correct() {
    let s = steps(&["a", "b", "c"]);
    let d: Vec<(String, Vec<String>)> = vec![];
    let sched = DagScheduler::new(s, d).unwrap();
    assert_eq!(sched.total_steps(), 3);
}

#[test]
fn counts_reflect_state() {
    let s = steps(&["a", "b", "c"]);
    let d = deps(&[("c", &["a", "b"])]);
    let mut sched = DagScheduler::new(s, d).unwrap();
    let counts = sched.counts();
    assert_eq!(counts.get(&StepState::Ready), Some(2));
    assert_eq!(counts.get(&StepState::Pending), Some(1));
    sched.mark_running("a");
    let counts = sched.counts();
    assert_eq!(counts.get(&StepState::Running), Some(1));
    assert_eq!(counts.get(&StepState::Ready), Some(1));
}

#[test]
fn single_step_no_deps() {
    let s = steps(&["only"]);
    let d: Vec<(String, Vec<String>)> = vec![];
    let mut sched = DagScheduler::new(s, d).unwrap();
    assert_eq!(sched.next_ready(), vec!["only"]);
    sched.mark_running("only");
    sched.mark_completed("only");
    assert!(sched.is_complete());
}

#[test]
fn multiple_roots_converge() {
    let s = steps(&["a", "b", "c", "d"]);
    let d = deps(&[("d", &["a", "b", "c"])]);
    let mut sched = DagScheduler::new(s, d).unwrap();
    let ready = sorted(sched.next_ready());
    assert_eq!(ready, vec!["a", "b", "c"]);
    sched.mark_running("a");
    sched.mark_running("b");
    sched.mark_running("c");
    sched.mark_completed("a");
    assert!(sched.next_ready().is_empty());
    sched.mark_completed("b");
    assert!(sched.next_ready().is_empty());
    let newly_ready = sched.mark_completed("c");
    assert_eq!(newly_ready, vec!["d"]);
}

#[test]
fn two_node_cycle_detected() {
    let s = steps(&["a", "b"]);
    let d = deps(&[("a", &["b"]), ("b", &["a"])]);
    let result = DagScheduler::new(s, d);
    assert!(result.is_err());
}

#[test]
fn complex_dag_validates() {
    let s = steps(&["a", "b", "c", "d", "e", "f"]);
    let d = deps(&[("b", &["a"]), ("c", &["a"]), ("d", &["b"]), ("e", &["c"]), ("f", &["d", "e"])]);
    let sched = DagScheduler::new(s, d).unwrap();
    assert_eq!(sched.total_steps(), 6);
    assert_eq!(sched.next_ready(), vec!["a"]);
}

// Own tests.

#[test]
fn validation_messages_are_exact() {
    let err = validate_dag(&steps(&["a", "b"]), &deps(&[("a", &["x"])])).unwrap_err();
    assert_eq!(err.to_string(), "Validation error: Step 'a' depends on unknown step 'x'");
    let err = validate_dag(&steps(&["a"]), &deps(&[("a", &["a"])])).unwrap_err();
    assert_eq!(err.to_string(), "Validation error: Step 'a' depends on itself");
    let err = validate_dag(&steps(&["a", "b"]), &deps(&[("a", &["b"]), ("b", &["a"])])).unwrap_err();
    assert_eq!(err.to_string(), "Validation error: Dependency graph contains a cycle");
}

#[test]
fn acyclic_graph_is_accepted_and_cyclic_refused() {
    // Law: validation accepts exactly the graphs without reference errors or cycles.
    assert!(validate_dag(&steps(&["a", "b", "c"]), &deps(&[("c", &["a", "b"])])).is_ok());
    assert!(validate_dag(&steps(&["a", "b", "c"]), &deps(&[("a", &["c"]), ("c", &["a"])])).is_err());
}

#[test]
fn unknown_step_operations_change_nothing() {
    let mut sched = DagScheduler::new(steps(&["a"]), vec![]).unwrap();
    sched.mark_running("zzz");
    assert!(sched.mark_completed("zzz").is_empty());
    assert!(sched.mark_failed("zzz").is_empty());
    assert_eq!(sched.step_state("a"), Some(StepState::Ready));
}

#[test]
fn counts_get_none_for_empty_state() {
    let sched = DagScheduler::new(steps(&["a"]), vec![]).unwrap();
    assert_eq!(sched.counts().get(&StepState::Failed), None);
}

#[test]
fn entries_with_no_dependencies_need_not_name_a_step() {
    assert!(validate_dag(&steps(&["a", "b"]), &deps(&[("ghost", &[]), ("b", &["a"])])).is_ok());
}

#[test]
fn running_step_leaves_the_ready_list_only() {
    let mut sched = DagScheduler::new(steps(&["a", "b", "c"]), deps(&[("c", &["a"])])).unwrap();
    assert_eq!(sched.next_ready(), vec!["a".to_string(), "b".to_string()]);
    sched.mark_running("a");
    assert_eq!(sched.next_ready(), vec!["b".to_string()]);
    assert_eq!(sched.step_state("a"), Some(StepState::Running));
    assert_eq!(sched.step_state("c"), Some(StepState::Pending));
}
