use betcode_daemon::completion::{
    index_created, index_removed, index_renamed, AgentInfo, AgentKind, AgentLister, AgentStatus, FileIndex,
    IndexedPath, PathKind,
};

fn agent(name: &str, kind: AgentKind, status: AgentStatus) -> AgentInfo {
    AgentInfo { name: name.to_string(), kind, status, session_id: None }
}

fn path(p: &str, kind: PathKind) -> IndexedPath {
    IndexedPath { path: p.to_string(), kind }
}

#[test]
fn test_agent_info_creation() {
    let agent = AgentInfo {
        name: "researcher".to_string(),
        kind: AgentKind::ClaudeInternal,
        status: AgentStatus::Working,
        session_id: Some("sess-123".to_string()),
    };
    assert_eq!(agent.name, "researcher");
}

#[test]
fn test_agent_lister_search() {
    let mut lister = AgentLister::new();
    lister.update(agent("researcher", AgentKind::ClaudeInternal, AgentStatus::Working));
    lister.update(agent("team-lead", AgentKind::TeamMember, AgentStatus::Idle));
    let results = lister.search("res", 10);
    assert_eq!(results.len(), 1);
    assert_eq!(results[0].name, "researcher");
}

#[test]
fn test_agent_lister_empty_query_returns_all() {
    let mut lister = AgentLister::new();
    lister.update(agent("a", AgentKind::ClaudeInternal, AgentStatus::Idle));
    lister.update(agent("b", AgentKind::TeamMember, AgentStatus::Working));
    let results = lister.search("", 10);
    assert_eq!(results.len(), 2);
}

#[test]
fn test_start_watching_empty_root_fails() {
    let index = FileIndex::empty();
    assert!(!index.can_watch());
}

// Own tests.

#[test]
fn agent_search_is_case_insensitive_and_limited() {
    let mut lister = AgentLister::new();
    lister.update(agent("Researcher", AgentKind::ClaudeInternal, AgentStatus::Idle));
    lister.update(agent("research-2", AgentKind::DaemonOrchestrated, AgentStatus::Working));
    lister.update(agent("other", AgentKind::TeamMember, AgentStatus::Idle));
    let results = lister.search("RES", 10);
    assert_eq!(results.len(), 2);
    assert_eq!(results[0].name, "Researcher");
    assert_eq!(results[1].name, "research-2");
    let one = lister.search("res", 1);
    assert_eq!(one.len(), 1);
    assert_eq!(one[0].name, "Researcher");
}

#[test]
fn agent_update_replaces_by_name_and_remove_deletes() {
    let mut lister = AgentLister::new();
    lister.update(agent("a", AgentKind::ClaudeInternal, AgentStatus::Idle));
    lister.update(agent("a", AgentKind::ClaudeInternal, AgentStatus::Done));
    let all = lister.search("", 10);
    assert_eq!(all.len(), 1);
    assert_eq!(all[0].status, AgentStatus::Done);
    lister.remove("a");
    assert!(lister.search("", 10).is_empty());
    lister.remove("missing");
    assert!(lister.search("", 10).is_empty());
}

#[test]
fn file_index_search_and_counts() {
    let index = FileIndex::from_entries(
        vec![path("src/main.rs", PathKind::File), path("src", PathKind::Directory), path("README.md", PathKind::File)],
        "/repo".to_string(),
    );
    assert_eq!(index.entry_count(), 3);
    assert_eq!(index.root(), "/repo");
    assert!(index.can_watch());
    let found = index.search("MAIN", 10);
    assert_eq!(found.len(), 1);
    assert_eq!(found[0].path, "src/main.rs");
    assert_eq!(index.search("", 2).len(), 2);
}

#[test]
fn watcher_events_update_entries() {
    let mut entries = vec![path("a.txt", PathKind::File)];
    index_created(&mut entries, "b.txt".to_string(), PathKind::File);
    assert_eq!(entries.len(), 2);
    index_created(&mut entries, "b.txt".to_string(), PathKind::File);
    assert_eq!(entries.len(), 2);
    index_renamed(&mut entries, "a.txt", "c.txt".to_string(), PathKind::File);
    assert!(entries.iter().all(|e| e.path != "a.txt"));
    assert!(entries.iter().any(|e| e.path == "c.txt"));
    index_removed(&mut entries, "b.txt");
    assert_eq!(entries.len(), 1);
    assert_eq!(entries[0].path, "c.txt");
}
