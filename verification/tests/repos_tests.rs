use betcode_daemon::models::GitRepoRow;
use betcode_daemon::repos::{
    apply_update, check_scan_path, details_with_counts, plan_register, plan_register_named,
    plan_update, scan_depth, scan_step, scanned_repo, to_detail, wants_page,
    worktree_mode_to_proto, worktree_mode_to_str, worktrees_removed_reported,
    RegisterRepoRequest, RepoUpdate, ScanStep, UpdateRepoRequest, WorktreeMode,
};
use betcode_daemon::rpc::RpcCode;

fn row(id: &str) -> GitRepoRow {
    GitRepoRow {
        id: id.to_string(),
        name: "original".to_string(),
        repo_path: "/repo".to_string(),
        worktree_mode: "global".to_string(),
        local_subfolder: ".worktree".to_string(),
        custom_path: Some("/old/path".to_string()),
        setup_script: Some("old script".to_string()),
        auto_gitignore: 1,
        created_at: 100,
        last_active: 200,
    }
}

fn register(path: &str, name: &str, mode: i32) -> RegisterRepoRequest {
    RegisterRepoRequest {
        repo_path: path.to_string(),
        name: name.to_string(),
        worktree_mode: mode,
        local_subfolder: String::new(),
        custom_path: String::new(),
        setup_script: String::new(),
        auto_gitignore: true,
    }
}

#[test]
fn worktree_modes_convert_both_ways() {
    assert_eq!(worktree_mode_to_proto("global"), WorktreeMode::Global);
    assert_eq!(worktree_mode_to_proto("local"), WorktreeMode::Local);
    assert_eq!(worktree_mode_to_proto("custom"), WorktreeMode::Custom);
    assert_eq!(worktree_mode_to_proto("weird"), WorktreeMode::Unspecified);
    assert_eq!(worktree_mode_to_str(0).unwrap(), "global");
    assert_eq!(worktree_mode_to_str(1).unwrap(), "global");
    assert_eq!(worktree_mode_to_str(2).unwrap(), "local");
    assert_eq!(worktree_mode_to_str(3).unwrap(), "custom");
    let err = worktree_mode_to_str(99).unwrap_err();
    assert_eq!(err.code, RpcCode::InvalidArgument);
    assert_eq!(err.message, "Invalid worktree_mode value: 99");
    assert_eq!(worktree_mode_to_str(-4).unwrap_err().message, "Invalid worktree_mode value: -4");
}

#[test]
fn detail_reports_the_row() {
    let mut r = row("r1");
    r.custom_path = None;
    let d = to_detail(&r, 3);
    assert_eq!(d.id, "r1");
    assert_eq!(d.worktree_mode, WorktreeMode::Global);
    assert_eq!(d.custom_path, "");
    assert_eq!(d.setup_script, "old script");
    assert!(d.auto_gitignore);
    assert_eq!(d.worktree_count, 3);
    assert_eq!(d.created_at.seconds, 100);
    assert_eq!(d.last_active.seconds, 200);
    assert_eq!(d.last_active.nanos, 0);
}

#[test]
fn details_take_counts_by_id() {
    let rows = vec![row("a"), row("b"), row("c")];
    let counts = vec![("b".to_string(), 2u32), ("a".to_string(), 5u32)];
    let ds = details_with_counts(&rows, &counts);
    let got: Vec<u32> = ds.iter().map(|d| d.worktree_count).collect();
    assert_eq!(got, vec![5, 2, 0]);
}

#[test]
fn pagination_only_when_asked() {
    assert!(!wants_page(0, 0));
    assert!(wants_page(2, 0));
    assert!(wants_page(0, 1));
}

#[test]
fn unregister_reports_worktrees_only_when_removed() {
    assert_eq!(worktrees_removed_reported(true, 2), 2);
    assert_eq!(worktrees_removed_reported(false, 2), 0);
}

#[test]
fn register_empty_path_returns_error() {
    let err = plan_register(register("", "x", 1), true, true).unwrap_err();
    assert_eq!(err.code, RpcCode::InvalidArgument);
    assert_eq!(err.message, "repo_path is required");
}

#[test]
fn register_nonexistent_path_returns_error() {
    let err = plan_register(register("/nope", "x", 1), false, false).unwrap_err();
    assert_eq!(err.code, RpcCode::InvalidArgument);
    assert_eq!(err.message, "Directory not found: /nope");
}

#[test]
fn register_non_git_dir_returns_error() {
    let err = plan_register(register("/plain", "x", 1), true, false).unwrap_err();
    assert_eq!(err.code, RpcCode::InvalidArgument);
    assert_eq!(err.message, "Not a git repository (no .git): /plain");
}

#[test]
fn register_invalid_worktree_mode_returns_error() {
    let err = plan_register(register("/repo", "x", 99), true, true).unwrap_err();
    assert_eq!(err.code, RpcCode::InvalidArgument);
    assert_eq!(err.message, "Invalid worktree_mode value: 99");
}

#[test]
fn register_defaults_name_from_path() {
    let n = plan_register(register("/tmp/work/auto-named", "", 1), true, true).unwrap();
    assert_eq!(n.name, "auto-named");
    assert_eq!(n.repo_path, "/tmp/work/auto-named");
    assert_eq!(n.local_subfolder, ".worktree");
    assert_eq!(n.custom_path, None);
    assert_eq!(n.setup_script, None);
}

#[test]
fn register_without_a_last_component_is_unknown() {
    let n = plan_register_named(register("/", "", 0), true, true, None).unwrap();
    assert_eq!(n.name, "unknown");
    assert_eq!(n.worktree_mode, "global");
}

#[test]
fn register_keeps_given_settings() {
    let mut req = register("/repo", "mine", 3);
    req.local_subfolder = "wt".into();
    req.custom_path = "/custom".into();
    req.setup_script = "make".into();
    req.auto_gitignore = false;
    let n = plan_register(req, true, true).unwrap();
    assert_eq!(n.name, "mine");
    assert_eq!(n.worktree_mode, "custom");
    assert_eq!(n.local_subfolder, "wt");
    assert_eq!(n.custom_path, Some("/custom".to_string()));
    assert_eq!(n.setup_script, Some("make".to_string()));
    assert!(!n.auto_gitignore);
}

#[test]
fn update_maps_empty_texts_to_clears() {
    let u = plan_update(UpdateRepoRequest {
        id: "r1".into(),
        name: Some("renamed".into()),
        worktree_mode: Some(2),
        local_subfolder: None,
        custom_path: Some(String::new()),
        setup_script: Some("new".into()),
        auto_gitignore: None,
    })
    .unwrap();
    assert_eq!(u.name, Some("renamed".to_string()));
    assert_eq!(u.worktree_mode, Some("local".to_string()));
    assert_eq!(u.local_subfolder, None);
    assert_eq!(u.custom_path, Some(None));
    assert_eq!(u.setup_script, Some(Some("new".to_string())));
    assert_eq!(u.auto_gitignore, None);
}

#[test]
fn update_refuses_bad_mode() {
    let err = plan_update(UpdateRepoRequest {
        id: "r1".into(),
        name: None,
        worktree_mode: Some(7),
        local_subfolder: None,
        custom_path: None,
        setup_script: None,
        auto_gitignore: None,
    })
    .unwrap_err();
    assert_eq!(err.code, RpcCode::InvalidArgument);
    assert_eq!(err.message, "Invalid worktree_mode value: 7");
}

#[test]
fn partial_update_merges_into_row() {
    let existing = row("r1");
    let u = RepoUpdate {
        name: Some("renamed".into()),
        worktree_mode: None,
        local_subfolder: None,
        custom_path: Some(None),
        setup_script: None,
        auto_gitignore: Some(false),
    };
    let r = apply_update(&existing, u, 999);
    assert_eq!(r.id, "r1");
    assert_eq!(r.name, "renamed");
    assert_eq!(r.worktree_mode, "global");
    assert_eq!(r.custom_path, None);
    assert_eq!(r.setup_script, Some("old script".to_string()));
    assert_eq!(r.auto_gitignore, 0);
    assert_eq!(r.created_at, 100);
    assert_eq!(r.last_active, 999);
}

#[test]
fn empty_update_keeps_settings() {
    let existing = row("r1");
    let u = RepoUpdate {
        name: None,
        worktree_mode: None,
        local_subfolder: None,
        custom_path: None,
        setup_script: None,
        auto_gitignore: None,
    };
    let r = apply_update(&existing, u, 5);
    assert_eq!(r.name, existing.name);
    assert_eq!(r.custom_path, existing.custom_path);
    assert_eq!(r.setup_script, existing.setup_script);
    assert_eq!(r.auto_gitignore, 1);
    assert_eq!(r.last_active, 5);
}

#[test]
fn scan_steps() {
    assert_eq!(scan_step(".git", true, false), ScanStep::FoundRepo);
    assert_eq!(scan_step(".hidden", true, false), ScanStep::Skip);
    assert_eq!(scan_step("node_modules", true, false), ScanStep::Skip);
    assert_eq!(scan_step("target", true, false), ScanStep::Skip);
    assert_eq!(scan_step("src", true, false), ScanStep::Descend);
    assert_eq!(scan_step("src", false, false), ScanStep::Skip);
    assert_eq!(scan_step("src", true, true), ScanStep::Skip);
    assert_eq!(scan_depth(0), 2);
    assert_eq!(scan_depth(5), 5);
}

#[test]
fn scan_repos_empty_path_returns_error() {
    let err = check_scan_path("", false).unwrap_err();
    assert_eq!(err.code, RpcCode::InvalidArgument);
    assert_eq!(err.message, "scan_path is required");
    let err = check_scan_path("/missing", false).unwrap_err();
    assert_eq!(err.code, RpcCode::NotFound);
    assert_eq!(err.message, "Directory not found: /missing");
    assert!(check_scan_path("/here", true).is_ok());
}

#[test]
fn scanned_repos_get_defaults() {
    let n = scanned_repo("/scan/repo-a".to_string());
    assert_eq!(n.name, "repo-a");
    assert_eq!(n.worktree_mode, "global");
    assert_eq!(n.local_subfolder, ".worktree");
    assert!(n.auto_gitignore);
}

#[test]
fn applying_an_update_twice_is_applying_it_once() {
    let change = || RepoUpdate {
        name: Some("twice".into()),
        worktree_mode: Some("local".into()),
        local_subfolder: None,
        custom_path: Some(Some("/p".into())),
        setup_script: Some(None),
        auto_gitignore: Some(false),
    };
    let once = apply_update(&row("r1"), change(), 7);
    let twice = apply_update(&apply_update(&row("r1"), change(), 3), change(), 7);
    assert_eq!(once.name, twice.name);
    assert_eq!(once.worktree_mode, twice.worktree_mode);
    assert_eq!(once.local_subfolder, twice.local_subfolder);
    assert_eq!(once.custom_path, twice.custom_path);
    assert_eq!(once.setup_script, twice.setup_script);
    assert_eq!(once.auto_gitignore, twice.auto_gitignore);
    assert_eq!(once.last_active, twice.last_active);
    assert_eq!(twice.id, "r1");
    assert_eq!(twice.repo_path, "/repo");
    assert_eq!(twice.created_at, 100);
}
