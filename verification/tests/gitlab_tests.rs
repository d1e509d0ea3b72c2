use betcode_daemon::gitlab::{GitLabClient, GitLabConfig, GitLabError, RpcCode, to_status};
use betcode_daemon::gitlab_convert::{
    issue_state_to_str, mr_state_to_str, page_window, pipeline_status_to_str, str_to_issue_state,
    str_to_merge_status, str_to_mr_state, str_to_pipeline_status, to_issue_info, to_mr_info, to_pipeline_info,
    GitLabMilestone, GitLabUser, Issue, IssueState, MergeRequest, MergeRequestState, MergeStatus, Pipeline,
    PipelineStatus,
};

fn config(base_url: &str, token: &str) -> GitLabConfig {
    GitLabConfig { base_url: base_url.to_string(), token: token.to_string() }
}

fn user(name: &str) -> GitLabUser {
    GitLabUser { username: name.to_string() }
}

#[test]
fn empty_base_url_returns_config_error() {
    let err = GitLabClient::new(&config("", "tok")).unwrap_err();
    assert!(matches!(err, GitLabError::Config(_)));
}

#[test]
fn empty_token_returns_config_error() {
    let err = GitLabClient::new(&config("https://gitlab.com", "")).unwrap_err();
    assert!(matches!(err, GitLabError::Config(_)));
}

#[test]
fn valid_config_creates_client() {
    assert!(GitLabClient::new(&config("https://gitlab.com", "glpat-test-token")).is_ok());
}

#[test]
fn trailing_slash_stripped_from_base_url() {
    let client = GitLabClient::new(&config("https://gitlab.com/", "glpat-test")).unwrap();
    let url = client.api_url("/projects/1/merge_requests");
    assert!(url.starts_with("https://gitlab.com/api/v4"));
    assert!(!url.contains("//api"));
}

#[test]
fn api_url_constructed_correctly() {
    let client = GitLabClient::new(&config("https://gitlab.com", "glpat-test")).unwrap();
    assert_eq!(
        client.api_url("/projects/123/merge_requests"),
        "https://gitlab.com/api/v4/projects/123/merge_requests"
    );
}

#[test]
fn encode_project_handles_slashes() {
    assert_eq!(GitLabClient::encode_project("group/project"), "group%2Fproject");
    assert_eq!(GitLabClient::encode_project("group/sub/project"), "group%2Fsub%2Fproject");
}

#[test]
fn encode_project_no_slash_unchanged() {
    assert_eq!(GitLabClient::encode_project("12345"), "12345");
}

#[test]
fn gitlab_error_display_api() {
    let err = GitLabError::Api { status: 404, message: "Not Found".into() };
    assert_eq!(err.to_string(), "GitLab API error (404): Not Found");
}

#[test]
fn gitlab_error_display_config() {
    let err = GitLabError::Config("bad".into());
    assert_eq!(err.to_string(), "Configuration error: bad");
}

#[test]
fn mr_state_roundtrip() {
    assert_eq!(mr_state_to_str(MergeRequestState::Opened), Some("opened"));
    assert_eq!(mr_state_to_str(MergeRequestState::Unspecified), None);
    assert_eq!(str_to_mr_state("opened"), MergeRequestState::Opened.as_i32());
    assert_eq!(str_to_mr_state("unknown"), MergeRequestState::Unspecified.as_i32());
}

#[test]
fn pipeline_status_roundtrip() {
    assert_eq!(pipeline_status_to_str(PipelineStatus::Success), Some("success"));
    assert_eq!(pipeline_status_to_str(PipelineStatus::Unspecified), None);
    assert_eq!(str_to_pipeline_status("running"), PipelineStatus::Running.as_i32());
}

#[test]
fn issue_state_roundtrip() {
    assert_eq!(issue_state_to_str(IssueState::Opened), Some("opened"));
    assert_eq!(issue_state_to_str(IssueState::Unspecified), None);
    assert_eq!(str_to_issue_state("closed"), IssueState::Closed.as_i32());
}

#[test]
fn merge_status_mapping() {
    assert_eq!(str_to_merge_status("can_be_merged"), MergeStatus::CanBeMerged.as_i32());
    assert_eq!(str_to_merge_status("cannot_be_merged"), MergeStatus::CannotBeMerged.as_i32());
    assert_eq!(str_to_merge_status("unknown"), MergeStatus::Unspecified.as_i32());
}

#[test]
fn to_status_maps_401_to_unauthenticated() {
    let err = GitLabError::Api { status: 401, message: "Unauthorized".into() };
    assert_eq!(to_status(err).code, RpcCode::Unauthenticated);
}

#[test]
fn to_status_maps_403_to_permission_denied() {
    let err = GitLabError::Api { status: 403, message: "Forbidden".into() };
    assert_eq!(to_status(err).code, RpcCode::PermissionDenied);
}

#[test]
fn to_status_maps_404_to_not_found() {
    let err = GitLabError::Api { status: 404, message: "Not Found".into() };
    assert_eq!(to_status(err).code, RpcCode::NotFound);
}

#[test]
fn to_status_maps_config_to_failed_precondition() {
    let err = GitLabError::Config("missing".into());
    assert_eq!(to_status(err).code, RpcCode::FailedPrecondition);
}

#[test]
fn to_mr_info_converts_full_mr() {
    let mr = MergeRequest {
        id: 1,
        iid: 42,
        title: "Test".into(),
        description: Some("desc".into()),
        state: "opened".into(),
        source_branch: "feat".into(),
        target_branch: "main".into(),
        author: user("alice"),
        labels: vec!["bug".into()],
        created_at: "2026-01-01T00:00:00Z".into(),
        updated_at: "2026-01-02T00:00:00Z".into(),
        web_url: "https://x.com/mr/42".into(),
        draft: true,
        merge_status: Some("can_be_merged".into()),
        assignee: Some(user("bob")),
        assignees: vec![user("bob")],
        reviewers: vec![user("carol")],
        milestone: Some(GitLabMilestone { title: "v1".into() }),
    };
    let info = to_mr_info(mr);
    assert_eq!(info.iid, 42);
    assert_eq!(info.author, "alice");
    assert_eq!(info.assignee, "bob");
    assert_eq!(info.reviewers, vec!["carol"]);
    assert_eq!(info.milestone, "v1");
    assert!(info.draft);
    assert_eq!(info.merge_status, MergeStatus::CanBeMerged.as_i32());
}

#[test]
fn to_pipeline_info_converts() {
    let p = Pipeline {
        id: 100,
        status: "success".into(),
        ref_name: "main".into(),
        sha: "abc".into(),
        source: Some("push".into()),
        created_at: "2026-01-01T00:00:00Z".into(),
        updated_at: "2026-01-01T00:00:00Z".into(),
        web_url: "https://x.com/p/100".into(),
    };
    let info = to_pipeline_info(p);
    assert_eq!(info.id, 100);
    assert_eq!(info.status, PipelineStatus::Success.as_i32());
    assert_eq!(info.source, "push");
}

#[test]
fn to_issue_info_converts() {
    let issue = Issue {
        id: 200,
        iid: 10,
        title: "Bug".into(),
        description: Some("desc".into()),
        state: "opened".into(),
        author: user("alice"),
        labels: vec!["bug".into()],
        created_at: "2026-01-01T00:00:00Z".into(),
        updated_at: "2026-01-01T00:00:00Z".into(),
        web_url: "https://x.com/i/10".into(),
        confidential: true,
        assignee: None,
        assignees: vec![user("bob")],
        milestone: Some(GitLabMilestone { title: "Sprint 5".into() }),
    };
    let info = to_issue_info(issue);
    assert_eq!(info.iid, 10);
    assert!(info.confidential);
    assert_eq!(info.assignees, vec!["bob"]);
    assert_eq!(info.milestone, "Sprint 5");
}

// Own tests.

#[test]
fn invalid_token_is_refused() {
    let err = GitLabClient::new(&config("https://gitlab.com", "bad\ntoken")).unwrap_err();
    match err {
        GitLabError::Config(m) => assert_eq!(m, "Invalid token format"),
        other => panic!("unexpected {other:?}"),
    }
}

#[test]
fn list_and_item_urls() {
    let client = GitLabClient::new(&config("https://gitlab.com//", "t")).unwrap();
    assert_eq!(
        client.list_url("g/p", "merge_requests", "state", Some("opened"), 20, 3),
        "https://gitlab.com/api/v4/projects/g%2Fp/merge_requests?per_page=20&page=3&state=opened"
    );
    assert_eq!(
        client.list_url("g/p", "pipelines", "status", None, 5, 1),
        "https://gitlab.com/api/v4/projects/g%2Fp/pipelines?per_page=5&page=1"
    );
    let item = GitLabClient::item_path("issues", 7);
    assert_eq!(item, "issues/7");
    assert_eq!(client.project_url("1", &item), "https://gitlab.com/api/v4/projects/1/issues/7");
}

#[test]
fn check_status_uses_reason_phrase() {
    assert!(GitLabClient::check_status(200).is_ok());
    assert!(GitLabClient::check_status(204).is_ok());
    match GitLabClient::check_status(404) {
        Err(GitLabError::Api { status, message }) => {
            assert_eq!(status, 404);
            assert_eq!(message, "Not Found");
        }
        other => panic!("unexpected {other:?}"),
    }
    match GitLabClient::check_status(599) {
        Err(GitLabError::Api { message, .. }) => assert_eq!(message, "Unknown"),
        other => panic!("unexpected {other:?}"),
    }
}

#[test]
fn status_messages_carry_error_text() {
    let st = to_status(GitLabError::Http("timeout".into()));
    assert_eq!(st.code, RpcCode::Unavailable);
    assert_eq!(st.message, "HTTP request failed: timeout");
    let st = to_status(GitLabError::Api { status: 500, message: "Internal Server Error".into() });
    assert_eq!(st.code, RpcCode::Internal);
}

#[test]
fn paging_defaults() {
    assert_eq!(page_window(0, 0), (20, 1));
    assert_eq!(page_window(10, 25), (10, 3));
    assert_eq!(page_window(0, 40), (20, 3));
}

#[test]
fn enum_codes_from_wire() {
    assert_eq!(MergeRequestState::from_i32(3), MergeRequestState::Merged);
    assert_eq!(MergeRequestState::from_i32(99), MergeRequestState::Unspecified);
    assert_eq!(PipelineStatus::from_i32(11), PipelineStatus::Scheduled);
    assert_eq!(IssueState::from_i32(-1), IssueState::Unspecified);
}

#[test]
fn conversion_defaults_for_missing_fields() {
    let mr = MergeRequest {
        id: 1,
        iid: 1,
        title: "MR".into(),
        description: None,
        state: "weird".into(),
        source_branch: "a".into(),
        target_branch: "b".into(),
        author: user("u"),
        labels: vec![],
        created_at: "bad".into(),
        updated_at: "2026-01-01T00:00:00Z".into(),
        web_url: "w".into(),
        draft: false,
        merge_status: None,
        assignee: None,
        assignees: vec![],
        reviewers: vec![],
        milestone: None,
    };
    let info = to_mr_info(mr);
    assert_eq!(info.description, "");
    assert_eq!(info.state, 0);
    assert_eq!(info.merge_status, 0);
    assert_eq!(info.assignee, "");
    assert_eq!(info.milestone, "");
    assert!(info.created_at.is_none());
    assert_eq!(info.updated_at.unwrap().seconds, 1_767_225_600);
}
