//! GitLab API records and their conversion into service values: state
//! names to enumeration codes and back, and record-to-info mapping.
use vstd::prelude::*;

use crate::text::same_text;
use crate::timestamp::{parse_timestamp, rfc3339_in_range, rfc3339_seconds, Timestamp};

verus! {

// ---------------------------------------------------------------------------
// API records
// ---------------------------------------------------------------------------

/// A user reference (the fields the service reads).
#[derive(Debug, Clone)]
pub struct GitLabUser {
    pub username: String,
}

/// A milestone reference (the fields the service reads).
#[derive(Debug, Clone)]
pub struct GitLabMilestone {
    pub title: String,
}

/// A merge request as the API returns it.
#[derive(Debug, Clone)]
pub struct MergeRequest {
    pub id: u64,
    pub iid: u64,
    pub title: String,
    pub description: Option<String>,
    pub state: String,
    pub source_branch: String,
    pub target_branch: String,
    pub author: GitLabUser,
    pub labels: Vec<String>,
    pub created_at: String,
    pub updated_at: String,
    pub web_url: String,
    pub draft: bool,
    pub merge_status: Option<String>,
    pub assignee: Option<GitLabUser>,
    pub assignees: Vec<GitLabUser>,
    pub reviewers: Vec<GitLabUser>,
    pub milestone: Option<GitLabMilestone>,
}

/// A pipeline as the API returns it.
#[derive(Debug, Clone)]
pub struct Pipeline {
    pub id: u64,
    pub status: String,
    pub ref_name: String,
    pub sha: String,
    pub source: Option<String>,
    pub created_at: String,
    pub updated_at: String,
    pub web_url: String,
}

/// An issue as the API returns it.
#[derive(Debug, Clone)]
pub struct Issue {
    pub id: u64,
    pub iid: u64,
    pub title: String,
    pub description: Option<String>,
    pub state: String,
    pub author: GitLabUser,
    pub labels: Vec<String>,
    pub created_at: String,
    pub updated_at: String,
    pub web_url: String,
    pub confidential: bool,
    pub assignee: Option<GitLabUser>,
    pub assignees: Vec<GitLabUser>,
    pub milestone: Option<GitLabMilestone>,
}

// ---------------------------------------------------------------------------
// Service enumerations
// ---------------------------------------------------------------------------

/// The state of a merge request.
#[derive(Clone, Copy, Debug, PartialEq, Eq, Structural)]
pub enum MergeRequestState {
    Unspecified,
    Opened,
    Closed,
    Merged,
    Locked,
}

/// The status of a pipeline.
#[derive(Clone, Copy, Debug, PartialEq, Eq, Structural)]
pub enum PipelineStatus {
    Unspecified,
    Created,
    WaitingForResource,
    Preparing,
    Pending,
    Running,
    Success,
    Failed,
    Canceled,
    Skipped,
    Manual,
    Scheduled,
}

/// The state of an issue.
#[derive(Clone, Copy, Debug, PartialEq, Eq, Structural)]
pub enum IssueState {
    Unspecified,
    Opened,
    Closed,
}

/// Whether a merge request can be merged.
#[derive(Clone, Copy, Debug, PartialEq, Eq, Structural)]
pub enum MergeStatus {
    Unspecified,
    CanBeMerged,
    CannotBeMerged,
    Checking,
    Unchecked,
}

impl MergeRequestState {
    /// The wire code: the variant's position, starting at 0.
    pub open spec fn code(self) -> i32 {
        match self {
            MergeRequestState::Unspecified => 0,
            MergeRequestState::Opened => 1,
            MergeRequestState::Closed => 2,
            MergeRequestState::Merged => 3,
            MergeRequestState::Locked => 4,
        }
    }

    pub fn as_i32(self) -> (r: i32)
        ensures
            r == self.code(),
    {
        match self {
            MergeRequestState::Unspecified => 0,
            MergeRequestState::Opened => 1,
            MergeRequestState::Closed => 2,
            MergeRequestState::Merged => 3,
            MergeRequestState::Locked => 4,
        }
    }

    /// The state with a wire code, `Unspecified` for an unknown code.
    pub fn from_i32(v: i32) -> (r: Self)
        ensures
            (0 <= v <= 4) ==> r.code() == v,
            !(0 <= v <= 4) ==> r == MergeRequestState::Unspecified,
    {
        if v == 1 {
            MergeRequestState::Opened
        } else if v == 2 {
            MergeRequestState::Closed
        } else if v == 3 {
            MergeRequestState::Merged
        } else if v == 4 {
            MergeRequestState::Locked
        } else {
            MergeRequestState::Unspecified
        }
    }

    /// The API's name for the state; none for `Unspecified`.
    pub open spec fn name(self) -> Option<Seq<char>> {
        match self {
            MergeRequestState::Unspecified => None,
            MergeRequestState::Opened => Some("opened"@),
            MergeRequestState::Closed => Some("closed"@),
            MergeRequestState::Merged => Some("merged"@),
            MergeRequestState::Locked => Some("locked"@),
        }
    }
}

impl PipelineStatus {
    /// The wire code: the variant's position, starting at 0.
    pub open spec fn code(self) -> i32 {
        match self {
            PipelineStatus::Unspecified => 0,
            PipelineStatus::Created => 1,
            PipelineStatus::WaitingForResource => 2,
            PipelineStatus::Preparing => 3,
            PipelineStatus::Pending => 4,
            PipelineStatus::Running => 5,
            PipelineStatus::Success => 6,
            PipelineStatus::Failed => 7,
            PipelineStatus::Canceled => 8,
            PipelineStatus::Skipped => 9,
            PipelineStatus::Manual => 10,
            PipelineStatus::Scheduled => 11,
        }
    }

    pub fn as_i32(self) -> (r: i32)
        ensures
            r == self.code(),
    {
        match self {
            PipelineStatus::Unspecified => 0,
            PipelineStatus::Created => 1,
            PipelineStatus::WaitingForResource => 2,
            PipelineStatus::Preparing => 3,
            PipelineStatus::Pending => 4,
            PipelineStatus::Running => 5,
            PipelineStatus::Success => 6,
            PipelineStatus::Failed => 7,
            PipelineStatus::Canceled => 8,
            PipelineStatus::Skipped => 9,
            PipelineStatus::Manual => 10,
            PipelineStatus::Scheduled => 11,
        }
    }

    /// The status with a wire code, `Unspecified` for an unknown code.
    pub fn from_i32(v: i32) -> (r: Self)
        ensures
            (0 <= v <= 11) ==> r.code() == v,
            !(0 <= v <= 11) ==> r == PipelineStatus::Unspecified,
    {
        if v == 1 {
            PipelineStatus::Created
        } else if v == 2 {
            PipelineStatus::WaitingForResource
        } else if v == 3 {
            PipelineStatus::Preparing
        } else if v == 4 {
            PipelineStatus::Pending
        } else if v == 5 {
            PipelineStatus::Running
        } else if v == 6 {
            PipelineStatus::Success
        } else if v == 7 {
            PipelineStatus::Failed
        } else if v == 8 {
            PipelineStatus::Canceled
        } else if v == 9 {
            PipelineStatus::Skipped
        } else if v == 10 {
            PipelineStatus::Manual
        } else if v == 11 {
            PipelineStatus::Scheduled
        } else {
            PipelineStatus::Unspecified
        }
    }

    /// The API's name for the status; none for `Unspecified`.
    pub open spec fn name(self) -> Option<Seq<char>> {
        match self {
            PipelineStatus::Unspecified => None,
            PipelineStatus::Created => Some("created"@),
            PipelineStatus::WaitingForResource => Some("waiting_for_resource"@),
            PipelineStatus::Preparing => Some("preparing"@),
            PipelineStatus::Pending => Some("pending"@),
            PipelineStatus::Running => Some("running"@),
            PipelineStatus::Success => Some("success"@),
            PipelineStatus::Failed => Some("failed"@),
            PipelineStatus::Canceled => Some("canceled"@),
            PipelineStatus::Skipped => Some("skipped"@),
            PipelineStatus::Manual => Some("manual"@),
            PipelineStatus::Scheduled => Some("scheduled"@),
        }
    }
}

impl IssueState {
    /// The wire code: the variant's position, starting at 0.
    pub open spec fn code(self) -> i32 {
        match self {
            IssueState::Unspecified => 0,
            IssueState::Opened => 1,
            IssueState::Closed => 2,
        }
    }

    pub fn as_i32(self) -> (r: i32)
        ensures
            r == self.code(),
    {
        match self {
            IssueState::Unspecified => 0,
            IssueState::Opened => 1,
            IssueState::Closed => 2,
        }
    }

    /// The state with a wire code, `Unspecified` for an unknown code.
    pub fn from_i32(v: i32) -> (r: Self)
        ensures
            (0 <= v <= 2) ==> r.code() == v,
            !(0 <= v <= 2) ==> r == IssueState::Unspecified,
    {
        if v == 1 {
            IssueState::Opened
        } else if v == 2 {
            IssueState::Closed
        } else {
            IssueState::Unspecified
        }
    }

    /// The API's name for the state; none for `Unspecified`.
    pub open spec fn name(self) -> Option<Seq<char>> {
        match self {
            IssueState::Unspecified => None,
            IssueState::Opened => Some("opened"@),
            IssueState::Closed => Some("closed"@),
        }
    }
}

impl MergeStatus {
    /// The wire code: the variant's position, starting at 0.
    pub open spec fn code(self) -> i32 {
        match self {
            MergeStatus::Unspecified => 0,
            MergeStatus::CanBeMerged => 1,
            MergeStatus::CannotBeMerged => 2,
            MergeStatus::Checking => 3,
            MergeStatus::Unchecked => 4,
        }
    }

    pub fn as_i32(self) -> (r: i32)
        ensures
            r == self.code(),
    {
        match self {
            MergeStatus::Unspecified => 0,
            MergeStatus::CanBeMerged => 1,
            MergeStatus::CannotBeMerged => 2,
            MergeStatus::Checking => 3,
            MergeStatus::Unchecked => 4,
        }
    }
}

// ---------------------------------------------------------------------------
// Names and codes
// ---------------------------------------------------------------------------

/// The API's name for a merge request state; `None` for `Unspecified`.
pub fn mr_state_to_str(state: MergeRequestState) -> (r: Option<&'static str>)
    ensures
        match r {
            Some(t) => state.name() == Some(t@),
            None => state.name() is None,
        },
{
    match state {
        MergeRequestState::Unspecified => None,
        MergeRequestState::Opened => Some("opened"),
        MergeRequestState::Closed => Some("closed"),
        MergeRequestState::Merged => Some("merged"),
        MergeRequestState::Locked => Some("locked"),
    }
}

/// The API's name for a pipeline status; `None` for `Unspecified`.
pub fn pipeline_status_to_str(status: PipelineStatus) -> (r: Option<&'static str>)
    ensures
        match r {
            Some(t) => status.name() == Some(t@),
            None => status.name() is None,
        },
{
    match status {
        PipelineStatus::Unspecified => None,
        PipelineStatus::Created => Some("created"),
        PipelineStatus::WaitingForResource => Some("waiting_for_resource"),
        PipelineStatus::Preparing => Some("preparing"),
        PipelineStatus::Pending => Some("pending"),
        PipelineStatus::Running => Some("running"),
        PipelineStatus::Success => Some("success"),
        PipelineStatus::Failed => Some("failed"),
        PipelineStatus::Canceled => Some("canceled"),
        PipelineStatus::Skipped => Some("skipped"),
        PipelineStatus::Manual => Some("manual"),
        PipelineStatus::Scheduled => Some("scheduled"),
    }
}

/// The API's name for an issue state; `None` for `Unspecified`.
pub fn issue_state_to_str(state: IssueState) -> (r: Option<&'static str>)
    ensures
        match r {
            Some(t) => state.name() == Some(t@),
            None => state.name() is None,
        },
{
    match state {
        IssueState::Unspecified => None,
        IssueState::Opened => Some("opened"),
        IssueState::Closed => Some("closed"),
    }
}

/// The merge request state that an API name stands for.
pub open spec fn mr_state_named(s: Seq<char>) -> MergeRequestState {
    if s == "opened"@ {
        MergeRequestState::Opened
    } else if s == "closed"@ {
        MergeRequestState::Closed
    } else if s == "merged"@ {
        MergeRequestState::Merged
    } else if s == "locked"@ {
        MergeRequestState::Locked
    } else {
        MergeRequestState::Unspecified
    }
}

/// The pipeline status that an API name stands for.
pub open spec fn pipeline_status_named(s: Seq<char>) -> PipelineStatus {
    if s == "created"@ {
        PipelineStatus::Created
    } else if s == "waiting_for_resource"@ {
        PipelineStatus::WaitingForResource
    } else if s == "preparing"@ {
        PipelineStatus::Preparing
    } else if s == "pending"@ {
        PipelineStatus::Pending
    } else if s == "running"@ {
        PipelineStatus::Running
    } else if s == "success"@ {
        PipelineStatus::Success
    } else if s == "failed"@ {
        PipelineStatus::Failed
    } else if s == "canceled"@ {
        PipelineStatus::Canceled
    } else if s == "skipped"@ {
        PipelineStatus::Skipped
    } else if s == "manual"@ {
        PipelineStatus::Manual
    } else if s == "scheduled"@ {
        PipelineStatus::Scheduled
    } else {
        PipelineStatus::Unspecified
    }
}

/// The merge status that an API name stands for.
pub open spec fn merge_status_named(s: Seq<char>) -> MergeStatus {
    if s == "can_be_merged"@ {
        MergeStatus::CanBeMerged
    } else if s == "cannot_be_merged"@ {
        MergeStatus::CannotBeMerged
    } else if s == "checking"@ {
        MergeStatus::Checking
    } else if s == "unchecked"@ {
        MergeStatus::Unchecked
    } else {
        MergeStatus::Unspecified
    }
}

/// The issue state that an API name stands for.
pub open spec fn issue_state_named(s: Seq<char>) -> IssueState {
    if s == "opened"@ {
        IssueState::Opened
    } else if s == "closed"@ {
        IssueState::Closed
    } else {
        IssueState::Unspecified
    }
}

/// The wire code of the merge request state an API name stands for.
pub fn str_to_mr_state(s: &str) -> (r: i32)
    ensures
        r == mr_state_named(s@).code(),
{
    if same_text(s, "opened") {
        MergeRequestState::Opened.as_i32()
    } else if same_text(s, "closed") {
        MergeRequestState::Closed.as_i32()
    } else if same_text(s, "merged") {
        MergeRequestState::Merged.as_i32()
    } else if same_text(s, "locked") {
        MergeRequestState::Locked.as_i32()
    } else {
        MergeRequestState::Unspecified.as_i32()
    }
}

/// The wire code of the pipeline status an API name stands for.
pub fn str_to_pipeline_status(s: &str) -> (r: i32)
    ensures
        r == pipeline_status_named(s@).code(),
{
    if same_text(s, "created") {
        PipelineStatus::Created.as_i32()
    } else if same_text(s, "waiting_for_resource") {
        PipelineStatus::WaitingForResource.as_i32()
    } else if same_text(s, "preparing") {
        PipelineStatus::Preparing.as_i32()
    } else if same_text(s, "pending") {
        PipelineStatus::Pending.as_i32()
    } else if same_text(s, "running") {
        PipelineStatus::Running.as_i32()
    } else if same_text(s, "success") {
        PipelineStatus::Success.as_i32()
    } else if same_text(s, "failed") {
        PipelineStatus::Failed.as_i32()
    } else if same_text(s, "canceled") {
        PipelineStatus::Canceled.as_i32()
    } else if same_text(s, "skipped") {
        PipelineStatus::Skipped.as_i32()
    } else if same_text(s, "manual") {
        PipelineStatus::Manual.as_i32()
    } else if same_text(s, "scheduled") {
        PipelineStatus::Scheduled.as_i32()
    } else {
        PipelineStatus::Unspecified.as_i32()
    }
}

/// The wire code of the merge status an API name stands for.
pub fn str_to_merge_status(s: &str) -> (r: i32)
    ensures
        r == merge_status_named(s@).code(),
{
    if same_text(s, "can_be_merged") {
        MergeStatus::CanBeMerged.as_i32()
    } else if same_text(s, "cannot_be_merged") {
        MergeStatus::CannotBeMerged.as_i32()
    } else if same_text(s, "checking") {
        MergeStatus::Checking.as_i32()
    } else if same_text(s, "unchecked") {
        MergeStatus::Unchecked.as_i32()
    } else {
        MergeStatus::Unspecified.as_i32()
    }
}

/// The wire code of the issue state an API name stands for.
pub fn str_to_issue_state(s: &str) -> (r: i32)
    ensures
        r == issue_state_named(s@).code(),
{
    if same_text(s, "opened") {
        IssueState::Opened.as_i32()
    } else if same_text(s, "closed") {
        IssueState::Closed.as_i32()
    } else {
        IssueState::Unspecified.as_i32()
    }
}

/// The page size and page number for a listing: a limit of 0 means 20 per
/// page; an offset of 0 means the first page, otherwise the page that holds
/// the offset (pages counted from 1).
pub fn page_window(limit: u32, offset: u32) -> (r: (u32, u32))
    requires
        offset == 0 || offset / (if limit == 0 {
            20
        } else {
            limit
        }) < u32::MAX,
    ensures
        r.0 == (if limit == 0 {
            20
        } else {
            limit
        }),
        r.1 == (if offset == 0 {
            1
        } else {
            offset / r.0 + 1
        }),
{
    let per_page: u32 = if limit == 0 {
        20
    } else {
        limit
    };
    let page: u32 = if offset == 0 {
        1
    } else {
        offset / per_page + 1
    };
    (per_page, page)
}

// ---------------------------------------------------------------------------
// Record conversion
// ---------------------------------------------------------------------------

/// A merge request as the service reports it.
#[derive(Debug)]
pub struct MergeRequestInfo {
    pub id: u64,
    pub iid: u64,
    pub title: String,
    pub description: String,
    pub state: i32,
    pub source_branch: String,
    pub target_branch: String,
    pub author: String,
    pub labels: Vec<String>,
    pub created_at: Option<Timestamp>,
    pub updated_at: Option<Timestamp>,
    pub web_url: String,
    pub draft: bool,
    pub merge_status: i32,
    pub assignee: String,
    pub assignees: Vec<String>,
    pub reviewers: Vec<String>,
    pub milestone: String,
}

/// A pipeline as the service reports it.
#[derive(Debug)]
pub struct PipelineInfo {
    pub id: u64,
    pub status: i32,
    pub ref_name: String,
    pub sha: String,
    pub source: String,
    pub created_at: Option<Timestamp>,
    pub updated_at: Option<Timestamp>,
    pub web_url: String,
}

/// An issue as the service reports it.
#[derive(Debug)]
pub struct IssueInfo {
    pub id: u64,
    pub iid: u64,
    pub title: String,
    pub description: String,
    pub state: i32,
    pub author: String,
    pub labels: Vec<String>,
    pub created_at: Option<Timestamp>,
    pub updated_at: Option<Timestamp>,
    pub web_url: String,
    pub confidential: bool,
    pub assignee: String,
    pub assignees: Vec<String>,
    pub milestone: String,
}

/// The timestamp a text stands for, if it parses.
pub open spec fn timestamp_of(s: Seq<char>) -> Option<Timestamp> {
    match rfc3339_seconds(s) {
        Some(v) => Some(Timestamp { seconds: v as i64, nanos: 0 }),
        None => None,
    }
}

/// The text of an optional string, empty when absent.
pub open spec fn or_empty(s: Option<String>) -> Seq<char> {
    match s {
        Some(t) => t@,
        None => Seq::empty(),
    }
}

/// The user name of an optional user, empty when absent.
pub open spec fn username_or_empty(u: Option<GitLabUser>) -> Seq<char> {
    match u {
        Some(u) => u.username@,
        None => Seq::empty(),
    }
}

/// The title of an optional milestone, empty when absent.
pub open spec fn title_or_empty(m: Option<GitLabMilestone>) -> Seq<char> {
    match m {
        Some(m) => m.title@,
        None => Seq::empty(),
    }
}

/// The user names of a list of users, in order.
pub open spec fn usernames(us: Seq<GitLabUser>) -> Seq<String> {
    us.map_values(|u: GitLabUser| u.username)
}

fn optional_timestamp(s: &String) -> (r: Option<Timestamp>)
    requires
        rfc3339_in_range(s@),
    ensures
        r == timestamp_of(s@),
{
    parse_timestamp(s.as_str())
}

fn text_or_empty(s: Option<String>) -> (r: String)
    ensures
        r@ == or_empty(s),
{
    match s {
        Some(t) => t,
        None => String::new(),
    }
}

fn name_of_user(u: Option<GitLabUser>) -> (r: String)
    ensures
        r@ == username_or_empty(u),
{
    match u {
        Some(u) => u.username,
        None => String::new(),
    }
}

fn title_of_milestone(m: Option<GitLabMilestone>) -> (r: String)
    ensures
        r@ == title_or_empty(m),
{
    match m {
        Some(m) => m.title,
        None => String::new(),
    }
}

fn collect_usernames(us: &Vec<GitLabUser>) -> (r: Vec<String>)
    ensures
        r@ == usernames(us@),
{
    let mut r: Vec<String> = Vec::new();
    let mut i: usize = 0;
    while i < us.len()
        invariant
            i <= us.len(),
            r@ == usernames(us@.take(i as int)),
        decreases us.len() - i,
    {
        r.push(us[i].username.clone());
        assert(usernames(us@.take(i as int + 1)) =~= usernames(us@.take(i as int)).push(us@[i as int].username));
        i = i + 1;
    }
    assert(us@.take(us.len() as int) =~= us@);
    r
}

/// `info` reports `mr`.
pub open spec fn mr_info_reports(info: MergeRequestInfo, mr: MergeRequest) -> bool {
    &&& info.id == mr.id
    &&& info.iid == mr.iid
    &&& info.title == mr.title
    &&& info.description@ == or_empty(mr.description)
    &&& info.state == mr_state_named(mr.state@).code()
    &&& info.source_branch == mr.source_branch
    &&& info.target_branch == mr.target_branch
    &&& info.author == mr.author.username
    &&& info.labels == mr.labels
    &&& info.created_at == timestamp_of(mr.created_at@)
    &&& info.updated_at == timestamp_of(mr.updated_at@)
    &&& info.web_url == mr.web_url
    &&& info.draft == mr.draft
    &&& info.merge_status == match mr.merge_status {
        Some(s) => merge_status_named(s@).code(),
        None => 0,
    }
    &&& info.assignee@ == username_or_empty(mr.assignee)
    &&& info.assignees@ == usernames(mr.assignees@)
    &&& info.reviewers@ == usernames(mr.reviewers@)
    &&& info.milestone@ == title_or_empty(mr.milestone)
}

/// Converts a merge request record into the service's report of it.
pub fn to_mr_info(mr: MergeRequest) -> (info: MergeRequestInfo)
    requires
        rfc3339_in_range(mr.created_at@),
        rfc3339_in_range(mr.updated_at@),
    ensures
        mr_info_reports(info, mr),
{
    let state = str_to_mr_state(mr.state.as_str());
    let created_at = optional_timestamp(&mr.created_at);
    let updated_at = optional_timestamp(&mr.updated_at);
    let merge_status = match &mr.merge_status {
        Some(s) => str_to_merge_status(s.as_str()),
        None => 0,
    };
    let assignees = collect_usernames(&mr.assignees);
    let reviewers = collect_usernames(&mr.reviewers);
    MergeRequestInfo {
        id: mr.id,
        iid: mr.iid,
        title: mr.title,
        description: text_or_empty(mr.description),
        state,
        source_branch: mr.source_branch,
        target_branch: mr.target_branch,
        author: mr.author.username,
        labels: mr.labels,
        created_at,
        updated_at,
        web_url: mr.web_url,
        draft: mr.draft,
        merge_status,
        assignee: name_of_user(mr.assignee),
        assignees,
        reviewers,
        milestone: title_of_milestone(mr.milestone),
    }
}

/// `info` reports `p`.
pub open spec fn pipeline_info_reports(info: PipelineInfo, p: Pipeline) -> bool {
    &&& info.id == p.id
    &&& info.status == pipeline_status_named(p.status@).code()
    &&& info.ref_name == p.ref_name
    &&& info.sha == p.sha
    &&& info.source@ == or_empty(p.source)
    &&& info.created_at == timestamp_of(p.created_at@)
    &&& info.updated_at == timestamp_of(p.updated_at@)
    &&& info.web_url == p.web_url
}

/// Converts a pipeline record into the service's report of it.
pub fn to_pipeline_info(p: Pipeline) -> (info: PipelineInfo)
    requires
        rfc3339_in_range(p.created_at@),
        rfc3339_in_range(p.updated_at@),
    ensures
        pipeline_info_reports(info, p),
{
    let status = str_to_pipeline_status(p.status.as_str());
    let created_at = optional_timestamp(&p.created_at);
    let updated_at = optional_timestamp(&p.updated_at);
    PipelineInfo {
        id: p.id,
        status,
        ref_name: p.ref_name,
        sha: p.sha,
        source: text_or_empty(p.source),
        created_at,
        updated_at,
        web_url: p.web_url,
    }
}

/// `info` reports `issue`.
pub open spec fn issue_info_reports(info: IssueInfo, issue: Issue) -> bool {
    &&& info.id == issue.id
    &&& info.iid == issue.iid
    &&& info.title == issue.title
    &&& info.description@ == or_empty(issue.description)
    &&& info.state == issue_state_named(issue.state@).code()
    &&& info.author == issue.author.username
    &&& info.labels == issue.labels
    &&& info.created_at == timestamp_of(issue.created_at@)
    &&& info.updated_at == timestamp_of(issue.updated_at@)
    &&& info.web_url == issue.web_url
    &&& info.confidential == issue.confidential
    &&& info.assignee@ == username_or_empty(issue.assignee)
    &&& info.assignees@ == usernames(issue.assignees@)
    &&& info.milestone@ == title_or_empty(issue.milestone)
}

/// Converts an issue record into the service's report of it.
pub fn to_issue_info(issue: Issue) -> (info: IssueInfo)
    requires
        rfc3339_in_range(issue.created_at@),
        rfc3339_in_range(issue.updated_at@),
    ensures
        issue_info_reports(info, issue),
{
    let state = str_to_issue_state(issue.state.as_str());
    let created_at = optional_timestamp(&issue.created_at);
    let updated_at = optional_timestamp(&issue.updated_at);
    let assignees = collect_usernames(&issue.assignees);
    IssueInfo {
        id: issue.id,
        iid: issue.iid,
        title: issue.title,
        description: text_or_empty(issue.description),
        state,
        author: issue.author.username,
        labels: issue.labels,
        created_at,
        updated_at,
        web_url: issue.web_url,
        confidential: issue.confidential,
        assignee: name_of_user(issue.assignee),
        assignees,
        milestone: title_of_milestone(issue.milestone),
    }
}


// ---------------------------------------------------------------------------
// Laws of names
// ---------------------------------------------------------------------------

/// Reading a merge request state's API name back gives that state (and its
/// wire code).
pub proof fn law_mr_state_name_round_trip(st: MergeRequestState)
    ensures
        st.name() matches Some(n) ==> mr_state_named(n) == st && mr_state_named(n).code() == st.code(),
{
    reveal_strlit("opened");
    reveal_strlit("closed");
    assert("opened"@[0] == 'o' && "opened"@[1] == 'p');
    assert("closed"@[0] == 'c' && "closed"@[1] == 'l');
    reveal_strlit("merged");
    reveal_strlit("locked");
    assert("opened"@[0] == 'o' && "opened"@[1] == 'p');
    assert("closed"@[0] == 'c' && "closed"@[1] == 'l');
    assert("merged"@[0] == 'm' && "merged"@[1] == 'e');
    assert("locked"@[0] == 'l' && "locked"@[1] == 'o');
}

/// Reading a pipeline status's API name back gives that status (and its
/// wire code).
pub proof fn law_pipeline_status_name_round_trip(st: PipelineStatus)
    ensures
        st.name() matches Some(n) ==> pipeline_status_named(n) == st && pipeline_status_named(n).code() == st.code(),
{
    reveal_strlit("created");
    reveal_strlit("waiting_for_resource");
    reveal_strlit("preparing");
    reveal_strlit("pending");
    reveal_strlit("running");
    reveal_strlit("success");
    reveal_strlit("failed");
    reveal_strlit("canceled");
    reveal_strlit("skipped");
    reveal_strlit("manual");
    reveal_strlit("scheduled");
    assert("created"@[0] == 'c' && "created"@[1] == 'r');
    assert("waiting_for_resource"@[0] == 'w' && "waiting_for_resource"@[1] == 'a');
    assert("preparing"@[0] == 'p' && "preparing"@[1] == 'r');
    assert("pending"@[0] == 'p' && "pending"@[1] == 'e');
    assert("running"@[0] == 'r' && "running"@[1] == 'u');
    assert("success"@[0] == 's' && "success"@[1] == 'u');
    assert("failed"@[0] == 'f' && "failed"@[1] == 'a');
    assert("canceled"@[0] == 'c' && "canceled"@[1] == 'a');
    assert("skipped"@[0] == 's' && "skipped"@[1] == 'k');
    assert("manual"@[0] == 'm' && "manual"@[1] == 'a');
    assert("scheduled"@[0] == 's' && "scheduled"@[1] == 'c');
}

/// Reading an issue state's API name back gives that state (and its wire
/// code).
pub proof fn law_issue_state_name_round_trip(st: IssueState)
    ensures
        st.name() matches Some(n) ==> issue_state_named(n) == st && issue_state_named(n).code() == st.code(),
{
    reveal_strlit("opened");
    reveal_strlit("closed");
    assert("opened"@[0] == 'o' && "closed"@[0] == 'c');
    match st {
        IssueState::Closed => {
            assert("closed"@ != "opened"@);
        },
        _ => {},
    }
}

} // verus!
