//! The rules of the repository service: how a registration, an update and
//! a scan are checked and what they store, how a stored repository is
//! reported, and how a partial update merges into the stored row.
use vstd::prelude::*;

use crate::models::GitRepoRow;
use crate::rpc::{RpcCode, RpcStatus};
use crate::subagent::{signed_decimal, signed_decimal_string};
use crate::text::{is_substring, same_text};
use crate::timestamp::Timestamp;

verus! {

/// Where a repository's worktrees are created. On the wire the modes are
/// numbered in this order from 0.
#[derive(Clone, Copy, Debug, PartialEq, Eq, Structural)]
pub enum WorktreeMode {
    Unspecified,
    Global,
    Local,
    Custom,
}

/// The mode a stored mode name stands for.
pub open spec fn mode_of_name(s: Seq<char>) -> WorktreeMode {
    if s == "global"@ {
        WorktreeMode::Global
    } else if s == "local"@ {
        WorktreeMode::Local
    } else if s == "custom"@ {
        WorktreeMode::Custom
    } else {
        WorktreeMode::Unspecified
    }
}

/// Converts a stored mode name; an unknown name gives `Unspecified`.
pub fn worktree_mode_to_proto(s: &str) -> (r: WorktreeMode)
    ensures
        r == mode_of_name(s@),
{
    let t = s.to_owned();
    if t == "global".to_owned() {
        WorktreeMode::Global
    } else if t == "local".to_owned() {
        WorktreeMode::Local
    } else if t == "custom".to_owned() {
        WorktreeMode::Custom
    } else {
        WorktreeMode::Unspecified
    }
}

/// The stored name of a wire mode value, if it is one: unspecified (0)
/// is stored as global.
pub open spec fn mode_name(mode: i32) -> Option<Seq<char>> {
    if mode == 0 || mode == 1 {
        Some("global"@)
    } else if mode == 2 {
        Some("local"@)
    } else if mode == 3 {
        Some("custom"@)
    } else {
        None
    }
}

/// The error for a wire mode value that names no mode.
pub open spec fn invalid_mode_message(mode: i32) -> Seq<char> {
    "Invalid worktree_mode value: "@ + signed_decimal(mode as int)
}

/// Converts a wire mode value to its stored name.
pub fn worktree_mode_to_str(mode: i32) -> (r: Result<&'static str, RpcStatus>)
    ensures
        match mode_name(mode) {
            Some(n) => r matches Ok(s) && s@ == n,
            None => r matches Err(st) && st.code == RpcCode::InvalidArgument && st.message@
                == invalid_mode_message(mode),
        },
{
    if mode == 0 || mode == 1 {
        Ok("global")
    } else if mode == 2 {
        Ok("local")
    } else if mode == 3 {
        Ok("custom")
    } else {
        let mut m = "Invalid worktree_mode value: ".to_owned();
        let d = signed_decimal_string(mode as i64);
        m.append(d.as_str());
        Err(RpcStatus { code: RpcCode::InvalidArgument, message: m })
    }
}

/// A repository as the service reports it.
#[derive(Debug, Clone)]
pub struct GitRepoDetail {
    pub id: String,
    pub name: String,
    pub repo_path: String,
    pub worktree_mode: WorktreeMode,
    pub local_subfolder: String,
    /// Empty when none is set.
    pub custom_path: String,
    /// Empty when none is set.
    pub setup_script: String,
    pub auto_gitignore: bool,
    pub worktree_count: u32,
    pub created_at: Timestamp,
    pub last_active: Timestamp,
}

/// The text of an optional field, empty when it is absent.
pub open spec fn text_or_empty(o: Option<String>) -> Seq<char> {
    match o {
        Some(s) => s@,
        None => Seq::empty(),
    }
}

/// Whether `d` reports `row` with `worktree_count` worktrees.
pub open spec fn reports(row: GitRepoRow, worktree_count: u32, d: GitRepoDetail) -> bool {
    &&& d.id@ == row.id@
    &&& d.name@ == row.name@
    &&& d.repo_path@ == row.repo_path@
    &&& d.worktree_mode == mode_of_name(row.worktree_mode@)
    &&& d.local_subfolder@ == row.local_subfolder@
    &&& d.custom_path@ == text_or_empty(row.custom_path)
    &&& d.setup_script@ == text_or_empty(row.setup_script)
    &&& d.auto_gitignore == (row.auto_gitignore != 0)
    &&& d.worktree_count == worktree_count
    &&& d.created_at == Timestamp { seconds: row.created_at, nanos: 0 }
    &&& d.last_active == Timestamp { seconds: row.last_active, nanos: 0 }
}

fn text_or_blank(o: &Option<String>) -> (r: String)
    ensures
        r@ == text_or_empty(*o),
{
    match o {
        Some(s) => s.clone(),
        None => String::new(),
    }
}

/// Reports a stored repository with its worktree count.
pub fn to_detail(row: &GitRepoRow, worktree_count: u32) -> (d: GitRepoDetail)
    ensures
        reports(*row, worktree_count, d),
{
    GitRepoDetail {
        id: row.id.clone(),
        name: row.name.clone(),
        repo_path: row.repo_path.clone(),
        worktree_mode: worktree_mode_to_proto(row.worktree_mode.as_str()),
        local_subfolder: row.local_subfolder.clone(),
        custom_path: text_or_blank(&row.custom_path),
        setup_script: text_or_blank(&row.setup_script),
        auto_gitignore: row.auto_gitignore != 0,
        worktree_count,
        created_at: Timestamp { seconds: row.created_at, nanos: 0 },
        last_active: Timestamp { seconds: row.last_active, nanos: 0 },
    }
}

/// The worktree count recorded for `id`: the first entry for it, else 0.
pub open spec fn count_for(counts: Seq<(Seq<char>, u32)>, id: Seq<char>) -> u32
    decreases counts.len(),
{
    if counts.len() == 0 {
        0
    } else if counts[0].0 == id {
        counts[0].1
    } else {
        count_for(counts.drop_first(), id)
    }
}

/// The views of a list of (ID, count) pairs.
pub open spec fn counts_view(counts: Seq<(String, u32)>) -> Seq<(Seq<char>, u32)> {
    counts.map_values(|p: (String, u32)| (p.0@, p.1))
}

fn lookup_count(counts: &Vec<(String, u32)>, id: &str) -> (r: u32)
    ensures
        r == count_for(counts_view(counts@), id@),
{
    let ghost cv = counts_view(counts@);
    assert(cv.skip(0) =~= cv);
    let mut i: usize = 0;
    while i < counts.len()
        invariant
            i <= counts.len(),
            cv == counts_view(counts@),
            count_for(cv, id@) == count_for(cv.skip(i as int), id@),
        decreases counts.len() - i,
    {
        assert(cv.skip(i as int)[0] == cv[i as int]);
        assert(cv.skip(i as int).drop_first() =~= cv.skip(i as int + 1));
        if same_text(counts[i].0.as_str(), id) {
            return counts[i].1;
        }
        i = i + 1;
    }
    assert(cv.skip(i as int).len() == 0);
    0
}

/// Reports each stored repository with its worktree count from `counts`
/// (0 for a repository that has no entry there), in order.
pub fn details_with_counts(rows: &Vec<GitRepoRow>, counts: &Vec<(String, u32)>) -> (r: Vec<GitRepoDetail>)
    ensures
        r@.len() == rows@.len(),
        forall|i: int|
            0 <= i < rows@.len() ==> reports(rows@[i], count_for(counts_view(counts@), rows@[i].id@), #[trigger] r@[i]),
{
    let mut r: Vec<GitRepoDetail> = Vec::new();
    let mut i: usize = 0;
    while i < rows.len()
        invariant
            i <= rows.len(),
            r@.len() == i,
            forall|j: int|
                0 <= j < i ==> reports(rows@[j], count_for(counts_view(counts@), rows@[j].id@), #[trigger] r@[j]),
        decreases rows.len() - i,
    {
        let n = lookup_count(counts, rows[i].id.as_str());
        r.push(to_detail(&rows[i], n));
        i = i + 1;
    }
    r
}

/// Whether a listing asks for one page: a limit or an offset is set.
pub fn wants_page(limit: u32, offset: u32) -> (r: bool)
    ensures
        r == (limit > 0 || offset > 0),
{
    limit > 0 || offset > 0
}

/// The number of worktrees an unregistration reports as removed: none
/// when the repository was not removed.
pub fn worktrees_removed_reported(removed: bool, worktrees_removed: u32) -> (r: u32)
    ensures
        r == (if removed {
            worktrees_removed
        } else {
            0
        }),
{
    if removed {
        worktrees_removed
    } else {
        0
    }
}

/// A request to register a repository.
#[derive(Debug, Clone)]
pub struct RegisterRepoRequest {
    pub repo_path: String,
    /// Empty: the last component of the path.
    pub name: String,
    pub worktree_mode: i32,
    /// Empty: `.worktree`.
    pub local_subfolder: String,
    /// Empty: none.
    pub custom_path: String,
    /// Empty: none.
    pub setup_script: String,
    pub auto_gitignore: bool,
}

/// What a registration stores.
#[derive(Debug, Clone)]
pub struct NewRepo {
    pub name: String,
    pub repo_path: String,
    pub worktree_mode: String,
    pub local_subfolder: String,
    pub custom_path: Option<String>,
    pub setup_script: Option<String>,
    pub auto_gitignore: bool,
}

/// `None` for an empty text, else the text.
pub open spec fn non_empty(s: Seq<char>) -> Option<Seq<char>> {
    if s.len() == 0 {
        None
    } else {
        Some(s)
    }
}

/// The view of an optional text.
pub open spec fn opt_view(o: Option<String>) -> Option<Seq<char>> {
    match o {
        Some(s) => Some(s@),
        None => None,
    }
}

/// Why a registration is refused, if it is: the checks in order, with
/// whether the path is a directory and whether it holds `.git`.
pub open spec fn register_problem(req: RegisterRepoRequest, is_dir: bool, has_git: bool) -> Option<Seq<char>> {
    if req.repo_path@.len() == 0 {
        Some("repo_path is required"@)
    } else if !is_dir {
        Some("Directory not found: "@ + req.repo_path@)
    } else if !has_git {
        Some("Not a git repository (no .git): "@ + req.repo_path@)
    } else if mode_name(req.worktree_mode) is None {
        Some(invalid_mode_message(req.worktree_mode))
    } else {
        None
    }
}

/// Whether `n` is what an accepted registration stores, apart from the
/// name.
pub open spec fn registers(req: RegisterRepoRequest, n: NewRepo) -> bool {
    &&& n.repo_path@ == req.repo_path@
    &&& mode_name(req.worktree_mode) == Some(n.worktree_mode@)
    &&& n.local_subfolder@ == (if req.local_subfolder@.len() == 0 {
        ".worktree"@
    } else {
        req.local_subfolder@
    })
    &&& opt_view(n.custom_path) == non_empty(req.custom_path@)
    &&& opt_view(n.setup_script) == non_empty(req.setup_script@)
    &&& n.auto_gitignore == req.auto_gitignore
}

fn optional_text(s: String) -> (r: Option<String>)
    ensures
        opt_view(r) == non_empty(s@),
{
    if s.as_str().is_empty() {
        None
    } else {
        Some(s)
    }
}

/// Checks a registration and says what it stores: `is_dir` and `has_git`
/// are what the file system says of the path, and `file_name` its last
/// component, the name used when the request gives none (`unknown` when
/// the path has none).
pub fn plan_register_named(
    req: RegisterRepoRequest,
    is_dir: bool,
    has_git: bool,
    file_name: Option<String>,
) -> (r: Result<NewRepo, RpcStatus>)
    ensures
        match register_problem(req, is_dir, has_git) {
            Some(m) => r matches Err(st) && st.code == RpcCode::InvalidArgument && st.message@ == m,
            None => r matches Ok(n) && registers(req, n) && n.name@ == (if req.name@.len() == 0 {
                match file_name {
                    Some(f) => f@,
                    None => "unknown"@,
                }
            } else {
                req.name@
            }),
        },
{
    if req.repo_path.as_str().is_empty() {
        return Err(RpcStatus::new(RpcCode::InvalidArgument, "repo_path is required"));
    }
    if !is_dir {
        let mut m = "Directory not found: ".to_owned();
        m.append(req.repo_path.as_str());
        return Err(RpcStatus { code: RpcCode::InvalidArgument, message: m });
    }
    if !has_git {
        let mut m = "Not a git repository (no .git): ".to_owned();
        m.append(req.repo_path.as_str());
        return Err(RpcStatus { code: RpcCode::InvalidArgument, message: m });
    }
    let name = if req.name.as_str().is_empty() {
        match file_name {
            Some(f) => f,
            None => "unknown".to_owned(),
        }
    } else {
        req.name
    };
    let mode = match worktree_mode_to_str(req.worktree_mode) {
        Ok(m) => m,
        Err(st) => {
            return Err(st);
        },
    };
    let local_subfolder = if req.local_subfolder.as_str().is_empty() {
        ".worktree".to_owned()
    } else {
        req.local_subfolder
    };
    Ok(
        NewRepo {
            name,
            repo_path: req.repo_path,
            worktree_mode: mode.to_owned(),
            local_subfolder,
            custom_path: optional_text(req.custom_path),
            setup_script: optional_text(req.setup_script),
            auto_gitignore: req.auto_gitignore,
        },
    )
}

/// Whether `name` can be the last component of `path` on any platform: a
/// non-empty part of the path with no `/` in it.
pub open spec fn component_of(name: Seq<char>, path: Seq<char>) -> bool {
    &&& name.len() > 0
    &&& is_substring(name, path)
    &&& forall|i: int| 0 <= i < name.len() ==> name[i] != '/'
}

/// The name a repository gets from its path: its last component, or
/// `unknown` when it has none.
pub open spec fn name_from_path(name: Seq<char>, path: Seq<char>) -> bool {
    name == "unknown"@ || component_of(name, path)
}

/// Calls `std::path::Path::file_name` on `path` and keeps the component as
/// text. Which component it is depends on the platform's path rules (the
/// separators), so it is not named; what is stated holds on Unix and on
/// Windows, where the daemon builds: a component is a non-empty part of the
/// path, and `/` separates components on both.
#[verifier::external_body]
fn path_file_name(path: &str) -> (r: Option<String>)
    ensures
        r matches Some(f) ==> component_of(f@, path@),
{
    std::path::Path::new(path).file_name().and_then(|n| n.to_str()).map(|n| n.to_owned())
}

/// Checks a registration and says what it stores, naming the repository
/// after the last component of its path when the request gives no name
/// (`unknown` when there is none).
pub fn plan_register(req: RegisterRepoRequest, is_dir: bool, has_git: bool) -> (r: Result<NewRepo, RpcStatus>)
    ensures
        match register_problem(req, is_dir, has_git) {
            Some(m) => r matches Err(st) && st.code == RpcCode::InvalidArgument && st.message@ == m,
            None => r matches Ok(n) && registers(req, n) && (req.name@.len() != 0 ==> n.name@ == req.name@) && (
            req.name@.len() == 0 ==> name_from_path(n.name@, req.repo_path@)),
        },
{
    let file_name = path_file_name(req.repo_path.as_str());
    plan_register_named(req, is_dir, has_git, file_name)
}

/// A request to change some settings of a registered repository; `None`
/// leaves a setting as it is.
#[derive(Debug, Clone)]
pub struct UpdateRepoRequest {
    pub id: String,
    pub name: Option<String>,
    pub worktree_mode: Option<i32>,
    pub local_subfolder: Option<String>,
    /// An empty text clears the path.
    pub custom_path: Option<String>,
    /// An empty text clears the script.
    pub setup_script: Option<String>,
    pub auto_gitignore: Option<bool>,
}

/// A change to a stored repository: `None` keeps a setting, and for the
/// optional settings `Some(None)` clears it.
#[derive(Debug, Clone)]
pub struct RepoUpdate {
    pub name: Option<String>,
    pub worktree_mode: Option<String>,
    pub local_subfolder: Option<String>,
    pub custom_path: Option<Option<String>>,
    pub setup_script: Option<Option<String>>,
    pub auto_gitignore: Option<bool>,
}

/// The view of an optional change of an optional text.
pub open spec fn change_view(o: Option<Option<String>>) -> Option<Option<Seq<char>>> {
    match o {
        Some(v) => Some(opt_view(v)),
        None => None,
    }
}

/// The change an optional request text asks for: none, a clear for an
/// empty text, else the text.
pub open spec fn requested_change(o: Option<String>) -> Option<Option<Seq<char>>> {
    match o {
        Some(s) => Some(non_empty(s@)),
        None => None,
    }
}

fn change_of(o: Option<String>) -> (r: Option<Option<String>>)
    ensures
        change_view(r) == requested_change(o),
{
    match o {
        Some(s) => Some(optional_text(s)),
        None => None,
    }
}

/// Turns an update request into the change it asks for; a mode value that
/// names no mode is refused.
pub fn plan_update(req: UpdateRepoRequest) -> (r: Result<RepoUpdate, RpcStatus>)
    ensures
        match req.worktree_mode {
            Some(m) if mode_name(m) is None => r matches Err(st) && st.code == RpcCode::InvalidArgument
                && st.message@ == invalid_mode_message(m),
            _ => r matches Ok(u) && {
                &&& opt_view(u.name) == opt_view(req.name)
                &&& opt_view(u.worktree_mode) == (match req.worktree_mode {
                    Some(m) => mode_name(m),
                    None => None,
                })
                &&& opt_view(u.local_subfolder) == opt_view(req.local_subfolder)
                &&& change_view(u.custom_path) == requested_change(req.custom_path)
                &&& change_view(u.setup_script) == requested_change(req.setup_script)
                &&& u.auto_gitignore == req.auto_gitignore
            },
        },
{
    let worktree_mode = match req.worktree_mode {
        Some(m) => match worktree_mode_to_str(m) {
            Ok(s) => Some(s.to_owned()),
            Err(st) => {
                return Err(st);
            },
        },
        None => None,
    };
    Ok(
        RepoUpdate {
            name: req.name,
            worktree_mode,
            local_subfolder: req.local_subfolder,
            custom_path: change_of(req.custom_path),
            setup_script: change_of(req.setup_script),
            auto_gitignore: req.auto_gitignore,
        },
    )
}

/// A stored row as the specifications see it.
pub struct RowView {
    pub id: Seq<char>,
    pub name: Seq<char>,
    pub repo_path: Seq<char>,
    pub worktree_mode: Seq<char>,
    pub local_subfolder: Seq<char>,
    pub custom_path: Option<Seq<char>>,
    pub setup_script: Option<Seq<char>>,
    pub auto_gitignore: bool,
    pub created_at: i64,
    pub last_active: i64,
}

/// The view of a stored row; the flag is true for any nonzero value.
pub open spec fn row_view(r: GitRepoRow) -> RowView {
    RowView {
        id: r.id@,
        name: r.name@,
        repo_path: r.repo_path@,
        worktree_mode: r.worktree_mode@,
        local_subfolder: r.local_subfolder@,
        custom_path: opt_view(r.custom_path),
        setup_script: opt_view(r.setup_script),
        auto_gitignore: r.auto_gitignore != 0,
        created_at: r.created_at,
        last_active: r.last_active,
    }
}

/// A change as the specifications see it.
pub struct UpdateView {
    pub name: Option<Seq<char>>,
    pub worktree_mode: Option<Seq<char>>,
    pub local_subfolder: Option<Seq<char>>,
    pub custom_path: Option<Option<Seq<char>>>,
    pub setup_script: Option<Option<Seq<char>>>,
    pub auto_gitignore: Option<bool>,
}

/// The view of a change.
pub open spec fn update_view(u: RepoUpdate) -> UpdateView {
    UpdateView {
        name: opt_view(u.name),
        worktree_mode: opt_view(u.worktree_mode),
        local_subfolder: opt_view(u.local_subfolder),
        custom_path: change_view(u.custom_path),
        setup_script: change_view(u.setup_script),
        auto_gitignore: u.auto_gitignore,
    }
}

/// The new value of a setting: the change's where it has one, else the
/// old.
pub open spec fn or_keep<T>(change: Option<T>, old: T) -> T {
    match change {
        Some(v) => v,
        None => old,
    }
}

/// A row after a change made at time `now`: each setting the change names
/// takes its new value, the others keep theirs, and the row was last
/// active at `now`.
pub open spec fn updated_row(r: RowView, u: UpdateView, now: i64) -> RowView {
    RowView {
        name: or_keep(u.name, r.name),
        worktree_mode: or_keep(u.worktree_mode, r.worktree_mode),
        local_subfolder: or_keep(u.local_subfolder, r.local_subfolder),
        custom_path: or_keep(u.custom_path, r.custom_path),
        setup_script: or_keep(u.setup_script, r.setup_script),
        auto_gitignore: or_keep(u.auto_gitignore, r.auto_gitignore),
        last_active: now,
        ..r
    }
}

fn keep_text(change: Option<String>, old: &String) -> (r: String)
    ensures
        r@ == or_keep(opt_view(change), old@),
{
    match change {
        Some(v) => v,
        None => old.clone(),
    }
}

fn keep_optional(change: Option<Option<String>>, old: &Option<String>) -> (r: Option<String>)
    ensures
        opt_view(r) == or_keep(change_view(change), opt_view(*old)),
{
    match change {
        Some(v) => v,
        None => match old {
            Some(s) => Some(s.clone()),
            None => None,
        },
    }
}

/// Merges a change into a stored row at time `now`.
pub fn apply_update(existing: &GitRepoRow, u: RepoUpdate, now: i64) -> (r: GitRepoRow)
    ensures
        row_view(r) == updated_row(row_view(*existing), update_view(u), now),
{
    let auto_gitignore = match u.auto_gitignore {
        Some(b) => b,
        None => existing.auto_gitignore != 0,
    };
    GitRepoRow {
        id: existing.id.clone(),
        name: keep_text(u.name, &existing.name),
        repo_path: existing.repo_path.clone(),
        worktree_mode: keep_text(u.worktree_mode, &existing.worktree_mode),
        local_subfolder: keep_text(u.local_subfolder, &existing.local_subfolder),
        custom_path: keep_optional(u.custom_path, &existing.custom_path),
        setup_script: keep_optional(u.setup_script, &existing.setup_script),
        auto_gitignore: if auto_gitignore {
            1
        } else {
            0
        },
        created_at: existing.created_at,
        last_active: now,
    }
}

/// A change that names no setting leaves every setting of the row as it
/// was; only the time of last activity moves.
pub proof fn law_empty_update_keeps_settings(r: RowView, now: i64)
    ensures
        updated_row(
            r,
            UpdateView {
                name: None,
                worktree_mode: None,
                local_subfolder: None,
                custom_path: None,
                setup_script: None,
                auto_gitignore: None,
            },
            now,
        ) == (RowView { last_active: now, ..r }),
{
}

/// Applying the same change twice is applying it once (at the later
/// time).
pub proof fn law_update_idempotent(r: RowView, u: UpdateView, t1: i64, t2: i64)
    ensures
        updated_row(updated_row(r, u, t1), u, t2) == updated_row(r, u, t2),
{
}

/// A change never touches the row's identity, path or creation time.
pub proof fn law_update_keeps_identity(r: RowView, u: UpdateView, now: i64)
    ensures
        updated_row(r, u, now).id == r.id,
        updated_row(r, u, now).repo_path == r.repo_path,
        updated_row(r, u, now).created_at == r.created_at,
{
}

/// Directories a scan never descends into.
pub open spec fn skipped_dir(name: Seq<char>) -> bool {
    name == "node_modules"@ || name == "target"@ || name == "__pycache__"@ || name == "vendor"@ || name
        == ".cache"@ || name == "dist"@ || name == "build"@
}

/// What a scan does with one entry of a directory.
#[derive(Clone, Copy, Debug, PartialEq, Eq, Structural)]
pub enum ScanStep {
    /// Pass over the entry.
    Skip,
    /// The directory being read is a repository: record it and read no
    /// further in it.
    FoundRepo,
    /// Scan the entry one level deeper.
    Descend,
}

/// The step for an entry named `name`: symbolic links and non-directories
/// are passed over, `.git` marks a repository, and hidden or well-known
/// build directories are passed over.
pub open spec fn scan_step_for(name: Seq<char>, is_dir: bool, is_symlink: bool) -> ScanStep {
    if is_symlink || !is_dir {
        ScanStep::Skip
    } else if name == ".git"@ {
        ScanStep::FoundRepo
    } else if name.len() > 0 && name[0] == '.' {
        ScanStep::Skip
    } else if skipped_dir(name) {
        ScanStep::Skip
    } else {
        ScanStep::Descend
    }
}

/// Decides what a scan does with one directory entry.
pub fn scan_step(name: &str, is_dir: bool, is_symlink: bool) -> (r: ScanStep)
    ensures
        r == scan_step_for(name@, is_dir, is_symlink),
{
    if is_symlink || !is_dir {
        return ScanStep::Skip;
    }
    let t = name.to_owned();
    if t == ".git".to_owned() {
        return ScanStep::FoundRepo;
    }
    if name.unicode_len() > 0 && name.get_char(0) == '.' {
        return ScanStep::Skip;
    }
    if t == "node_modules".to_owned() || t == "target".to_owned() || t == "__pycache__".to_owned() || t
        == "vendor".to_owned() || t == ".cache".to_owned() || t == "dist".to_owned() || t == "build".to_owned() {
        return ScanStep::Skip;
    }
    ScanStep::Descend
}

/// The depth a scan goes to: two levels when the request sets none.
pub fn scan_depth(max_depth: u32) -> (r: u32)
    ensures
        r == (if max_depth == 0 {
            2
        } else {
            max_depth
        }),
{
    if max_depth == 0 {
        2
    } else {
        max_depth
    }
}

/// Checks the path of a scan request: `is_dir` is what the file system says
/// of it.
pub fn check_scan_path(scan_path: &str, is_dir: bool) -> (r: Result<(), RpcStatus>)
    ensures
        scan_path@.len() == 0 ==> (r matches Err(st) && st.code == RpcCode::InvalidArgument && st.message@
            == "scan_path is required"@),
        scan_path@.len() != 0 && !is_dir ==> (r matches Err(st) && st.code == RpcCode::NotFound && st.message@
            == "Directory not found: "@ + scan_path@),
        scan_path@.len() != 0 && is_dir ==> r is Ok,
{
    if scan_path.is_empty() {
        return Err(RpcStatus::new(RpcCode::InvalidArgument, "scan_path is required"));
    }
    if !is_dir {
        let mut m = "Directory not found: ".to_owned();
        m.append(scan_path);
        return Err(RpcStatus { code: RpcCode::NotFound, message: m });
    }
    Ok(())
}

/// What a scan registers for a repository found at `repo_path`, named
/// `file_name` (`unknown` when the path has no last component): global
/// worktrees in `.worktree`, no custom path or setup script, and the
/// ignore file kept up to date.
pub fn scanned_repo_named(repo_path: String, file_name: Option<String>) -> (n: NewRepo)
    ensures
        n.repo_path@ == repo_path@,
        n.name@ == (match file_name {
            Some(f) => f@,
            None => "unknown"@,
        }),
        n.worktree_mode@ == "global"@,
        n.local_subfolder@ == ".worktree"@,
        n.custom_path is None,
        n.setup_script is None,
        n.auto_gitignore,
{
    let name = match file_name {
        Some(f) => f,
        None => "unknown".to_owned(),
    };
    NewRepo {
        name,
        repo_path,
        worktree_mode: "global".to_owned(),
        local_subfolder: ".worktree".to_owned(),
        custom_path: None,
        setup_script: None,
        auto_gitignore: true,
    }
}

/// What a scan registers for a repository found at `repo_path`, named
/// after the last component of the path.
pub fn scanned_repo(repo_path: String) -> (n: NewRepo)
    ensures
        n.repo_path@ == repo_path@,
        n.worktree_mode@ == "global"@,
        n.local_subfolder@ == ".worktree"@,
        n.custom_path is None,
        n.setup_script is None,
        n.auto_gitignore,
        name_from_path(n.name@, repo_path@),
{
    let file_name = path_file_name(repo_path.as_str());
    scanned_repo_named(repo_path, file_name)
}

} // verus!
