//! Agent CLI subprocesses for relay sessions: permission strategies, the
//! command line a process is started with, capacity checks, and the errors
//! of the subprocess, pool and relay layers.
use vstd::prelude::*;

use crate::text::{decimal, decimal_string};

verus! {

/// How permission prompts are handled in a subprocess.
#[derive(Debug, Clone)]
pub enum PermissionStrategy {
    /// Interactive approval over the NDJSON control protocol.
    PromptToolStdio,
    /// Pre-approve these tools; no prompts at run time.
    AllowedTools(Vec<String>),
    /// Bypass all checks (sandboxed environments only).
    SkipPermissions,
}

impl Default for PermissionStrategy {
    fn default() -> (r: Self)
        ensures
            r is PromptToolStdio,
    {
        PermissionStrategy::PromptToolStdio
    }
}

/// Configuration for spawning a subprocess.
#[derive(Debug, Clone)]
pub struct SpawnConfig {
    pub working_directory: String,
    /// Initial prompt (headless mode).
    pub prompt: Option<String>,
    /// Session to resume.
    pub resume_session: Option<String>,
    pub model: Option<String>,
    pub permission_strategy: PermissionStrategy,
}

/// Errors of the subprocess manager.
#[derive(Debug)]
pub enum SubprocessError {
    PoolExhausted { current: usize, max: usize },
    SpawnFailed { reason: String },
    ProcessNotFound { id: String },
    ProcessExited { id: String },
}

impl SubprocessError {
    /// The human-readable text of the error.
    pub open spec fn text(&self) -> Seq<char> {
        match self {
            SubprocessError::PoolExhausted { current, max } => "Subprocess pool exhausted ("@ + decimal(
                *current as nat,
            ) + "/"@ + decimal(*max as nat) + ")"@,
            SubprocessError::SpawnFailed { reason } => "Failed to spawn subprocess: "@ + reason@,
            SubprocessError::ProcessNotFound { id } => "Process not found: "@ + id@,
            SubprocessError::ProcessExited { id } => "Process already exited: "@ + id@,
        }
    }

    /// Renders the error as text.
    pub fn to_string(&self) -> (s: String)
        ensures
            s@ == self.text(),
    {
        match self {
            SubprocessError::PoolExhausted { current, max } => {
                let mut s = "Subprocess pool exhausted (".to_owned();
                let c = decimal_string(*current as u64);
                s.append(c.as_str());
                s.append("/");
                let m = decimal_string(*max as u64);
                s.append(m.as_str());
                s.append(")");
                s
            },
            SubprocessError::SpawnFailed { reason } => {
                let mut s = "Failed to spawn subprocess: ".to_owned();
                s.append(reason.as_str());
                s
            },
            SubprocessError::ProcessNotFound { id } => {
                let mut s = "Process not found: ".to_owned();
                s.append(id.as_str());
                s
            },
            SubprocessError::ProcessExited { id } => {
                let mut s = "Process already exited: ".to_owned();
                s.append(id.as_str());
                s
            },
        }
    }
}

/// Refuses a new process when `current` processes already fill the
/// capacity `max`.
pub fn check_capacity(current: usize, max: usize) -> (r: Result<(), SubprocessError>)
    ensures
        match r {
            Ok(()) => current < max,
            Err(SubprocessError::PoolExhausted { current: c, max: m }) => current >= max && c == current && m == max,
            Err(_) => false,
        },
{
    if current >= max {
        return Err(SubprocessError::PoolExhausted { current, max });
    }
    Ok(())
}

/// The flags of a permission strategy.
pub open spec fn permission_args(strategy: PermissionStrategy) -> Seq<Seq<char>> {
    match strategy {
        PermissionStrategy::PromptToolStdio => seq!["--permission-prompt-tool"@, "stdio"@],
        PermissionStrategy::AllowedTools(tools) => if tools@.len() > 0 {
            seq!["--allowedTools"@] + tools.deep_view()
        } else {
            Seq::empty()
        },
        PermissionStrategy::SkipPermissions => seq!["--dangerously-skip-permissions"@],
    }
}

/// A flag followed by its value, when there is a value.
pub open spec fn flag_args(flag: Seq<char>, value: Option<String>) -> Seq<Seq<char>> {
    match value {
        Some(v) => seq![flag, v@],
        None => Seq::empty(),
    }
}

/// The arguments a relay subprocess is started with.
pub open spec fn spawn_args(config: SpawnConfig) -> Seq<Seq<char>> {
    let base = seq!["--output-format"@, "stream-json"@, "--input-format"@, "stream-json"@, "--verbose"@];
    let prompt = match config.prompt {
        Some(p) => seq!["-p"@, p@, "--include-partial-messages"@],
        None => Seq::empty(),
    };
    base + permission_args(config.permission_strategy) + prompt + flag_args("--resume"@, config.resume_session)
        + flag_args("--model"@, config.model)
}

fn push_text(args: &mut Vec<String>, t: &str)
    ensures
        final(args).deep_view() == old(args).deep_view().push(t@),
{
    let ghost before = args.deep_view();
    args.push(t.to_owned());
    assert(args.deep_view() =~= before.push(t@));
}

fn push_all(args: &mut Vec<String>, more: &Vec<String>)
    ensures
        final(args).deep_view() == old(args).deep_view() + more.deep_view(),
{
    let ghost start = args.deep_view();
    let mut i: usize = 0;
    while i < more.len()
        invariant
            i <= more.len(),
            args.deep_view() == start + more.deep_view().take(i as int),
        decreases more.len() - i,
    {
        push_text(args, more[i].as_str());
        assert(more.deep_view().take(i as int + 1) =~= more.deep_view().take(i as int).push(more[i as int]@));
        assert(args.deep_view() =~= start + more.deep_view().take(i as int + 1));
        i = i + 1;
    }
    assert(more.deep_view().take(i as int) =~= more.deep_view());
}

fn push_flag(args: &mut Vec<String>, flag: &str, value: &Option<String>)
    ensures
        final(args).deep_view() == old(args).deep_view() + flag_args(flag@, *value),
{
    let ghost start = args.deep_view();
    match value {
        Some(v) => {
            push_text(args, flag);
            push_text(args, v.as_str());
            assert(args.deep_view() =~= start + seq![flag@, v@]);
        },
        None => {
            assert(args.deep_view() =~= start + Seq::<Seq<char>>::empty());
        },
    }
}

fn push_permission_args(args: &mut Vec<String>, strategy: &PermissionStrategy)
    ensures
        final(args).deep_view() == old(args).deep_view() + permission_args(*strategy),
{
    let ghost start = args.deep_view();
    match strategy {
        PermissionStrategy::PromptToolStdio => {
            push_text(args, "--permission-prompt-tool");
            push_text(args, "stdio");
            assert(args.deep_view() =~= start + seq!["--permission-prompt-tool"@, "stdio"@]);
        },
        PermissionStrategy::AllowedTools(tools) => {
            if tools.len() > 0 {
                push_text(args, "--allowedTools");
                push_all(args, tools);
                assert(args.deep_view() =~= start + (seq!["--allowedTools"@] + tools.deep_view()));
            } else {
                assert(args.deep_view() =~= start + Seq::<Seq<char>>::empty());
            }
        },
        PermissionStrategy::SkipPermissions => {
            push_text(args, "--dangerously-skip-permissions");
            assert(args.deep_view() =~= start + seq!["--dangerously-skip-permissions"@]);
        },
    }
}

/// The command-line arguments of a relay subprocess: stream-JSON input and
/// output, verbose; the permission strategy's flags; the prompt (with
/// partial messages); the session to resume; the model.
pub fn spawn_args_for(config: &SpawnConfig) -> (r: Vec<String>)
    ensures
        r.deep_view() == spawn_args(*config),
{
    let mut args: Vec<String> = Vec::new();
    push_text(&mut args, "--output-format");
    push_text(&mut args, "stream-json");
    push_text(&mut args, "--input-format");
    push_text(&mut args, "stream-json");
    push_text(&mut args, "--verbose");
    let ghost base = args.deep_view();
    assert(base =~= seq!["--output-format"@, "stream-json"@, "--input-format"@, "stream-json"@, "--verbose"@]);
    push_permission_args(&mut args, &config.permission_strategy);
    let ghost with_permissions = args.deep_view();
    match &config.prompt {
        Some(p) => {
            push_text(&mut args, "-p");
            push_text(&mut args, p.as_str());
            push_text(&mut args, "--include-partial-messages");
            assert(args.deep_view() =~= with_permissions + seq!["-p"@, p@, "--include-partial-messages"@]);
        },
        None => {
            assert(args.deep_view() =~= with_permissions + Seq::<Seq<char>>::empty());
        },
    }
    push_flag(&mut args, "--resume", &config.resume_session);
    push_flag(&mut args, "--model", &config.model);
    args
}

/// Default number of concurrent subagent processes.
pub const DEFAULT_MAX_CONCURRENCY: usize = 5;

/// The concurrency limit of a pool: the requested one, or the default for 0.
pub fn pool_limit(max_concurrency: usize) -> (r: usize)
    ensures
        r == if max_concurrency == 0 {
            DEFAULT_MAX_CONCURRENCY
        } else {
            max_concurrency
        },
{
    if max_concurrency == 0 {
        DEFAULT_MAX_CONCURRENCY
    } else {
        max_concurrency
    }
}

/// Errors of the subprocess pool.
#[derive(Debug, Clone, Copy, PartialEq, Eq, Structural)]
pub enum PoolError {
    /// The pool was shut down.
    Closed,
}

impl PoolError {
    /// Renders the error as text.
    pub fn to_string(&self) -> (s: String)
        ensures
            s@ == "Subprocess pool has been closed"@,
    {
        "Subprocess pool has been closed".to_owned()
    }
}

/// Configuration for starting a relay session.
#[derive(Debug, Clone)]
pub struct RelaySessionConfig {
    pub session_id: String,
    pub working_directory: String,
    pub model: Option<String>,
    /// Session to resume, if any.
    pub resume_session: Option<String>,
    pub worktree_id: String,
}

/// Errors of relay operations.
#[derive(Debug)]
pub enum RelayError {
    Subprocess(SubprocessError),
    SessionNotFound { session_id: String },
    Serialization(String),
    StdinClosed { session_id: String },
    Storage(String),
}

impl RelayError {
    /// The human-readable text of the error.
    pub open spec fn text(&self) -> Seq<char> {
        match self {
            RelayError::Subprocess(e) => "Subprocess error: "@ + e.text(),
            RelayError::SessionNotFound { session_id } => "Session not found: "@ + session_id@,
            RelayError::Serialization(m) => "Failed to serialize message: "@ + m@,
            RelayError::StdinClosed { session_id } => "Subprocess stdin closed for session: "@ + session_id@,
            RelayError::Storage(m) => "Storage error: "@ + m@,
        }
    }

    /// Renders the error as text.
    pub fn to_string(&self) -> (s: String)
        ensures
            s@ == self.text(),
    {
        let (prefix, detail) = match self {
            RelayError::Subprocess(e) => ("Subprocess error: ", e.to_string()),
            RelayError::SessionNotFound { session_id } => ("Session not found: ", session_id.clone()),
            RelayError::Serialization(m) => ("Failed to serialize message: ", m.clone()),
            RelayError::StdinClosed { session_id } => ("Subprocess stdin closed for session: ", session_id.clone()),
            RelayError::Storage(m) => ("Storage error: ", m.clone()),
        };
        let mut s = prefix.to_owned();
        s.append(detail.as_str());
        s
    }
}

/// How a relay session's subprocess is spawned: interactively (no initial
/// prompt, permissions asked over the control protocol), in the session's
/// directory, with its model and the session to resume.
pub fn relay_spawn_config(config: RelaySessionConfig) -> (r: SpawnConfig)
    ensures
        r.working_directory@ == config.working_directory@,
        r.prompt is None,
        r.resume_session == config.resume_session,
        r.model == config.model,
        r.permission_strategy is PromptToolStdio,
{
    SpawnConfig {
        working_directory: config.working_directory,
        prompt: None,
        resume_session: config.resume_session,
        model: config.model,
        permission_strategy: PermissionStrategy::PromptToolStdio,
    }
}

/// The directory a subprocess starts in: the requested one when it is
/// given and `exists`, else `fallback` (the home directory, or the
/// temporary directory where there is none).
pub fn working_dir_for(requested: &str, exists: bool, fallback: String) -> (r: String)
    ensures
        r@ == (if requested@.len() > 0 && exists {
            requested@
        } else {
            fallback@
        }),
{
    if !requested.is_empty() && exists {
        requested.to_owned()
    } else {
        fallback
    }
}

} // verus!
