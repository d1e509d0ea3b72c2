//! The decisions around one subagent process: which configurations are
//! accepted, the command line it is started with, its time limit, and how
//! its end is classified and reported.
use vstd::prelude::*;

use crate::errors::ManagerError;
use crate::text::{decimal, decimal_string};

verus! {

/// Default time limit of a subagent, in seconds (ten minutes).
pub const DEFAULT_TIMEOUT_SECS: u64 = 600;

/// Configuration for spawning a subagent.
#[derive(Debug, Clone)]
pub struct SubagentConfig {
    /// Subagent ID (chosen by the caller).
    pub id: String,
    pub parent_session_id: String,
    pub prompt: String,
    /// Model override; `None` for the default.
    pub model: Option<String>,
    pub working_directory: String,
    /// Tools to approve without asking.
    pub allowed_tools: Vec<String>,
    /// Turn limit; 0 or less for none.
    pub max_turns: i32,
    pub auto_approve: bool,
    /// Time limit in seconds; 0 for the default.
    pub timeout_secs: u64,
}

/// Why a configuration is refused, if it is.
pub open spec fn config_problem(config: SubagentConfig) -> Option<Seq<char>> {
    if config.prompt@.len() == 0 {
        Some("prompt must not be empty"@)
    } else if config.auto_approve && config.allowed_tools@.len() == 0 {
        Some("auto_approve requires non-empty allowed_tools"@)
    } else {
        None
    }
}

/// Checks a configuration: the prompt must not be empty, and auto-approval
/// needs at least one allowed tool.
pub fn validate_config(config: &SubagentConfig) -> (r: Result<(), ManagerError>)
    ensures
        match r {
            Ok(()) => config_problem(*config) is None,
            Err(ManagerError::Validation { message }) => config_problem(*config) == Some(message@),
            Err(_) => false,
        },
{
    if config.prompt.as_str().is_empty() {
        return Err(ManagerError::Validation { message: "prompt must not be empty".to_owned() });
    }
    if config.auto_approve && config.allowed_tools.len() == 0 {
        return Err(ManagerError::Validation { message: "auto_approve requires non-empty allowed_tools".to_owned() });
    }
    Ok(())
}

/// Whether a subagent may start, given the pool's free slots: a refused
/// configuration is reported first, whatever the pool holds; a valid one
/// is refused with `PoolFull` only when no slot is free.
pub fn spawn_admission(config: &SubagentConfig, available_permits: usize) -> (r: Result<(), ManagerError>)
    ensures
        match config_problem(*config) {
            Some(m) => r matches Err(ManagerError::Validation { message }) && message@ == m,
            None => if available_permits == 0 {
                r matches Err(ManagerError::PoolFull)
            } else {
                r is Ok
            },
        },
{
    validate_config(config)?;
    if available_permits == 0 {
        return Err(ManagerError::PoolFull);
    }
    Ok(())
}

/// The decimal text of a signed number.
pub open spec fn signed_decimal(n: int) -> Seq<char> {
    if n < 0 {
        seq!['-'] + decimal((-n) as nat)
    } else {
        decimal(n as nat)
    }
}

/// Writes a signed number in decimal.
pub fn signed_decimal_string(n: i64) -> (s: String)
    ensures
        s@ == signed_decimal(n as int),
{
    if n < 0 {
        let magnitude: u64 = (0 - (n as i128)) as u64;
        let mut s = "-".to_owned();
        let digits = decimal_string(magnitude);
        s.append(digits.as_str());
        proof {
            reveal_strlit("-");
        }
        s
    } else {
        decimal_string(n as u64)
    }
}

/// The arguments a subagent process is started with.
pub open spec fn command_args(config: SubagentConfig) -> Seq<Seq<char>> {
    let base = seq![
        "--output-format"@,
        "stream-json"@,
        "--input-format"@,
        "stream-json"@,
        "--verbose"@,
    ];
    let tools = if config.auto_approve && config.allowed_tools@.len() > 0 {
        seq!["--allowedTools"@] + config.allowed_tools.deep_view()
    } else {
        Seq::empty()
    };
    let model = match config.model {
        Some(m) => seq!["--model"@, m@],
        None => Seq::empty(),
    };
    let turns = if config.max_turns > 0 {
        seq!["--max-turns"@, decimal(config.max_turns as nat)]
    } else {
        Seq::empty()
    };
    base + tools + seq!["-p"@, config.prompt@] + model + turns
}

fn push_text(args: &mut Vec<String>, t: &str)
    ensures
        final(args).deep_view() == old(args).deep_view().push(t@),
{
    let ghost before = args.deep_view();
    args.push(t.to_owned());
    assert(args.deep_view() =~= before.push(t@));
}

/// The command-line arguments of a subagent process: stream-JSON input and
/// output, verbose; the allowed tools when auto-approving; the prompt; the
/// model when one is given; the turn limit when positive.
pub fn command_args_for(config: &SubagentConfig) -> (r: Vec<String>)
    ensures
        r.deep_view() == command_args(*config),
{
    let mut args: Vec<String> = Vec::new();
    push_text(&mut args, "--output-format");
    push_text(&mut args, "stream-json");
    push_text(&mut args, "--input-format");
    push_text(&mut args, "stream-json");
    push_text(&mut args, "--verbose");
    let ghost base = args.deep_view();
    if config.auto_approve && config.allowed_tools.len() > 0 {
        push_text(&mut args, "--allowedTools");
        let mut i: usize = 0;
        while i < config.allowed_tools.len()
            invariant
                i <= config.allowed_tools.len(),
                args.deep_view() == base + seq!["--allowedTools"@] + config.allowed_tools.deep_view().take(
                    i as int,
                ),
            decreases config.allowed_tools.len() - i,
        {
            push_text(&mut args, config.allowed_tools[i].as_str());
            assert(config.allowed_tools.deep_view().take(i as int + 1) =~= config.allowed_tools.deep_view().take(
                i as int,
            ).push(config.allowed_tools[i as int]@));
            assert(args.deep_view() =~= base + seq!["--allowedTools"@] + config.allowed_tools.deep_view().take(
                i as int + 1,
            ));
            i = i + 1;
        }
        assert(config.allowed_tools.deep_view().take(i as int) =~= config.allowed_tools.deep_view());
    }
    let ghost with_tools = args.deep_view();
    push_text(&mut args, "-p");
    push_text(&mut args, config.prompt.as_str());
    match &config.model {
        Some(m) => {
            push_text(&mut args, "--model");
            push_text(&mut args, m.as_str());
        },
        None => {},
    }
    let ghost with_model = args.deep_view();
    if config.max_turns > 0 {
        push_text(&mut args, "--max-turns");
        let turns = decimal_string(config.max_turns as u64);
        push_text(&mut args, turns.as_str());
    }
    proof {
        let c = *config;
        let tools = if c.auto_approve && c.allowed_tools@.len() > 0 {
            seq!["--allowedTools"@] + c.allowed_tools.deep_view()
        } else {
            Seq::empty()
        };
        let model = match c.model {
            Some(m) => seq!["--model"@, m@],
            None => Seq::empty(),
        };
        let turns = if c.max_turns > 0 {
            seq!["--max-turns"@, decimal(c.max_turns as nat)]
        } else {
            Seq::empty()
        };
        assert(base =~= seq!["--output-format"@, "stream-json"@, "--input-format"@, "stream-json"@, "--verbose"@]);
        assert(with_tools =~= base + tools);
        assert(with_model =~= base + tools + seq!["-p"@, c.prompt@] + model);
        assert(args.deep_view() =~= base + tools + seq!["-p"@, c.prompt@] + model + turns);
    }
    args
}

/// The time limit of a subagent: the configured one, or the default for 0.
pub fn effective_timeout(timeout_secs: u64) -> (r: u64)
    ensures
        r == if timeout_secs == 0 {
            DEFAULT_TIMEOUT_SECS
        } else {
            timeout_secs
        },
{
    if timeout_secs == 0 {
        DEFAULT_TIMEOUT_SECS
    } else {
        timeout_secs
    }
}

/// How the wait for a subagent process ended.
#[derive(Debug)]
pub enum ProcessExit {
    /// It exited, with its exit code where there is one.
    Exited(Option<i32>),
    /// Waiting for it failed, with this error text.
    WaitFailed(String),
    /// The time limit ran out first.
    TimedOut,
}

/// The recorded end of a subagent: its status, exit code and summary.
#[derive(Debug)]
pub struct SubagentOutcome {
    pub status: &'static str,
    pub exit_code: Option<i64>,
    pub summary: Option<String>,
}

/// Classifies the end of a subagent process: exit code 0 completes it; any
/// other exit, a failed wait or a timeout fails it.
pub fn classify_exit(exit: ProcessExit) -> (r: SubagentOutcome)
    ensures
        match exit {
            ProcessExit::Exited(Some(c)) if c == 0 => {
                &&& r.status@ == "completed"@
                &&& r.exit_code == Some(0i64)
                &&& r.summary matches Some(t) && t@ == "Completed successfully"@
            },
            ProcessExit::Exited(code) => {
                &&& r.status@ == "failed"@
                &&& r.exit_code == match code {
                    Some(c) => Some(c as i64),
                    None => None,
                }
                &&& r.summary matches Some(t) && t@ == "Exited with code "@ + signed_decimal(
                    match code {
                        Some(c) => c as int,
                        None => -1,
                    },
                )
            },
            ProcessExit::WaitFailed(e) => {
                &&& r.status@ == "failed"@
                &&& r.exit_code is None
                &&& r.summary matches Some(t) && t@ == "Process error: "@ + e@
            },
            ProcessExit::TimedOut => {
                &&& r.status@ == "failed"@
                &&& r.exit_code is None
                &&& r.summary matches Some(t) && t@ == "Timed out"@
            },
        },
{
    match exit {
        ProcessExit::Exited(code) => {
            match code {
                Some(c) => {
                    if c == 0 {
                        return SubagentOutcome {
                            status: "completed",
                            exit_code: Some(0),
                            summary: Some("Completed successfully".to_owned()),
                        };
                    }
                },
                None => {},
            }
            let shown: i64 = match code {
                Some(c) => c as i64,
                None => -1,
            };
            let mut t = "Exited with code ".to_owned();
            let digits = signed_decimal_string(shown);
            t.append(digits.as_str());
            SubagentOutcome {
                status: "failed",
                exit_code: match code {
                    Some(c) => Some(c as i64),
                    None => None,
                },
                summary: Some(t),
            }
        },
        ProcessExit::WaitFailed(e) => {
            let mut t = "Process error: ".to_owned();
            t.append(e.as_str());
            SubagentOutcome { status: "failed", exit_code: None, summary: Some(t) }
        },
        ProcessExit::TimedOut => SubagentOutcome {
            status: "failed",
            exit_code: None,
            summary: Some("Timed out".to_owned()),
        },
    }
}

/// The last event a subagent reports.
#[derive(Debug)]
pub enum TerminalEvent {
    Completed { exit_code: i32, result_summary: String },
    Cancelled { reason: String },
    Failed { exit_code: i32, error_message: String },
}

/// The text of an optional summary, empty when there is none.
pub open spec fn summary_text(summary: Option<String>) -> Seq<char> {
    match summary {
        Some(t) => t@,
        None => Seq::empty(),
    }
}

/// The last event for a recorded end: `completed` reports the exit code (0
/// when unknown) and the summary; `cancelled` the summary as the reason;
/// anything else a failure with the exit code (-1 when unknown) and the
/// summary. Missing summaries are empty; exit codes are cut to 32 bits.
pub fn terminal_event(status: &str, exit_code: Option<i64>, summary: Option<String>) -> (r: TerminalEvent)
    ensures
        match r {
            TerminalEvent::Completed { exit_code: c, result_summary } => {
                &&& status@ == "completed"@
                &&& c == (match exit_code {
                    Some(x) => x,
                    None => 0i64,
                }) as i32
                &&& result_summary@ == summary_text(summary)
            },
            TerminalEvent::Cancelled { reason } => {
                &&& status@ == "cancelled"@
                &&& reason@ == summary_text(summary)
            },
            TerminalEvent::Failed { exit_code: c, error_message } => {
                &&& status@ != "completed"@
                &&& status@ != "cancelled"@
                &&& c == (match exit_code {
                    Some(x) => x,
                    None => -1i64,
                }) as i32
                &&& error_message@ == summary_text(summary)
            },
        },
{
    let text = match summary {
        Some(t) => t,
        None => String::new(),
    };
    if crate::text::same_text(status, "completed") {
        let c: i64 = match exit_code {
            Some(x) => x,
            None => 0,
        };
        TerminalEvent::Completed { exit_code: c as i32, result_summary: text }
    } else if crate::text::same_text(status, "cancelled") {
        TerminalEvent::Cancelled { reason: text }
    } else {
        let c: i64 = match exit_code {
            Some(x) => x,
            None => -1,
        };
        TerminalEvent::Failed { exit_code: c as i32, error_message: text }
    }
}

} // verus!
