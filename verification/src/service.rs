//! Service commands of the daemon (`pwd`, `cd`, `bash`, ...): the tracked
//! working directory, the reading of a command request, and the texts the
//! commands answer with. Running processes and touching the file system is
//! the caller's part.
use vstd::prelude::*;

use crate::text::{decimal, decimal_string, same_text};

verus! {

/// The page size of a listing: the requested one, or 20 for 0.
pub fn effective_max(max_results: u32) -> (r: usize)
    ensures
        r == if max_results == 0 {
            20
        } else {
            max_results as usize
        },
{
    if max_results == 0 {
        20
    } else {
        max_results as usize
    }
}

/// Output of a running service command.
#[derive(Debug)]
pub enum ServiceOutput {
    Stdout(String),
    Stderr(String),
    ExitCode(i32),
    Error(String),
}

/// An error of a service command, with its message.
#[derive(Debug)]
pub struct ServiceError {
    pub message: String,
}

/// `path` joined onto `base` the way a path buffer pushes it: an absolute
/// `path` (starting with `/`) replaces `base`; otherwise a `/` goes between
/// them unless `base` is empty or already ends with one.
pub open spec fn joined_path(base: Seq<char>, path: Seq<char>) -> Seq<char> {
    if path.len() > 0 && path[0] == '/' {
        path
    } else if base.len() > 0 && base.last() != '/' {
        base + seq!['/'] + path
    } else {
        base + path
    }
}

/// Executes service commands against a tracked working directory.
#[derive(Debug)]
pub struct ServiceExecutor {
    cwd: String,
}

impl ServiceExecutor {
    /// The tracked working directory.
    pub closed spec fn dir(&self) -> Seq<char> {
        self.cwd@
    }

    pub fn new(cwd: String) -> (r: Self)
        ensures
            r.dir() == cwd@,
    {
        ServiceExecutor { cwd }
    }

    /// The tracked working directory.
    pub fn cwd(&self) -> (r: &str)
        ensures
            r@ == self.dir(),
    {
        self.cwd.as_str()
    }

    /// The working directory as text; this never fails.
    pub fn execute_pwd(&self) -> (r: Result<String, ServiceError>)
        ensures
            r matches Ok(s) && s@ == self.dir(),
    {
        Ok(self.cwd.clone())
    }

    /// The directory that `cd path` names before it is resolved: `path`
    /// itself when absolute, otherwise `path` under the working directory.
    pub fn cd_target(&self, path: &str) -> (r: String)
        ensures
            r@ == joined_path(self.dir(), path@),
    {
        let p = path.to_owned();
        if !p.as_str().is_empty() && first_is_slash(&p) {
            return p;
        }
        let mut r = self.cwd.clone();
        if !r.as_str().is_empty() && !last_is_slash(&r) {
            r.append("/");
        }
        r.append(path);
        proof {
            reveal_strlit("/");
        }
        r
    }

    /// Finishes `cd path` with what resolving the target gave: `None` when
    /// it could not be resolved, or the resolved path and whether it is a
    /// directory. Only a resolved directory becomes the working directory.
    pub fn execute_cd(&mut self, path: &str, resolved: Option<(String, bool)>) -> (r: Result<(), ServiceError>)
        ensures
            match r {
                Ok(()) => match resolved {
                    Some((p, is_dir)) => is_dir && final(self).dir() == p@,
                    None => false,
                },
                Err(e) => final(self).dir() == old(self).dir() && match resolved {
                    None => e.message@ == "Failed to resolve path: "@ + joined_path(old(self).dir(), path@),
                    Some((p, is_dir)) => !is_dir && e.message@ == "Not a directory: "@ + p@,
                },
            },
    {
        match resolved {
            None => {
                let target = self.cd_target(path);
                let mut message = "Failed to resolve path: ".to_owned();
                message.append(target.as_str());
                Err(ServiceError { message })
            },
            Some((p, is_dir)) => {
                if is_dir {
                    self.cwd = p;
                    Ok(())
                } else {
                    let mut message = "Not a directory: ".to_owned();
                    message.append(p.as_str());
                    Err(ServiceError { message })
                }
            },
        }
    }
}

fn first_is_slash(s: &String) -> (r: bool)
    requires
        s@.len() > 0,
    ensures
        r == (s@[0] == '/'),
{
    let cs = crate::text::chars_of(s.as_str());
    cs[0] == '/'
}

fn last_is_slash(s: &String) -> (r: bool)
    requires
        s@.len() > 0,
    ensures
        r == (s@.last() == '/'),
{
    let cs = crate::text::chars_of(s.as_str());
    cs[cs.len() - 1] == '/'
}

/// A service command request, read.
#[derive(Debug)]
pub enum ServiceCommand {
    Pwd,
    /// Change directory; `~` when no argument is given.
    Cd { path: String },
    /// Run a shell command.
    Bash { command: String },
    ExitDaemon,
    ReloadRemote,
    /// Refused, with the error to report.
    Rejected { message: String },
}

/// Reads a service command request from its name and arguments.
pub fn parse_service_command(command: &str, args: &Vec<String>) -> (r: ServiceCommand)
    ensures
        match r {
            ServiceCommand::Pwd => command@ == "pwd"@,
            ServiceCommand::Cd { path } => command@ == "cd"@ && path@ == if args@.len() > 0 {
                args@[0]@
            } else {
                "~"@
            },
            ServiceCommand::Bash { command: c } => command@ == "bash"@ && args@.len() > 0 && args@[0]@.len() > 0
                && c@ == args@[0]@,
            ServiceCommand::ExitDaemon => command@ == "exit-daemon"@,
            ServiceCommand::ReloadRemote => command@ == "reload-remote"@,
            ServiceCommand::Rejected { message } => {
                ||| command@ == "bash"@ && (args@.len() == 0 || args@[0]@.len() == 0) && message@
                    == "No command provided"@
                ||| command@ != "pwd"@ && command@ != "cd"@ && command@ != "bash"@ && command@ != "exit-daemon"@
                    && command@ != "reload-remote"@ && message@ == "Unknown service command: "@ + command@
            },
        },
{
    if same_text(command, "pwd") {
        ServiceCommand::Pwd
    } else if same_text(command, "cd") {
        let path = if args.len() > 0 {
            args[0].clone()
        } else {
            "~".to_owned()
        };
        ServiceCommand::Cd { path }
    } else if same_text(command, "bash") {
        if args.len() > 0 && !args[0].as_str().is_empty() {
            ServiceCommand::Bash { command: args[0].clone() }
        } else {
            ServiceCommand::Rejected { message: "No command provided".to_owned() }
        }
    } else if same_text(command, "exit-daemon") {
        ServiceCommand::ExitDaemon
    } else if same_text(command, "reload-remote") {
        ServiceCommand::ReloadRemote
    } else {
        let mut message = "Unknown service command: ".to_owned();
        message.append(command);
        ServiceCommand::Rejected { message }
    }
}

/// The answer of a command reload: the numbers of commands and plugin
/// entries, and of warnings when there are any.
pub fn reload_message(commands: usize, plugin_entries: usize, warnings: usize) -> (r: String)
    ensures
        r@ == "Reloaded "@ + decimal(commands as nat) + " commands, "@ + decimal(plugin_entries as nat)
            + " plugin entries"@ + if warnings > 0 {
            " ("@ + decimal(warnings as nat) + " warnings)"@
        } else {
            Seq::empty()
        },
{
    let mut r = "Reloaded ".to_owned();
    let c = decimal_string(commands as u64);
    r.append(c.as_str());
    r.append(" commands, ");
    let p = decimal_string(plugin_entries as u64);
    r.append(p.as_str());
    r.append(" plugin entries");
    if warnings > 0 {
        r.append(" (");
        let w = decimal_string(warnings as u64);
        r.append(w.as_str());
        r.append(" warnings)");
    }
    r
}

/// The line `exit-daemon` answers with before the daemon shuts down.
pub fn exit_daemon_reply() -> (r: &'static str)
    ensures
        r@ == "Daemon shutting down..."@,
{
    "Daemon shutting down..."
}

/// The answer of `reload-remote`: the reload message, then the numbers of
/// agents and indexed files.
pub fn reload_summary(reload: &str, agents: usize, files: usize) -> (r: String)
    ensures
        r@ == reload@ + ", "@ + decimal(agents as nat) + " agents, "@ + decimal(files as nat) + " files"@,
{
    let mut r = reload.to_owned();
    r.append(", ");
    let a = decimal_string(agents as u64);
    r.append(a.as_str());
    r.append(" agents, ");
    let f = decimal_string(files as u64);
    r.append(f.as_str());
    r.append(" files");
    r
}

} // verus!
