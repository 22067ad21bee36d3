//! The command line: what is asked for, and what it comes to.

use vstd::prelude::*;

use crate::config::{setting_view, MappingSpec, MappingView};
use crate::docker::ActiveMapping;
use crate::text::{decimal, decimal_text, text_of, texts};

verus! {

/// A command line.
#[derive(Debug, Clone)]
pub struct Cli {
    /// Path to config file (TOML). Defaults to ~/.config/d2s/config.toml (or
    /// platform equivalent).
    pub config: Option<String>,
    pub cmd: Option<Cmd>,
}

/// A command.
#[derive(Debug, Clone)]
pub enum Cmd {
    /// Run the SSH server(s) in the background, based on active config.
    Serve,
    /// Run the SSH server(s) in the foreground.
    Daemon,
    /// Stop the server(s) started from the same config.
    Stop,
    /// Bring the installed package up to date.
    Upgrade,
    /// Manage port<->container mappings.
    Config { cmd: ConfigCmd },
    /// Show active mappings (only running containers).
    Show,
    /// Verify active mappings are reachable via SSH + Docker _ping.
    Doctor {
        /// SSH username for doctor connection (doesn't need to exist on
        /// server).
        user: String,
        /// Optional private key for doctor SSH auth (OpenSSH format). If not
        /// provided and no authorized_keys is configured, doctor runs in
        /// "insecure" mode.
        identity: Option<String>,
        /// Host to connect to for doctor checks.
        host: String,
    },
}

/// A command about the mappings.
#[derive(Debug, Clone)]
pub enum ConfigCmd {
    /// Add or update a mapping.
    SetPort {
        port: u16,
        container: String,
        /// Optional shell inside the container, e.g. /bin/bash.
        shell: Option<String>,
        /// Clear any previously configured shell override.
        clear_shell: bool,
    },
    /// Remove a mapping by port.
    Rm { port: u16 },
    /// List all configured mappings (includes stopped containers).
    List,
}

/// What a command line comes to.
#[derive(Debug, Clone)]
pub enum Task {
    Help,
    StartDaemon,
    ServeInForeground,
    StopDaemon,
    Upgrade,
    /// Set a mapping, once its container is known to exist. The shell stays as
    /// it is unless a setting is given.
    SetMapping { port: u16, container: String, shell: Option<Option<String>> },
    RemoveMapping { port: u16 },
    ListMappings,
    ShowActive,
    CheckActive { user: String, identity: Option<String>, host: String },
}

/// A [`Task`] with its texts as character sequences.
pub enum TaskView {
    Help,
    StartDaemon,
    ServeInForeground,
    StopDaemon,
    Upgrade,
    SetMapping { port: u16, container: Seq<char>, shell: Option<Option<Seq<char>>> },
    RemoveMapping { port: u16 },
    ListMappings,
    ShowActive,
    CheckActive { user: Seq<char>, identity: Option<Seq<char>>, host: Seq<char> },
}

impl View for Task {
    type V = TaskView;

    open spec fn view(&self) -> TaskView {
        match *self {
            Task::Help => TaskView::Help,
            Task::StartDaemon => TaskView::StartDaemon,
            Task::ServeInForeground => TaskView::ServeInForeground,
            Task::StopDaemon => TaskView::StopDaemon,
            Task::Upgrade => TaskView::Upgrade,
            Task::SetMapping { port, container, shell } => TaskView::SetMapping {
                port,
                container: container@,
                shell: setting_view(shell),
            },
            Task::RemoveMapping { port } => TaskView::RemoveMapping { port },
            Task::ListMappings => TaskView::ListMappings,
            Task::ShowActive => TaskView::ShowActive,
            Task::CheckActive { user, identity, host } => TaskView::CheckActive {
                user: user@,
                identity: text_of(identity),
                host: host@,
            },
        }
    }
}

/// A command line that asks for two things at once.
#[derive(Debug, Clone, Copy, PartialEq, Eq)]
pub struct ShellConflict;

impl ShellConflict {
    /// What the user is told.
    pub fn message(&self) -> (out: String)
        ensures
            out@ == "--shell and --clear-shell cannot be used together"@,
    {
        "--shell and --clear-shell cannot be used together".to_string()
    }
}

/// The shell setting that `--shell` and `--clear-shell` ask for: none, a shell,
/// or that there be none.
pub open spec fn shell_setting(shell: Option<Seq<char>>, clear_shell: bool) -> Option<
    Option<Seq<char>>,
> {
    if clear_shell {
        Some(None)
    } else {
        match shell {
            Some(s) => Some(Some(s)),
            None => None,
        }
    }
}

/// What a command comes to. No command at all is a call for help.
pub open spec fn task_of(cmd: Option<Cmd>) -> Result<TaskView, ShellConflict> {
    match cmd {
        None => Ok(TaskView::Help),
        Some(Cmd::Serve) => Ok(TaskView::StartDaemon),
        Some(Cmd::Daemon) => Ok(TaskView::ServeInForeground),
        Some(Cmd::Stop) => Ok(TaskView::StopDaemon),
        Some(Cmd::Upgrade) => Ok(TaskView::Upgrade),
        Some(Cmd::Config { cmd: ConfigCmd::SetPort { port, container, shell, clear_shell } }) => if shell
            is Some && clear_shell {
            Err(ShellConflict)
        } else {
            Ok(
                TaskView::SetMapping {
                    port,
                    container: container@,
                    shell: shell_setting(text_of(shell), clear_shell),
                },
            )
        },
        Some(Cmd::Config { cmd: ConfigCmd::Rm { port } }) => Ok(TaskView::RemoveMapping { port }),
        Some(Cmd::Config { cmd: ConfigCmd::List }) => Ok(TaskView::ListMappings),
        Some(Cmd::Show) => Ok(TaskView::ShowActive),
        Some(Cmd::Doctor { user, identity, host }) => Ok(
            TaskView::CheckActive { user: user@, identity: text_of(identity), host: host@ },
        ),
    }
}

impl Cli {
    /// What the command line comes to.
    pub fn task(self) -> (r: Result<Task, ShellConflict>)
        ensures
            match r {
                Ok(task) => task_of(self.cmd) == Ok::<TaskView, ShellConflict>(task@),
                Err(e) => task_of(self.cmd) == Err::<TaskView, ShellConflict>(e),
            },
    {
        let cmd = match self.cmd {
            Some(cmd) => cmd,
            None => {
                return Ok(Task::Help);
            },
        };
        match cmd {
            Cmd::Serve => Ok(Task::StartDaemon),
            Cmd::Daemon => Ok(Task::ServeInForeground),
            Cmd::Stop => Ok(Task::StopDaemon),
            Cmd::Upgrade => Ok(Task::Upgrade),
            Cmd::Config { cmd } => match cmd {
                ConfigCmd::SetPort { port, container, shell, clear_shell } => {
                    if shell.is_some() && clear_shell {
                        return Err(ShellConflict);
                    }
                    let setting = if clear_shell {
                        Some(None)
                    } else {
                        match shell {
                            Some(s) => Some(Some(s)),
                            None => None,
                        }
                    };
                    Ok(Task::SetMapping { port, container, shell: setting })
                },
                ConfigCmd::Rm { port } => Ok(Task::RemoveMapping { port }),
                ConfigCmd::List => Ok(Task::ListMappings),
            },
            Cmd::Show => Ok(Task::ShowActive),
            Cmd::Doctor { user, identity, host } => Ok(Task::CheckActive { user, identity, host }),
        }
    }
}

/// The line about a configured mapping.
pub open spec fn mapping_line_of(m: MappingView) -> Seq<char> {
    let arrow = decimal(m.port as int) + " -> "@ + m.container;
    match m.shell {
        Some(shell) => arrow + " [shell="@ + shell + "]"@,
        None => arrow,
    }
}

/// The line about a configured mapping.
pub fn mapping_line(m: &MappingSpec) -> (out: String)
    ensures
        out@ == mapping_line_of(m@),
{
    let arrow = decimal_text(m.port as u64).concat(" -> ").concat(m.container.as_str());
    match &m.shell {
        Some(shell) => arrow.concat(" [shell=").concat(shell.as_str()).concat("]"),
        None => arrow,
    }
}

/// The line about an active mapping.
pub fn active_line(a: &ActiveMapping) -> (out: String)
    ensures
        out@ == decimal(a@.port as int) + " -> "@ + a@.container_ref + " ("@ + a@.container_id_short
            + ")"@,
{
    decimal_text(a.port as u64).concat(" -> ").concat(a.container_ref.as_str()).concat(" (").concat(
        a.container_id_short.as_str(),
    ).concat(")")
}

/// What the user is told of a container that cannot be inspected.
pub fn unknown_container_message(container: &str) -> (out: String)
    ensures
        out@ == "container not found: "@ + container@,
{
    "container not found: ".to_string().concat(container)
}

/// A program and its arguments.
#[derive(Debug, Clone)]
pub struct ProgramRun {
    pub program: String,
    pub args: Vec<String>,
}

/// The run that brings the installed package up to date, with the Python
/// interpreter that `PYTHON` names or the usual one.
pub fn upgrade_run(python: Option<String>) -> (out: ProgramRun)
    ensures
        out.program@ == match python {
            Some(p) => p@,
            None => "python3"@,
        },
        texts(out.args@) == seq!["-m"@, "pip"@, "install"@, "-U"@, "docker2ssh"@],
{
    let program = match python {
        Some(p) => p,
        None => "python3".to_string(),
    };
    let mut args: Vec<String> = Vec::new();
    args.push("-m".to_string());
    args.push("pip".to_string());
    args.push("install".to_string());
    args.push("-U".to_string());
    args.push("docker2ssh".to_string());
    assert(texts(args@) =~= seq!["-m"@, "pip"@, "install"@, "-U"@, "docker2ssh"@]);
    ProgramRun { program, args }
}

/// The arguments that run this program as the daemon for a configuration file.
pub fn daemon_run(config_path: &str) -> (out: Vec<String>)
    ensures
        texts(out@) == seq!["--config"@, config_path@, "daemon"@],
{
    let mut args: Vec<String> = Vec::new();
    args.push("--config".to_string());
    args.push(config_path.to_string());
    args.push("daemon".to_string());
    assert(texts(args@) =~= seq!["--config"@, config_path@, "daemon"@]);
    args
}

/// Law: each command comes to its own task, with what was given for it.
pub proof fn commands_come_to_their_tasks(
    port: u16,
    container: String,
    shell: String,
    user: String,
    identity: Option<String>,
    host: String,
)
    ensures
        task_of(None) == Ok::<TaskView, ShellConflict>(TaskView::Help),
        task_of(Some(Cmd::Serve)) == Ok::<TaskView, ShellConflict>(TaskView::StartDaemon),
        task_of(Some(Cmd::Daemon)) == Ok::<TaskView, ShellConflict>(TaskView::ServeInForeground),
        task_of(Some(Cmd::Stop)) == Ok::<TaskView, ShellConflict>(TaskView::StopDaemon),
        task_of(Some(Cmd::Upgrade)) == Ok::<TaskView, ShellConflict>(TaskView::Upgrade),
        task_of(Some(Cmd::Show)) == Ok::<TaskView, ShellConflict>(TaskView::ShowActive),
        task_of(Some(Cmd::Config { cmd: ConfigCmd::List })) == Ok::<TaskView, ShellConflict>(
            TaskView::ListMappings,
        ),
        task_of(Some(Cmd::Config { cmd: ConfigCmd::Rm { port } })) == Ok::<
            TaskView,
            ShellConflict,
        >(TaskView::RemoveMapping { port }),
        task_of(Some(Cmd::Doctor { user, identity, host })) == Ok::<TaskView, ShellConflict>(
            TaskView::CheckActive {
                user: user@,
                identity: match identity {
                    Some(path) => Some(path@),
                    None => None,
                },
                host: host@,
            },
        ),
        task_of(
            Some(
                Cmd::Config {
                    cmd: ConfigCmd::SetPort { port, container, shell: None, clear_shell: false },
                },
            ),
        ) == Ok::<TaskView, ShellConflict>(
            TaskView::SetMapping { port, container: container@, shell: None },
        ),
        task_of(
            Some(
                Cmd::Config {
                    cmd: ConfigCmd::SetPort {
                        port,
                        container,
                        shell: Some(shell),
                        clear_shell: false,
                    },
                },
            ),
        ) == Ok::<TaskView, ShellConflict>(
            TaskView::SetMapping { port, container: container@, shell: Some(Some(shell@)) },
        ),
        task_of(
            Some(
                Cmd::Config {
                    cmd: ConfigCmd::SetPort { port, container, shell: None, clear_shell: true },
                },
            ),
        ) == Ok::<TaskView, ShellConflict>(
            TaskView::SetMapping { port, container: container@, shell: Some(None) },
        ),
        task_of(
            Some(
                Cmd::Config {
                    cmd: ConfigCmd::SetPort {
                        port,
                        container,
                        shell: Some(shell),
                        clear_shell: true,
                    },
                },
            ),
        ) == Err::<TaskView, ShellConflict>(ShellConflict),
{
}

/// Law: a mapping is listed by its port and its container, and by its shell
/// where it has one.
pub proof fn mappings_are_listed_with_their_shell(
    port: u16,
    container: Seq<char>,
    shell: Seq<char>,
)
    ensures
        mapping_line_of(MappingView { port, container, shell: None }) == decimal(port as int)
            + " -> "@ + container,
        mapping_line_of(MappingView { port, container, shell: Some(shell) }) == decimal(port as int)
            + " -> "@ + container + " [shell="@ + shell + "]"@,
{
}

/// Law: tasks are seen as they are, with what was given for them.
pub proof fn tasks_are_seen_as_they_are(
    port: u16,
    container: String,
    shell: Option<Option<String>>,
    user: String,
    identity: Option<String>,
    host: String,
)
    ensures
        Task::Help@ == TaskView::Help,
        Task::StartDaemon@ == TaskView::StartDaemon,
        Task::ServeInForeground@ == TaskView::ServeInForeground,
        Task::StopDaemon@ == TaskView::StopDaemon,
        Task::Upgrade@ == TaskView::Upgrade,
        Task::ListMappings@ == TaskView::ListMappings,
        Task::ShowActive@ == TaskView::ShowActive,
        (Task::RemoveMapping { port })@ == (TaskView::RemoveMapping { port }),
        (Task::SetMapping { port, container, shell })@ == (TaskView::SetMapping {
            port,
            container: container@,
            shell: match shell {
                Some(Some(s)) => Some(Some(s@)),
                Some(None) => Some(None),
                None => None,
            },
        }),
        (Task::CheckActive { user, identity, host })@ == (TaskView::CheckActive {
            user: user@,
            identity: match identity {
                Some(path) => Some(path@),
                None => None,
            },
            host: host@,
        }),
{
}

/// Law: an active mapping is shown with its container and the container's short
/// id, and an unknown container is told by its name.
pub proof fn active_mappings_are_shown_with_their_id(
    a: &ActiveMapping,
    line: String,
    container: &str,
    unknown: String,
)
    requires
        call_ensures(active_line, (a,), line),
        call_ensures(unknown_container_message, (container,), unknown),
    ensures
        line@ == decimal(a.port as int) + " -> "@ + a.container_ref@ + " ("@
            + a.container_id_short@ + ")"@,
        unknown@ == "container not found: "@ + container@,
{
}

/// Law: the package is brought up to date by pip, with the interpreter given or
/// `python3`; the daemon is this program with the same configuration file.
pub proof fn programs_are_run_as_told(
    python: Option<String>,
    run: ProgramRun,
    config_path: &str,
    args: Vec<String>,
)
    requires
        call_ensures(upgrade_run, (python,), run),
        call_ensures(daemon_run, (config_path,), args),
    ensures
        python matches Some(p) ==> run.program@ == p@,
        python is None ==> run.program@ == "python3"@,
        texts(run.args@) == seq!["-m"@, "pip"@, "install"@, "-U"@, "docker2ssh"@],
        texts(args@) == seq!["--config"@, config_path@, "daemon"@],
{
}

/// Law: a command line without a command asks for help, and a mapping is set
/// with exactly the port, the container and the shell that are given.
pub proof fn command_lines_come_to_what_they_say(
    config: Option<String>,
    port: u16,
    container: String,
    shell: String,
    nothing: Result<Task, ShellConflict>,
    setting: Result<Task, ShellConflict>,
    removing: Result<Task, ShellConflict>,
)
    requires
        call_ensures(Cli::task, (Cli { config, cmd: None },), nothing),
        call_ensures(
            Cli::task,
            (
                Cli {
                    config,
                    cmd: Some(
                        Cmd::Config {
                            cmd: ConfigCmd::SetPort {
                                port,
                                container,
                                shell: Some(shell),
                                clear_shell: false,
                            },
                        },
                    ),
                },
            ),
            setting,
        ),
        call_ensures(
            Cli::task,
            (Cli { config, cmd: Some(Cmd::Config { cmd: ConfigCmd::Rm { port } }) },),
            removing,
        ),
    ensures
        nothing matches Ok(task) && task@ == TaskView::Help,
        setting matches Ok(task) && task@ == (TaskView::SetMapping {
            port,
            container: container@,
            shell: Some(Some(shell@)),
        }),
        removing matches Ok(task) && task@ == (TaskView::RemoveMapping { port }),
{
}

/// Law: a configured mapping is listed by port, container and shell.
pub proof fn configured_mappings_are_listed(m: &MappingSpec, line: String)
    requires
        call_ensures(mapping_line, (m,), line),
    ensures
        m.shell is None ==> line@ == decimal(m.port as int) + " -> "@ + m.container@,
        m.shell matches Some(shell) ==> line@ == decimal(m.port as int) + " -> "@ + m.container@
            + " [shell="@ + shell@ + "]"@,
{
}

} // verus!
