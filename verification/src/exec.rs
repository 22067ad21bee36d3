//! What runs in the container: the arguments of `docker exec`, and the search
//! for a shell.

use vstd::prelude::*;

use crate::config::{MappingSpec, MappingView};
use crate::session::{pty_view, PtySpec, PtyView};
use crate::text::{decimal, decimal_text, text_of, texts};

verus! {

/// The program that reaches into containers unless `D2S_DOCKER_BIN` names
/// another.
pub fn default_docker_bin() -> (out: &'static str)
    ensures
        out@ == "docker"@,
{
    "docker"
}

/// A run of `docker`.
#[derive(Debug, Clone)]
pub struct CommandSpec {
    pub args: Vec<String>,
    /// `TERM` in the environment of the run, where it is set.
    pub term: Option<String>,
}

/// A [`CommandSpec`] with its texts as character sequences.
pub struct CommandView {
    pub args: Seq<Seq<char>>,
    pub term: Option<Seq<char>>,
}

impl View for CommandSpec {
    type V = CommandView;

    open spec fn view(&self) -> CommandView {
        CommandView { args: texts(self.args@), term: text_of(self.term) }
    }
}

/// The arguments that lead into a container, with a terminal or without.
pub open spec fn exec_base(container: Seq<char>, pty_requested: bool) -> Seq<Seq<char>> {
    if pty_requested {
        seq!["exec"@, "-i"@, "-t"@, container]
    } else {
        seq!["exec"@, "-i"@, container]
    }
}

/// `TERM` for a terminal.
pub open spec fn term_of(pty: Option<PtyView>) -> Option<Seq<char>> {
    match pty {
        Some(p) => Some(p.term),
        None => None,
    }
}

/// A shell in a container.
pub open spec fn shell_run(container: Seq<char>, pty: Option<PtyView>, shell: Seq<char>) -> CommandView {
    CommandView { args: exec_base(container, pty is Some).push(shell), term: term_of(pty) }
}

/// A command that a container's shell runs.
pub open spec fn command_run(
    container: Seq<char>,
    pty: Option<PtyView>,
    shell: Seq<char>,
    command: Seq<char>,
) -> CommandView {
    CommandView {
        args: exec_base(container, pty is Some) + seq![shell, "-c"@, command],
        term: term_of(pty),
    }
}

/// Adds an argument.
fn push_arg(args: &mut Vec<String>, arg: &str)
    ensures
        texts(final(args)@) == texts(old(args)@).push(arg@),
{
    let ghost before = texts(args@);
    args.push(arg.to_string());
    assert(texts(args@) =~= before.push(arg@));
}

/// The arguments that lead into a container, with a terminal or without.
pub fn docker_exec_base_command(container: &str, pty_requested: bool) -> (out: Vec<String>)
    ensures
        texts(out@) == exec_base(container@, pty_requested),
{
    let mut out: Vec<String> = Vec::new();
    push_arg(&mut out, "exec");
    push_arg(&mut out, "-i");
    if pty_requested {
        push_arg(&mut out, "-t");
    }
    push_arg(&mut out, container);
    assert(texts(out@) =~= exec_base(container@, pty_requested));
    out
}

/// `TERM` for a terminal.
fn term_for(pty: &Option<PtySpec>) -> (out: Option<String>)
    ensures
        text_of(out) == term_of(pty_view(*pty)),
{
    match pty {
        Some(p) => Some(p.term.clone()),
        None => None,
    }
}

/// The run that gives a client a shell in the container.
pub fn shell_command(container: &str, pty: &Option<PtySpec>, shell: &str) -> (out: CommandSpec)
    ensures
        out@ == shell_run(container@, pty_view(*pty), shell@),
{
    let mut args = docker_exec_base_command(container, pty.is_some());
    push_arg(&mut args, shell);
    CommandSpec { args, term: term_for(pty) }
}

/// The run that carries out a client's command in the container.
pub fn exec_command(container: &str, pty: &Option<PtySpec>, shell: &str, command: &str) -> (out:
    CommandSpec)
    ensures
        out@ == command_run(container@, pty_view(*pty), shell@, command@),
{
    let mut args = docker_exec_base_command(container, pty.is_some());
    let ghost base = texts(args@);
    push_arg(&mut args, shell);
    push_arg(&mut args, "-c");
    push_arg(&mut args, command);
    assert(texts(args@) =~= base + seq![shell@, "-c"@, command@]);
    CommandSpec { args, term: term_for(pty) }
}

/// The run that finds out whether a container has a shell.
pub fn probe_command(container: &str, shell: &str) -> (out: CommandSpec)
    ensures
        out@ == command_run(container@, None, shell@, "exit 0"@),
{
    exec_command(container, &None, shell, "exit 0")
}

/// What is told of a shell that could not be tried.
pub fn probe_unstarted_message(shell: &str) -> (out: String)
    ensures
        out@ == "failed to probe shell "@ + shell@,
{
    "failed to probe shell ".to_string().concat(shell)
}

/// What is told of a shell that does not work.
pub fn probe_failed_message(shell: &str) -> (out: String)
    ensures
        out@ == "shell probe failed for "@ + shell@,
{
    "shell probe failed for ".to_string().concat(shell)
}

/// The shells that are tried for a mapping: the configured one alone, or the
/// usual ones in turn.
pub open spec fn candidates(m: MappingView) -> Seq<Seq<char>> {
    match m.shell {
        Some(shell) => seq![shell],
        None => seq!["/bin/bash"@, "/bin/sh"@, "sh"@],
    }
}

/// What is told when none of the usual shells works.
pub open spec fn no_shell(m: MappingView) -> Seq<char> {
    "could not determine shell for container "@ + m.container
        + "; configure one with `d2s config set "@ + decimal(m.port as int) + " "@ + m.container
        + " --shell <path>`"@
}

/// The search for a shell, given which of the candidates work: the first that
/// works is used.
pub open spec fn found(cs: Seq<Seq<char>>, works: spec_fn(Seq<char>) -> bool) -> Option<Seq<char>>
    decreases cs.len(),
{
    if cs.len() == 0 {
        None
    } else if works(cs[0]) {
        Some(cs[0])
    } else {
        found(cs.skip(1), works)
    }
}

/// The next thing to do in the search for a shell.
#[derive(Debug, Clone)]
pub enum ShellStep {
    /// Try this shell.
    Probe { shell: String },
    /// This shell works.
    Use { shell: String },
    /// The configured shell does not work; what was told of it counts.
    ConfiguredFails,
    /// None of the usual shells works.
    NoneWorks { message: String },
}

/// A [`ShellStep`] with its texts as character sequences.
pub enum StepView {
    Probe { shell: Seq<char> },
    Use { shell: Seq<char> },
    ConfiguredFails,
    NoneWorks { message: Seq<char> },
}

impl View for ShellStep {
    type V = StepView;

    open spec fn view(&self) -> StepView {
        match *self {
            ShellStep::Probe { shell } => StepView::Probe { shell: shell@ },
            ShellStep::Use { shell } => StepView::Use { shell: shell@ },
            ShellStep::ConfiguredFails => StepView::ConfiguredFails,
            ShellStep::NoneWorks { message } => StepView::NoneWorks { message: message@ },
        }
    }
}

/// The search for a shell in a container: which mapping it is for, and how
/// many candidates have failed.
#[derive(Debug, Clone)]
pub struct ShellSearch {
    mapping: MappingSpec,
    failed: usize,
}

/// A [`ShellSearch`] with its texts as character sequences.
pub struct SearchView {
    pub mapping: MappingView,
    pub failed: int,
}

impl View for ShellSearch {
    type V = SearchView;

    closed spec fn view(&self) -> SearchView {
        SearchView { mapping: self.mapping@, failed: self.failed as int }
    }
}

/// What there is to do with so many candidates failed.
pub open spec fn next_step(s: SearchView) -> StepView {
    let cs = candidates(s.mapping);
    if s.failed < cs.len() {
        StepView::Probe { shell: cs[s.failed] }
    } else if s.mapping.shell is Some {
        StepView::ConfiguredFails
    } else {
        StepView::NoneWorks { message: no_shell(s.mapping) }
    }
}

/// The search after a probe, and what there is to do then.
pub open spec fn after_probe(s: SearchView, works: bool) -> (SearchView, StepView) {
    let cs = candidates(s.mapping);
    if works && s.failed < cs.len() {
        (s, StepView::Use { shell: cs[s.failed] })
    } else {
        let next = SearchView {
            failed: if s.failed < cs.len() {
                s.failed + 1
            } else {
                s.failed
            },
            ..s
        };
        (next, next_step(next))
    }
}

impl ShellSearch {
    /// A search that has tried nothing yet.
    pub fn new(mapping: MappingSpec) -> (out: ShellSearch)
        ensures
            out@ == (SearchView { mapping: mapping@, failed: 0 }),
    {
        ShellSearch { mapping, failed: 0 }
    }

    /// The candidate that is next, where one is left.
    fn candidate(&self) -> (r: Option<String>)
        ensures
            match r {
                Some(shell) => self@.failed < candidates(self@.mapping).len() && shell@
                    == candidates(self@.mapping)[self@.failed],
                None => self@.failed >= candidates(self@.mapping).len(),
            },
    {
        match &self.mapping.shell {
            Some(shell) => if self.failed == 0 {
                Some(shell.clone())
            } else {
                None
            },
            None => if self.failed == 0 {
                Some("/bin/bash".to_string())
            } else if self.failed == 1 {
                Some("/bin/sh".to_string())
            } else if self.failed == 2 {
                Some("sh".to_string())
            } else {
                None
            },
        }
    }

    /// What there is to do.
    pub fn step(&self) -> (out: ShellStep)
        ensures
            out@ == next_step(self@),
    {
        match self.candidate() {
            Some(shell) => ShellStep::Probe { shell },
            None => if self.mapping.shell.is_some() {
                ShellStep::ConfiguredFails
            } else {
                ShellStep::NoneWorks {
                    message: "could not determine shell for container ".to_string().concat(
                        self.mapping.container.as_str(),
                    ).concat("; configure one with `d2s config set ").concat(
                        decimal_text(self.mapping.port as u64).as_str(),
                    ).concat(" ").concat(self.mapping.container.as_str()).concat(
                        " --shell <path>`",
                    ),
                }
            },
        }
    }

    /// Takes up the outcome of a probe, and says what there is to do then.
    pub fn probed(&mut self, works: bool) -> (out: ShellStep)
        ensures
            (final(self)@, out@) == after_probe(old(self)@, works),
    {
        match self.candidate() {
            Some(shell) => {
                if works {
                    return ShellStep::Use { shell };
                }
                self.failed = self.failed + 1;
            },
            None => {},
        }
        self.step()
    }
}

/// The end of a search that probes as it is told, from a state on.
pub open spec fn search_from(s: SearchView, works: spec_fn(Seq<char>) -> bool) -> StepView
    decreases candidates(s.mapping).len() - s.failed,
{
    match next_step(s) {
        StepView::Probe { shell } => {
            let (next, step) = after_probe(s, works(shell));
            match step {
                StepView::Probe { shell: _ } => search_from(next, works),
                _ => step,
            }
        },
        end => end,
    }
}

/// Law: a search ends with the first candidate that works. Where none does, it
/// fails: with the configured shell's failure, or with advice to configure
/// one.
pub proof fn search_finds_the_first_that_works(
    m: MappingView,
    failed: int,
    works: spec_fn(Seq<char>) -> bool,
)
    requires
        0 <= failed <= candidates(m).len(),
    ensures
        search_from(SearchView { mapping: m, failed }, works) == match found(
            candidates(m).skip(failed),
            works,
        ) {
            Some(shell) => StepView::Use { shell },
            None => if m.shell is Some {
                StepView::ConfiguredFails
            } else {
                StepView::NoneWorks { message: no_shell(m) }
            },
        },
    decreases candidates(m).len() - failed,
{
    let cs = candidates(m);
    if failed < cs.len() {
        assert(cs.skip(failed)[0] == cs[failed]);
        assert(cs.skip(failed).skip(1) =~= cs.skip(failed + 1));
        search_finds_the_first_that_works(m, failed + 1, works);
    }
}

/// Law: a configured shell is the only one that is ever used.
pub proof fn configured_shell_is_the_only_one(
    m: MappingView,
    shell: Seq<char>,
    works: spec_fn(Seq<char>) -> bool,
)
    requires
        m.shell == Some(shell),
    ensures
        search_from(SearchView { mapping: m, failed: 0 }, works) == if works(shell) {
            StepView::Use { shell }
        } else {
            StepView::ConfiguredFails
        },
{
    search_finds_the_first_that_works(m, 0, works);
    assert(candidates(m).skip(0) =~= seq![shell]);
    assert(seq![shell].skip(1) =~= Seq::empty());
    reveal_with_fuel(found, 2);
}

/// Law: a command is run by the shell, behind `-c`, in the container; the
/// terminal changes nothing but the `-t` and `TERM`.
pub proof fn a_command_is_run_by_the_shell(
    container: Seq<char>,
    pty: PtyView,
    shell: Seq<char>,
    command: Seq<char>,
)
    ensures
        command_run(container, None, shell, command).args == seq![
            "exec"@,
            "-i"@,
            container,
            shell,
            "-c"@,
            command,
        ],
        command_run(container, None, shell, command).term is None,
        command_run(container, Some(pty), shell, command).args == seq![
            "exec"@,
            "-i"@,
            "-t"@,
            container,
            shell,
            "-c"@,
            command,
        ],
        command_run(container, Some(pty), shell, command).term == Some(pty.term),
{
    assert(command_run(container, None, shell, command).args =~= seq![
        "exec"@,
        "-i"@,
        container,
        shell,
        "-c"@,
        command,
    ]);
    assert(command_run(container, Some(pty), shell, command).args =~= seq![
        "exec"@,
        "-i"@,
        "-t"@,
        container,
        shell,
        "-c"@,
        command,
    ]);
}

/// Law: a shell is run by itself in the container; the terminal changes nothing
/// but the `-t` and `TERM`.
pub proof fn a_shell_is_run_by_itself(container: Seq<char>, pty: PtyView, shell: Seq<char>)
    ensures
        shell_run(container, None, shell).args == seq!["exec"@, "-i"@, container, shell],
        shell_run(container, None, shell).term is None,
        shell_run(container, Some(pty), shell).args == seq![
            "exec"@,
            "-i"@,
            "-t"@,
            container,
            shell,
        ],
        shell_run(container, Some(pty), shell).term == Some(pty.term),
        exec_base(container, false) == seq!["exec"@, "-i"@, container],
        exec_base(container, true) == seq!["exec"@, "-i"@, "-t"@, container],
{
    assert(shell_run(container, None, shell).args =~= seq!["exec"@, "-i"@, container, shell]);
    assert(shell_run(container, Some(pty), shell).args =~= seq![
        "exec"@,
        "-i"@,
        "-t"@,
        container,
        shell,
    ]);
}

/// Law: without a configured shell, `/bin/bash`, `/bin/sh` and `sh` are tried
/// in this order, each only where those before it do not work, and the first
/// that works is used. Where none does, the user is told how to configure one.
pub proof fn the_usual_shells_are_tried_in_order(
    port: u16,
    container: Seq<char>,
    works: spec_fn(Seq<char>) -> bool,
)
    ensures
        ({
            let m = MappingView { port, container, shell: None };
            let end = search_from(SearchView { mapping: m, failed: 0 }, works);
            &&& works("/bin/bash"@) ==> end == (StepView::Use { shell: "/bin/bash"@ })
            &&& !works("/bin/bash"@) && works("/bin/sh"@) ==> end == (StepView::Use {
                shell: "/bin/sh"@,
            })
            &&& !works("/bin/bash"@) && !works("/bin/sh"@) && works("sh"@) ==> end == (
            StepView::Use { shell: "sh"@ })
            &&& !works("/bin/bash"@) && !works("/bin/sh"@) && !works("sh"@) ==> end == (
            StepView::NoneWorks {
                message: "could not determine shell for container "@ + container
                    + "; configure one with `d2s config set "@ + decimal(port as int) + " "@
                    + container + " --shell <path>`"@,
            })
        }),
{
    let m = MappingView { port, container, shell: None };
    search_finds_the_first_that_works(m, 0, works);
    let cs = candidates(m);
    assert(cs.skip(0) =~= cs);
    assert(cs.skip(1)[0] == "/bin/sh"@);
    assert(cs.skip(1).skip(1)[0] == "sh"@);
    assert(cs.skip(1).skip(1).skip(1) =~= Seq::empty());
    reveal_with_fuel(found, 4);
}

/// Law: each step of the search for a shell tries the next one that is left,
/// and a shell is used only where it was tried and works.
pub proof fn the_search_goes_step_by_step(
    port: u16,
    container: Seq<char>,
    shell: Seq<char>,
    works: bool,
)
    ensures
        ({
            let m = MappingView { port, container, shell: None };
            let at = |failed: int| SearchView { mapping: m, failed };
            &&& next_step(at(0)) == (StepView::Probe { shell: "/bin/bash"@ })
            &&& next_step(at(1)) == (StepView::Probe { shell: "/bin/sh"@ })
            &&& next_step(at(2)) == (StepView::Probe { shell: "sh"@ })
            &&& next_step(at(3)) is NoneWorks
            &&& after_probe(at(0), true) == (at(0), StepView::Use { shell: "/bin/bash"@ })
            &&& after_probe(at(1), true) == (at(1), StepView::Use { shell: "/bin/sh"@ })
            &&& after_probe(at(2), true) == (at(2), StepView::Use { shell: "sh"@ })
            &&& after_probe(at(0), false) == (at(1), next_step(at(1)))
            &&& after_probe(at(1), false) == (at(2), next_step(at(2)))
            &&& after_probe(at(2), false) == (at(3), next_step(at(3)))
            &&& after_probe(at(3), works) == (at(3), next_step(at(3)))
        }),
        ({
            let m = MappingView { port, container, shell: Some(shell) };
            let at = |failed: int| SearchView { mapping: m, failed };
            &&& next_step(at(0)) == (StepView::Probe { shell })
            &&& next_step(at(1)) is ConfiguredFails
            &&& after_probe(at(0), true) == (at(0), StepView::Use { shell })
            &&& after_probe(at(0), false) == (at(1), StepView::ConfiguredFails)
            &&& after_probe(at(1), works) == (at(1), StepView::ConfiguredFails)
        }),
{
}

/// Law: a run is seen as its arguments and its `TERM`.
pub proof fn runs_are_seen_as_they_are(c: CommandSpec, pty: PtySpec, shell: String)
    ensures
        c@.args == texts(c.args@),
        c@.term == (match c.term {
            Some(t) => Some(t@),
            None => None,
        }),
        term_of(None) is None,
        term_of(Some(pty@)) == Some(pty.term@),
        (ShellStep::Probe { shell })@ == (StepView::Probe { shell: shell@ }),
        (ShellStep::Use { shell })@ == (StepView::Use { shell: shell@ }),
        (ShellStep::NoneWorks { message: shell })@ == (StepView::NoneWorks { message: shell@ }),
{
}

/// Law: what is run for a client is `docker exec` with the container, the shell
/// and the command given, and with the terminal asked for.
pub proof fn clients_get_what_they_ask_for(
    container: &str,
    pty: &Option<PtySpec>,
    shell: &str,
    command: &str,
    executed: CommandSpec,
    opened: CommandSpec,
    probe: CommandSpec,
)
    requires
        call_ensures(exec_command, (container, pty, shell, command), executed),
        call_ensures(shell_command, (container, pty, shell), opened),
        call_ensures(probe_command, (container, shell), probe),
    ensures
        pty is None ==> {
            &&& texts(executed.args@) == seq![
                "exec"@,
                "-i"@,
                container@,
                shell@,
                "-c"@,
                command@,
            ]
            &&& executed.term is None
            &&& texts(opened.args@) == seq!["exec"@, "-i"@, container@, shell@]
            &&& opened.term is None
        },
        pty matches Some(p) ==> {
            &&& texts(executed.args@) == seq![
                "exec"@,
                "-i"@,
                "-t"@,
                container@,
                shell@,
                "-c"@,
                command@,
            ]
            &&& (executed.term matches Some(t) && t@ == p.term@)
            &&& texts(opened.args@) == seq!["exec"@, "-i"@, "-t"@, container@, shell@]
            &&& (opened.term matches Some(t) && t@ == p.term@)
        },
        texts(probe.args@) == seq!["exec"@, "-i"@, container@, shell@, "-c"@, "exit 0"@],
        probe.term is None,
{
    let any = PtyView { term: ""@, cols: 0, rows: 0, px_width: 0, px_height: 0 };
    a_command_is_run_by_the_shell(container@, any, shell@, command@);
    a_command_is_run_by_the_shell(container@, any, shell@, "exit 0"@);
    a_shell_is_run_by_itself(container@, any, shell@);
    if let Some(p) = *pty {
        a_command_is_run_by_the_shell(container@, p@, shell@, command@);
        a_shell_is_run_by_itself(container@, p@, shell@);
    }
}

/// Law: a shell that cannot be tried or does not work is told by its name.
pub proof fn shells_are_told_by_name(shell: &str, unstarted: String, failed: String)
    requires
        call_ensures(probe_unstarted_message, (shell,), unstarted),
        call_ensures(probe_failed_message, (shell,), failed),
    ensures
        unstarted@ == "failed to probe shell "@ + shell@,
        failed@ == "shell probe failed for "@ + shell@,
{
}

} // verus!
