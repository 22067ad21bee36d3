use d2s::authz::Authz;
use d2s::config::MappingSpec;
use d2s::docker::DockerBackend;
use d2s::exec::{
    default_docker_bin, docker_exec_base_command, exec_command, probe_command,
    probe_failed_message, probe_unstarted_message, shell_command, ShellSearch, ShellStep,
};
use d2s::session::{normalized_pty_dimension, ExecStart, PortHandler, PortServer, PtySpec};

const KEY: &str =
    "ssh-ed25519 AAAAC3NzaC1lZDI1NTE5AAAAILM+rvN+ot98qgEN796jTiQfZfG1KaT0PtFDJ/XFSqti";

fn wire(line: &str) -> Vec<u8> {
    russh::keys::PublicKey::from_openssh(line).unwrap().to_bytes().unwrap()
}

fn mapping(shell: Option<&str>) -> MappingSpec {
    MappingSpec {
        port: 2222,
        container: "my-container".to_string(),
        shell: shell.map(str::to_string),
    }
}

fn handler(authz: Authz) -> PortHandler {
    PortServer::new(
        mapping(None),
        DockerBackend::from_socket_path("/unused.sock".to_string()),
        authz,
    )
    .new_client()
}

fn pty(term: &str) -> PtySpec {
    PtySpec { term: term.to_string(), cols: 80, rows: 24, px_width: 0, px_height: 0 }
}

#[test]
fn without_a_file_everybody_may_log_in() {
    let authz = Authz::load(None).unwrap();
    assert!(authz.allows_none());
    assert!(authz.allows(&wire(KEY)));
    assert!(authz.allows(b"no key at all"));
    assert!(handler(authz).auth_none());
}

#[test]
fn only_listed_keys_may_log_in() {
    let raw = format!("# keys\n\n  {KEY}\t\r\n#end");
    let authz = Authz::load(Some(&raw)).unwrap();
    assert!(!authz.allows_none());
    assert!(authz.allows(&wire(KEY)));
    let other = KEY.replace("Sqti", "Sqtj");
    assert!(!authz.allows(&wire(&other)));
    let h = handler(authz.copy());
    assert!(!h.auth_none());
    assert!(h.auth_publickey(&wire(KEY)));
    assert!(!h.auth_publickey(&wire(&other)));
}

#[test]
fn an_empty_file_lets_nobody_in() {
    let authz = Authz::load(Some("")).unwrap();
    assert!(!authz.allows_none());
    assert!(!authz.allows(&wire(KEY)));
}

#[test]
fn a_comment_is_no_part_of_a_listed_key() {
    let raw = format!("{KEY} alice@host");
    let authz = Authz::load(Some(&raw)).unwrap();
    assert!(authz.allows(&wire(KEY)));
    assert!(authz.allows(&wire(&raw)));
    assert!(!authz.allows(&wire(&KEY.replace("Sqti", "Sqtj"))));
    assert!(!authz.allows_none());
}

#[test]
fn any_comment_may_stand_behind_a_space() {
    for comment in [" a", "  b c ", " \t", " #", " \u{e9}\tx"] {
        let authz = Authz::load(Some(&format!("{KEY}{comment}"))).unwrap();
        assert!(authz.allows(&wire(KEY)), "{:?}", comment);
    }
    assert!(Authz::load(Some(&format!("{KEY}\tx"))).is_err());
    assert!(Authz::load(Some(&format!("{KEY}\t x"))).is_err());
}

#[test]
fn every_listed_key_is_let_in() {
    let other = KEY.replace("Sqti", "Sqtj");
    let authz = Authz::load(Some(&format!("{KEY} a\n{other} b c\n{KEY}"))).unwrap();
    assert!(authz.allows(&wire(KEY)));
    assert!(authz.allows(&wire(&other)));
    assert!(!authz.allows(KEY.as_bytes()));
    assert!(!authz.allows(b""));
}

#[test]
fn a_line_that_is_no_key_is_an_error() {
    let err = Authz::load(Some(&format!("{KEY}\n  nonsense \n"))).unwrap_err();
    assert_eq!(err.line, "nonsense");
    assert_eq!(err.message(), format!("invalid authorized key line: nonsense: {}", err.cause));
    let mut authz = Authz::closed();
    let err = authz.add_line("x", Err("cause".to_string())).unwrap_err();
    assert_eq!(err.message(), "invalid authorized key line: x: cause");
    assert!(authz.add_line("y", Ok(vec![1, 2])).is_ok());
    assert!(authz.allows(&[1, 2]));
    assert!(!authz.allows(&[1]));
}

#[test]
fn requests_need_an_open_channel() {
    let mut h = handler(Authz::open_to_all());
    assert_eq!(
        h.pty_request(3, pty("xterm")).unwrap_err().message(),
        "missing channel state for pty request"
    );
    assert_eq!(
        h.shell_request(3).unwrap_err().message(),
        "missing channel state for shell request"
    );
    assert_eq!(
        h.exec_request(3, b"ls").unwrap_err().message(),
        "missing channel state for exec request"
    );
}

#[test]
fn a_channel_starts_one_process() {
    let mut h = handler(Authz::open_to_all());
    assert!(h.channel_open_session(1));
    assert!(h.channel_open_session(2));
    assert!(h.shell_request(1).unwrap().is_none());
    assert!(h.shell_request(1).is_err());
    assert!(h.exec_request(1, b"ls").is_err());
    assert!(h.shell_request(2).is_ok());
}

#[test]
fn the_last_terminal_of_a_channel_is_used() {
    let mut h = handler(Authz::open_to_all());
    h.channel_open_session(1);
    h.pty_request(1, pty("vt100")).unwrap();
    h.pty_request(1, pty("xterm")).unwrap();
    assert_eq!(h.shell_request(1).unwrap().unwrap().term, "xterm");
    h.channel_open_session(1);
    assert!(h.shell_request(1).unwrap().is_none());
}

#[test]
fn dial_stdio_opens_the_proxy_and_anything_else_is_run() {
    let mut h = handler(Authz::open_to_all());
    h.channel_open_session(1);
    assert!(matches!(
        h.exec_request(1, b" docker system dial-stdio\n").unwrap(),
        ExecStart::Proxy
    ));
    h.channel_open_session(1);
    h.pty_request(1, pty("xterm")).unwrap();
    match h.exec_request(1, b" printf exec-ok ").unwrap() {
        ExecStart::Command { command, pty } => {
            assert_eq!(command, "printf exec-ok");
            assert_eq!(pty.unwrap().term, "xterm");
        }
        ExecStart::Proxy => panic!("proxied"),
    }
}

#[test]
fn bytes_that_are_no_text_are_replaced() {
    let mut h = handler(Authz::open_to_all());
    h.channel_open_session(1);
    match h.exec_request(1, b"echo \xff\xe4\xbd\xa0").unwrap() {
        ExecStart::Command { command, .. } => assert_eq!(command, "echo \u{fffd}\u{4f60}"),
        ExecStart::Proxy => panic!("proxied"),
    }
}

#[test]
fn terminals_have_usual_sizes() {
    assert_eq!(normalized_pty_dimension(0, 24), 24);
    assert_eq!(normalized_pty_dimension(1, 24), 1);
    assert_eq!(normalized_pty_dimension(65535, 24), 65535);
    assert_eq!(normalized_pty_dimension(65536, 24), 65535);
    assert_eq!(normalized_pty_dimension(u32::MAX, 24), 65535);
    let size = PtySpec { term: String::new(), cols: 0, rows: 0, px_width: 0, px_height: 7 }
        .window_size();
    assert_eq!((size.rows, size.cols, size.xpixel, size.ypixel), (24, 80, 0, 7));
}

#[test]
fn runs_lead_into_the_container() {
    assert_eq!(default_docker_bin(), "docker");
    assert_eq!(docker_exec_base_command("c", false), vec!["exec", "-i", "c"]);
    assert_eq!(docker_exec_base_command("c", true), vec!["exec", "-i", "-t", "c"]);
    let run = shell_command("c", &Some(pty("xterm")), "/bin/bash");
    assert_eq!(run.args, vec!["exec", "-i", "-t", "c", "/bin/bash"]);
    assert_eq!(run.term.as_deref(), Some("xterm"));
    let run = exec_command("my-container", &None, "/bin/bash", "printf shell-override");
    assert_eq!(
        run.args,
        vec!["exec", "-i", "my-container", "/bin/bash", "-c", "printf shell-override"]
    );
    assert_eq!(run.term, None);
    let run = probe_command("c", "sh");
    assert_eq!(run.args, vec!["exec", "-i", "c", "sh", "-c", "exit 0"]);
    assert_eq!(run.term, None);
    assert_eq!(probe_unstarted_message("sh"), "failed to probe shell sh");
    assert_eq!(probe_failed_message("sh"), "shell probe failed for sh");
}

fn search(shell: Option<&str>, working: &[&str]) -> (Vec<String>, ShellStep) {
    let mut search = ShellSearch::new(mapping(shell));
    let mut probed = Vec::new();
    let mut step = search.step();
    while let ShellStep::Probe { shell } = step {
        let works = working.contains(&shell.as_str());
        probed.push(shell);
        step = search.probed(works);
    }
    (probed, step)
}

#[test]
fn the_first_usual_shell_that_works_is_used() {
    let (probed, step) = search(None, &["/bin/sh", "sh"]);
    assert_eq!(probed, vec!["/bin/bash", "/bin/sh"]);
    assert!(matches!(step, ShellStep::Use { shell } if shell == "/bin/sh"));
    let (probed, step) = search(None, &["sh"]);
    assert_eq!(probed, vec!["/bin/bash", "/bin/sh", "sh"]);
    assert!(matches!(step, ShellStep::Use { shell } if shell == "sh"));
}

#[test]
fn where_no_usual_shell_works_one_can_be_configured() {
    let (probed, step) = search(None, &[]);
    assert_eq!(probed.len(), 3);
    match step {
        ShellStep::NoneWorks { message } => assert_eq!(
            message,
            "could not determine shell for container my-container; configure one with \
             `d2s config set 2222 my-container --shell <path>`"
        ),
        other => panic!("{:?}", other),
    }
}

#[test]
fn a_configured_shell_is_the_only_candidate() {
    let (probed, step) = search(Some("/bin/zsh"), &["/bin/zsh"]);
    assert_eq!(probed, vec!["/bin/zsh"]);
    assert!(matches!(step, ShellStep::Use { shell } if shell == "/bin/zsh"));
    let (probed, step) = search(Some("/bin/zsh"), &["/bin/bash", "/bin/sh", "sh"]);
    assert_eq!(probed, vec!["/bin/zsh"]);
    assert!(matches!(step, ShellStep::ConfiguredFails));
}
