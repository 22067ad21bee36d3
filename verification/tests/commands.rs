use d2s::cli::{
    active_line, daemon_run, mapping_line, unknown_container_message, upgrade_run, Cli, Cmd, ConfigCmd,
    ShellConflict, Task,
};
use d2s::config::MappingSpec;
use d2s::docker::ActiveMapping;
use d2s::doctor::{
    address, check_answer, check_login, check_pong, ping_command, ping_request,
    unreachable_message, Checkup, PingError, Unreachable,
};
use d2s::forward::{
    forward_port, namespace_path, normalize_forward_host, settle, unresolved_message, Attempts,
    ForwardRequest, NamespaceError,
};
use d2s::report::{
    collector_of, debug_config, debug_report, post_request, Field, FieldValue, Report,
};

fn task(cmd: Option<Cmd>) -> Result<Task, ShellConflict> {
    Cli { config: None, cmd }.task()
}

fn set(shell: Option<&str>, clear_shell: bool) -> Result<Task, ShellConflict> {
    task(Some(Cmd::Config {
        cmd: ConfigCmd::SetPort {
            port: 2222,
            container: "my-app".to_string(),
            shell: shell.map(str::to_string),
            clear_shell,
        },
    }))
}

#[test]
fn no_command_is_a_call_for_help() {
    assert!(matches!(task(None), Ok(Task::Help)));
}

#[test]
fn serving_starts_in_the_background() {
    assert!(matches!(task(Some(Cmd::Serve)), Ok(Task::StartDaemon)));
    assert!(matches!(task(Some(Cmd::Daemon)), Ok(Task::ServeInForeground)));
    assert!(matches!(task(Some(Cmd::Stop)), Ok(Task::StopDaemon)));
    assert!(matches!(task(Some(Cmd::Upgrade)), Ok(Task::Upgrade)));
    assert!(matches!(task(Some(Cmd::Show)), Ok(Task::ShowActive)));
}

#[test]
fn shell_settings_come_from_the_command_line() {
    for (shell, clear, expected) in [
        (None, false, None),
        (Some("/bin/bash"), false, Some(Some("/bin/bash".to_string()))),
        (None, true, Some(None)),
    ] {
        match set(shell, clear).unwrap() {
            Task::SetMapping { port, container, shell } => {
                assert_eq!(port, 2222);
                assert_eq!(container, "my-app");
                assert_eq!(shell, expected);
            }
            other => panic!("{:?}", other),
        }
    }
    assert_eq!(
        set(Some("/bin/bash"), true).unwrap_err().message(),
        "--shell and --clear-shell cannot be used together"
    );
}

#[test]
fn other_commands_come_to_their_tasks() {
    let rm = task(Some(Cmd::Config { cmd: ConfigCmd::Rm { port: 7 } }));
    assert!(matches!(rm, Ok(Task::RemoveMapping { port: 7 })));
    let list = task(Some(Cmd::Config { cmd: ConfigCmd::List }));
    assert!(matches!(list, Ok(Task::ListMappings)));
    let doctor = task(Some(Cmd::Doctor {
        user: "docker".to_string(),
        identity: Some("/k".to_string()),
        host: "127.0.0.1".to_string(),
    }));
    match doctor.unwrap() {
        Task::CheckActive { user, identity, host } => {
            assert_eq!((user.as_str(), identity.as_deref()), ("docker", Some("/k")));
            assert_eq!(host, "127.0.0.1");
        }
        other => panic!("{:?}", other),
    }
}

#[test]
fn mappings_are_listed_in_lines() {
    let mut m = MappingSpec { port: 2222, container: "my-app".to_string(), shell: None };
    assert_eq!(mapping_line(&m), "2222 -> my-app");
    m.shell = Some("/bin/bash".to_string());
    assert_eq!(mapping_line(&m), "2222 -> my-app [shell=/bin/bash]");
    let a = ActiveMapping {
        port: 1,
        container_ref: "c".to_string(),
        container_id_short: "abc123".to_string(),
    };
    assert_eq!(active_line(&a), "1 -> c (abc123)");
    assert_eq!(unknown_container_message("c"), "container not found: c");
}

#[test]
fn programs_are_run_with_their_arguments() {
    let run = upgrade_run(None);
    assert_eq!(run.program, "python3");
    assert_eq!(run.args, vec!["-m", "pip", "install", "-U", "docker2ssh"]);
    assert_eq!(upgrade_run(Some("/p".to_string())).program, "/p");
    assert_eq!(daemon_run("/c.toml"), vec!["--config", "/c.toml", "daemon"]);
}

fn mapped() -> ActiveMapping {
    ActiveMapping {
        port: 2222,
        container_ref: "my-container".to_string(),
        container_id_short: "abc123".to_string(),
    }
}

#[test]
fn a_pong_is_recognized() {
    assert_eq!(ping_command(), "docker system dial-stdio");
    assert_eq!(ping_request(), "GET /_ping HTTP/1.0\r\nHost: docker\r\n\r\n");
    assert!(check_answer(b"HTTP/1.0 200 OK\r\nx: y\r\n\r\nOK").is_ok());
    assert!(check_pong("200 OK \r\n\r\nOK".to_string()).is_ok());
    for answer in ["HTTP/1.0 200 OK\r\n\r\nno", "HTTP/1.0 500 Oh\r\n\r\nOK", ""] {
        let err = check_answer(answer.as_bytes()).unwrap_err();
        assert_eq!(err.message(), format!("unexpected docker ping response: {answer}"));
    }
    assert_eq!(
        check_answer(b"a\xffb").unwrap_err().message(),
        "unexpected docker ping response: a\u{fffd}b"
    );
}

#[test]
fn a_refused_login_fails_the_check() {
    assert!(check_login(true, true).is_ok());
    assert!(check_login(false, true).is_ok());
    assert_eq!(
        check_login(true, false).unwrap_err().message(),
        "public key authentication failed"
    );
    let err = check_login(false, false).unwrap_err();
    assert!(matches!(err, PingError::KeyWanted));
    assert_eq!(
        err.message(),
        "none authentication failed; pass --identity or remove authorized_keys"
    );
}

#[test]
fn a_checkup_fails_where_a_mapping_does() {
    assert_eq!(Checkup::nothing_to_check(&[]).as_deref(), Some("no active mappings"));
    assert!(Checkup::nothing_to_check(&[mapped()]).is_none());
    let mut checkup = Checkup::new();
    assert_eq!(checkup.checked(&mapped(), None), "ok   2222 -> my-container");
    assert!(checkup.finish().is_ok());
    assert_eq!(
        checkup.checked(&mapped(), Some("no".to_string())),
        "fail 2222 -> my-container: no"
    );
    assert_eq!(checkup.checked(&mapped(), None), "ok   2222 -> my-container");
    assert_eq!(checkup.finish(), Err(Unreachable));
    assert_eq!(Unreachable.message(), "doctor found unreachable mappings");
    assert_eq!(address("127.0.0.1", 2222), "127.0.0.1:2222");
    assert_eq!(unreachable_message("h", 1), "connect failed on h:1");
}

#[test]
fn forwarded_ports_must_be_ports() {
    assert_eq!(forward_port(0), Some(0));
    assert_eq!(forward_port(65535), Some(65535));
    assert_eq!(forward_port(65536), None);
    assert_eq!(normalize_forward_host(""), "127.0.0.1");
    assert_eq!(normalize_forward_host("db"), "db");
    assert_eq!(namespace_path(12345), "/proc/12345/ns/net");
}

#[test]
fn a_connection_needs_the_way_back() {
    assert!(matches!(settle::<u8, &str>(Ok(1), Ok(())), Ok(1)));
    assert!(matches!(
        settle::<u8, &str>(Err("c"), Ok(())),
        Err(NamespaceError::Connect("c"))
    ));
    assert!(matches!(
        settle::<u8, &str>(Ok(1), Err("r")),
        Err(NamespaceError::Restore("r"))
    ));
    assert!(matches!(
        settle::<u8, &str>(Err("c"), Err("r")),
        Err(NamespaceError::Both { connect: "c", restore: "r" })
    ));
}

#[test]
fn the_first_address_that_answers_is_used() {
    let mut attempts: Attempts<&str> = Attempts::new();
    assert_eq!(attempts.attempted::<u8>(Err("a")), None);
    assert_eq!(attempts.attempted::<u8>(Err("b")), None);
    assert_eq!(attempts.attempted::<u8>(Ok(3)), Some(3));
    assert_eq!(
        attempts.exhausted("db", 5432),
        (Some("b"), "failed to connect to db:5432".to_string())
    );
    assert_eq!(
        Attempts::<&str>::new().exhausted("db", 5432),
        (None, "no socket addresses resolved for db:5432".to_string())
    );
    assert_eq!(unresolved_message("db", 5432), "failed to resolve db:5432");
}

#[test]
fn forwarding_is_logged_with_both_ends() {
    let request = ForwardRequest {
        host: "db".to_string(),
        port: 70000,
        originator: "127.0.0.1".to_string(),
        originator_port: 60142,
    };
    assert_eq!(
        request.rejected("no"),
        "direct-tcpip rejected for db:70000 from 127.0.0.1:60142: no"
    );
    assert_eq!(
        request.broken("oh"),
        "direct-tcpip bridge failed for db:70000 from 127.0.0.1:60142: oh"
    );
}

#[test]
fn reports_go_where_the_settings_say() {
    let usual = debug_config(None);
    assert_eq!(usual.url, "http://127.0.0.1:7777/event");
    assert_eq!(usual.session, "ssh-tty-failure");
    let cfg = debug_config(Some(
        "x=1\nDEBUG_SERVER_URL= http://a/b \r\nDEBUG_SESSION_ID=s1\nDEBUG_SESSION_ID=s2",
    ));
    assert_eq!(cfg.url, "http://a/b");
    assert_eq!(cfg.session, "s2");
}

#[test]
fn collectors_are_plain_http() {
    let pair = |a: &str, b: &str| Some((a.to_string(), b.to_string()));
    assert_eq!(collector_of("http://h:1/a/b"), pair("h:1", "a/b"));
    assert_eq!(collector_of("http://h"), pair("h", "event"));
    assert_eq!(collector_of("http://"), pair("", "event"));
    assert_eq!(collector_of("https://h/x"), None);
}

fn report() -> Report {
    Report {
        run_id: "run".to_string(),
        hypothesis_id: "A".to_string(),
        location: "here".to_string(),
        msg: "say \"hi\"".to_string(),
        data: vec![
            Field { name: "z".to_string(), value: FieldValue::Number(7) },
            Field { name: "b".to_string(), value: FieldValue::Flag(true) },
            Field { name: "t".to_string(), value: FieldValue::Text("\u{e9}\n".to_string()) },
            Field { name: "n".to_string(), value: FieldValue::Absent },
            Field {
                name: "l".to_string(),
                value: FieldValue::List(vec!["x".to_string(), "y".to_string()]),
            },
        ],
    }
}

#[test]
fn a_report_is_posted_as_json() {
    let (authority, request) = debug_report(debug_config(None), report()).unwrap();
    assert_eq!(authority, "127.0.0.1:7777");
    let payload = "{\"data\":{\"b\":true,\"l\":[\"x\",\"y\"],\"n\":null,\"t\":\"\u{e9}\\n\",\"z\":7},\
                   \"hypothesisId\":\"A\",\"location\":\"here\",\"msg\":\"say \\\"hi\\\"\",\
                   \"runId\":\"run\",\"sessionId\":\"ssh-tty-failure\"}";
    assert_eq!(
        request,
        format!(
            "POST /event HTTP/1.1\r\nHost: 127.0.0.1:7777\r\nContent-Type: application/json\r\n\
             Content-Length: {}\r\nConnection: close\r\n\r\n{}",
            payload.len(),
            payload
        )
    );
    assert_eq!(request, post_request("127.0.0.1:7777", "event", payload));
}

#[test]
fn a_report_without_a_collector_is_dropped() {
    let cfg = debug_config(Some("DEBUG_SERVER_URL=https://h/x"));
    assert!(debug_report(cfg, report()).is_none());
}
