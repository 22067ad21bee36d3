use d2s::config::{ConfigFile, MappingSpec};
use d2s::docker::{
    ensure_success, inspect_answer, inspect_path, running_pid, short_id, ContainerInspect,
    ContainerState, DockerBackend, DockerError, UnixConnector, UriError,
};
use d2s::proxy::{backend_failed, invalid_request, route_uri, ProxyTarget, Route};

fn target() -> ProxyTarget {
    ProxyTarget::from_parts(
        DockerBackend::from_socket_path("/run/docker.sock".to_string()),
        "abc123".to_string(),
        vec!["abc123".to_string(), "my-container".to_string()],
    )
}

fn answer(route: Route) -> (u16, String) {
    match route {
        Route::Answer(reply) => (reply.status, reply.message),
        Route::Forward { uri } => panic!("forwarded to {uri}"),
    }
}

fn forward(route: Route) -> String {
    match route {
        Route::Forward { uri } => uri,
        Route::Answer(reply) => panic!("answered {} {}", reply.status, reply.message),
    }
}

#[test]
fn ping_is_forwarded() {
    assert_eq!(forward(target().route(Some("/_ping"))), "http://docker/_ping");
    assert_eq!(target().backend().socket_path(), "/run/docker.sock");
}

#[test]
fn request_without_a_path_is_for_the_root() {
    assert_eq!(forward(target().route(None)), "http://docker/");
}

#[test]
fn container_request_is_forwarded_to_the_id() {
    assert_eq!(
        forward(target().route(Some("/v1.46/containers/my-container/logs?tail=1"))),
        "http://docker/containers/abc123/logs?tail=1"
    );
}

#[test]
fn refused_request_is_forbidden() {
    assert_eq!(
        answer(target().route(Some("/containers/zzz/json"))),
        (403, "requested container does not match mapped container".to_string())
    );
    assert_eq!(answer(target().route(Some("/containers/my-container-2/stop"))).0, 403);
    assert_eq!(
        answer(target().route(Some("/exec/x"))),
        (403, "path not allowed for mapped docker endpoint: /exec/x".to_string())
    );
}

#[test]
fn what_is_no_uri_is_a_bad_request() {
    assert_eq!(
        answer(target().route(Some("/info?a b"))),
        (400, "invalid uri character".to_string())
    );
    assert_eq!(
        answer(route_uri(Err(UriError { message: "no".to_string() }))),
        (400, "no".to_string())
    );
    assert_eq!(forward(route_uri(Ok("u".to_string()))), "u");
}

#[test]
fn failures_are_told_to_the_client() {
    let reply = invalid_request("x");
    assert_eq!((reply.status, reply.message.as_str()), (400, "invalid request: x"));
    let reply = backend_failed("y");
    assert_eq!(
        (reply.status, reply.message.as_str()),
        (502, "docker backend request failed: y")
    );
}

fn inspect(id: &str, name: &str, running: bool) -> ContainerInspect {
    ContainerInspect {
        id: id.to_string(),
        name: name.to_string(),
        state: ContainerState { running },
    }
}

#[test]
fn target_accepts_reference_id_short_id_and_name_in_order() {
    let backend = DockerBackend::from_socket_path("/s".to_string());
    let t = ProxyTarget::resolve(backend, "my-app", inspect("0123456789abcdef", "//my-app", true));
    let mut expected = vec![
        "my-app".to_string(),
        "0123456789abcdef".to_string(),
        "0123456789ab".to_string(),
    ];
    expected.sort();
    assert_eq!(t.accepted_refs(), &expected);
    for r in ["my-app", "0123456789abcdef", "0123456789ab"] {
        assert_eq!(
            forward(t.route(Some(&format!("/containers/{r}/json")))),
            "http://docker/containers/0123456789abcdef/json"
        );
    }
}

#[test]
fn target_references_agree_with_sort_and_dedup() {
    for (container_ref, id, name) in [
        ("b", "c", "/a"),
        ("", "0123456789abcdef", "/"),
        ("\u{e9}", "abc", "zz"),
        ("abc", "abc", "/abc"),
        ("B", "a\u{10000}", "/a\u{ffff}"),
    ] {
        let mut expected = vec![
            container_ref.to_string(),
            id.to_string(),
            id.chars().take(12).collect::<String>(),
            name.trim_start_matches('/').to_string(),
        ];
        expected.sort();
        expected.dedup();
        let backend = DockerBackend::from_socket_path("/s".to_string());
        let t = ProxyTarget::resolve(backend, container_ref, inspect(id, name, true));
        assert_eq!(t.accepted_refs(), &expected);
    }
}

#[test]
fn socket_comes_from_the_environment_or_the_config() {
    let cfg = ConfigFile::initial();
    let s = |x: &str| Some(x.to_string());
    assert_eq!(
        DockerBackend::from_env_or_config(s("/a"), s("/b"), &cfg).socket_path(),
        "/a"
    );
    assert_eq!(DockerBackend::from_env_or_config(None, s("/b"), &cfg).socket_path(), "/b");
    assert_eq!(
        DockerBackend::from_env_or_config(None, None, &cfg).socket_path(),
        "/var/run/docker.sock"
    );
    let backend = DockerBackend::from_env_or_config(None, None, &cfg);
    assert_eq!(backend.connector().socket_path(), "/var/run/docker.sock");
    assert_eq!(UnixConnector::new("/x".to_string()).socket_path(), "/x");
}

#[test]
fn only_running_containers_are_active() {
    let mappings: Vec<MappingSpec> = [(1, "a"), (2, "b"), (3, "c")]
        .iter()
        .map(|(port, container)| MappingSpec {
            port: *port,
            container: container.to_string(),
            shell: None,
        })
        .collect();
    let told = [
        inspect("0123456789abcdef", "/a", true),
        inspect("x", "/b", false),
        inspect("y", "/c", true),
    ];
    let backend = DockerBackend::from_socket_path("/s".to_string());
    let active = backend.active_mappings(&mappings, &told);
    let seen: Vec<(u16, String, String)> = active
        .iter()
        .map(|a| (a.port, a.container_ref.clone(), a.container_id_short.clone()))
        .collect();
    assert_eq!(
        seen,
        vec![
            (1, "a".to_string(), "0123456789ab".to_string()),
            (3, "c".to_string(), "y".to_string()),
        ]
    );
    assert_eq!(short_id("0123456789abcdef"), "0123456789ab");
}

#[test]
fn answers_of_the_daemon_are_judged_by_their_status() {
    assert!(inspect_answer(200).is_ok());
    assert!(inspect_answer(299).is_ok());
    assert_eq!(inspect_answer(404).unwrap_err().message(), "container not found");
    assert_eq!(
        inspect_answer(500).unwrap_err().message(),
        "inspect container failed with status 500 Internal Server Error"
    );
    assert_eq!(
        ensure_success(199, "op").unwrap_err().message(),
        "op failed with status 199 <unknown status code>"
    );
    assert!(ensure_success(300, "op").is_err());
    assert_eq!(inspect_path("my-app"), "/containers/my-app/json");
}

#[test]
fn process_of_a_running_container() {
    let on = ContainerState { running: true };
    let off = ContainerState { running: false };
    assert_eq!(running_pid(on, Some(12345)).unwrap(), 12345);
    assert!(matches!(running_pid(off, Some(12345)), Err(DockerError::NotRunning)));
    assert!(matches!(running_pid(on, Some(0)), Err(DockerError::NoProcess)));
    assert!(matches!(running_pid(on, None), Err(DockerError::NoProcess)));
    assert_eq!(DockerError::NotRunning.message(), "container is not running");
    assert_eq!(DockerError::NoProcess.message(), "container has no running process");
}
