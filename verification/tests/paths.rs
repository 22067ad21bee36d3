use d2s::docker::{
    build_docker_uri, container_ref_matches, docker_authorized_command,
    sanitize_path_for_container, split_path_query, strip_version_prefix,
};

#[test]
fn allow_standard_docker_dial_stdio_commands() {
    assert!(docker_authorized_command("docker system dial-stdio"));
    assert!(docker_authorized_command(
        "docker -H unix:///var/run/docker.sock system dial-stdio"
    ));
    assert!(!docker_authorized_command("bash"));
}

#[test]
fn rewrite_versioned_container_path() {
    let path = sanitize_path_for_container(
        "/v1.46/containers/abc123/archive?path=/tmp",
        "abc123",
        &[String::from("abc123")],
    )
    .unwrap();
    assert_eq!(path, "/containers/abc123/archive?path=/tmp");
}

#[test]
fn reject_other_container_path() {
    let err = sanitize_path_for_container(
        "/containers/zzz/archive?path=/tmp",
        "abc123",
        &[String::from("abc123"), String::from("my-container")],
    )
    .unwrap_err();
    assert!(err.message().contains("does not match"));
}

#[test]
fn allow_container_name_alias() {
    let path = sanitize_path_for_container(
        "/containers/my-container/archive?path=/tmp",
        "abc123456789",
        &[String::from("my-container"), String::from("abc123456789")],
    )
    .unwrap();
    assert_eq!(path, "/containers/abc123456789/archive?path=/tmp");
}

fn refs() -> Vec<String> {
    vec!["abc123".to_string(), "my-container".to_string()]
}

fn sanitize(path: &str) -> Result<String, String> {
    sanitize_path_for_container(path, "abc123def456", &refs()).map_err(|e| e.message())
}

#[test]
fn container_list_is_filtered() {
    let filtered = "/containers/json?filters=%7B%22id%22%3A%5B%22abc123def456%22%5D%7D";
    assert_eq!(sanitize("/containers/json").unwrap(), filtered);
    assert_eq!(sanitize("/containers/json?all=1").unwrap(), filtered);
    assert_eq!(sanitize("/v1.46/containers/json?all=1").unwrap(), filtered);
}

#[test]
fn container_path_without_reference_is_unsupported() {
    assert_eq!(
        sanitize("/containers/create").unwrap_err(),
        "unsupported container path"
    );
    assert_eq!(
        sanitize("/containers/prune?x=/y").unwrap_err(),
        "unsupported container path"
    );
}

#[test]
fn foreign_container_is_refused_with_a_reason() {
    assert_eq!(
        sanitize("/containers/other/json").unwrap_err(),
        "requested container does not match mapped container"
    );
}

#[test]
fn path_that_is_no_endpoint_is_refused_with_the_path() {
    assert_eq!(
        sanitize("/exec/1/start?detach=1").unwrap_err(),
        "path not allowed for mapped docker endpoint: /exec/1/start"
    );
    assert_eq!(
        sanitize("/v1.46").unwrap_err(),
        "path not allowed for mapped docker endpoint: /v1.46"
    );
    assert_eq!(
        sanitize("").unwrap_err(),
        "path not allowed for mapped docker endpoint: "
    );
}

#[test]
fn ids_may_be_shortened_and_names_are_exact() {
    for target in ["abc123def456", "abc123", "abc", "", "my-container"] {
        assert_eq!(
            sanitize(&format!("/containers/{target}/logs?tail=5")).unwrap(),
            "/containers/abc123def456/logs?tail=5",
            "{target}"
        );
    }
    for target in ["my-con", "my-container-2", "abc123zzz", "abc123def4567", "My-container"] {
        assert_eq!(
            sanitize(&format!("/containers/{target}/stop")).unwrap_err(),
            "requested container does not match mapped container",
            "{target}"
        );
    }
}

#[test]
fn global_endpoints_pass_unchanged() {
    for path in [
        "/_ping",
        "/version",
        "/info",
        "/events?since=1",
        "/system/df",
        "/auth",
        "/session",
        "/distribution/x/json",
        "/build?t=a",
        "/images/json",
        "/networks/x",
        "/volumes/x",
        "/plugins/x",
        "/swarm",
        "/nodes",
        "/services",
        "/tasks",
        "/secrets",
        "/configs",
        "/",
        "/?q",
    ] {
        assert_eq!(sanitize(path).unwrap(), path);
        let versioned = format!("/v1.46{path}");
        assert_eq!(sanitize(&versioned).unwrap(), path);
        assert_eq!(sanitize(&sanitize(&versioned).unwrap()).unwrap(), path);
    }
}

#[test]
fn only_a_version_is_stripped() {
    assert_eq!(strip_version_prefix("/v1.46/containers/x"), "/containers/x");
    assert_eq!(strip_version_prefix("/v./x"), "/x");
    assert_eq!(strip_version_prefix("/v/x"), "/v/x");
    assert_eq!(strip_version_prefix("/v1a/x"), "/v1a/x");
    assert_eq!(strip_version_prefix("/version/x"), "/version/x");
    assert_eq!(strip_version_prefix("/v1.46?x=/y"), "/v1.46?x=/y");
    assert_eq!(strip_version_prefix("/v1.46"), "/v1.46");
    assert_eq!(strip_version_prefix("v1/x"), "v1/x");
    assert_eq!(strip_version_prefix("/v1/v2/x"), "/v2/x");
}

#[test]
fn path_and_query_part_at_the_first_question_mark() {
    assert_eq!(split_path_query("/a?b?c"), ("/a", Some("b?c")));
    assert_eq!(split_path_query("/a?"), ("/a", Some("")));
    assert_eq!(split_path_query("/a"), ("/a", None));
    assert_eq!(split_path_query("/\u{e4}?\u{fc}"), ("/\u{e4}", Some("\u{fc}")));
}

#[test]
fn references_match_exactly_and_ids_by_their_beginnings() {
    let refs = refs();
    assert!(!container_ref_matches("my-container-2", "abc123", &refs));
    assert!(!container_ref_matches("my-con", "abc123", &refs));
    assert!(container_ref_matches("my-container", "abc123", &refs));
    assert!(container_ref_matches("abc1", "abc123def456", &refs));
    assert!(container_ref_matches("abc123def456", "abc123def456", &[]));
    assert!(!container_ref_matches("abc123def4567", "abc123def456", &[]));
    assert!(!container_ref_matches("other", "abc123def456", &refs));
}

#[test]
fn dial_stdio_may_have_white_space_around_it() {
    assert!(docker_authorized_command("  docker system dial-stdio\n"));
    assert!(docker_authorized_command("\u{3000}docker system dial-stdio\u{a0}"));
    assert!(!docker_authorized_command("docker  system dial-stdio"));
    assert!(!docker_authorized_command(""));
}

#[test]
fn docker_uri_is_read_by_hyper() {
    assert_eq!(build_docker_uri("/_ping?x=1").unwrap(), "http://docker/_ping?x=1");
    assert_eq!(build_docker_uri("/a#b").unwrap(), "http://docker/a");
    assert_eq!(build_docker_uri("/a?").unwrap(), "http://docker/a?");
    assert_eq!(build_docker_uri("/?x#y?z").unwrap(), "http://docker/?x");
    assert_eq!(build_docker_uri("/\u{e9}?\u{e9}").unwrap(), "http://docker/\u{e9}?\u{e9}");
    assert_eq!(build_docker_uri("").unwrap(), "http://docker/");
    assert_eq!(build_docker_uri("/a b").unwrap_err().message, "invalid uri character");
}

#[test]
fn docker_uri_has_a_longest_length() {
    let fits = format!("/{}", "a".repeat(65520));
    assert_eq!(build_docker_uri(&fits).unwrap(), format!("http://docker{fits}"));
    let too_long = format!("/{}", "a".repeat(65521));
    assert!(build_docker_uri(&too_long).is_err());
}

#[test]
fn plain_characters_make_a_uri() {
    let plain: String = (0u8..128)
        .map(char::from)
        .filter(|c| {
            *c == '!'
                || ('$'..=';').contains(c)
                || *c == '='
                || ('?'..='_').contains(c)
                || c.is_ascii_lowercase()
                || *c == '|'
                || *c == '~'
        })
        .collect();
    let path = format!("/{plain}");
    assert_eq!(build_docker_uri(&path).unwrap(), format!("http://docker{path}"));
    let twice = format!("/{plain}{plain}");
    assert_eq!(build_docker_uri(&twice).unwrap(), format!("http://docker{twice}"));
}

#[test]
fn what_passes_once_passes_again() {
    for path in [
        "/containers/json?all=1",
        "/v1.46/containers/my-container/logs?tail=5",
        "/containers/abc/a/b?c?d",
        "/v1.46/images/json",
    ] {
        let once = sanitize(path).unwrap();
        assert!(once.starts_with('/'));
        assert_eq!(sanitize(&once).unwrap(), once);
    }
}
