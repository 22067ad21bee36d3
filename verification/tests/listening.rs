use d2s::config::{ConfigFile, ConfigStore, MappingSpec};
use d2s::docker::DockerBackend;
use d2s::listen::{
    build_listeners, display_socket_addr, is_dual_stack_wildcard, normalize_listen_host,
    plan_endpoints, HostAddr,
};
use d2s::serve::{
    ServeManager, ServePlan, BACKLOG, FIRST_REJECTION_SECS, INACTIVITY_SECS, REJECTION_SECS,
};

fn v4(text: &str) -> Option<HostAddr> {
    Some(HostAddr::V4(text.to_string()))
}

fn v6(text: &str) -> Option<HostAddr> {
    Some(HostAddr::V6(text.to_string()))
}

fn is_v4(address: &HostAddr) -> bool {
    matches!(address, HostAddr::V4(_))
}

#[test]
fn wildcard_listen_host_creates_dual_stack_listeners() {
    let listeners = build_listeners("0.0.0.0", 0, &v4("0.0.0.0")).unwrap();
    assert_eq!(listeners.len(), 2);
    assert_eq!(listeners[0].label, "0.0.0.0:0");
    assert_eq!(listeners[1].label, "[::]:0");
    assert!(is_v4(&listeners[0].address));
    assert!(!is_v4(&listeners[1].address));
}

#[test]
fn bracketed_ipv6_listen_host_is_supported() {
    let listeners = build_listeners("[::1]", 0, &v6("::1")).unwrap();
    assert_eq!(listeners.len(), 1);
    assert_eq!(listeners[0].label, "[::1]:0");
    assert!(!is_v4(&listeners[0].address));
}

#[test]
fn both_wildcards_bind_both_families() {
    for host in ["0.0.0.0", "::", "[::]", " 0.0.0.0 "] {
        let listeners = build_listeners(host, 2222, &None).unwrap();
        let labels: Vec<&str> = listeners.iter().map(|l| l.label.as_str()).collect();
        assert_eq!(labels, vec!["0.0.0.0:2222", "[::]:2222"]);
        assert!(!listeners[0].v6_only);
        assert!(listeners[1].v6_only);
        assert_eq!(listeners[0].port, 2222);
    }
}

#[test]
fn a_single_address_binds_once() {
    let listeners = build_listeners("10.0.0.1", 22, &v4("10.0.0.1")).unwrap();
    assert_eq!(listeners.len(), 1);
    assert_eq!(listeners[0].label, "10.0.0.1:22");
    assert!(!listeners[0].v6_only);
    let listeners = build_listeners("fe80::1", 22, &v6("fe80::1")).unwrap();
    assert_eq!(listeners[0].label, "[fe80::1]:22");
    assert!(listeners[0].v6_only);
}

#[test]
fn a_host_that_is_no_address_is_refused() {
    let err = build_listeners(" example.org ", 22, &None).unwrap_err();
    assert_eq!(err.message(), "invalid listen_host:  example.org ");
}

#[test]
fn listen_hosts_are_normalized() {
    assert_eq!(normalize_listen_host(" [::1] "), "::1");
    assert_eq!(normalize_listen_host("[[::]]"), "::");
    assert_eq!(normalize_listen_host("]a["), "]a[");
    assert_eq!(normalize_listen_host("[ a ]"), " a ");
    assert!(is_dual_stack_wildcard("::"));
    assert!(!is_dual_stack_wildcard("[::]"));
}

#[test]
fn addresses_are_shown_with_their_port() {
    assert_eq!(display_socket_addr(&HostAddr::V4("1.2.3.4".to_string()), 65535), "1.2.3.4:65535");
    assert_eq!(display_socket_addr(&HostAddr::V6("::1".to_string()), 0), "[::1]:0");
}

fn config(ports: &[(u16, &str)]) -> ConfigFile {
    let mut cfg = ConfigFile::initial();
    for (port, container) in ports {
        cfg.mappings.push(MappingSpec {
            port: *port,
            container: container.to_string(),
            shell: None,
        });
    }
    cfg
}

#[test]
fn every_mapping_gets_its_listeners_in_order() {
    let cfg = config(&[(2222, "a"), (2223, "b")]);
    let endpoints = plan_endpoints(&cfg, &v4("0.0.0.0")).unwrap();
    let told: Vec<String> = endpoints.iter().map(|e| e.announcement()).collect();
    assert_eq!(
        told,
        vec![
            "listening on 0.0.0.0:2222 -> a",
            "listening on [::]:2222 -> a",
            "listening on 0.0.0.0:2223 -> b",
            "listening on [::]:2223 -> b",
        ]
    );
}

#[test]
fn without_mappings_nothing_is_served() {
    let store = ConfigStore::locate(Some("/etc/d2s/config.toml".to_string()), None).unwrap();
    let manager = ServeManager::new(store, DockerBackend::from_socket_path("/s".to_string()));
    assert_eq!(manager.store().path(), "/etc/d2s/config.toml");
    assert_eq!(manager.docker().socket_path(), "/s");
    match manager.plan(&config(&[]), &None).unwrap() {
        ServePlan::Idle { message } => {
            assert_eq!(message, "no mappings configured in /etc/d2s/config.toml")
        }
        ServePlan::Listen { .. } => panic!("listens"),
    }
    let mut cfg = config(&[(1, "a")]);
    match manager.plan(&cfg, &None).unwrap() {
        ServePlan::Listen { endpoints } => assert_eq!(endpoints.len(), 2),
        ServePlan::Idle { message } => panic!("{message}"),
    }
    cfg.listen_host = "nowhere".to_string();
    assert_eq!(
        manager.plan(&cfg, &None).unwrap_err().message(),
        "invalid listen_host: nowhere"
    );
}

#[test]
fn limits_of_the_server() {
    assert_eq!(INACTIVITY_SECS, 3600);
    assert_eq!(REJECTION_SECS, 1);
    assert_eq!(FIRST_REJECTION_SECS, 0);
    assert_eq!(BACKLOG, 128);
}
