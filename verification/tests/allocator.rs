use std::collections::HashSet;

use botglue::environment::PortMapping;
use botglue::podman::{allocate_ports, container_name, PodmanConfig, PortError};

fn test_config() -> PodmanConfig {
    PodmanConfig {
        podman_path: "podman".to_string(),
        port_range_start: 10000,
        port_range_end: 10005,
    }
}

fn auto(name: &str, container_port: u16) -> PortMapping {
    PortMapping {
        name: name.to_string(),
        container_port,
        host_port: None,
        protocol: None,
    }
}

#[test]
fn test_allocate_ports_auto_assign() {
    let config = test_config();
    let used = HashSet::new();
    let requested = vec![auto("http", 8080), auto("debug", 9229)];

    let result = allocate_ports(&config, &used, &requested).unwrap();
    assert_eq!(result.len(), 2);
    assert_eq!(result[0].host_port, Some(10000));
    assert_eq!(result[1].host_port, Some(10001));
}

#[test]
fn test_allocate_ports_skip_used() {
    let config = test_config();
    let mut used = HashSet::new();
    used.insert(10000);
    used.insert(10001);

    let requested = vec![auto("http", 8080)];

    let result = allocate_ports(&config, &used, &requested).unwrap();
    assert_eq!(result[0].host_port, Some(10002));
}

#[test]
fn test_allocate_ports_explicit_conflict() {
    let config = test_config();
    let mut used = HashSet::new();
    used.insert(10000);

    let requested = vec![PortMapping {
        name: "http".to_string(),
        container_port: 8080,
        host_port: Some(10000),
        protocol: None,
    }];

    let result = allocate_ports(&config, &used, &requested);
    assert!(result.is_err());
}

#[test]
fn test_allocate_ports_range_exhaustion() {
    let config = test_config(); // range 10000..10005 = 5 ports
    let mut used = HashSet::new();
    for p in 10000..10005 {
        used.insert(p);
    }

    let requested = vec![auto("http", 8080)];

    let result = allocate_ports(&config, &used, &requested);
    assert!(result.is_err());
}

#[test]
fn test_container_name() {
    assert_eq!(container_name("abcdefgh-1234"), "botglue-abcdefgh");
    assert_eq!(container_name("short"), "botglue-short");
}

#[test]
fn test_allocate_explicit_pass_through() {
    let config = test_config();
    let used = HashSet::new();
    let requested = vec![PortMapping {
        name: "http".to_string(),
        container_port: 8080,
        host_port: Some(3000),
        protocol: Some("tcp".to_string()),
    }];

    let result = allocate_ports(&config, &used, &requested).unwrap();
    assert_eq!(result.len(), 1);
    assert_eq!(result[0].name, "http");
    assert_eq!(result[0].container_port, 8080);
    assert_eq!(result[0].host_port, Some(3000));
    assert_eq!(result[0].protocol, Some("tcp".to_string()));
}

#[test]
fn test_allocate_failure_is_pure() {
    // A failed call must leave the used set untouched and hand back no
    // bindings at all.
    let config = test_config();
    let mut used = HashSet::new();
    used.insert(10000);
    let before = used.clone();

    let requested = vec![
        auto("a", 8080),
        PortMapping {
            name: "b".to_string(),
            container_port: 9000,
            host_port: Some(10000),
            protocol: None,
        },
    ];

    let result = allocate_ports(&config, &used, &requested);
    match result {
        Err(PortError::PortConflict(p)) => assert_eq!(p, 10000),
        _ => panic!("expected a conflict on port 10000"),
    }
    assert_eq!(used, before);
}

#[test]
fn test_allocate_conflict_error_names_port() {
    let config = test_config();
    let mut used = HashSet::new();
    used.insert(10003);
    let requested = vec![PortMapping {
        name: "x".to_string(),
        container_port: 80,
        host_port: Some(10003),
        protocol: None,
    }];
    assert!(matches!(
        allocate_ports(&config, &used, &requested),
        Err(PortError::PortConflict(10003))
    ));
}

#[test]
fn test_allocate_exhaustion_error_kind() {
    let config = test_config();
    let mut used = HashSet::new();
    for p in 10000..10005 {
        used.insert(p);
    }
    assert!(matches!(
        allocate_ports(&config, &used, &vec![auto("x", 80)]),
        Err(PortError::PortRangeExhausted)
    ));
}

#[test]
fn test_allocate_duplicate_explicit_in_one_call() {
    // The transient set catches a port requested twice in the same call.
    let config = test_config();
    let used = HashSet::new();
    let one = PortMapping {
        name: "a".to_string(),
        container_port: 80,
        host_port: Some(10004),
        protocol: None,
    };
    let two = PortMapping {
        name: "b".to_string(),
        container_port: 81,
        host_port: Some(10004),
        protocol: None,
    };
    assert!(matches!(
        allocate_ports(&config, &used, &vec![one, two]),
        Err(PortError::PortConflict(10004))
    ));
}

#[test]
fn test_allocate_auto_skips_port_assigned_earlier_in_call() {
    let config = test_config();
    let used = HashSet::new();
    let explicit = PortMapping {
        name: "a".to_string(),
        container_port: 80,
        host_port: Some(10000),
        protocol: None,
    };
    let result = allocate_ports(&config, &used, &vec![explicit, auto("b", 81)]).unwrap();
    assert_eq!(result[0].host_port, Some(10000));
    assert_eq!(result[1].host_port, Some(10001));
}

#[test]
fn test_default_config() {
    let config = PodmanConfig::default();
    assert_eq!(config.podman_path, "podman");
    assert_eq!(config.port_range_start, 10000);
    assert_eq!(config.port_range_end, 11000);
}
