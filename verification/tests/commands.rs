use botglue::environment::PortMapping;
use botglue::podman::{
    classify_outcome, combine_output, create_container_args, decimal_string, PodmanError,
};

#[test]
fn test_decimal_string() {
    assert_eq!(decimal_string(0), "0");
    assert_eq!(decimal_string(7), "7");
    assert_eq!(decimal_string(10), "10");
    assert_eq!(decimal_string(8080), "8080");
    assert_eq!(decimal_string(65535), "65535");
}

#[test]
fn test_create_container_args_with_ports() {
    let ports = vec![
        PortMapping {
            name: "http".to_string(),
            container_port: 8080,
            host_port: Some(18080),
            protocol: Some("tcp".to_string()),
        },
        PortMapping {
            name: "debug".to_string(),
            container_port: 9229,
            host_port: None,
            protocol: None,
        },
    ];
    let args = create_container_args("botglue-abc", None, &ports);
    assert_eq!(
        args,
        vec![
            "run",
            "-d",
            "--name",
            "botglue-abc",
            "-p",
            "18080:8080",
            "ubuntu:22.04",
            "sleep",
            "infinity",
        ]
    );
}

#[test]
fn test_create_container_args_custom_image() {
    let args = create_container_args("c", Some("alpine:3"), &vec![]);
    assert_eq!(args, vec!["run", "-d", "--name", "c", "alpine:3", "sleep", "infinity"]);
}

#[test]
fn test_classify_outcome_success_trims_stdout() {
    let r = classify_outcome(true, true, Some(0), "abc123\n", "", "podman run".to_string());
    assert_eq!(r.unwrap(), "abc123");
}

#[test]
fn test_classify_outcome_launch_failure() {
    let r = classify_outcome(false, false, None, "", "", "podman stop c1".to_string());
    assert!(matches!(r, Err(PodmanError::NotInstalled)));
}

#[test]
fn test_classify_outcome_command_failure() {
    let r = classify_outcome(
        true,
        false,
        Some(125),
        "",
        " no such container \n",
        "podman stop c1".to_string(),
    );
    match r {
        Err(PodmanError::CommandFailed { command, stderr, exit_code }) => {
            assert_eq!(command, "podman stop c1");
            assert_eq!(stderr, "no such container");
            assert_eq!(exit_code, 125);
        }
        other => panic!("expected CommandFailed, got {:?}", other),
    }
}

#[test]
fn test_classify_outcome_signal_exit_code() {
    let r = classify_outcome(true, false, None, "", "killed", "podman stop c1".to_string());
    match r {
        Err(PodmanError::CommandFailed { exit_code, .. }) => assert_eq!(exit_code, -1),
        other => panic!("expected CommandFailed, got {:?}", other),
    }
}

#[test]
fn test_combine_output() {
    assert_eq!(
        combine_output("out".to_string(), "".to_string()),
        "out"
    );
    assert_eq!(
        combine_output("".to_string(), "err".to_string()),
        "err"
    );
    assert_eq!(
        combine_output("out".to_string(), "err".to_string()),
        "outerr"
    );
    assert_eq!(combine_output("".to_string(), "".to_string()), "");
}
