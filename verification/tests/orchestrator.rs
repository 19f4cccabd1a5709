use botglue::environment::{CreateEnvironment, EnvStatus, EnvStore, PortMapping};
use botglue::orchestrator::{
    begin_create, begin_delete, begin_exec, begin_pause, begin_resume, finish_create,
    finish_delete, finish_exec, finish_pause, finish_resume, OrchError,
};
use botglue::podman::{ExecResult, PodmanConfig, PodmanError, PortError};

fn config() -> PodmanConfig {
    PodmanConfig {
        podman_path: "podman".to_string(),
        port_range_start: 10000,
        port_range_end: 10005,
    }
}

fn two_port_request() -> CreateEnvironment {
    CreateEnvironment {
        project_id: "proj".to_string(),
        branch: "main".to_string(),
        container_id: None,
        ports: Some(vec![
            PortMapping {
                name: "http".to_string(),
                container_port: 8080,
                host_port: Some(3000),
                protocol: Some("tcp".to_string()),
            },
            PortMapping {
                name: "debug".to_string(),
                container_port: 9229,
                host_port: None,
                protocol: None,
            },
        ]),
    }
}

/// A full successful creation, then a fetch: both mappings resolved, the
/// container id non-empty.
#[test]
fn test_create_round_trip() {
    let mut store = EnvStore::new();
    let (env, resolved) = begin_create(&mut store, &config(), two_port_request()).unwrap();
    assert_eq!(env.status.name(), "creating");
    assert!(env.ports.is_empty());
    assert_eq!(resolved.len(), 2);
    assert_eq!(resolved[0].host_port, Some(3000));
    assert_eq!(resolved[1].host_port, Some(10000));

    let created = finish_create(&mut store, &env.id, &resolved, Ok("containerX".to_string()))
        .unwrap();
    assert_eq!(created.status.name(), "running");
    assert_eq!(created.container_id, "containerX");

    let fetched = store.get_environment(&env.id).unwrap();
    assert_eq!(fetched.status.name(), "running");
    assert_eq!(fetched.container_id, "containerX");
    assert_eq!(fetched.ports.len(), 2);
    assert!(fetched.ports.iter().all(|m| m.host_port.is_some()));
    assert_eq!(fetched.ports[0].host_port, Some(3000));
    assert_eq!(fetched.ports[1].host_port, Some(10000));
}

/// Container creation fails after the record was persisted: the record ends
/// `Destroyed` and its would-be ports are free for later calls.
#[test]
fn test_create_rollback_on_driver_failure() {
    let mut store = EnvStore::new();
    let (env, resolved) = begin_create(&mut store, &config(), two_port_request()).unwrap();

    let result = finish_create(
        &mut store,
        &env.id,
        &resolved,
        Err(PodmanError::NotInstalled),
    );
    assert!(matches!(result, Err(OrchError::Driver(PodmanError::NotInstalled))));

    let fetched = store.get_environment(&env.id).unwrap();
    assert_eq!(fetched.status.name(), "destroyed");

    let used = store.get_used_ports();
    assert!(!used.contains(&3000));
    assert!(!used.contains(&10000));

    // The ports the failed creation wanted are available to the next call.
    let (_env2, resolved2) = begin_create(&mut store, &config(), two_port_request()).unwrap();
    assert_eq!(resolved2[0].host_port, Some(3000));
    assert_eq!(resolved2[1].host_port, Some(10000));
}

/// Port allocation fails: the fresh record is rolled back to `Destroyed`
/// and nothing was allocated.
#[test]
fn test_create_rollback_on_allocation_failure() {
    let mut store = EnvStore::new();
    let cfg = PodmanConfig {
        podman_path: "podman".to_string(),
        port_range_start: 10000,
        port_range_end: 10001,
    };
    let (env1, resolved1) = begin_create(
        &mut store,
        &cfg,
        CreateEnvironment {
            project_id: "proj".to_string(),
            branch: "main".to_string(),
            container_id: None,
            ports: Some(vec![PortMapping {
                name: "http".to_string(),
                container_port: 8080,
                host_port: None,
                protocol: None,
            }]),
        },
    )
    .unwrap();
    finish_create(&mut store, &env1.id, &resolved1, Ok("c1".to_string())).unwrap();
    assert!(store.get_used_ports().contains(&10000));

    // The single-port range is now exhausted.
    let result = begin_create(
        &mut store,
        &cfg,
        CreateEnvironment {
            project_id: "proj".to_string(),
            branch: "dev".to_string(),
            container_id: None,
            ports: Some(vec![PortMapping {
                name: "http".to_string(),
                container_port: 8080,
                host_port: None,
                protocol: None,
            }]),
        },
    );
    assert!(matches!(
        result,
        Err(OrchError::Port(PortError::PortRangeExhausted))
    ));
    // Only port 10000 is claimed; the aborted record claims nothing.
    let used = store.get_used_ports();
    assert_eq!(used.len(), 1);
    assert!(used.contains(&10000));
}

fn running_env(store: &mut EnvStore) -> String {
    let (env, resolved) = begin_create(
        store,
        &config(),
        CreateEnvironment {
            project_id: "proj".to_string(),
            branch: "main".to_string(),
            container_id: None,
            ports: None,
        },
    )
    .unwrap();
    finish_create(store, &env.id, &resolved, Ok("c1".to_string())).unwrap();
    env.id
}

/// Pause is allowed only from `Running`; resume only from `Paused`; a
/// refused call changes nothing.
#[test]
fn test_status_guards() {
    let mut store = EnvStore::new();
    let id = running_env(&mut store);

    // resume on a Running environment is a conflict
    assert!(matches!(
        begin_resume(&store, &id),
        Err(OrchError::Conflict(EnvStatus::Running))
    ));
    assert_eq!(store.get_environment(&id).unwrap().status.name(), "running");

    // pause it for real
    let cid = begin_pause(&store, &id).unwrap();
    assert_eq!(cid, Some("c1".to_string()));
    finish_pause(&mut store, &id, Ok(())).unwrap();
    assert_eq!(store.get_environment(&id).unwrap().status.name(), "paused");

    // pause on a Paused environment is a conflict
    assert!(matches!(
        begin_pause(&store, &id),
        Err(OrchError::Conflict(EnvStatus::Paused))
    ));
    assert_eq!(store.get_environment(&id).unwrap().status.name(), "paused");

    // a Creating environment can be neither paused nor resumed
    let creating = store
        .create_environment(CreateEnvironment {
            project_id: "proj".to_string(),
            branch: "wip".to_string(),
            container_id: None,
            ports: None,
        })
        .unwrap();
    assert!(matches!(
        begin_pause(&store, &creating.id),
        Err(OrchError::Conflict(EnvStatus::Creating))
    ));
    assert!(matches!(
        begin_resume(&store, &creating.id),
        Err(OrchError::Conflict(EnvStatus::Creating))
    ));
    assert_eq!(
        store.get_environment(&creating.id).unwrap().status.name(),
        "creating"
    );
}

/// A runtime failure during pause or resume leaves the persisted status
/// untouched: status reflects runtime truth, not intent.
#[test]
fn test_pause_failure_keeps_status() {
    let mut store = EnvStore::new();
    let id = running_env(&mut store);

    begin_pause(&store, &id).unwrap();
    let result = finish_pause(
        &mut store,
        &id,
        Err(PodmanError::CommandFailed {
            command: "podman stop c1".to_string(),
            stderr: "gone".to_string(),
            exit_code: 125,
        }),
    );
    assert!(matches!(result, Err(OrchError::Driver(_))));
    assert_eq!(store.get_environment(&id).unwrap().status.name(), "running");

    finish_pause(&mut store, &id, Ok(())).unwrap();
    let result = finish_resume(&mut store, &id, Err(PodmanError::NotInstalled));
    assert!(matches!(result, Err(OrchError::Driver(_))));
    assert_eq!(store.get_environment(&id).unwrap().status.name(), "paused");
}

/// Resume really brings a paused environment back to `Running`.
#[test]
fn test_resume_round_trip() {
    let mut store = EnvStore::new();
    let id = running_env(&mut store);
    finish_pause(&mut store, &id, Ok(())).unwrap();

    let cid = begin_resume(&store, &id).unwrap();
    assert_eq!(cid, Some("c1".to_string()));
    finish_resume(&mut store, &id, Ok(())).unwrap();
    assert_eq!(store.get_environment(&id).unwrap().status.name(), "running");
}

/// Even when container removal fails, the durable record is gone.
#[test]
fn test_delete_is_unconditional() {
    let mut store = EnvStore::new();
    let id = running_env(&mut store);

    let cid = begin_delete(&store, &id).unwrap();
    assert_eq!(cid, Some("c1".to_string()));

    let existed = finish_delete(
        &mut store,
        &id,
        Err(PodmanError::CommandFailed {
            command: "podman rm -f c1".to_string(),
            stderr: "runtime unreachable".to_string(),
            exit_code: 125,
        }),
    );
    assert!(existed);
    assert!(store.get_environment(&id).is_none());
}

#[test]
fn test_delete_missing_environment() {
    let mut store = EnvStore::new();
    assert!(matches!(
        begin_delete(&store, &"nope".to_string()),
        Err(OrchError::NotFound)
    ));
    let existed = finish_delete(&mut store, &"nope".to_string(), Ok(()));
    assert!(!existed);
}

/// Exec demands a Running environment with a container.
#[test]
fn test_exec_guards() {
    let mut store = EnvStore::new();

    assert!(matches!(
        begin_exec(&store, &"nope".to_string()),
        Err(OrchError::NotFound)
    ));

    let id = running_env(&mut store);
    assert_eq!(begin_exec(&store, &id).unwrap(), "c1");

    finish_pause(&mut store, &id, Ok(())).unwrap();
    assert!(matches!(
        begin_exec(&store, &id),
        Err(OrchError::Conflict(EnvStatus::Paused))
    ));

    // Running but with no backing container.
    let bare = store
        .create_environment(CreateEnvironment {
            project_id: "proj".to_string(),
            branch: "bare".to_string(),
            container_id: None,
            ports: None,
        })
        .unwrap();
    store.update_environment_status(&bare.id, EnvStatus::Running, &"t".to_string());
    assert!(matches!(
        begin_exec(&store, &bare.id),
        Err(OrchError::NoContainer)
    ));
}

#[test]
fn test_exec_response_carries_exit_code_as_data() {
    let response = finish_exec(ExecResult {
        output: "boom".to_string(),
        exit_code: 7,
    });
    assert_eq!(response.output, "boom");
    assert_eq!(response.exit_code, 7);
}

/// Pausing an environment without a container touches no runtime but still
/// persists the transition.
#[test]
fn test_pause_without_container() {
    let mut store = EnvStore::new();
    let env = store
        .create_environment(CreateEnvironment {
            project_id: "proj".to_string(),
            branch: "bare".to_string(),
            container_id: None,
            ports: None,
        })
        .unwrap();
    store.update_environment_status(&env.id, EnvStatus::Running, &"t".to_string());

    let cid = begin_pause(&store, &env.id).unwrap();
    assert_eq!(cid, None);
    finish_pause(&mut store, &env.id, Ok(())).unwrap();
    assert_eq!(store.get_environment(&env.id).unwrap().status.name(), "paused");
}

#[test]
fn test_pause_missing_environment() {
    let store = EnvStore::new();
    assert!(matches!(
        begin_pause(&store, &"nope".to_string()),
        Err(OrchError::NotFound)
    ));
}
