use foundry::agent::deploy_flow::{
    deploy_begin, deploy_step, DeployAction, DeployEvent, DeployPhase, ExecutionSuccess,
};
use foundry::agent::docker::{ContainerSpec, ContainerSummary, DockerError};
use foundry::agent::executor::{
    check_volume_removal, dispatch, lifecycle_ops, publish_target, quiesce_vhost_failure,
    recreation_failure, resolve_target, shell_target, task_result, volume_removal_result,
    withdraws_vhost_first, ContainerOp, Lifecycle, PayloadKind, Routine,
};
use foundry::agent::tasks::{DeployPayload, ExecutionFailure, PayloadPort, PayloadVolume};
use foundry::shared::TaskType;

const DEPLOYMENT: &str = "0192aef0-0000-7000-8000-000000000001";

fn payload() -> DeployPayload {
    DeployPayload {
        deployment_id: DEPLOYMENT.into(),
        image_ref: "registry.example/app@sha256:aaaaaaaaaaaaaaaaaaaaaaaaaaaaaaaaaaaaaaaaaaaaaaaaaaaaaaaaaaaaaaaa".into(),
        container_name: "app-1".into(),
        gpu_device_uuid: "GPU-aaaa".into(),
        gpu_device_uuids: vec![],
        slot_id: "0192aef0-0000-7000-8000-000000000002".into(),
        slot_ids: vec![],
        gpu_group_id: None,
        slot_name: "0".into(),
        ports: vec![PayloadPort { container_port: 8000, host_port: 0, protocol: "tcp".into() }],
        env: vec![("KEY".into(), "VAL".into())],
        volumes: vec![],
        mem_limit_mb: Some(1024),
        image_size_bytes: None,
    }
}

fn managed(id: &str, state: &str, deployment: &str) -> ContainerSummary {
    ContainerSummary {
        id: id.into(),
        state: state.into(),
        labels: vec![
            ("foundry.managed".into(), "true".into()),
            ("foundry.deployment_id".into(), deployment.into()),
        ],
    }
}

/// An engine kept in memory: what it holds, what was created and removed.
struct FakeEngine {
    containers: Vec<ContainerSummary>,
    created: Vec<ContainerSpec>,
    removed: Vec<String>,
    pulls: usize,
    pull_error: Option<DockerError>,
    conflict_on_create: bool,
    health: Vec<&'static str>,
    stages: Vec<String>,
}

impl FakeEngine {
    fn new() -> FakeEngine {
        FakeEngine {
            containers: vec![],
            created: vec![],
            removed: vec![],
            pulls: 0,
            pull_error: None,
            conflict_on_create: false,
            health: vec![],
            stages: vec![],
        }
    }

    fn ids(&self) -> Vec<String> {
        self.containers.iter().map(|c| c.id.clone()).collect()
    }

    fn remove(&mut self, id: &str) {
        self.removed.push(id.to_string());
        self.containers.retain(|c| c.id != id);
    }

    /// Runs a deploy (or a preparation) to its end, performing each action.
    fn run(&mut self, p: &DeployPayload, prepare: bool) -> Result<ExecutionSuccess, ExecutionFailure> {
        let (mut phase, mut action) = deploy_begin(p, prepare);
        for _ in 0..100 {
            let event = match action {
                DeployAction::Finish(outcome) => return outcome,
                DeployAction::ListContainers => DeployEvent::Listed(Ok(self.containers.clone())),
                DeployAction::Remove(id) => {
                    self.remove(&id);
                    DeployEvent::Removed
                }
                DeployAction::CheckEngine => DeployEvent::EngineChecked(Ok(())),
                DeployAction::CheckVhost => DeployEvent::VhostChecked(Ok(())),
                DeployAction::ProbePort(_) => DeployEvent::PortProbed(true),
                DeployAction::ReadCapacity => DeployEvent::Capacity(None),
                DeployAction::CreateDir(_) => DeployEvent::DirCreated(Ok(())),
                DeployAction::Pull(detail) => {
                    self.stages.push(detail);
                    self.pulls += 1;
                    match self.pull_error.take() {
                        Some(e) => DeployEvent::Pulled(Err(e.message())),
                        None => DeployEvent::Pulled(Ok(())),
                    }
                }
                DeployAction::Create(spec) => {
                    if self.conflict_on_create {
                        DeployEvent::Created(Err(DockerError::Conflict))
                    } else {
                        let id = format!("c{}", self.created.len() + 1);
                        self.containers.push(ContainerSummary {
                            id: id.clone(),
                            state: "created".into(),
                            labels: spec.labels.clone(),
                        });
                        self.created.push(spec);
                        DeployEvent::Created(Ok(id))
                    }
                }
                DeployAction::Start(id) => {
                    for c in self.containers.iter_mut() {
                        if c.id == id {
                            c.state = "running".into();
                        }
                    }
                    DeployEvent::Started(Ok(()))
                }
                DeployAction::ProbeHealth(_, _) => {
                    let status = if self.health.is_empty() { "none" } else { self.health.remove(0) };
                    DeployEvent::HealthProbed(Ok((status.to_string(), None)), false)
                }
                DeployAction::ApplyVhost(_) => DeployEvent::Published(Ok(())),
            };
            let (next, act) = deploy_step(p, prepare, false, phase, event);
            phase = next;
            action = act;
        }
        panic!("deploy did not finish");
    }

    /// Runs a lifecycle task against the engine.
    fn lifecycle(&mut self, task: Lifecycle, deployment: &str) -> Result<(), String> {
        let found = resolve_target(&self.containers, None, deployment);
        for op in lifecycle_ops(task, found)? {
            match op {
                ContainerOp::InspectImage(_) | ContainerOp::ReclaimImage | ContainerOp::ApplyVhost => {}
                ContainerOp::WithdrawVhostOrRestart(_) => {}
                ContainerOp::Stop(id) => {
                    for c in self.containers.iter_mut() {
                        if c.id == id {
                            c.state = "exited".into();
                        }
                    }
                }
                ContainerOp::Start(id) | ContainerOp::Restart(id) => {
                    for c in self.containers.iter_mut() {
                        if c.id == id {
                            c.state = "running".into();
                        }
                    }
                }
                ContainerOp::Remove(id) => self.remove(&id),
            }
        }
        Ok(())
    }
}

fn label<'a>(labels: &'a [(String, String)], key: &str) -> Option<&'a str> {
    labels.iter().find(|(k, _)| k == key).map(|(_, v)| v.as_str())
}

#[test]
fn deploy_creates_and_starts_a_managed_container() {
    let mut engine = FakeEngine::new();
    let success = engine.run(&payload(), false).expect("deploy ok");
    let id = success.container_id.expect("returns container id");
    assert_eq!(engine.created.len(), 1);
    assert_eq!(label(&engine.created[0].labels, "foundry.managed"), Some("true"));
    assert!(engine.ids().contains(&id));
    assert_eq!(success.health_status.as_deref(), Some("RUNNING"));
    assert_eq!(engine.stages, vec!["pulling: contacting registry".to_string()]);
}

#[test]
fn deploy_recreates_a_stale_stopped_container() {
    let mut engine = FakeEngine::new();
    engine.containers.push(managed("old", "exited", DEPLOYMENT));
    engine.run(&payload(), false).expect("deploy ok");
    assert!(engine.removed.contains(&"old".to_string()));
    assert!(!engine.ids().contains(&"old".to_string()));
    assert_eq!(engine.created.len(), 1);
}

#[test]
fn deploy_of_a_running_container_only_republishes() {
    let mut engine = FakeEngine::new();
    engine.containers.push(managed("live", "running", DEPLOYMENT));
    let success = engine.run(&payload(), false).expect("deploy ok");
    assert_eq!(success.container_id.as_deref(), Some("live"));
    assert_eq!(success.health_status.as_deref(), Some("RUNNING"));
    assert!(engine.created.is_empty());
    assert_eq!(engine.pulls, 0);
}

#[test]
fn deploy_surfaces_unauthorized_pull() {
    let mut engine = FakeEngine::new();
    engine.pull_error = Some(DockerError::ImagePull { message: "denied".into(), unauthorized: true });
    let err = match engine.run(&payload(), false) {
        Ok(_) => panic!("pull should fail"),
        Err(e) => e,
    };
    assert!(err.message.contains("image pull failed"), "got: {}", err.message);
    assert_eq!(err.stage, "PULL");
    assert!(engine.created.is_empty());
}

#[test]
fn deploy_maps_create_conflict_to_operator_message() {
    let mut engine = FakeEngine::new();
    engine.conflict_on_create = true;
    let err = match engine.run(&payload(), false) {
        Ok(_) => panic!("create should conflict"),
        Err(e) => e,
    };
    assert_eq!(err.stage, "CREATE");
    assert!(err.message.contains("already used by a container not managed by Foundry"), "got: {}", err.message);
    assert!(err.message.contains("\"app-1\""));
}

#[test]
fn preflight_rejects_mutable_image_reference() {
    let mut p = payload();
    p.image_ref = "registry.example/app:latest".into();
    let mut engine = FakeEngine::new();
    let err = match engine.run(&p, true) {
        Ok(_) => panic!("tag-only reference must fail"),
        Err(e) => e,
    };
    assert_eq!(err.stage, "PREFLIGHT");
    assert!(err.message.contains("not pinned by digest"));
    assert_eq!(engine.pulls, 0);
}

#[test]
fn prepare_pulls_without_creating_a_container() {
    let mut engine = FakeEngine::new();
    let success = engine.run(&payload(), true).expect("prepare ok");
    assert!(success.container_id.is_none());
    assert!(engine.created.is_empty());
    assert!(engine.ids().is_empty());
    assert_eq!(engine.pulls, 1);
    assert_eq!(engine.stages, vec!["preparing replacement image".to_string()]);
}

#[test]
fn unhealthy_container_is_removed_and_reported() {
    let mut engine = FakeEngine::new();
    engine.health = vec!["starting", "unhealthy"];
    let err = match engine.run(&payload(), false) {
        Ok(_) => panic!("unhealthy must fail"),
        Err(e) => e,
    };
    assert_eq!(err.stage, "HEALTH");
    assert_eq!(err.message, "container reported unhealthy");
    assert_eq!(err.health_status.as_deref(), Some("UNHEALTHY"));
    assert_eq!(err.container_id.as_deref(), Some("c1"));
    assert!(engine.removed.contains(&"c1".to_string()));
}

#[test]
fn mounts_outside_the_volume_root_are_refused_before_the_pull() {
    let mut p = payload();
    p.volumes = vec![PayloadVolume {
        host_path: "/tmp/elsewhere".into(),
        container_path: "/data".into(),
        read_only: false,
    }];
    let mut engine = FakeEngine::new();
    let err = match engine.run(&p, false) {
        Ok(_) => panic!("mount must be refused"),
        Err(e) => e,
    };
    assert_eq!(err.message, "refusing mount outside /storage/containers/: /tmp/elsewhere");
    assert_eq!(engine.pulls, 0);
}

#[test]
fn a_taken_host_port_fails_the_preflight() {
    let p = payload();
    let (phase, _) = deploy_begin(&p, true);
    let (phase, _) = deploy_step(&p, true, false, phase, DeployEvent::EngineChecked(Ok(())));
    let (phase, act) = deploy_step(&p, true, false, phase, DeployEvent::VhostChecked(Ok(())));
    assert!(matches!(phase, DeployPhase::PortCheck(0)));
    assert!(matches!(act, DeployAction::ProbePort(0)));
    let (_, act) = deploy_step(&p, true, false, phase, DeployEvent::PortProbed(false));
    match act {
        DeployAction::Finish(Err(f)) => assert_eq!(f.message, "host port 0 is already bound"),
        _ => panic!("expected a failure"),
    }
}

#[test]
fn replacement_quiesce_retains_and_rollback_restarts_container() {
    let mut engine = FakeEngine::new();
    engine.containers.push(managed("old", "running", DEPLOYMENT));
    engine.lifecycle(Lifecycle::Quiesce, DEPLOYMENT).expect("quiesce ok");
    assert!(engine.ids().contains(&"old".to_string()));
    assert_eq!(engine.containers[0].state, "exited");
    engine.lifecycle(Lifecycle::Rollback, DEPLOYMENT).expect("rollback ok");
    assert_eq!(engine.containers[0].state, "running");
}

#[test]
fn stop_removes_a_running_managed_container() {
    let mut engine = FakeEngine::new();
    engine.containers.push(managed("c1", "running", DEPLOYMENT));
    engine.lifecycle(Lifecycle::Stop, DEPLOYMENT).expect("stop ok");
    assert!(engine.removed.contains(&"c1".to_string()));
    assert!(!engine.ids().contains(&"c1".to_string()));
}

#[test]
fn stop_is_idempotent_when_already_gone() {
    let mut engine = FakeEngine::new();
    engine.lifecycle(Lifecycle::Stop, DEPLOYMENT).expect("idempotent stop");
}

#[test]
fn lifecycle_tasks_without_a_container() {
    assert_eq!(lifecycle_ops(Lifecycle::Restart, None).err().as_deref(), Some("managed container not found on host"));
    assert_eq!(lifecycle_ops(Lifecycle::Quiesce, None).err().as_deref(), Some("replacement predecessor is missing"));
    assert_eq!(lifecycle_ops(Lifecycle::Rollback, None).err().as_deref(), Some("rollback container is missing"));
    assert_eq!(lifecycle_ops(Lifecycle::Remove, None).map(|v| v.len()), Ok(0));
    assert!(withdraws_vhost_first(&Lifecycle::Stop));
    assert!(!withdraws_vhost_first(&Lifecycle::Restart));
    let ops = lifecycle_ops(Lifecycle::Restart, Some(("c9".into(), "running".into()))).unwrap();
    assert!(matches!(&ops[..], [ContainerOp::Restart(id)] if id == "c9"));
    let ops = lifecycle_ops(Lifecycle::Restart, Some(("c9".into(), "exited".into()))).unwrap();
    assert!(matches!(&ops[..], [ContainerOp::Start(id)] if id == "c9"));
    assert_eq!(quiesce_vhost_failure("nginx -t failed"), "could not withdraw predecessor vhost: nginx -t failed");
}

#[test]
fn purge_refuses_every_path_outside_volume_root() {
    let error = check_volume_removal("/tmp/not-a-foundry-volume").expect_err("outside path must be rejected");
    assert!(error.contains("outside /storage/containers/"));
    assert!(check_volume_removal("/storage/containers/").is_err());
    assert!(check_volume_removal("/storage/containers/volumes/../../etc").is_err());
    assert!(check_volume_removal("/storage/containers/volumes/abc").is_ok());
    assert_eq!(volume_removal_result(Some((true, "gone".into()))), Ok(()));
    assert_eq!(
        volume_removal_result(Some((false, "Permission denied".into()))),
        Err("volume removal failed: Permission denied".to_string())
    );
    assert_eq!(recreation_failure("/storage/containers/v", "busy"), "volume recreation failed for /storage/containers/v: busy");
}

#[test]
fn tasks_dispatch_by_kind_and_payload() {
    assert!(matches!(dispatch(TaskType::DeployContainer, PayloadKind::Deploy), Ok(Routine::Deploy)));
    assert!(matches!(dispatch(TaskType::PrepareDeploy, PayloadKind::Deploy), Ok(Routine::Prepare)));
    assert!(matches!(dispatch(TaskType::RefreshInventory, PayloadKind::Nothing), Ok(Routine::RefreshInventory)));
    match dispatch(TaskType::StopContainer, PayloadKind::Volume) {
        Err(f) => {
            assert_eq!(f.stage, "TASK");
            assert_eq!(f.message, "unsupported task/payload combination: STOP_CONTAINER");
        }
        Ok(_) => panic!("mismatched payload must fail"),
    }
}

#[test]
fn failures_report_their_first_thousand_characters() {
    let long = "x".repeat(1500);
    let r = task_result(Err(ExecutionFailure::new("PULL", &long)));
    assert!(!r.success);
    assert_eq!(r.error.as_ref().map(|e| e.len()), Some(1000));
    assert_eq!(r.failure_stage.as_deref(), Some("PULL"));
    let ok = task_result(Ok(ExecutionSuccess {
        container_id: Some("c1".into()),
        health_status: Some("HEALTHY".into()),
        health_detail: None,
    }));
    assert!(ok.success && ok.error.is_none());
    assert_eq!(ok.container_id.as_deref(), Some("c1"));
}

#[test]
fn publish_needs_a_running_managed_container() {
    assert_eq!(publish_target(Some(("c1".into(), "running".into()))).ok().as_deref(), Some("c1"));
    match publish_target(Some(("c1".into(), "exited".into()))) {
        Err(f) => assert_eq!(f.message, "container is exited, not running"),
        Ok(_) => panic!("a stopped container is not published"),
    }
    match publish_target(None) {
        Err(f) => assert_eq!(f.message, "managed container is missing"),
        Ok(_) => panic!("a missing container is not published"),
    }
}

#[test]
fn shells_open_in_running_containers_only() {
    let running = vec![managed("abcdef123456789", "running", DEPLOYMENT)];
    assert_eq!(shell_target(&running, None, DEPLOYMENT), Ok("abcdef123456789".to_string()));
    assert_eq!(shell_target(&running, Some("abcdef"), "other"), Ok("abcdef123456789".to_string()));
    assert_eq!(
        shell_target(&running, Some("zzz"), DEPLOYMENT),
        Err("adopted container is not running".to_string())
    );
    assert_eq!(
        shell_target(&running, None, "other"),
        Err("no running managed container for this deployment".to_string())
    );
}

#[test]
fn an_outcome_out_of_order_ends_the_deploy_with_a_task_failure() {
    let (phase, act) = deploy_step(&payload(), false, false, DeployPhase::Lookup, DeployEvent::Removed);
    assert!(matches!(phase, DeployPhase::Done));
    match act {
        DeployAction::Finish(Err(f)) => {
            assert_eq!(f.stage, "TASK");
            assert_eq!(f.message, "executor step out of order");
        }
        _ => panic!("expected a task failure"),
    }
    let (_, act) = deploy_step(&payload(), false, false, DeployPhase::PortCheck(5), DeployEvent::PortProbed(true));
    assert!(matches!(act, DeployAction::Finish(Err(ref f)) if f.message == "port probe out of range"));
}
