use foundry::controller::cli::parse_flags;
use foundry::controller::deployment_queries::require_found;
use foundry::controller::deployment_targets::{nginx_status_hint, require_server_ready, ServerPrecheck};
use foundry::controller::error::AppError;
use foundry::controller::instances::normalize_url;
use foundry::controller::lifecycle::DeploymentState as D;
use foundry::controller::logs::{kept_chunk, recent_window};
use foundry::controller::registry::{choose_platform, suggested_volume_name, PlatformDescriptor};
use foundry::controller::tasks::{
    fail_replacement_successor, failure_message, finish_replacement, plan_result,
    rollback_replacement, Detail, ResultFacts, Step, Subject,
};
use foundry::controller::traffic::{request_metrics, validate_batch, RequestSample, TrafficRecord};
use foundry::controller::users::admin_after_login;
use foundry::controller::volumes::{
    file_support, is_legacy_root_candidate, purge_support, validate_container_path,
    validate_volume_name, VolumePlacement,
};
use foundry::ids::{hex_string, parse_hex};
use foundry::shared::{check, truncate, CheckStatus, HostReadiness, SlotState, TaskType};
use foundry::sorting::{insert_text_set, sort_ports, text_le_exec, text_lt_exec};

fn message(e: AppError) -> String {
    match e {
        AppError::BadRequest(m) | AppError::NotFound(m) => m,
        other => panic!("unexpected error: {}", other.message()),
    }
}

#[test]
fn cli_flags_come_in_pairs() {
    let args: Vec<String> = ["--name", "main", "--url", "https://g"].iter().map(|s| s.to_string()).collect();
    let flags = parse_flags(&args).expect("pairs");
    assert_eq!(flags.len(), 2);
    assert!(flags.contains(&("--name".to_string(), "main".to_string())));
    let odd: Vec<String> = ["--name", "main", "--url"].iter().map(|s| s.to_string()).collect();
    assert_eq!(parse_flags(&odd).err().as_deref(), Some("missing value for --url"));
}

fn ready_server() -> ServerPrecheck {
    ServerPrecheck {
        name: "gpu1".into(),
        status: "ONLINE".into(),
        agent_version: Some("0.64.0".into()),
        setup_revision: Some(3),
        readiness: Some(HostReadiness {
            setup_revision: Some(3),
            required_setup_revision: 3,
            checks: ["docker", "docker_gpu", "storage_write", "capabilities"]
                .iter()
                .map(|c| check(c, CheckStatus::Ready, "ok"))
                .collect(),
        }),
        docker_ok: Some(true),
        app_publishing_ready: Some(true),
        nginx_status: Some("READY".into()),
    }
}

#[test]
fn servers_must_be_ready_before_a_deploy() {
    assert!(require_server_ready(&ready_server(), false, 3).is_ok());
    let mut offline = ready_server();
    offline.status = "OFFLINE".into();
    assert_eq!(message(require_server_ready(&offline, false, 3).unwrap_err()), "server is not online");
    let mut old = ready_server();
    old.agent_version = Some("0.62.9".into());
    assert_eq!(
        message(require_server_ready(&old, false, 3).unwrap_err()),
        "gpu1 reports foundry-agent 0.62.9; install 0.63.0 or newer with `sudo foundry-agent --setup-apps` before deploying"
    );
    let mut stale = ready_server();
    stale.setup_revision = None;
    assert_eq!(
        message(require_server_ready(&stale, false, 3).unwrap_err()),
        "gpu1 has host setup revision missing (required 3); run `sudo foundry-agent --setup-apps`, then refresh diagnostics"
    );
    let mut silent = ready_server();
    silent.readiness = None;
    assert_eq!(
        message(require_server_ready(&silent, false, 3).unwrap_err()),
        "gpu1 has not reported live readiness yet; run diagnostics and try again"
    );
    assert!(message(require_server_ready(&ready_server(), true, 3).unwrap_err()).starts_with("gpu1 is not deployment-ready: "));
    assert_eq!(
        nginx_status_hint(Some("NGINX_INACTIVE")),
        "nginx is installed but not running — start it (`sudo systemctl enable --now nginx`)"
    );
    assert_eq!(nginx_status_hint(None), "the agent reports app publishing is unavailable");
}

#[test]
fn instance_urls_are_https() {
    assert_eq!(normalize_url(" https://gitlab.example/ ", "base_url").ok().as_deref(), Some("https://gitlab.example"));
    assert_eq!(message(normalize_url("http://localhost:8080", "base_url").unwrap_err()), "base_url must be an https:// URL");
    assert_eq!(message(normalize_url("http://127.0.0.1:8080", "base_url").unwrap_err()), "base_url must be an https:// URL");
    assert_eq!(message(normalize_url("http://gitlab.example", "base_url").unwrap_err()), "base_url must be an https:// URL");
    assert!(normalize_url("https://a", "u").is_err());
}

#[test]
fn log_chunks_belong_to_live_deployments_on_their_server() {
    assert_eq!(kept_chunk(Some((1, "RUNNING")), 1, "line\n").as_deref(), Some("line\n"));
    assert_eq!(kept_chunk(Some((1, "REMOVED")), 1, "line\n"), None);
    assert_eq!(kept_chunk(Some((2, "RUNNING")), 1, "line\n"), None);
    assert_eq!(kept_chunk(None, 1, "line\n"), None);
    assert_eq!(kept_chunk(Some((1, "RUNNING")), 1, ""), None);
    assert_eq!(recent_window(&vec!["a\n".to_string(), "b\n".to_string()]), "a\nb\n");
}

#[test]
fn platforms_prefer_linux_amd64() {
    let list = vec![
        PlatformDescriptor { digest: "sha256:arm".into(), os: Some("linux".into()), architecture: Some("arm64".into()) },
        PlatformDescriptor { digest: "sha256:amd".into(), os: Some("linux".into()), architecture: Some("amd64".into()) },
    ];
    assert_eq!(choose_platform(&list).ok(), Some(1));
    assert_eq!(choose_platform(&list[..1].iter().map(|p| PlatformDescriptor { digest: p.digest.clone(), os: p.os.clone(), architecture: p.architecture.clone() }).collect()).ok(), Some(0));
    assert_eq!(message(choose_platform(&vec![]).unwrap_err()), "image index lists no platforms");
    assert_eq!(suggested_volume_name("group/ollama", "/root/.ollama"), "ollama-root-ollama");
    assert_eq!(suggested_volume_name("", "/"), "image-data");
}

fn facts() -> ResultFacts {
    ResultFacts {
        has_deployment: true,
        has_successor: false,
        predecessor: None,
        failed_at_publish_with_container: false,
        retained_predecessor: false,
        stopped_predecessor: false,
    }
}

#[test]
fn task_results_move_deployments() {
    assert_eq!(
        plan_result(TaskType::DeployContainer, true, facts()).ok(),
        Some(vec![
            Step::RecordDeployed,
            Step::Move(Subject::This, D::Running, Detail::ReportedError),
            Step::Slots(Subject::This, SlotState::Running),
            Step::FinishReplacement,
        ])
    );
    assert_eq!(
        plan_result(TaskType::DeployContainer, false, facts()).ok(),
        Some(vec![Step::Fail(Subject::This, true), Step::RollbackReplacement])
    );
    assert!(matches!(plan_result(TaskType::PrepareDeploy, true, facts()), Err(AppError::NotFound(_))));
    let none = ResultFacts { has_deployment: false, ..facts() };
    assert_eq!(plan_result(TaskType::StopContainer, true, none).ok(), Some(vec![]));
    assert_eq!(finish_replacement(Some(D::Running)), vec![]);
    assert_eq!(
        finish_replacement(Some(D::Stopped)),
        vec![
            Step::Move(Subject::Predecessor, D::Removing, Detail::SuccessorReady),
            Step::Enqueue(Subject::Predecessor, TaskType::RemoveContainer),
        ]
    );
    assert_eq!(rollback_replacement(None, false), vec![]);
    assert_eq!(rollback_replacement(Some(D::Running), false), vec![Step::UnlinkPredecessor, Step::Slots(Subject::Predecessor, SlotState::Running)]);
    assert_eq!(fail_replacement_successor(Some(D::Failed)), vec![Step::Fail(Subject::This, true)]);
    assert_eq!(failure_message(None), "task failed");
    assert_eq!(failure_message(Some(&"e".repeat(2500))).len(), 2000);
}

fn record(method: &str, status: u16) -> TrafficRecord {
    TrafficRecord {
        deployment_id: 1,
        method: method.into(),
        path: "/".into(),
        status,
        request_time_ms: 5,
        response_bytes: 10,
        request_id: None,
    }
}

#[test]
fn traffic_batches_and_metrics() {
    assert!(validate_batch(&vec![record("GET", 200)]).is_ok());
    assert_eq!(message(validate_batch(&vec![record("", 200)]).unwrap_err()), "application traffic record is invalid");
    assert_eq!(message(validate_batch(&vec![record("GET", 99)]).unwrap_err()), "application traffic record is invalid");
    let many: Vec<TrafficRecord> = (0..2001).map(|_| record("GET", 200)).collect();
    assert_eq!(message(validate_batch(&many).unwrap_err()), "application traffic batch too large");
    let samples: Vec<RequestSample> = (1..=20u32)
        .map(|i| RequestSample { status: if i == 20 { 502 } else { 200 }, request_time_ms: i, response_bytes: 100 })
        .collect();
    let m = request_metrics(&samples);
    assert_eq!((m.requests, m.errors, m.response_bytes), (20, 1, 2000));
    assert_eq!(m.average_request_time_ms, 10);
    assert_eq!(m.p95_request_time_ms, 19);
    assert_eq!(m.by_status.iter().map(|s| (s.status, s.count)).collect::<Vec<_>>().len(), 2);
    let empty = request_metrics(&vec![]);
    assert_eq!((empty.requests, empty.average_request_time_ms, empty.p95_request_time_ms), (0, 0, 0));
}

#[test]
fn admin_status_is_granted_never_revoked() {
    let admins = vec!["ops@example.com".to_string()];
    assert!(admin_after_login(Some(true), Some("dev@example.com"), &admins));
    assert!(admin_after_login(Some(false), Some("OPS@example.com"), &admins));
    assert!(admin_after_login(None, Some("ops@example.com"), &admins));
    assert!(!admin_after_login(Some(false), None, &admins));
}

#[test]
fn volume_rules() {
    assert!(validate_volume_name("models_1").is_ok());
    assert!(validate_volume_name("-bad").is_err());
    assert!(validate_container_path("/data").is_ok());
    assert!(validate_container_path("data").is_err());
    assert!(file_support(Some("0.63.0")).is_ok());
    assert_eq!(
        message(file_support(None).unwrap_err()),
        "placement-scoped volume files require foundry-agent 0.63.0 or newer on this server (reported unknown)"
    );
    assert_eq!(
        message(purge_support(Some("0.53.2")).unwrap_err()),
        "volume purge requires foundry-agent 0.54.0 or newer on this server (reported 0.53.2)"
    );
    assert!(is_legacy_root_candidate(true, Some(1), false, true, VolumePlacement::Slot));
    assert!(!is_legacy_root_candidate(true, Some(1), false, true, VolumePlacement::Server));
    assert!(!is_legacy_root_candidate(false, Some(1), false, true, VolumePlacement::Slot));
    assert_eq!(require_found(Some(3)).ok(), Some(3));
    assert_eq!(message(require_found::<u8>(None).unwrap_err()), "deployment not found");
}

#[test]
fn identifiers_and_text_order() {
    assert_eq!(hex_string(0), "0");
    assert_eq!(hex_string(0xa80425fb), "a80425fb");
    let v: Vec<char> = "00000000a80425fb".chars().collect();
    assert_eq!(parse_hex(&v), Some(0xa80425fb));
    let bad: Vec<char> = "xyz".chars().collect();
    assert_eq!(parse_hex(&bad), None);
    let a: Vec<char> = "abc".chars().collect();
    let b: Vec<char> = "abd".chars().collect();
    let ab: Vec<char> = "ab".chars().collect();
    assert!(text_le_exec(&a, &b) && !text_le_exec(&b, &a));
    assert!(text_le_exec(&ab, &a) && text_lt_exec(&ab, &a) && !text_lt_exec(&a, &a));
    let mut set: Vec<String> = vec![];
    for s in ["b", "a", "b", "c"] {
        insert_text_set(&mut set, s.to_string());
    }
    assert_eq!(set, vec!["a".to_string(), "b".to_string(), "c".to_string()]);
    let ports = sort_ports(vec![(80, "udp".to_string()), (22, "tcp".to_string()), (80, "tcp".to_string())]);
    assert_eq!(ports, vec![(22, "tcp".to_string()), (80, "tcp".to_string()), (80, "udp".to_string())]);
    assert_eq!(truncate("héllo", 2), "hé");
    let c = check("docker", CheckStatus::Ready, &"x".repeat(700));
    assert_eq!(c.detail.len(), 600);
}

#[test]
fn suggested_volume_names_are_always_well_formed() {
    let long = "x".repeat(100);
    let cases: [(&str, &str); 7] = [
        ("group/ComfyUI", "/data//Settings/"),
        ("-", "/"),
        ("a/b/_Hidden", "/--/..//x"),
        ("", ""),
        ("img", long.as_str()),
        ("ns/\u{e9}t\u{e9}", "/caf\u{e9}/"),
        ("g/---", "///"),
    ];
    for (repo, path) in cases {
        let n = suggested_volume_name(repo, path);
        assert!(!n.is_empty() && n.len() <= 63, "{n}");
        assert!(n.chars().all(|c| c.is_ascii_lowercase() || c.is_ascii_digit() || c == '_' || c == '-'), "{n}");
        assert!(!n.contains("--") && !n.starts_with('-') && !n.ends_with('-'), "{n}");
    }
    assert_eq!(suggested_volume_name("g/---", "///"), "image-data");
    assert_eq!(suggested_volume_name("group/ComfyUI", "/data//Settings/"), "comfyui-data-settings");
}
