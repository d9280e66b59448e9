use foundry::agent::docker::{
    looks_unauthorized, map_err, nvidia_cdi_device, DockerError, PullEvent, PullProgress,
};
use foundry::agent::file_system::{normalize_relative, validate_root_path};
use foundry::agent::inventory::profile_memory_mb;
use foundry::agent::register::{render_unit, AMBIENT_CAPABILITIES, CAPABILITY_BOUNDING_SET};
use foundry::agent::tasks::{container_spec, DeployPayload, PayloadPort};
use foundry::agent::vhost::{
    parse_nginx_version, render, valid_hostname, validate_id, version_less, PortBinding,
    MIN_NGINX_VERSION,
};
use foundry::shared::PortKind;

#[test]
fn pull_progress_aggregates_layers() {
    let mut p = PullProgress::new();
    p.update(&PullEvent {
        id: Some("l1".into()),
        status: Some("Downloading".into()),
        progress: Some((Some(5 * 1_048_576), Some(10 * 1_048_576))),
    });
    p.update(&PullEvent {
        id: Some("l2".into()),
        status: Some("Pull complete".into()),
        progress: None,
    });
    // l1: 5/10 MB downloading, l2: complete (counts as done).
    assert_eq!(p.line(), "pulling: 1/2 layers · 5 / 10 MB");
}

#[test]
fn maps_status_codes_to_branchable_variants() {
    assert!(matches!(
        map_err("x", Some(0), "(404) no such container"),
        DockerError::NotFound
    ));
    assert!(matches!(map_err("x", Some(0), "(409) Conflict"), DockerError::Conflict));
    assert!(matches!(map_err("x", Some(0), "weird"), DockerError::Other(_)));
}

#[test]
fn unauthorized_detection() {
    assert!(looks_unauthorized("unauthorized: access denied"));
    assert!(looks_unauthorized("denied: requested access to the resource"));
    assert!(!looks_unauthorized("manifest unknown"));
}

#[test]
fn identifies_nvidia_cdi_devices_from_docker_info() {
    assert_eq!(
        nvidia_cdi_device(
            r#"[{"Source":"cdi","ID":"nvidia.com/gpu=GPU-a"},{"Source":"cdi","ID":"vendor/device=x"}]"#,
        )
        .as_deref(),
        Some("nvidia.com/gpu=GPU-a")
    );
    assert_eq!(nvidia_cdi_device("null"), None);
    assert_eq!(nvidia_cdi_device("not-json"), None);
}

#[test]
fn paths_are_relative_and_cannot_traverse() {
    assert!(normalize_relative("").is_ok());
    assert!(normalize_relative("models/checkpoints").is_ok());
    assert!(normalize_relative("../etc/shadow").is_err());
    assert!(normalize_relative("/etc/shadow").is_err());
}

#[test]
fn approved_roots_stay_below_storage() {
    assert!(validate_root_path("/storage/containers/volumes/019abc").is_ok());
    assert!(validate_root_path("/storage/containers").is_err());
    assert!(validate_root_path("/etc").is_err());
    assert!(validate_root_path("/storage/containers/../etc").is_err());
}

#[test]
fn profile_memory() {
    assert_eq!(profile_memory_mb("1g.10gb"), Some(10240));
    assert_eq!(profile_memory_mb("7g.80gb"), Some(81920));
    assert_eq!(profile_memory_mb("weird"), None);
}

#[test]
fn sudo_child_capabilities_are_bounded_but_not_ambient() {
    let unit = render_unit("SupplementaryGroups=docker\n");

    assert!(unit.contains(&format!("CapabilityBoundingSet={CAPABILITY_BOUNDING_SET}\n")));
    assert!(unit.contains(&format!("AmbientCapabilities={AMBIENT_CAPABILITIES}\n")));
    assert!(!AMBIENT_CAPABILITIES.contains("CAP_SETUID"));
    assert!(!AMBIENT_CAPABILITIES.contains("CAP_SETGID"));
    assert!(!AMBIENT_CAPABILITIES.contains("CAP_AUDIT_WRITE"));
}

fn payload() -> DeployPayload {
    DeployPayload {
        deployment_id: "0192aef0-0000-7000-8000-000000000001".into(),
        image_ref: "registry.example/app@sha256:aaaaaaaaaaaaaaaaaaaaaaaaaaaaaaaaaaaaaaaaaaaaaaaaaaaaaaaaaaaaaaaa".into(),
        container_name: "app-1".into(),
        gpu_device_uuid: "GPU-aaaa".into(),
        gpu_device_uuids: vec![],
        slot_id: "0192aef0-0000-7000-8000-000000000002".into(),
        slot_ids: vec![],
        gpu_group_id: None,
        slot_name: "0".into(),
        ports: vec![PayloadPort { container_port: 8000, host_port: 0, protocol: "tcp".into() }],
        env: vec![("KEY".into(), "VAL".into())],
        volumes: vec![],
        mem_limit_mb: Some(1024),
        image_size_bytes: None,
    }
}

fn label<'a>(labels: &'a [(String, String)], key: &str) -> Option<&'a str> {
    labels.iter().find(|(k, _)| k == key).map(|(_, v)| v.as_str())
}

#[test]
fn spec_falls_back_to_singular_gpu_uuid() {
    let p = payload();
    let spec = container_spec(&p);
    assert_eq!(spec.device_uuids, vec!["GPU-aaaa".to_string()]);
    assert_eq!(label(&spec.labels, "foundry.managed"), Some("true"));
    assert_eq!(label(&spec.labels, "foundry.gpu_uuid"), Some("GPU-aaaa"));
    assert_eq!(spec.memory_bytes, Some(1024 * 1024 * 1024));
    assert!(label(&spec.labels, "foundry.group_id").is_none());
}

#[test]
fn spec_uses_plural_gpu_uuids_and_group_label() {
    let mut p = payload();
    p.gpu_device_uuids = vec!["GPU-a".into(), "GPU-b".into()];
    p.gpu_group_id = Some("0192aef0-0000-7000-8000-000000000003".into());
    let spec = container_spec(&p);
    assert_eq!(spec.device_uuids, vec!["GPU-a".to_string(), "GPU-b".to_string()]);
    assert!(label(&spec.labels, "foundry.group_id").is_some());
}

fn binding(kind: PortKind, host_port: u16, hostname: &str) -> PortBinding {
    PortBinding {
        container_port: 8080,
        host_port,
        protocol: kind.protocol().to_string(),
        kind,
        hostname: Some(hostname.to_string()),
    }
}

#[test]
fn render_http_vhost_redirects_and_proxies() {
    let p = binding(PortKind::Http, 20001, "demo.ai.protv.ro");
    let conf = render("0192-dep", &[p]);
    assert!(conf.contains("server_name demo.ai.protv.ro;"));
    assert!(conf.contains("return 301 https://$host$request_uri;"));
    assert!(conf.contains("proxy_pass http://127.0.0.1:20001;"));
    assert!(conf.contains("ssl_certificate     /etc/foundry-agent/tls/fullchain.pem;"));
    assert!(conf.contains("proxy_set_header Connection $foundry_connection_upgrade;"));
    assert!(!conf.contains("proxy_ssl_verify"));
}

#[test]
fn render_https_upstream_disables_verify() {
    let p = binding(PortKind::Https, 20002, "tls-app.ai.protv.ro");
    let conf = render("dep", &[p]);
    assert!(conf.contains("proxy_pass https://127.0.0.1:20002;"));
    assert!(conf.contains("proxy_ssl_verify off;"));
}

#[test]
fn render_multi_port_emits_one_pair_per_hostname() {
    let a = binding(PortKind::Http, 20001, "app-8080.ai.protv.ro");
    let b = binding(PortKind::Http, 20002, "app-9090.ai.protv.ro");
    let conf = render("dep", &[a, b]);
    assert_eq!(conf.matches("listen 443 ssl;").count(), 2);
    assert_eq!(conf.matches("return 301").count(), 2);
}

#[test]
fn nginx_version_parsing_and_minimum() {
    assert_eq!(parse_nginx_version("nginx version: nginx/1.24.0 (Ubuntu)"), Some((1, 24, 0)));
    assert_eq!(parse_nginx_version("nginx version: nginx/1.28.0"), Some((1, 28, 0)));
    assert_eq!(parse_nginx_version("nginx version: nginx/1.27"), Some((1, 27, 0)));
    assert_eq!(parse_nginx_version("no version here"), None);
    assert_eq!(parse_nginx_version("nginx/x.y"), None);

    assert!((1, 24, 0) < MIN_NGINX_VERSION); // Ubuntu noble stock — rejected
    assert!((1, 25, 1) >= MIN_NGINX_VERSION); // first with `http2 on;`
    assert!((1, 28, 0) >= MIN_NGINX_VERSION); // nginx.org stable
    assert!(version_less((1, 24, 0), MIN_NGINX_VERSION));
    assert!(!version_less((1, 25, 1), MIN_NGINX_VERSION));
}

#[test]
fn hostname_and_id_validation() {
    assert!(valid_hostname("a-1.ai.protv.ro"));
    assert!(!valid_hostname("bad host"));
    assert!(!valid_hostname("semi;colon"));
    assert!(!valid_hostname("UPPER.ai.protv.ro"));
    assert!(validate_id("0192aef0-1-b").is_ok());
    assert!(validate_id("../../etc/passwd").is_err());
    assert!(validate_id("").is_err());
}
