use foundry::agent::docker::{
    bind_string, env_entry, first_nvidia_device, gpu_support_decision, has_name, port_key,
    BindSpec, DockerError, PortSpec,
};
use foundry::agent::file_system::{
    directory_tree_steps, fs_error, non_root_existing, path_components, volume_components,
    IoErrorKind,
    temporary_sibling,
};
use foundry::agent::files::{
    check_quota, check_text_size, decode_chunk, read_text, start_upload, UploadState,
};
use foundry::agent::heartbeat::{endpoint, HeartbeatMonitor, HeartbeatNotice, HeartbeatOutcome};
use foundry::agent::host::{docker_check, docker_gpu_check};
use foundry::agent::inventory::{extract_uuid, resolve_device_ref, short_id};
use foundry::agent::logs::log_chunk;
use foundry::agent::register::supplementary_groups;
use foundry::agent::tasks::{
    check_disk, check_mount, check_pinned, create_failure, find_by_id, find_managed,
    health_step, label_of, mount_failure, port_bound, report_error, HealthStep,
};
use foundry::agent::docker::ContainerSummary;
use foundry::agent::traffic::TrafficStaging;
use foundry::agent::vhost::{
    app_publishing_status, invalid_hostname_error, nginx_bin_path, nginx_failure, nginx_installed,
    outdated_nginx_error, tls_installed, web_ports, PortBinding, PublishingProbe,
};
use foundry::shared::{CheckStatus, PortKind};

fn chars(s: &str) -> Vec<char> {
    s.chars().collect()
}

fn text(v: &[char]) -> String {
    v.iter().collect()
}

#[test]
fn docker_spec_strings() {
    assert_eq!(port_key(&PortSpec { container_port: 8080, host_port: 20000, protocol: "tcp".into() }), "8080/tcp");
    let bind = BindSpec { host_path: "/storage/containers/v".into(), container_path: "/data".into(), read_only: true };
    assert_eq!(bind_string(&bind), "/storage/containers/v:/data:ro");
    let rw = BindSpec { host_path: "/a".into(), container_path: "/b".into(), read_only: false };
    assert_eq!(bind_string(&rw), "/a:/b");
    assert_eq!(env_entry("KEY", "a=b"), "KEY=a=b");
    assert!(has_name(Some("/app-1"), "app-1"));
    assert!(!has_name(Some("/app-2"), "app-1"));
    assert!(!has_name(None, "app-1"));
}

#[test]
fn gpu_support_prefers_the_runtime_then_cdi() {
    let ids = vec![None, Some("amd.com/gpu=0".to_string()), Some("nvidia.com/gpu=all".to_string())];
    assert_eq!(first_nvidia_device(&ids).as_deref(), Some("nvidia.com/gpu=all"));
    assert_eq!(first_nvidia_device(&vec![None]), None);
    assert_eq!(
        gpu_support_decision(true, None).ok().as_deref(),
        Some("Docker exposes the NVIDIA container runtime")
    );
    assert_eq!(
        gpu_support_decision(false, Some("nvidia.com/gpu=0")).ok().as_deref(),
        Some("Docker discovered NVIDIA CDI device nvidia.com/gpu=0")
    );
    match gpu_support_decision(false, None) {
        Err(DockerError::Other(m)) => assert!(m.starts_with("Docker has no NVIDIA runtime")),
        _ => panic!("no runtime must fail"),
    }
}

#[test]
fn path_components_follow_std_rules() {
    let cs: Vec<String> = path_components(&chars("/storage//containers/./v1/")).iter().map(|c| text(c)).collect();
    assert_eq!(cs, vec!["/", "storage", "containers", "v1"]);
    let rel: Vec<String> = path_components(&chars("./a/../b")).iter().map(|c| text(c)).collect();
    assert_eq!(rel, vec![".", "a", "..", "b"]);
    let below = volume_components("/storage/containers", "/storage/containers/volumes/x").expect("below");
    let names: Vec<String> = below.iter().map(|c| text(c)).collect();
    assert_eq!(names, vec!["volumes", "x"]);
    assert!(volume_components("/storage/containers", "/storage/containers").is_err());
    assert!(volume_components("/storage/containers", "/storage/containers/../etc").is_err());
    assert_eq!(
        directory_tree_steps("/storage/containers/v").ok(),
        Some(vec!["/storage".to_string(), "/storage/containers".to_string(), "/storage/containers/v".to_string()])
    );
    assert_eq!(directory_tree_steps("/a/../b").err().as_deref(), Some("invalid storage root: /a/../b"));
}

#[test]
fn filesystem_failures_read_plainly() {
    assert_eq!(
        fs_error("rename", IoErrorKind::PermissionDenied, "x"),
        "rename: permission denied (upgrade the agent setup if this persists)"
    );
    assert_eq!(fs_error("delete", IoErrorKind::NotFound, "x"), "delete: path no longer exists");
    assert_eq!(fs_error("copy", IoErrorKind::AlreadyExists, "x"), "copy: destination already exists");
    assert_eq!(fs_error("read file", IoErrorKind::Other, "disk on fire"), "read file: disk on fire");
    assert_eq!(non_root_existing("a/./b").ok().as_deref(), Some("a/b"));
    assert_eq!(non_root_existing(".").err().as_deref(), Some("the volume root itself cannot be changed"));
    assert!(non_root_existing("../x").is_err());
}

#[test]
fn upload_and_editor_limits() {
    assert!(start_upload(5, 4).is_err());
    let u = start_upload(2, 4).expect("resume");
    assert_eq!((u.size, u.written), (4, 2));
    assert_eq!(check_quota(100, 10, 50, 20, Some(120)), Ok(()));
    assert_eq!(
        check_quota(100, 10, 50, 20, Some(119)),
        Err("upload would exceed the volume quota (120 > 119 bytes)".to_string())
    );
    assert_eq!(check_quota(u64::MAX, 0, 10, 0, None), Ok(()));
    assert_eq!(decode_chunk("aGVsbG8="), Ok(b"hello".to_vec()));
    assert_eq!(decode_chunk("***"), Err("upload chunk is not valid base64".to_string()));
    assert_eq!(decode_chunk(&"A".repeat(262145)), Err("upload chunk is too large".to_string()));
    // 200 000 characters of two bytes each: under the limit in characters,
    // over it in bytes.
    assert_eq!(decode_chunk(&"\u{e9}".repeat(200_000)), Err("upload chunk is too large".to_string()));
    assert_eq!(decode_chunk(&"\u{e9}".repeat(10)), Err("upload chunk is not valid base64".to_string()));
    let mut s = UploadState { size: 10, written: 0 };
    assert_eq!(s.accept_chunk(0, 4), Ok(()));
    assert_eq!(s.written, 4);
    assert!(s.finish().is_err());
    assert!(check_text_size(2 * 1024 * 1024).is_ok());
    assert!(check_text_size(2 * 1024 * 1024 + 1).is_err());
    assert_eq!(read_text(true, 5, b"hello".to_vec()), Ok("hello".to_string()));
    assert_eq!(read_text(false, 5, vec![]), Err("only regular files can be edited".to_string()));
    assert_eq!(
        read_text(true, 3 * 1024 * 1024, vec![]),
        Err("file is too large for the text editor (maximum 2 MiB)".to_string())
    );
    assert_eq!(read_text(true, 3, vec![b'a', 0, b'b']), Err("binary files cannot be opened in the text editor".to_string()));
    assert_eq!(read_text(true, 2, vec![0xff, 0xfe]), Err("file is not valid UTF-8; use Download instead".to_string()));
}

#[test]
fn heartbeats_log_only_transitions() {
    assert_eq!(endpoint("https://ctl.example//", "/agent/heartbeat"), "https://ctl.example/agent/heartbeat");
    let mut m = HeartbeatMonitor::new();
    assert_eq!(m.observe(HeartbeatOutcome::Accepted), Some(HeartbeatNotice::Reachable));
    assert_eq!(m.observe(HeartbeatOutcome::Accepted), None);
    assert_eq!(m.observe(HeartbeatOutcome::Rejected(503)), Some(HeartbeatNotice::Failed(503)));
    assert_eq!(m.observe(HeartbeatOutcome::Unreachable), None);
    assert_eq!(m.observe(HeartbeatOutcome::Accepted), Some(HeartbeatNotice::Reachable));
    assert_eq!(m.observe(HeartbeatOutcome::Unauthorized), Some(HeartbeatNotice::CredentialsRejected));
}

#[test]
fn docker_readiness_checks() {
    let ok = docker_check(true);
    assert_eq!((ok.code.as_str(), ok.status), ("docker", CheckStatus::Ready));
    assert_eq!(docker_check(false).detail, "Docker daemon/socket is not accessible to foundry-agent");
    let gpu = docker_gpu_check(&Err("no runtime".to_string()));
    assert_eq!((gpu.status, gpu.detail.as_str()), (CheckStatus::Failed, "no runtime"));
    let long = docker_gpu_check(&Ok("x".repeat(700)));
    assert_eq!(long.detail.chars().count(), 600);
}

#[test]
fn inventory_device_references() {
    let line = "  MIG 1g.10gb     Device  0: (UUID: MIG-5f1a-22)";
    assert_eq!(extract_uuid(line, "MIG-").as_deref(), Some("MIG-5f1a-22"));
    assert_eq!(extract_uuid("GPU 0: A100", "GPU-"), None);
    let index = vec![(0, "GPU-zero".to_string())];
    assert_eq!(resolve_device_ref("0", &index).as_deref(), Some("GPU-zero"));
    assert_eq!(resolve_device_ref("GPU-x", &index).as_deref(), Some("GPU-x"));
    assert_eq!(resolve_device_ref("3", &index), None);
    assert_eq!(resolve_device_ref("all", &index), None);
    assert_eq!(short_id("0123456789abcdef"), "0123456789ab");
    assert_eq!(short_id("abc"), "abc");
}

#[test]
fn log_chunks_ship_only_new_lines_in_time_order() {
    let lines = vec![(30, "c\n".to_string()), (10, "a\n".to_string()), (20, "b\n".to_string())];
    assert_eq!(log_chunk(lines.clone(), None), Some((30, "a\nb\nc\n".to_string())));
    assert_eq!(log_chunk(lines.clone(), Some(10)), Some((30, "b\nc\n".to_string())));
    assert_eq!(log_chunk(lines, Some(30)), None);
    let big = vec![(1, "x".repeat(20000)), (2, "y".repeat(20000))];
    let (t, text) = log_chunk(big, None).expect("chunk");
    assert_eq!(t, 2);
    assert_eq!(text, "y".repeat(20000));
}

#[test]
fn unit_groups_line() {
    assert_eq!(supplementary_groups(&vec![]), "");
    assert_eq!(supplementary_groups(&vec![chars("docker"), chars("video")]), "SupplementaryGroups=docker video\n");
}

fn summary(id: &str, state: &str, labels: &[(&str, &str)]) -> ContainerSummary {
    ContainerSummary {
        id: id.into(),
        state: state.into(),
        labels: labels.iter().map(|(k, v)| (k.to_string(), v.to_string())).collect(),
    }
}

#[test]
fn executor_finds_containers_by_label_or_id() {
    let list = vec![
        summary("aaa111", "running", &[("foundry.managed", "false"), ("foundry.deployment_id", "d1")]),
        summary("bbb222", "exited", &[("foundry.managed", "true"), ("foundry.deployment_id", "d1")]),
        summary("ccc333", "running", &[("foundry.managed", "true"), ("foundry.deployment_id", "d2")]),
    ];
    assert_eq!(find_managed(&list, "d1"), Some(("bbb222".to_string(), "exited".to_string())));
    assert_eq!(find_managed(&list, "d3"), None);
    assert_eq!(find_by_id(&list, "aaa"), Some(("aaa111".to_string(), "running".to_string())));
    assert_eq!(find_by_id(&list, "zzz"), None);
    assert_eq!(label_of(&list[2].labels, "foundry.deployment_id").as_deref(), Some("d2"));
    assert_eq!(label_of(&list[2].labels, "missing"), None);
}

#[test]
fn executor_preflight_and_failure_texts() {
    assert!(check_pinned("r/app@sha256:0").is_ok());
    assert!(check_mount("/storage/containers/volumes/a").is_ok());
    assert!(check_mount("/storage/containers/../etc").is_err());
    assert_eq!(
        mount_failure("/storage/containers/v", true, "Read-only file system").message,
        "creating /storage/containers/v failed: Read-only file system — the volume root /storage/containers/ is not writable by the agent; run `sudo foundry-agent --setup-apps` on this server"
    );
    assert_eq!(mount_failure("/p", false, "boom").message, "creating /p failed: boom");
    assert!(check_disk(Some(1), None).is_ok());
    assert!(check_disk(Some(1_000), Some(2_147_485_648)).is_ok());
    match check_disk(Some(1_000), Some(2_147_485_647)) {
        Err(f) => assert_eq!(f.message, "insufficient disk space: 2147485647 bytes available, approximately 2147485648 required"),
        Ok(()) => panic!("too little disk"),
    }
    match check_disk(Some(u64::MAX), Some(u64::MAX - 1)) {
        Err(f) => assert!(f.message.ends_with("approximately 18446744073709551615 required")),
        Ok(()) => panic!("saturating requirement"),
    }
    assert_eq!(port_bound(8080).message, "host port 8080 is already bound");
    assert_eq!(create_failure(&DockerError::Timeout, "app").message, "docker operation timed out");
    assert_eq!(report_error(&"é".repeat(1200)).chars().count(), 1000);
    assert!(matches!(health_step("starting", None, false), HealthStep::Wait));
    match health_step("starting", Some("probe".into()), true) {
        HealthStep::Fail(f) => {
            assert_eq!(f.message, "container health check timed out after 180 seconds");
            assert_eq!(f.health_status.as_deref(), Some("TIMEOUT"));
            assert_eq!(f.health_detail.as_deref(), Some("probe"));
        }
        _ => panic!("deadline passed"),
    }
    assert!(matches!(health_step("healthy", None, true), HealthStep::Ready(s, _) if s == "HEALTHY"));
}

#[test]
fn pending_batch_repeats_until_ack_commit() {
    let mut staging: TrafficStaging<Vec<&str>, Vec<(String, u64)>> = TrafficStaging::new(vec![]);
    staging.stage(vec!["GET /"], true, vec![("access.log".to_string(), 123)]);
    assert_eq!(staging.waiting().map(|b| b.len()), Some(1));
    assert_eq!(staging.waiting().map(|b| b.len()), Some(1));
    assert!(staging.offsets.is_empty());
    staging.commit();
    assert_eq!(staging.offsets, vec![("access.log".to_string(), 123)]);
    assert!(staging.waiting().is_none());
    staging.stage(vec![], false, vec![("access.log".to_string(), 200)]);
    assert!(staging.waiting().is_none());
    assert_eq!(staging.offsets[0].1, 200);
}

#[test]
fn nginx_publishing_rules() {
    let probe = PublishingProbe {
        nginx_installed: true,
        nginx_version: Some((1, 24, 0)),
        nginx_active: Some(true),
        foundry_include_present: true,
        tls_installed: true,
    };
    assert_eq!(app_publishing_status(&probe), "NGINX_OUTDATED");
    let ready = PublishingProbe { nginx_version: Some((1, 25, 1)), ..probe };
    assert_eq!(app_publishing_status(&ready), "READY");
    let missing = PublishingProbe { nginx_installed: false, nginx_version: None, nginx_active: None, foundry_include_present: false, tls_installed: false };
    assert_eq!(app_publishing_status(&missing), "NGINX_MISSING");
    assert_eq!(nginx_bin_path(&[false, false, true, true]), Some("/usr/local/sbin/nginx"));
    assert_eq!(nginx_bin_path(&[false; 4]), None);
    assert!(nginx_installed(&[false, false, false, true]));
    assert!(!tls_installed(true, false));
    assert_eq!(
        nginx_failure("-t", "sudo: a password is required\n"),
        "nginx -t failed: sudo: a password is required — sudo rule missing: run `sudo foundry-agent --setup-apps`"
    );
    assert_eq!(nginx_failure("-s reload", " bad conf "), "nginx -s reload failed: bad conf");
    assert_eq!(invalid_hostname_error("a b"), "refusing invalid vhost hostname \"a b\"");
    assert!(outdated_nginx_error((1, 18, 0)).starts_with("nginx 1.18.0 is too old for HTTP/S publishing"));
    let ports = vec![
        PortBinding { container_port: 22, host_port: 20000, protocol: "tcp".into(), kind: PortKind::Tcp, hostname: None },
        PortBinding { container_port: 80, host_port: 20001, protocol: "tcp".into(), kind: PortKind::Http, hostname: Some("a.example".into()) },
        PortBinding { container_port: 81, host_port: 20002, protocol: "tcp".into(), kind: PortKind::Https, hostname: None },
    ];
    assert_eq!(web_ports(&ports), vec![1]);
}

#[test]
fn upload_request_id_selects_a_stable_partial_file() {
    let id = uuid::Uuid::now_v7();
    let destination = "/storage/containers/volumes/one/model.bin";
    let first = temporary_sibling(destination, id.as_u128()).unwrap();
    let resumed = temporary_sibling(destination, id.as_u128()).unwrap();
    let expected = format!(".foundry-upload-{id}");
    assert_eq!(first, resumed);
    assert_eq!(
        std::path::Path::new(&first).file_name().and_then(|name| name.to_str()),
        Some(expected.as_str())
    );
}

#[test]
fn partial_files_sit_beside_their_destination() {
    let id = uuid::Uuid::from_u128(0x0192aef0_0000_7000_8000_000000000001);
    let name = ".foundry-upload-0192aef0-0000-7000-8000-000000000001";
    for destination in ["/storage/a/model.bin", "/model.bin", "model.bin", "./x/y", "a//b/", "../up"] {
        let expected = std::path::Path::new(destination).parent().unwrap().join(name);
        assert_eq!(temporary_sibling(destination, id.as_u128()), Ok(expected.to_str().unwrap().to_string()));
    }
    assert_eq!(temporary_sibling("/", 1), Err("destination has no parent".to_string()));
    assert_eq!(temporary_sibling("", 1), Err("destination has no parent".to_string()));
}
