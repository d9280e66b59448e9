use foundry::agent::containers::{
    attach_mig_layout, container_gpu_uuids, container_info, container_mount, gpu_info,
    inspection_plan, needs_mig_layout, normalize_ports, DeviceRequest, ListedContainer,
    ListedMount, ListedPort,
};
use foundry::agent::files::{shell_ws_url, ws_url, UploadState, UploadTable};
use foundry::agent::host::{
    capability_check, certificate_check, directory_size_for, nginx_check, parse_setup_revision,
    path_starts_with_exec, readiness, setup_revision_check, storage_capacity_from,
    storage_write_check, volume_entries, CertificateEvidence, FsEntry, NginxProbe,
};
use foundry::ids::uuid_string;
use foundry::shared::{CheckStatus, MigDeviceInfo};

fn port(private: u16, public: Option<u16>, protocol: Option<&str>) -> ListedPort {
    ListedPort { private_port: private, public_port: public, protocol: protocol.map(String::from) }
}

#[test]
fn ports_listed_per_interface_are_reported_once_in_order() {
    let listed = vec![
        port(8080, Some(20001), Some("TCP")),
        port(22, None, None),
        port(8080, Some(20001), Some("TCP")),
        port(53, Some(20002), Some("UDP")),
        port(8080, None, Some("TCP")),
    ];
    let ports = normalize_ports(&listed);
    let keys: Vec<(u16, Option<u16>, String)> =
        ports.iter().map(|p| (p.container_port, p.host_port, p.protocol.clone())).collect();
    assert_eq!(
        keys,
        vec![
            (22, None, "tcp".to_string()),
            (53, Some(20002), "udp".to_string()),
            (8080, None, "tcp".to_string()),
            (8080, Some(20001), "tcp".to_string()),
        ]
    );
}

fn gpu_index() -> Vec<(u32, String)> {
    vec![(0, "GPU-zero".to_string()), (1, "GPU-one".to_string())]
}

#[test]
fn gpu_devices_come_from_requests_and_environment() {
    let requests = vec![DeviceRequest {
        driver: Some("nvidia".into()),
        capabilities: vec![],
        device_ids: Some(vec!["1".into(), "MIG-abc".into(), "7".into()]),
        count: None,
    }];
    let env = vec![
        "PATH=/usr/bin".to_string(),
        "NVIDIA_VISIBLE_DEVICES= 0 ,GPU-one".to_string(),
    ];
    let uuids = container_gpu_uuids(&requests, &env, &gpu_index());
    assert_eq!(uuids, vec!["GPU-one".to_string(), "GPU-zero".to_string(), "MIG-abc".to_string()]);
}

#[test]
fn all_gpus_by_count_or_environment() {
    let by_count = vec![DeviceRequest {
        driver: None,
        capabilities: vec![vec!["gpu".into(), "utility".into()]],
        device_ids: None,
        count: Some(-1),
    }];
    assert_eq!(
        container_gpu_uuids(&by_count, &vec![], &gpu_index()),
        vec!["GPU-one".to_string(), "GPU-zero".to_string()]
    );
    let not_gpu = vec![DeviceRequest {
        driver: Some("other".into()),
        capabilities: vec![vec!["compute".into()]],
        device_ids: None,
        count: Some(-1),
    }];
    assert!(container_gpu_uuids(&not_gpu, &vec![], &gpu_index()).is_empty());
    let all = vec!["NVIDIA_VISIBLE_DEVICES=all".to_string()];
    assert_eq!(container_gpu_uuids(&vec![], &all, &gpu_index()).len(), 2);
    for none in ["NVIDIA_VISIBLE_DEVICES=none", "NVIDIA_VISIBLE_DEVICES=void", "NVIDIA_VISIBLE_DEVICES="] {
        assert!(container_gpu_uuids(&vec![], &vec![none.to_string()], &gpu_index()).is_empty());
    }
}

#[test]
fn mounts_default_to_writable_binds() {
    let m = container_mount(&ListedMount { source: Some("/s".into()), destination: None, rw: None, mount_type: None });
    assert_eq!((m.source.as_str(), m.destination.as_str(), m.read_only, m.mount_type.as_str()), ("/s", "", false, "bind"));
    let m = container_mount(&ListedMount {
        source: None,
        destination: Some("/d".into()),
        rw: Some(false),
        mount_type: Some("VOLUME".into()),
    });
    assert!(m.read_only);
    assert_eq!(m.mount_type, "volume");
}

#[test]
fn listed_containers_become_inventory_entries() {
    let c = ListedContainer {
        id: Some("0123456789abcdef0123".into()),
        names: Some(vec!["//web".into(), "/alias".into()]),
        image: Some("nginx".into()),
        state: Some("RUNNING".into()),
        status: Some("Up 2 hours".into()),
        labels: Some(vec![("foundry.managed".into(), "true".into())]),
        ports: vec![port(80, Some(20000), None), port(80, Some(20000), None)],
    };
    let info = container_info(&c, vec!["GPU-one".into()], vec![]);
    assert_eq!(info.container_id, "0123456789ab");
    assert_eq!(info.name, "web");
    assert_eq!(info.state, "running");
    assert!(info.managed);
    assert_eq!(info.ports.len(), 1);
    let bare = ListedContainer { id: None, names: None, image: None, state: None, status: None, labels: None, ports: vec![] };
    let info = container_info(&bare, vec![], vec![]);
    assert_eq!((info.container_id.as_str(), info.name.as_str(), info.state.as_str()), ("", "", ""));
    assert!(!info.managed);
}

#[test]
fn stopped_containers_are_inspected_up_to_a_budget() {
    let mut states: Vec<String> = vec!["running".into()];
    states.extend(std::iter::repeat("exited".to_string()).take(101));
    states.push("running".into());
    let plan = inspection_plan(&states);
    assert_eq!(plan.len(), 103);
    assert!(plan[0] && plan[1] && plan[100]);
    assert!(!plan[101]);
    assert!(plan[102]);
}

#[test]
fn gpus_get_their_mig_devices_by_uuid() {
    let g0 = gpu_info("GPU-a".into(), 0, None, Some(81_559_000_000), Some(1));
    assert_eq!(g0.model, "unknown");
    assert_eq!(g0.memory_mb, 77_780);
    assert!(g0.mig_enabled);
    let g1 = gpu_info("GPU-b".into(), 1, Some("H100".into()), None, Some(0));
    assert_eq!(g1.memory_mb, 0);
    assert!(!g1.mig_enabled);
    let gpus = vec![g0, g1];
    assert!(needs_mig_layout(&gpus));
    let layout = vec![(
        "GPU-a".to_string(),
        vec![MigDeviceInfo { uuid: "MIG-1".into(), profile: "1g.10gb".into(), memory_mb: 10240, instance_id: 7 }],
    )];
    let gpus = attach_mig_layout(gpus, &layout);
    assert_eq!(gpus[0].mig_devices.len(), 1);
    assert_eq!(gpus[0].mig_devices[0].uuid, "MIG-1");
    assert!(gpus[1].mig_devices.is_empty());
}

#[test]
fn storage_accounting_counts_files_below_directories() {
    let tree = FsEntry::Directory(vec![
        FsEntry::File(10),
        FsEntry::Other,
        FsEntry::Directory(vec![FsEntry::File(5), FsEntry::File(7)]),
    ]);
    assert_eq!(directory_size_for(&tree), 22);
    assert_eq!(directory_size_for(&FsEntry::File(3)), 3);
}

#[test]
fn storage_root_lies_on_the_longest_matching_mount() {
    let mounts = vec![
        ("/".to_string(), 100, 50),
        ("/storage".to_string(), 1000, 500),
        ("/storage/cont".to_string(), 7, 7),
        ("/srv".to_string(), 9, 9),
    ];
    assert_eq!(storage_capacity_from(&mounts), Some((1000, 500)));
    assert_eq!(storage_capacity_from(&vec![("/srv".to_string(), 1, 1)]), None);
    let v: Vec<char> = "/storage/containers".chars().collect();
    let m: Vec<char> = "/storage/".chars().collect();
    assert!(path_starts_with_exec(&v, &m));
}

#[test]
fn volume_directories_are_recognised_by_their_uuid() {
    let id: u128 = 0x0192aef0_0000_7000_8000_000000000042;
    let names = vec!["lost+found".to_string(), uuid_string(id), "tmp".to_string()];
    assert_eq!(volume_entries(&names), vec![(1, id)]);
}

#[test]
fn readiness_checks_come_in_order() {
    let r = readiness(
        true,
        &Ok("GPU visible".to_string()),
        None,
        Some("Name:\tagent\nCapEff:\t0000000000000002\n"),
        &NginxProbe::Succeeded,
        &CertificateEvidence { files_present: true, valid_for_week: true, sans: Some("DNS:*.gpu1.apps.example".into()) },
        Some("gpu1"),
        "apps.example",
        Some(3),
        3,
    );
    let codes: Vec<&str> = r.checks.iter().map(|c| c.code.as_str()).collect();
    assert_eq!(
        codes,
        vec!["docker", "docker_gpu", "storage_write", "capabilities", "nginx_config", "tls_certificate", "setup_revision"]
    );
    assert!(r.checks.iter().all(|c| c.status == CheckStatus::Ready));
    assert_eq!(r.checks[3].detail, "effective capabilities 0x2; CAP_DAC_OVERRIDE present");
    assert_eq!(r.checks[5].detail, "certificate is valid for at least 7 days and covers *.gpu1.apps.example");
    assert_eq!(r.checks[6].detail, "host setup revision 3 (required 3)");
}

#[test]
fn failed_probes_explain_themselves() {
    let c = capability_check(Some("CapEff:\t00000000a80425fb\n"));
    assert_eq!(c.status, CheckStatus::Ready);
    let c = capability_check(Some("CapEff:\t0000000000000000\n"));
    assert_eq!(c.status, CheckStatus::Failed);
    assert_eq!(c.detail, "effective capabilities 0x0; CAP_DAC_OVERRIDE missing");
    assert_eq!(capability_check(None).status, CheckStatus::Unknown);
    assert_eq!(capability_check(Some("nothing here")).detail, "could not read CapEff");
    let s = storage_write_check(Some("Read-only file system"));
    assert_eq!(s.detail, "/storage/containers is not writable: Read-only file system");
    let n = nginx_check(&NginxProbe::Failed("  bad directive \n".into()));
    assert_eq!(n.detail, "sudo -n nginx -t failed: bad directive");
    let n = nginx_check(&NginxProbe::NotRun("no sudo".into()));
    assert_eq!(n.detail, "could not execute sudo nginx: no sudo");
    assert_eq!(setup_revision_check(None, 4).detail, "host setup revision missing (required 4)");
    assert_eq!(setup_revision_check(Some(2), 4).status, CheckStatus::Failed);
    let t = certificate_check(true, true, Some("DNS:*.other.example"), Some("gpu1"), "apps.example");
    assert_eq!(t.status, CheckStatus::Failed);
    assert_eq!(t.detail, "certificate does not cover expected wildcard *.gpu1.apps.example");
    assert_eq!(certificate_check(true, true, None, Some("gpu1"), "d").status, CheckStatus::Unknown);
    assert_eq!(certificate_check(true, true, Some("x"), None, "d").status, CheckStatus::Warning);
    assert_eq!(certificate_check(false, true, None, None, "d").status, CheckStatus::Failed);
    assert_eq!(parse_setup_revision(" 12\n"), Some(12));
    assert_eq!(parse_setup_revision("x"), None);
}

#[test]
fn websocket_urls_switch_scheme() {
    assert_eq!(ws_url("https://ctl.example/", "s1"), "wss://ctl.example/agent/volume-files/attach/s1");
    assert_eq!(shell_ws_url("http://ctl:8080", "s2"), "ws://ctl:8080/agent/shell/attach/s2");
    assert_eq!(shell_ws_url("ctl", "s3"), "ctl/agent/shell/attach/s3");
}

#[test]
fn uploads_resume_and_finish_at_their_declared_size() {
    let mut table = UploadTable::new();
    table.insert(1, UploadState { size: 10, written: 4 });
    assert_eq!(table.ensure_new(1), Err("upload already exists".to_string()));
    assert_eq!(table.ensure_new(2), Ok(()));
    assert_eq!(table.chunk(2, 0, 1), Err("upload is not active".to_string()));
    assert_eq!(table.chunk(1, 0, 3), Err("upload offset mismatch: expected 4, received 0".to_string()));
    assert_eq!(table.chunk(1, 4, 7), Err("upload exceeds its declared size".to_string()));
    assert_eq!(table.chunk(1, 4, 3), Ok(()));
    assert_eq!(table.chunk(1, 7, 3), Ok(()));
    assert_eq!(table.finish(1), Ok(()));
    assert_eq!(table.finish(1), Err("upload is not active".to_string()));
    table.insert(3, UploadState { size: 10, written: 0 });
    assert_eq!(table.finish(3), Err("upload ended 10 bytes before its declared size".to_string()));
    assert_eq!(table.ensure_new(3), Ok(()));
}
