use foundry::agent::inventory::parse_smi_list;
use foundry::controller::adoption::{adopted_row, adoption_slots, check_adoptable, AdoptionCandidate};
use foundry::controller::error::AppError;
use foundry::controller::inventory::{
    container_row, gpu_tree, restored_slot_state, snapshot_slots, still_running, ContainerReport,
    ExternalRow, GpuRow, MembershipRow, SlotRow,
};
use foundry::controller::lifecycle::DeploymentState as D;
use foundry::controller::registry::{
    blob_url, config_digest, declared_volumes, image_ports, manifest_url, DeclaredVolume, Manifest,
};
use foundry::controller::volumes::{
    check_explicit_volume, new_volume_path, placement_scope, VolumePlacement,
};
use foundry::ids::uuid_string;
use foundry::shared::{GpuInfo, MigDeviceInfo, SlotState, SlotType};
use foundry::sorting::sort_strings;

const SAMPLE: &str = "\
GPU 0: NVIDIA A100-SXM4-80GB (UUID: GPU-aaaaaaaa-1111-2222-3333-444444444444)
  MIG 1g.10gb     Device  0: (UUID: MIG-bbbbbbbb-1111-2222-3333-444444444444)
  MIG 2g.20gb     Device  1: (UUID: MIG-cccccccc-1111-2222-3333-444444444444)
GPU 1: NVIDIA A100-SXM4-80GB (UUID: GPU-dddddddd-1111-2222-3333-444444444444)
";

#[test]
fn parses_mig_layout() {
    let map = parse_smi_list(SAMPLE);
    let gpu0 = &map
        .iter()
        .find(|(k, _)| k == "GPU-aaaaaaaa-1111-2222-3333-444444444444")
        .expect("gpu 0 listed")
        .1;
    assert_eq!(gpu0.len(), 2);
    assert_eq!(gpu0[0].profile, "1g.10gb");
    assert_eq!(gpu0[0].memory_mb, 10240);
    assert_eq!(gpu0[0].instance_id, 0);
    assert_eq!(gpu0[1].profile, "2g.20gb");
    assert_eq!(gpu0[1].instance_id, 1);
    assert!(!map.iter().any(|(k, _)| k == "GPU-dddddddd-1111-2222-3333-444444444444"));
}

#[test]
fn mig_lines_before_any_gpu_are_ignored() {
    let text = "  MIG 1g.10gb Device 0: (UUID: MIG-x)\nGPU 0: A (UUID: GPU-a)\n  MIG 3g.40gb Device 2: (UUID: MIG-y)\n";
    let map = parse_smi_list(text);
    assert_eq!(map.len(), 1);
    assert_eq!(map[0].0, "GPU-a");
    assert_eq!(map[0].1.len(), 1);
    assert_eq!(map[0].1[0].uuid, "MIG-y");
    assert_eq!(map[0].1[0].memory_mb, 40960);
    assert_eq!(map[0].1[0].instance_id, 2);
}

/// Reads a Foundry volume label the way the controller does: a JSON array
/// of `{volume_name, container_path, read_only}`.
fn label_entries(label: &str) -> Option<Vec<DeclaredVolume>> {
    let value: serde_json::Value = serde_json::from_str(label).ok()?;
    value
        .as_array()?
        .iter()
        .map(|v| {
            Some(DeclaredVolume {
                volume_name: v.get("volume_name")?.as_str()?.to_string(),
                container_path: v.get("container_path")?.as_str()?.to_string(),
                read_only: v.get("read_only")?.as_bool()?,
            })
        })
        .collect()
}

#[test]
fn foundry_label_overrides_standard_volume_defaults() {
    let label = r#"[
        {"volume_name":"comfy-models","container_path":"/data/models","read_only":true},
        {"volume_name":"comfy-output","container_path":"/data/output","read_only":false}
    ]"#;
    let volumes = declared_volumes(
        "templates/comfyui-blank",
        vec!["/data/models".to_string(), "/data/settings".to_string()],
        label_entries(label),
    );
    assert_eq!(volumes.len(), 3);
    assert_eq!(volumes[0].volume_name, "comfy-models");
    assert!(volumes[0].read_only);
    assert_eq!(volumes[1].volume_name, "comfy-output");
    assert_eq!(volumes[2].volume_name, "comfyui-blank-data-settings");
}

#[test]
fn invalid_label_entries_are_ignored() {
    let label = r#"[
        {"volume_name":"../escape","container_path":"/safe","read_only":false},
        {"volume_name":"valid","container_path":"relative","read_only":false}
    ]"#;
    assert!(declared_volumes("team/image", vec![], label_entries(label)).is_empty());
}

#[test]
fn dockerfile_volumes_come_sorted_and_are_capped() {
    let paths: Vec<String> = (0..20).rev().map(|i| format!("/v{i:02}")).collect();
    let volumes = declared_volumes("org/app", paths, None);
    assert_eq!(volumes.len(), 16);
    assert_eq!(volumes[0].container_path, "/v00");
    assert_eq!(volumes[15].container_path, "/v15");
    assert_eq!(volumes[0].volume_name, "app-v00");
    assert!(!volumes[0].read_only);
}

#[test]
fn exposed_ports_are_sorted_by_port_then_protocol() {
    let ports = image_ports(vec![
        "9000/udp".into(),
        "80".into(),
        "9000/tcp".into(),
        "bogus".into(),
        "443/tcp".into(),
    ]);
    let got: Vec<(u16, &str)> = ports.iter().map(|p| (p.container_port, p.protocol.as_str())).collect();
    assert_eq!(got, vec![(80, "tcp"), (443, "tcp"), (9000, "tcp"), (9000, "udp")]);
}

#[test]
fn strings_sort_in_string_order() {
    let sorted = sort_strings(vec!["b".into(), "ab".into(), "a".into(), "B".into(), "".into()]);
    assert_eq!(sorted, vec!["", "B", "a", "ab", "b"]);
}

#[test]
fn registry_urls_and_config_digest() {
    assert_eq!(
        manifest_url("https://registry.example/", "team/app", "v1"),
        "https://registry.example/v2/team/app/manifests/v1"
    );
    assert_eq!(
        blob_url("https://registry.example", "team/app", "sha256:abc"),
        "https://registry.example/v2/team/app/blobs/sha256:abc"
    );
    let m = Manifest { config_digest: None, manifests: None, layers: None };
    match config_digest(&m) {
        Err(AppError::BadRequest(msg)) => assert_eq!(msg, "manifest carries no image config"),
        _ => panic!("a manifest without config is refused"),
    }
}

#[test]
fn uuid_text_is_hyphenated_lowercase_hex() {
    assert_eq!(
        uuid_string(0x0192aef0_1234_7abc_8def_0123456789ab),
        "0192aef0-1234-7abc-8def-0123456789ab"
    );
    assert_eq!(uuid_string(0), "00000000-0000-0000-0000-000000000000");
}

#[test]
fn new_volume_paths_follow_placement() {
    let slot: u128 = 0x0192aef0_0000_7000_8000_000000000001;
    let group: u128 = 0x0192aef0_0000_7000_8000_000000000002;
    let id: u128 = 0x0192aef0_0000_7000_8000_000000000003;
    assert_eq!(
        new_volume_path(VolumePlacement::Server, slot, None, "proj", "models", id),
        "/storage/containers/.foundry/shared/proj/models/0192aef0-0000-7000-8000-000000000003"
    );
    assert_eq!(
        new_volume_path(VolumePlacement::Slot, slot, None, "proj", "models", id),
        "/storage/containers/.foundry/slots/0192aef0-0000-7000-8000-000000000001/proj/models/0192aef0-0000-7000-8000-000000000003"
    );
    assert_eq!(
        new_volume_path(VolumePlacement::Slot, slot, Some(group), "proj", "models", id),
        "/storage/containers/.foundry/groups/0192aef0-0000-7000-8000-000000000002/proj/models/0192aef0-0000-7000-8000-000000000003"
    );
    assert_eq!(placement_scope(VolumePlacement::Slot, 1, 2, Some(3)), (3, None, Some(3)));
    assert_eq!(placement_scope(VolumePlacement::Slot, 1, 2, None), (2, Some(2), None));
    assert_eq!(placement_scope(VolumePlacement::Server, 1, 2, Some(3)), (1, None, None));
}

#[test]
fn explicit_volume_decisions() {
    assert!(matches!(
        check_explicit_volume("a", VolumePlacement::Slot, "b", VolumePlacement::Slot, true, false),
        Err(AppError::BadRequest(_))
    ));
    assert!(matches!(
        check_explicit_volume("a", VolumePlacement::Slot, "a", VolumePlacement::Slot, false, false),
        Err(AppError::Forbidden)
    ));
    assert!(check_explicit_volume("a", VolumePlacement::Slot, "a", VolumePlacement::Slot, false, true).is_ok());
    assert!(check_explicit_volume("a", VolumePlacement::Server, "a", VolumePlacement::Server, true, false).is_ok());
}

fn gpu(index: u32, uuid: &str, mig: bool, devices: Vec<MigDeviceInfo>) -> GpuInfo {
    GpuInfo { uuid: uuid.into(), index, model: "A100".into(), memory_mb: 81920, mig_enabled: mig, mig_devices: devices }
}

#[test]
fn snapshot_declares_full_and_mig_slots() {
    let gpus = vec![
        gpu(0, "GPU-a", false, vec![]),
        gpu(3, "GPU-b", true, vec![
            MigDeviceInfo { uuid: "MIG-1".into(), profile: "1g.10gb".into(), memory_mb: 10240, instance_id: 0 },
            MigDeviceInfo { uuid: "MIG-2".into(), profile: "1g.10gb".into(), memory_mb: 10240, instance_id: 3 },
        ]),
    ];
    let slots = snapshot_slots(&gpus);
    assert_eq!(slots.len(), 3);
    assert_eq!(slots[0].name, "0");
    assert_eq!(slots[0].slot_type, SlotType::FullGpu);
    assert_eq!(slots[0].capacity_mb, 81920);
    assert_eq!(slots[1].name, "3.1");
    assert_eq!(slots[1].gpu, 1);
    assert_eq!(slots[1].mig_uuid.as_deref(), Some("MIG-1"));
    assert_eq!(slots[2].name, "3.4");
}

#[test]
fn returning_slot_takes_its_most_advanced_occupant() {
    assert_eq!(restored_slot_state(SlotState::Free, &[]), SlotState::Free);
    assert_eq!(restored_slot_state(SlotState::Free, &[D::Failed, D::Removed]), SlotState::Free);
    assert_eq!(restored_slot_state(SlotState::Free, &[D::Pending]), SlotState::Reserved);
    assert_eq!(restored_slot_state(SlotState::Free, &[D::Pending, D::Starting]), SlotState::Deploying);
    assert_eq!(restored_slot_state(SlotState::Free, &[D::Stopping, D::Starting]), SlotState::Stopping);
    assert_eq!(restored_slot_state(SlotState::Free, &[D::Stopping, D::PublishFailed]), SlotState::Running);
    assert_eq!(restored_slot_state(SlotState::Offline, &[D::Running]), SlotState::Offline);
}

fn container(id: &str, state: &str) -> ContainerReport {
    ContainerReport {
        container_id: id.into(),
        name: "n".into(),
        image: "i".into(),
        state: state.into(),
        status: "s".into(),
        managed: false,
    }
}

#[test]
fn liveness_compares_short_ids_of_running_containers() {
    let cs = vec![container("0123456789abcdef", "running"), container("ffffffffffff0000", "exited")];
    assert!(still_running(&cs, Some("0123456789ab")));
    assert!(still_running(&cs, Some("0123456789abXXXX")));
    assert!(!still_running(&cs, Some("ffffffffffff")));
    assert!(!still_running(&cs, None));
    let long = "x".repeat(300);
    let mut c = container("id", "running");
    c.name = long.clone();
    let row = container_row(&c);
    assert_eq!(row.0.chars().count(), 255);
    assert_eq!(row.2, "running");
}

fn slot(id: u128, gpu_id: u128, name: &str, state: &str, mig: Option<&str>) -> SlotRow {
    SlotRow {
        id,
        gpu_id,
        name: name.into(),
        slot_type: if mig.is_some() { "MIG_SLOT".into() } else { "FULL_GPU".into() },
        mig_uuid: mig.map(|m| m.to_string()),
        mig_profile: None,
        capacity_mb: Some(10240),
        state: state.into(),
        max_occupants: 1,
    }
}

#[test]
fn gpu_tree_hides_offline_slots_and_maps_external_occupants() {
    let gpus = vec![
        GpuRow { id: 1, server_id: 100, gpu_uuid: "GPU-a".into(), display_index: 0, model: None, memory_mb: None, mig_enabled: true },
        GpuRow { id: 2, server_id: 100, gpu_uuid: "GPU-b".into(), display_index: 1, model: None, memory_mb: None, mig_enabled: false },
    ];
    let slots = vec![
        slot(10, 1, "0.1", "OFFLINE", Some("MIG-old")),
        slot(11, 1, "0.2", "FREE", Some("MIG-new")),
        slot(20, 2, "1", "OFFLINE", None),
    ];
    let memberships = vec![MembershipRow { gpu_id: 2, group_id: 7, name: "pair".into() }];
    let external = vec![ExternalRow {
        server_id: 100,
        name: "jupyter".into(),
        image: "jupyter:latest".into(),
        gpu_uuids: Some(r#"["MIG-new"]"#.into()),
        running: true,
    }];
    let tree = gpu_tree(&gpus, &slots, &memberships, &external).expect("readable");
    assert_eq!(tree.len(), 2);
    let g0 = &tree[0].1;
    assert_eq!(tree[0].0, 100);
    assert_eq!(g0.slots.len(), 1);
    assert_eq!(g0.slots[0].id, 11);
    assert_eq!(g0.slots[0].state, SlotState::Free);
    assert_eq!(g0.slots[0].external.as_ref().map(|e| e.name.as_str()), Some("jupyter"));
    let g1 = &tree[1].1;
    assert_eq!(g1.slots.len(), 1);
    assert_eq!(g1.slots[0].state, SlotState::Offline);
    assert!(g1.slots[0].external.is_none());
    assert_eq!(g1.groups.len(), 1);
    assert_eq!(g1.groups[0].name, "pair");

    let bad = vec![slot(30, 1, "0.3", "WEIRD", None)];
    assert!(matches!(gpu_tree(&gpus, &bad, &Vec::new(), &Vec::new()), Err(AppError::Internal(_))));
}

#[test]
fn adoption_is_checked_in_order() {
    assert!(matches!(check_adoptable(None, 0), Err(AppError::NotFound(_))));
    let mut c = AdoptionCandidate { managed: true, state: "running".into(), gpu_uuids: Some(r#"["GPU-a"]"#.into()) };
    assert!(matches!(check_adoptable(Some(&c), 0), Err(AppError::BadRequest(m)) if m.contains("already managed")));
    c.managed = false;
    c.state = "exited".into();
    assert!(matches!(check_adoptable(Some(&c), 0), Err(AppError::BadRequest(m)) if m.contains("currently running")));
    c.state = "running".into();
    assert!(matches!(check_adoptable(Some(&c), 1), Err(AppError::BadRequest(m)) if m.contains("already adopted")));
    assert_eq!(check_adoptable(Some(&c), 0).expect("adoptable"), vec!["GPU-a".to_string()]);
    c.gpu_uuids = Some("not json".into());
    assert!(matches!(check_adoptable(Some(&c), 0), Err(AppError::BadRequest(m)) if m.contains("occupying a GPU")));

    assert_eq!(adoption_slots(&vec![None, Some(5), Some(6)]).expect("slots"), vec![5, 6]);
    assert!(matches!(adoption_slots(&vec![None]), Err(AppError::BadRequest(_))));
    let (name, image) = adopted_row("jupyter", "img");
    assert_eq!((name.as_str(), image.as_str()), ("jupyter", "img"));
}
