use foundry::controller::agent_version::parse;
use foundry::controller::deployment_targets::{resolve_group_target, resolve_slot_target, DeployMember};
use foundry::controller::deployments::{validate_ports, PortRequest};
use foundry::controller::error::AppError;
use foundry::controller::volumes::normalize_container_path;
use foundry::shared::PortKind;

fn refusal(e: AppError) -> String {
    match e {
        AppError::BadRequest(m) | AppError::NotFound(m) => m,
        other => panic!("unexpected error: {}", other.message()),
    }
}

#[test]
fn formatted_versions_parse_back() {
    for (a, b, c) in [(0u32, 0u32, 0u32), (0, 64, 1), (12, 345, 6789), (u32::MAX, 1, u32::MAX)] {
        assert_eq!(parse(&format!("{a}.{b}.{c}")), Some((a, b, c)));
    }
    assert_eq!(parse("0.59"), None);
    assert_eq!(parse("1.2.3.4"), None);
    assert_eq!(parse("unknown"), None);
}

#[test]
fn normalized_destinations_are_stable() {
    for raw in [" /data//workflows/ ", "/", "///", "/a/b/c", "/x y/z", "/data/..cache"] {
        let once = normalize_container_path(raw).expect("valid destination");
        assert_eq!(normalize_container_path(&once).expect("still valid"), once);
    }
    // A last component that ends in white space survives the first pass
    // and is trimmed by the second.
    assert_eq!(normalize_container_path("/a /").expect("valid"), "/a ");
    assert_eq!(normalize_container_path("/a ").expect("valid"), "/a");
}

fn port(container_port: u16, kind: PortKind) -> PortRequest {
    PortRequest {
        container_port,
        host_port: None,
        kind,
        primary: false,
        health_path: None,
        max_body_size_bytes: None,
        proxy_timeout_seconds: None,
    }
}

#[test]
fn ports_are_accepted_exactly_when_every_rule_holds() {
    let mut web = port(8080, PortKind::Http);
    web.primary = true;
    web.health_path = Some("/health".into());
    web.max_body_size_bytes = Some(1024);
    web.proxy_timeout_seconds = Some(86400);
    let mut tcp = port(22, PortKind::Tcp);
    tcp.host_port = Some(20000);
    let udp = port(8080, PortKind::Udp);
    assert!(validate_ports(&[web, tcp, udp], Some("ai.example")).is_ok());

    let dup = [port(8080, PortKind::Tcp), port(8080, PortKind::Http)];
    assert_eq!(refusal(validate_ports(&dup, Some("d")).unwrap_err()), "duplicate container port 8080");
    let mut a = port(1, PortKind::Http);
    a.primary = true;
    let mut b = port(2, PortKind::Https);
    b.primary = true;
    assert_eq!(
        refusal(validate_ports(&[a, b], Some("d")).unwrap_err()),
        "only one published application port can be primary"
    );
    assert_eq!(
        refusal(validate_ports(&[port(80, PortKind::Http)], None).unwrap_err()),
        "HTTP/HTTPS publishing is disabled: FOUNDRY_APPS_DOMAIN is not configured"
    );
    let mut pinned = port(5000, PortKind::Tcp);
    pinned.host_port = Some(22);
    assert_eq!(
        refusal(validate_ports(&[pinned], None).unwrap_err()),
        "host port 22 is outside the allowed pool (20000–29999)"
    );
    let mut slow = port(5000, PortKind::Tcp);
    slow.proxy_timeout_seconds = Some(0);
    assert_eq!(
        refusal(validate_ports(&[slow], None).unwrap_err()),
        "proxy_timeout_seconds must be between 1 and 86400"
    );
    let many: Vec<PortRequest> = (1..=33).map(|p| port(p, PortKind::Tcp)).collect();
    assert_eq!(refusal(validate_ports(&many, None).unwrap_err()), "too many ports (max 32)");
    assert_eq!(refusal(validate_ports(&[port(0, PortKind::Tcp)], None).unwrap_err()), "container port 0 is invalid");
}

#[test]
fn slot_targets_respect_state_external_containers_and_capacity() {
    let t = resolve_slot_target(1, 7, "0".into(), false, None, 0, 1).ok().expect("free slot");
    assert_eq!((t.server_id, t.primary_slot_id, t.primary_slot_name.as_str()), (1, 7, "0"));
    assert_eq!((t.member_slot_ids, t.group_id), (vec![7], None));
    assert_eq!(refusal(resolve_slot_target(1, 7, "0".into(), true, None, 0, 1).err().unwrap()), "slot is offline");
    assert_eq!(
        refusal(resolve_slot_target(1, 7, "0".into(), false, Some("ollama"), 0, 1).err().unwrap()),
        "GPU is occupied by external container \"ollama\"; stop or adopt it before deploying"
    );
    assert_eq!(
        refusal(resolve_slot_target(1, 7, "0".into(), false, None, 2, 2).err().unwrap()),
        "slot is at capacity (2/2)"
    );
}

fn member(slot_id: u128, gpu_index: u32) -> DeployMember {
    DeployMember {
        slot_id,
        gpu_index,
        slot_state: "FREE".into(),
        mig_enabled: false,
        foreign_occupants: 0,
        external_running: false,
    }
}

#[test]
fn group_targets_list_every_busy_member() {
    let free = vec![member(10, 0), member(11, 1)];
    let t = resolve_group_target(1, 5, &free, 0, 1).ok().expect("free group");
    assert_eq!((t.primary_slot_id, t.primary_slot_name.as_str()), (10, "0"));
    assert_eq!((t.member_slot_ids, t.group_id), (vec![10, 11], Some(5)));
    assert_eq!(refusal(resolve_group_target(1, 5, &free, 1, 1).err().unwrap()), "group is at capacity (1/1)");
    assert_eq!(refusal(resolve_group_target(1, 5, &vec![], 0, 1).err().unwrap()), "group has no members");
    let mut busy = vec![member(10, 0), member(11, 1), member(12, 2), member(13, 3), member(14, 4)];
    busy[0].slot_state = "OFFLINE".into();
    busy[1].mig_enabled = true;
    busy[2].foreign_occupants = 1;
    busy[3].external_running = true;
    assert_eq!(
        refusal(resolve_group_target(1, 5, &busy, 0, 2).err().unwrap()),
        "group not deployable — GPU 0 (offline), GPU 1 (MIG enabled), GPU 2 (in individual use), GPU 3 (external container running)"
    );
}
