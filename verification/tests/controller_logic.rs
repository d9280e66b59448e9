use base64::Engine;
use foundry::controller::agent_version::{parse, supports, REPLACEMENT_MIN_AGENT_VERSION};
use foundry::controller::audit::{into_page, AuditLogEntry};
use foundry::controller::crypto::{random_token, token_hash, SecretBox};
use foundry::controller::deployments::{
    normalized_volume_paths, replacement_container_name, VolumeSpec, MAX_DEPLOYMENT_VOLUMES,
};
use foundry::controller::error::AppError;
use foundry::controller::lifecycle::{is_legal, DeploymentState as D};
use foundry::controller::local_admins::{hash_password, validate_password, verify_password};
use foundry::controller::registry::{compressed_size_from_manifest, parse_port_key, Manifest};
use foundry::controller::traffic::percentile;
use foundry::controller::volumes::{
    explicit_volume_compatible, normalize_container_path, parse_version, VolumePlacement,
};

#[test]
fn parses_release_and_prefixed_versions() {
    assert_eq!(parse("0.59.0"), Some((0, 59, 0)));
    assert_eq!(parse("v1.2.3-dev"), Some((1, 2, 3)));
    assert_eq!(parse("0.59"), None);
    assert_eq!(parse("unknown"), None);
    assert!(!supports(Some("0.63.9"), REPLACEMENT_MIN_AGENT_VERSION));
    assert!(supports(Some("0.64.0"), REPLACEMENT_MIN_AGENT_VERSION));
}

fn entry(id: &str) -> AuditLogEntry {
    AuditLogEntry {
        id: id.to_string(),
        actor_type: "USER".into(),
        actor_id: None,
        actor_name: None,
        action: "LOGIN".into(),
        subject_type: None,
        subject_id: None,
        detail: None,
        ip_address: None,
        created_at: 0,
    }
}

#[test]
fn full_page_yields_cursor_from_last_kept_row() {
    // over-fetched limit+1 (3 for limit 2) → trims to 2, cursor = 2nd id
    let page = into_page(vec![entry("a"), entry("b"), entry("c")], 2);
    assert_eq!(page.entries.len(), 2);
    assert_eq!(page.next_cursor.as_deref(), Some("b"));
}

#[test]
fn exact_fill_has_no_next_cursor() {
    let page = into_page(vec![entry("a"), entry("b")], 2);
    assert_eq!(page.entries.len(), 2);
    assert_eq!(page.next_cursor, None);
}

#[test]
fn short_page_has_no_next_cursor() {
    let page = into_page(vec![entry("a")], 2);
    assert_eq!(page.entries.len(), 1);
    assert_eq!(page.next_cursor, None);
}

#[test]
fn empty_is_last_page() {
    let page = into_page(vec![], 2);
    assert!(page.entries.is_empty());
    assert_eq!(page.next_cursor, None);
}

fn test_box() -> SecretBox {
    let key = base64::engine::general_purpose::STANDARD.encode([7u8; 32]);
    match SecretBox::from_base64_key(&key) {
        Ok(b) => b,
        Err(e) => panic!("valid key: {}", e.message()),
    }
}

#[test]
fn encrypt_decrypt_round_trip() {
    let sb = test_box();
    let ct = sb.encrypt_str("glpat-secret-token");
    assert_ne!(ct, b"glpat-secret-token");
    match sb.decrypt_str(&ct) {
        Ok(text) => assert_eq!(text, "glpat-secret-token"),
        Err(e) => panic!("decrypts: {}", e.message()),
    }
}

#[test]
fn distinct_nonces_distinct_ciphertexts() {
    let sb = test_box();
    assert_ne!(sb.encrypt_str("x"), sb.encrypt_str("x"));
}

#[test]
fn tampered_ciphertext_fails() {
    let sb = test_box();
    let mut ct = sb.encrypt_str("x");
    let last = ct.len() - 1;
    ct[last] ^= 0xff;
    assert!(sb.decrypt(&ct).is_err());
}

#[test]
fn bad_key_rejected() {
    assert!(SecretBox::from_base64_key("dG9vLXNob3J0").is_err());
    assert!(SecretBox::from_base64_key("not base64!!").is_err());
}

#[test]
fn random_tokens_unique_and_hashable() {
    let a = random_token();
    let b = random_token();
    assert_ne!(a, b);
    assert_eq!(token_hash(&a).len(), 32);
}

#[test]
fn port_key_parsing() {
    let port = parse_port_key("8080/tcp").unwrap();
    assert_eq!((port.container_port, port.protocol.as_str()), (8080, "tcp"));
    let port = parse_port_key("53/udp").unwrap();
    assert_eq!((port.container_port, port.protocol.as_str()), (53, "udp"));
    let port = parse_port_key("9000").unwrap();
    assert_eq!((port.container_port, port.protocol.as_str()), (9000, "tcp"));
    assert!(parse_port_key("0/tcp").is_none());
    assert!(parse_port_key("8080/sctp").is_none());
    assert!(parse_port_key("notaport/tcp").is_none());
}

#[test]
fn manifest_size_requires_complete_positive_layer_total() {
    // {"config":{"digest":"sha256:config"},"layers":[{"size":100},{"size":23}]}
    let manifest = Manifest {
        config_digest: Some("sha256:config".into()),
        manifests: None,
        layers: Some(vec![Some(100), Some(23)]),
    };
    assert_eq!(compressed_size_from_manifest(&manifest), Some(123));

    // {"layers":[{"size":100},{}]}
    let incomplete = Manifest {
        config_digest: None,
        manifests: None,
        layers: Some(vec![Some(100), None]),
    };
    assert_eq!(compressed_size_from_manifest(&incomplete), None);
}

#[test]
fn happy_path_is_legal() {
    for (from, to) in [
        (D::Pending, D::Validating),
        (D::Validating, D::PullingImage),
        (D::PullingImage, D::Running),
        (D::Running, D::Stopping),
        (D::Stopping, D::Stopped),
        (D::Stopped, D::Restarting),
        (D::Restarting, D::Running),
        (D::Stopped, D::Removing),
        (D::Removing, D::Removed),
    ] {
        assert!(is_legal(from, to), "{} → {} must be legal", from.as_str(), to.as_str());
    }
}

#[test]
fn replacement_chain_is_legal() {
    assert!(is_legal(D::Running, D::Stopping));
    assert!(is_legal(D::Stopping, D::Replaced));
    assert!(is_legal(D::Stopped, D::Replaced));
}

#[test]
fn nonsense_is_illegal() {
    for (from, to) in [
        (D::Removed, D::Running),
        (D::Pending, D::Running),
        (D::Stopped, D::Running),
        (D::Failed, D::Running),
        (D::Replaced, D::Restarting),
        (D::Running, D::Pending),
    ] {
        assert!(!is_legal(from, to), "{} → {} must be illegal", from.as_str(), to.as_str());
    }
}

#[test]
fn replacement_keeps_existing_name_when_request_omits_it() {
    assert_eq!(
        replacement_container_name(Some("model-a"), None).expect("name is retained"),
        "model-a"
    );
}

#[test]
fn replacement_rejects_a_different_persistent_namespace() {
    let error = match replacement_container_name(Some("model-a"), Some("model-b")) {
        Ok(_) => panic!("replacement must retain its name"),
        Err(e) => e,
    };
    assert!(matches!(
        error,
        AppError::BadRequest(message)
            if message.contains("persistent-volume namespace") && message.contains("model-a")
    ));
}

#[test]
fn nameless_legacy_deployment_cannot_fork_a_namespace() {
    let error = match replacement_container_name(None, None) {
        Ok(_) => panic!("legacy deployment cannot provide a stable namespace"),
        Err(e) => e,
    };
    assert!(matches!(
        error,
        AppError::BadRequest(message) if message.contains("create a new deployment")
    ));
}

fn volume(path: &str) -> VolumeSpec {
    VolumeSpec {
        volume_id: None,
        volume_name: "models".into(),
        container_path: path.into(),
        read_only: false,
        placement: VolumePlacement::Server,
        purge_on_redeploy: false,
    }
}

#[test]
fn mount_requests_are_bounded_and_destinations_are_unique_after_normalization() {
    let duplicate = match normalized_volume_paths(&[volume("/data/"), volume("/data")]) {
        Ok(_) => panic!("equivalent Docker destinations cannot be mapped twice"),
        Err(e) => e,
    };
    assert!(matches!(duplicate, AppError::BadRequest(message) if message.contains("duplicate")));

    let too_many: Vec<VolumeSpec> =
        (0..MAX_DEPLOYMENT_VOLUMES + 1).map(|_| volume("/models")).collect();
    let error = match normalized_volume_paths(&too_many) {
        Ok(_) => panic!("hand-crafted deployment requests cannot exceed the mount cap"),
        Err(e) => e,
    };
    assert!(matches!(error, AppError::BadRequest(message) if message.contains("max 16")));
}

#[test]
fn password_hash_round_trip() {
    let hash = hash_password("correct horse battery staple").expect("hashes");
    assert!(hash.starts_with("$argon2"));
    assert!(verify_password(&hash, "correct horse battery staple"));
    assert!(!verify_password(&hash, "wrong password entirely"));
    assert!(!verify_password("not-a-hash", "anything"));
}

#[test]
fn short_passwords_rejected() {
    assert!(validate_password("short").is_err());
    assert!(validate_password("exactly12chr").is_ok());
}

#[test]
fn percentile_uses_nearest_rank() {
    assert_eq!(percentile(&[], 95), 0);
    assert_eq!(percentile(&[7], 95), 7);
    assert_eq!(percentile(&(1..=100).collect::<Vec<_>>(), 95), 95);
}

#[test]
fn agent_versions_compare_without_accepting_malformed_values() {
    assert_eq!(parse_version("0.54.0"), Some((0, 54, 0)));
    assert_eq!(parse_version("v1.2.3-dev"), Some((1, 2, 3)));
    assert_eq!(parse_version("0.53.9"), Some((0, 53, 9)));
    assert_eq!(parse_version("0.54"), None);
    assert_eq!(parse_version("unknown"), None);
}

#[test]
fn container_destinations_are_normalized_without_ambiguous_bind_syntax() {
    assert_eq!(normalize_container_path(" /data//workflows/ ").expect("valid path"), "/data/workflows");
    assert_eq!(normalize_container_path("/").expect("root is absolute"), "/");
    assert!(normalize_container_path("relative").is_err());
    assert!(normalize_container_path("/data:broken").is_err());
    assert!(normalize_container_path("/data/../other").is_err());
    assert!(normalize_container_path("/data/./other").is_err());
    assert!(normalize_container_path("/data\u{0000}other").is_err());
    assert_eq!(
        normalize_container_path("/data/..cache").expect("only exact dot parts reject"),
        "/data/..cache"
    );
}

#[test]
fn explicit_roots_require_their_actual_server_and_physical_placement() {
    let server: u128 = 0x0192_0000_0000_7000_8000_0000_0000_0001;
    let other_server: u128 = 0x0192_0000_0000_7000_8000_0000_0000_0002;
    let slot: u128 = 0x0192_0000_0000_7000_8000_0000_0000_0003;
    let other_slot: u128 = 0x0192_0000_0000_7000_8000_0000_0000_0004;
    let group: u128 = 0x0192_0000_0000_7000_8000_0000_0000_0005;
    let other_group: u128 = 0x0192_0000_0000_7000_8000_0000_0000_0006;

    assert!(explicit_volume_compatible(server, VolumePlacement::Server, server, server, slot, None));
    assert!(!explicit_volume_compatible(
        other_server,
        VolumePlacement::Server,
        other_server,
        server,
        slot,
        None,
    ));
    assert!(explicit_volume_compatible(server, VolumePlacement::Slot, slot, server, slot, None));
    assert!(!explicit_volume_compatible(server, VolumePlacement::Slot, other_slot, server, slot, None));
    assert!(explicit_volume_compatible(server, VolumePlacement::Slot, group, server, slot, Some(group)));
    assert!(!explicit_volume_compatible(
        server,
        VolumePlacement::Slot,
        other_group,
        server,
        slot,
        Some(group),
    ));
    assert!(!explicit_volume_compatible(server, VolumePlacement::Slot, slot, server, slot, Some(group)));
}
