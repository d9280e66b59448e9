use foundry::controller::cookies::{
    clear_oauth_cookie, clear_session_cookie, oauth_cookie, session_cookie, SameSite,
};
use base64::Engine;
use foundry::controller::crypto::SecretBox;
use foundry::controller::deployments::{
    app_hostname, check_replaceable, check_replacement_agent, clamp_mem_limit,
    deployment_container_name, dns_label, generate_name, generate_name_with_suffix,
    hostname_parts, image_digest, sanitize_name, validate_env, MEM_LIMIT_MAX_MB, MEM_LIMIT_MIN_MB,
};
use foundry::controller::error::AppError;
use foundry::controller::files::{
    check_attach, mutation_detail, next_dispatch, require_visible_volumes, PendingSessionFacts,
    WaitingSession,
};
use foundry::controller::gitlab::{
    detail_failure_is_fatal, new_tag_names, next_page, page_url, reported_tag_size,
    upstream_error, wants_detail,
};
use foundry::controller::gpu_groups::{
    check_deletable, check_member, group_availability, group_members, group_name,
    require_members, validate_max_occupants, GroupMember, MemberCandidate,
};
use foundry::controller::lifecycle::{check_transition, DeploymentState as D};
use foundry::controller::local_admins::{credential_for, local_login};
use foundry::controller::login::{
    check_callback, check_pending_login, login_expired, needs_refresh, read_oauth_cookie,
    registry_token_url, require_admin, seal_login_state, session_user_agent, CallbackQuery,
};
use foundry::controller::servers::{
    authenticate_agent, bearer_secret, check_fleet_budget, issue_agent_credential,
    shown_hostname, swept_status, ServerStatus,
};
use foundry::controller::users::{
    account_for_instance, email_is_admin, open_account_tokens, seal_tokens, AccountRow,
};
use foundry::shared::FileClientMessage;

fn bad_request(r: Result<(), AppError>) -> String {
    match r {
        Err(AppError::BadRequest(m)) => m,
        Err(e) => panic!("unexpected error: {}", e.message()),
        Ok(()) => panic!("expected a refusal"),
    }
}

fn secret_box() -> SecretBox {
    let key = base64::engine::general_purpose::STANDARD.encode([9u8; 32]);
    match SecretBox::from_base64_key(&key) {
        Ok(b) => b,
        Err(e) => panic!("valid key: {}", e.message()),
    }
}

#[test]
fn audit_detail_never_contains_text_or_upload_content() {
    let volume_id: u128 = 0x0192aef0_0000_7000_8000_000000000010;
    let write = FileClientMessage::WriteText {
        request_id: 1,
        volume_id,
        path: "settings/config.json".into(),
        content: "secret material".into(),
    };
    let detail = mutation_detail(&write).expect("mutation");
    assert_eq!(detail.operation, "write_text");
    assert_eq!(detail.volume_id, volume_id);
    assert_eq!(detail.path.as_deref(), Some("settings/config.json"));
    for field in [&detail.path, &detail.from, &detail.to] {
        assert!(field.as_deref() != Some("secret material"));
    }
    let chunk = FileClientMessage::UploadChunk { request_id: 2, offset: 0, data: "secret bytes".into() };
    assert!(mutation_detail(&chunk).is_none());
}

#[test]
fn copies_are_audited_against_their_destination() {
    let copy = FileClientMessage::Copy { request_id: 3, from_volume_id: 1, from: "a".into(), to_volume_id: 2, to: "b".into() };
    let d = mutation_detail(&copy).expect("mutation");
    assert_eq!((d.volume_id, d.from_volume_id, d.operation.as_str()), (2, Some(1), "copy"));
    let upload = FileClientMessage::UploadStart { request_id: 4, volume_id: 5, path: "big.bin".into(), size: 99 };
    assert_eq!(mutation_detail(&upload).expect("mutation").size, Some(99));
    let list = FileClientMessage::List { request_id: 5, volume_id: 5, path: "".into() };
    assert!(mutation_detail(&list).is_none());
}

#[test]
fn file_sessions_attach_once_on_their_server() {
    assert_eq!(
        bad_request(require_visible_volumes(0)),
        "this project has no accessible volumes on the selected server"
    );
    assert!(require_visible_volumes(2).is_ok());
    assert!(matches!(check_attach(None, 1), Err(AppError::NotFound(m)) if m == "file session not found"));
    let s = PendingSessionFacts { server_id: 1, bridge_available: true };
    assert!(matches!(check_attach(Some(&s), 2), Err(AppError::Forbidden)));
    assert!(check_attach(Some(&s), 1).is_ok());
    let used = PendingSessionFacts { server_id: 1, bridge_available: false };
    assert_eq!(bad_request(check_attach(Some(&used), 1)), "file session already attached");
    let sessions = vec![
        WaitingSession { server_id: 1, dispatched: true, bridge_available: true, expired: false },
        WaitingSession { server_id: 2, dispatched: false, bridge_available: true, expired: false },
        WaitingSession { server_id: 1, dispatched: false, bridge_available: true, expired: true },
        WaitingSession { server_id: 1, dispatched: false, bridge_available: true, expired: false },
    ];
    assert_eq!(next_dispatch(&sessions, 1), Some(3));
    assert_eq!(next_dispatch(&sessions, 3), None);
}

#[test]
fn gpu_groups_need_distinct_plain_gpus_of_one_server() {
    assert!(validate_max_occupants(1).is_ok() && validate_max_occupants(4).is_ok());
    assert_eq!(bad_request(validate_max_occupants(0)), "max_occupants must be 1–4");
    assert_eq!(bad_request(validate_max_occupants(5)), "max_occupants must be 1–4");
    assert_eq!(group_name("  pair  ").ok().as_deref(), Some("pair"));
    assert!(matches!(group_name("   "), Err(AppError::BadRequest(m)) if m == "group name must be 1–64 characters"));
    assert_eq!(group_members(&[3, 1, 3, 2]).ok(), Some(vec![3, 1, 2]));
    assert!(matches!(group_members(&[7, 7]), Err(AppError::BadRequest(m)) if m == "a group needs at least 2 distinct GPUs"));
    assert_eq!(bad_request(check_member(None, 1)), "a selected GPU does not exist");
    let other = MemberCandidate { gpu_index: 0, mig_enabled: false, server_id: 2, has_full_slot: true };
    assert_eq!(bad_request(check_member(Some(&other), 1)), "all members must be on the same server");
    let mig = MemberCandidate { gpu_index: 3, mig_enabled: true, server_id: 1, has_full_slot: true };
    assert_eq!(bad_request(check_member(Some(&mig), 1)), "GPU 3 has MIG enabled and cannot join a group");
    let slotless = MemberCandidate { gpu_index: 4, mig_enabled: false, server_id: 1, has_full_slot: false };
    assert_eq!(bad_request(check_member(Some(&slotless), 1)), "GPU 4 has no full-GPU slot");
    let fine = MemberCandidate { gpu_index: 5, mig_enabled: false, server_id: 1, has_full_slot: true };
    assert!(check_member(Some(&fine), 1).is_ok());
    assert_eq!(bad_request(check_deletable(1, 3)), "a deployment is live on this group — stop it first");
    assert_eq!(
        bad_request(check_deletable(0, 3)),
        "persistent volumes belong to this group — delete them from Storage first"
    );
    assert!(check_deletable(0, 0).is_ok());
    assert!(matches!(require_members(0), Err(AppError::NotFound(m)) if m == "group has no members"));
}

fn member(index: u32, memory: Option<u32>, state: Option<&str>, foreign: i64) -> GroupMember {
    GroupMember {
        gpu_index: index,
        memory_mb: memory,
        mig_enabled: false,
        slot_state: state.map(String::from),
        foreign_occupants: foreign,
    }
}

#[test]
fn group_availability_names_the_first_obstacle() {
    let members = vec![member(0, Some(81920), Some("FREE"), 0), member(1, Some(81920), Some("FREE"), 0)];
    let a = group_availability(&members, 0, 1);
    assert_eq!((a.combined_vram_mb, a.deployable, a.busy_reason.is_none()), (163840, true, true));
    let full = group_availability(&members, 2, 2);
    assert_eq!(full.busy_reason.as_deref(), Some("full · 2/2"));
    assert_eq!(group_availability(&members, 1, 1).busy_reason.as_deref(), Some("in use"));
    let busy = vec![member(0, None, Some("RUNNING"), 1), member(1, None, None, 0)];
    let b = group_availability(&busy, -3, 4);
    assert_eq!(b.occupants, 0);
    assert_eq!(b.busy_reason.as_deref(), Some("GPU 0 is in individual use"));
    let offline = vec![member(1, None, Some("OFFLINE"), 0)];
    assert_eq!(group_availability(&offline, 0, 4).busy_reason.as_deref(), Some("GPU 1 is offline"));
}

#[test]
fn login_callbacks_are_checked_in_order() {
    let q = CallbackQuery { code: None, state: None, error: Some("access_denied".into()), error_description: Some("no".into()) };
    assert!(matches!(check_callback(&q, true), Err(AppError::BadRequest(m)) if m == "GitLab refused the authorization: access_denied no"));
    let q = CallbackQuery { code: None, state: Some("s".into()), error: None, error_description: None };
    assert!(matches!(check_callback(&q, true), Err(AppError::BadRequest(m)) if m == "missing authorization code"));
    let q = CallbackQuery { code: Some("c".into()), state: None, error: None, error_description: None };
    assert!(matches!(check_callback(&q, true), Err(AppError::BadRequest(m)) if m == "missing state"));
    let q = CallbackQuery { code: Some("c".into()), state: Some("s".into()), error: None, error_description: None };
    assert!(matches!(check_callback(&q, false), Err(AppError::BadRequest(m)) if m == "no pending login"));
    assert_eq!(check_callback(&q, true).ok(), Some(("c".to_string(), "s".to_string())));
    assert!(login_expired(0, 601) && !login_expired(0, 600));
    assert_eq!(bad_request(check_pending_login(0, 700, "a", "a")), "login attempt expired, retry");
    assert_eq!(bad_request(check_pending_login(0, 10, "a", "b")), "state mismatch");
    assert!(check_pending_login(0, 10, "a", "a").is_ok());
    assert!(needs_refresh(Some(1059), 1000, true));
    assert!(!needs_refresh(Some(1060), 1000, true));
    assert!(!needs_refresh(Some(0), 1000, false));
    assert!(!needs_refresh(None, 1000, true));
    assert_eq!(
        registry_token_url("https://gitlab.example", "grp/app"),
        "https://gitlab.example/jwt/auth?service=container_registry&scope=repository:grp/app:pull"
    );
    assert_eq!(session_user_agent(Some(&"a".repeat(300))).map(|s| s.len()), Some(255));
    assert_eq!(session_user_agent(None), None);
    assert!(matches!(require_admin(false), Err(AppError::Forbidden)));
    assert!(require_admin(true).is_ok());
}

#[test]
fn sealed_login_state_opens_only_with_its_key() {
    let sb = secret_box();
    let sealed = seal_login_state(&sb, b"csrf|verifier|1700000000");
    assert_ne!(sealed.as_bytes(), b"csrf|verifier|1700000000");
    assert_eq!(read_oauth_cookie(&sb, &sealed).ok(), Some(b"csrf|verifier|1700000000".to_vec()));
    assert!(matches!(read_oauth_cookie(&sb, "garbage"), Err(AppError::BadRequest(m)) if m == "malformed login state"));
}

#[test]
fn agents_authenticate_with_their_issued_secret() {
    assert_eq!(bearer_secret(Some("Bearer abc")).ok().as_deref(), Some("abc"));
    assert!(matches!(bearer_secret(Some("Basic abc")), Err(AppError::Unauthorized)));
    assert!(matches!(bearer_secret(None), Err(AppError::Unauthorized)));
    let (secret, hash) = issue_agent_credential();
    assert_eq!(hash.len(), 32);
    assert!(authenticate_agent(Some(&hash), &secret).is_ok());
    assert!(matches!(authenticate_agent(Some(&hash), "wrong"), Err(AppError::Unauthorized)));
    assert!(matches!(authenticate_agent(None, &secret), Err(AppError::Unauthorized)));
    assert!(check_fleet_budget(Some(3), 2).is_ok());
    assert!(matches!(check_fleet_budget(Some(3), 3), Err(AppError::Unauthorized)));
    assert!(check_fleet_budget(None, 1000).is_ok());
    assert!(matches!(swept_status(ServerStatus::Online, Some(0), 91), ServerStatus::Offline));
    assert!(matches!(swept_status(ServerStatus::Online, Some(1), 91), ServerStatus::Online));
    assert!(matches!(swept_status(ServerStatus::Online, None, 5), ServerStatus::Offline));
    assert_eq!(shown_hostname(Some(String::new())), None);
    assert_eq!(shown_hostname(Some("gpu1".into())).as_deref(), Some("gpu1"));
}

#[test]
fn gitlab_paging_and_tags() {
    assert_eq!(page_url("https://g", "/api/v4/projects", 2), "https://g/api/v4/projects?per_page=100&page=2");
    assert_eq!(page_url("https://g", "/api/v4/x?simple=true", 1), "https://g/api/v4/x?simple=true&per_page=100&page=1");
    assert_eq!(next_page(1, Some("2")), Some(2));
    assert_eq!(next_page(2, Some("2")), None);
    assert_eq!(next_page(50, Some("51")), None);
    assert_eq!(next_page(1, Some("")), None);
    assert_eq!(next_page(1, None), None);
    assert!(matches!(upstream_error(401, "401 Unauthorized"), AppError::Unauthorized));
    assert!(matches!(upstream_error(404, "404 Not Found"), AppError::BadRequest(m) if m == "GitLab returned 404 Not Found for this request"));
    assert!(wants_detail(49) && !wants_detail(50));
    assert!(detail_failure_is_fatal(&AppError::Unauthorized));
    assert!(!detail_failure_is_fatal(&AppError::Internal("x".into())));
    assert_eq!(reported_tag_size(Some(10)), Some(10));
    assert_eq!(reported_tag_size(Some(0)), None);
    let names = vec!["v1".to_string(), "v2".to_string(), "v3".to_string()];
    assert_eq!(new_tag_names(&names, &vec!["v2".to_string()]), vec!["v1".to_string(), "v3".to_string()]);
}

#[test]
fn deployment_names_and_limits() {
    assert_eq!(clamp_mem_limit(Some(1)), Some(MEM_LIMIT_MIN_MB));
    assert_eq!(clamp_mem_limit(Some(u32::MAX)), Some(MEM_LIMIT_MAX_MB));
    assert_eq!(clamp_mem_limit(Some(65536)), Some(65536));
    assert_eq!(clamp_mem_limit(None), None);
    assert_eq!(image_digest("r/app@sha256:abc").as_deref(), Some("sha256:abc"));
    assert_eq!(image_digest("r/app:latest"), None);
    assert_eq!(
        deployment_container_name(Some("kept".into()), Some("other"), "r/app", "0").ok().as_deref(),
        Some("kept")
    );
    assert_eq!(deployment_container_name(None, Some("  web-1 "), "r/app", "0").ok().as_deref(), Some("web-1"));
    assert!(matches!(
        deployment_container_name(None, Some("bad name"), "r/app", "0"),
        Err(AppError::BadRequest(m)) if m == "name must be alphanumeric/dash/underscore, ≤63 chars"
    ));
    let generated = deployment_container_name(None, Some("   "), "registry.example/procms:1.0", "0:3").expect("generated");
    assert!(generated.starts_with("procms-g0-3-"));
    assert_eq!(generated.len(), "procms-g0-3-".len() + 5);
    assert_eq!(generate_name_with_suffix("registry.example/procms:1.0", "0:3", "x7f2a"), "procms-g0-3-x7f2a");
    assert!(generate_name("app", "1").starts_with("app-g1-"));
    assert!(sanitize_name("-lead").is_err());
    assert!(check_replacement_agent("gpu1", Some("0.64.0")).is_ok());
    assert_eq!(
        bad_request(check_replacement_agent("gpu1", Some("0.63.9"))),
        "gpu1 reports foundry-agent 0.63.9; install 0.64.0 or newer before replacing so the retained container can release and restore its stable name"
    );
    assert!(bad_request(check_replacement_agent("gpu1", None)).contains("foundry-agent unknown;"));
    assert!(check_replaceable(D::Stopped).is_ok());
    assert_eq!(bad_request(check_replaceable(D::PullingImage)), "deployment is PULLING_IMAGE, not replaceable");
}

#[test]
fn env_keys_and_app_hostnames() {
    assert!(validate_env("KEY_1", "v").is_ok());
    assert_eq!(bad_request(validate_env("1KEY", "v")), "invalid env key \"1KEY\"");
    assert_eq!(bad_request(validate_env("K", &"v".repeat(4097))), "env value too long");
    assert_eq!(dns_label("My_App!").as_deref(), Some("my-app"));
    assert_eq!(dns_label("__"), None);
    assert_eq!(dns_label("-x-").as_deref(), Some("x"));
    assert_eq!(dns_label("\u{c9}COLE_1").as_deref(), Some("cole-1"));
    assert_eq!(dns_label("\u{212a}").as_deref(), Some("k"));
    for raw in ["Mixed Case--Name_", "--A--", "Ünïcödé_Tëxt", "x"] {
        if let Some(l) = dns_label(raw) {
            assert!(!l.is_empty() && !l.starts_with('-') && !l.ends_with('-'));
            assert!(l.chars().all(|c| c.is_ascii_lowercase() || c.is_ascii_digit() || c == '-'));
        }
    }
    assert_eq!(
        hostname_parts("Web_1", "GPU-1", Some("apps.example")).ok(),
        Some(("web-1".to_string(), "gpu-1".to_string(), "apps.example".to_string()))
    );
    assert!(matches!(hostname_parts("web", "gpu", None), Err(AppError::BadRequest(m)) if m == "FOUNDRY_APPS_DOMAIN is not configured"));
    assert_eq!(app_hostname("web", "gpu1", "apps.example", 1, 8080).ok().as_deref(), Some("web.gpu1.apps.example"));
    assert_eq!(app_hostname("web", "gpu1", "apps.example", 2, 8080).ok().as_deref(), Some("web-8080.gpu1.apps.example"));
    assert!(app_hostname(&"a".repeat(60), "g", "d", 2, 8080).is_err());
}

#[test]
fn deployment_moves_follow_the_table() {
    assert!(check_transition(D::Pending, D::Validating).is_ok());
    assert!(matches!(check_transition(D::Removed, D::Running), Err(AppError::BadRequest(_))));
}

#[test]
fn admins_and_account_tokens() {
    let admins = vec!["ops@example.com".to_string()];
    assert!(email_is_admin(Some("Ops@Example.com"), &admins));
    assert!(!email_is_admin(Some("dev@example.com"), &admins));
    assert!(!email_is_admin(None, &admins));
    let sb = secret_box();
    let (access, refresh) = seal_tokens(&sb, "glpat-1", Some("refresh-1"));
    assert_ne!(access, b"glpat-1".to_vec());
    let rows = vec![
        AccountRow { account_id: 1, instance_id: 10, access_token: Some(access), refresh_token: refresh, expires_at: Some(5) },
        AccountRow { account_id: 2, instance_id: 20, access_token: None, refresh_token: None, expires_at: None },
    ];
    let opened = match open_account_tokens(&sb, &rows) {
        Ok(v) => v,
        Err(e) => panic!("tokens open: {}", e.message()),
    };
    assert_eq!(opened.len(), 1);
    assert_eq!(opened[0].access_token, "glpat-1");
    assert_eq!(opened[0].refresh_token.as_deref(), Some("refresh-1"));
    assert_eq!(account_for_instance(&opened, 10).ok(), Some(0));
    assert!(account_for_instance(&opened, 20).is_err());
    let broken = vec![AccountRow { account_id: 3, instance_id: 30, access_token: Some(vec![1, 2, 3]), refresh_token: None, expires_at: None }];
    assert!(matches!(open_account_tokens(&sb, &broken), Err(AppError::Internal(_))));
}

#[test]
fn local_admin_sign_in() {
    assert!(matches!(credential_for("short"), Err(AppError::BadRequest(m)) if m == "password must be at least 12 characters"));
    let hash = credential_for("correct horse battery").expect("hashed");
    assert!(local_login(Some(&hash), "correct horse battery").is_ok());
    assert!(matches!(local_login(Some(&hash), "wrong password!!"), Err(AppError::Unauthorized)));
    assert!(matches!(local_login(None, "correct horse battery"), Err(AppError::Unauthorized)));
}

#[test]
fn error_envelopes_hide_server_faults() {
    assert_eq!(AppError::Db("deadlock".into()).envelope(), (500, "internal", "internal error".to_string()));
    assert_eq!(AppError::BadRequest("bad".into()).envelope(), (400, "validation", "bad".to_string()));
    assert_eq!(AppError::GitlabUpstream("x".into()).status_and_code(), (502, "gitlab_upstream"));
    assert_eq!(AppError::Unauthorized.envelope().2, "authentication required");
}

#[test]
fn cookies_carry_their_attributes() {
    let c = session_cookie("tok".to_string());
    assert_eq!((c.name.as_str(), c.value.as_str(), c.path.as_str()), ("foundry_session", "tok", "/"));
    assert!(c.http_only && c.secure && c.same_site == SameSite::Lax);
    assert_eq!(c.max_age_secs, 7 * 24 * 3600);
    let c = clear_session_cookie();
    assert_eq!((c.name.as_str(), c.value.as_str(), c.max_age_secs), ("foundry_session", "", 0));
    let c = clear_oauth_cookie();
    assert_eq!((c.name.as_str(), c.value.as_str(), c.path.as_str(), c.max_age_secs), ("foundry_oauth", "", "/auth", 0));
    let sb = secret_box();
    let c = oauth_cookie(&sb, b"{\"csrf\":\"x\"}");
    assert_eq!((c.name.as_str(), c.path.as_str(), c.max_age_secs), ("foundry_oauth", "/auth", 600));
    assert_ne!(c.value, "{\"csrf\":\"x\"}");
    assert_eq!(read_oauth_cookie(&sb, &c.value).ok(), Some(b"{\"csrf\":\"x\"}".to_vec()));
}
