//! The stage-one deployment gate on the latest host evidence, and the
//! capacity and occupancy rules for deployment targets.

use crate::controller::agent_version::{supports, supports_spec, DEPLOYMENT_MIN_AGENT_VERSION};
use crate::controller::error::AppError;
use crate::shared::{code_views, checks_ready_spec, HostReadiness, ReadinessCheck};
use crate::text::{
    chars_of, debug_quoted, debug_str, decimal_string, decimal_text, equals_str, join, join_chars,
    push_str, signed_decimal_string, signed_decimal_text, string_from, string_of, views,
};
use vstd::prelude::*;

verus! {

pub open spec fn nginx_status_hint_spec(status: Option<Seq<char>>) -> Seq<char> {
    if status == Some("NGINX_MISSING"@) {
        "nginx is not installed — install it and run `sudo foundry-agent --setup-apps`"@
    } else if status == Some("NGINX_OUTDATED"@) {
        "nginx on the server is too old — Foundry needs ≥ 1.25.1 (the `http2` directive); upgrade nginx"@
    } else if status == Some("NGINX_INACTIVE"@) {
        "nginx is installed but not running — start it (`sudo systemctl enable --now nginx`)"@
    } else if status == Some("NOT_CONFIGURED"@) {
        "nginx is running but not set up for Foundry — run `sudo foundry-agent --setup-apps`"@
    } else if status == Some("TLS_MISSING"@) {
        "the server's wildcard TLS certificate is missing — install fullchain.pem + privkey.pem under /etc/foundry-agent/tls/"@
    } else {
        "the agent reports app publishing is unavailable"@
    }
}

pub open spec fn opt_view(s: Option<&str>) -> Option<Seq<char>> {
    match s {
        Some(v) => Some(v@),
        None => None,
    }
}

/// What an operator should do about a server's reported nginx status.
pub fn nginx_status_hint(status: Option<&str>) -> (r: &'static str)
    ensures
        r@ == nginx_status_hint_spec(opt_view(status)),
{
    let s = match status {
        Some(s) => s,
        None => {
            return "the agent reports app publishing is unavailable";
        },
    };
    let v = chars_of(s);
    if equals_str(v.as_slice(), "NGINX_MISSING") {
        "nginx is not installed — install it and run `sudo foundry-agent --setup-apps`"
    } else if equals_str(v.as_slice(), "NGINX_OUTDATED") {
        "nginx on the server is too old — Foundry needs ≥ 1.25.1 (the `http2` directive); upgrade nginx"
    } else if equals_str(v.as_slice(), "NGINX_INACTIVE") {
        "nginx is installed but not running — start it (`sudo systemctl enable --now nginx`)"
    } else if equals_str(v.as_slice(), "NOT_CONFIGURED") {
        "nginx is running but not set up for Foundry — run `sudo foundry-agent --setup-apps`"
    } else if equals_str(v.as_slice(), "TLS_MISSING") {
        "the server's wildcard TLS certificate is missing — install fullchain.pem + privkey.pem under /etc/foundry-agent/tls/"
    } else {
        "the agent reports app publishing is unavailable"
    }
}

/// What the controller last heard about a server.
pub struct ServerPrecheck {
    pub name: String,
    pub status: String,
    pub agent_version: Option<String>,
    pub setup_revision: Option<u32>,
    pub readiness: Option<HostReadiness>,
    pub docker_ok: Option<bool>,
    pub app_publishing_ready: Option<bool>,
    pub nginx_status: Option<String>,
}

pub open spec fn opt_string_view(s: Option<String>) -> Option<Seq<char>> {
    match s {
        Some(v) => Some(v@),
        None => None,
    }
}

/// The readiness codes a deployment needs; web deployments also need the
/// proxy and its certificate.
pub open spec fn required_checks_spec(wants_web: bool) -> Seq<Seq<char>> {
    if wants_web {
        seq![
            "docker"@,
            "docker_gpu"@,
            "storage_write"@,
            "capabilities"@,
            "nginx_config"@,
            "tls_certificate"@,
        ]
    } else {
        seq!["docker"@, "docker_gpu"@, "storage_write"@, "capabilities"@]
    }
}

/// The first check, in report order, that is required and does not pass.
pub open spec fn first_failing_from(checks: Seq<ReadinessCheck>, required: Seq<Seq<char>>, k: int) -> Option<
    int,
>
    decreases checks.len() - k,
{
    if k < 0 || k >= checks.len() {
        None
    } else if required.contains(checks[k].code@) && !checks[k].status.passes() {
        Some(k)
    } else {
        first_failing_from(checks, required, k + 1)
    }
}

pub open spec fn readiness_detail(checks: Seq<ReadinessCheck>, required: Seq<Seq<char>>) -> Seq<char> {
    match first_failing_from(checks, required, 0) {
        Some(k) => checks[k].code@ + ": "@ + checks[k].detail@,
        None => "host readiness is incomplete"@,
    }
}

pub open spec fn revision_text(r: Option<u32>) -> Seq<char> {
    match r {
        Some(v) => decimal_text(v as nat),
        None => "missing"@,
    }
}

pub open spec fn version_text(v: Option<Seq<char>>) -> Seq<char> {
    match v {
        Some(s) => s,
        None => "unknown"@,
    }
}

/// Why a server may not take a deployment, in the order of the checks.
pub open spec fn server_ready_error(s: ServerPrecheck, wants_web: bool, required_revision: u32) -> Option<
    Seq<char>,
> {
    let name = s.name@;
    if s.status@ != "ONLINE"@ {
        Some("server is not online"@)
    } else if !supports_spec(opt_string_view(s.agent_version), DEPLOYMENT_MIN_AGENT_VERSION) {
        Some(name + " reports foundry-agent "@ + version_text(opt_string_view(s.agent_version))
            + "; install 0.63.0 or newer with `sudo foundry-agent --setup-apps` before deploying"@)
    } else if s.setup_revision != Some(required_revision) {
        Some(name + " has host setup revision "@ + revision_text(s.setup_revision)
            + " (required "@ + decimal_text(required_revision as nat)
            + "); run `sudo foundry-agent --setup-apps`, then refresh diagnostics"@)
    } else if s.readiness is None {
        Some(name + " has not reported live readiness yet; run diagnostics and try again"@)
    } else if !checks_ready_spec(s.readiness->0.checks@, required_checks_spec(wants_web)) {
        Some(name + " is not deployment-ready: "@ + readiness_detail(
            s.readiness->0.checks@,
            required_checks_spec(wants_web),
        ))
    } else if s.docker_ok == Some(false) {
        Some("Docker isn't running on "@ + name
            + " — start the Docker daemon on the server, then redeploy."@)
    } else if wants_web && s.app_publishing_ready == Some(false) {
        Some("HTTP/S publishing isn't ready on "@ + name + ": "@ + nginx_status_hint_spec(
            opt_string_view(s.nginx_status),
        ) + ". Fix it on the server, then redeploy."@)
    } else {
        None
    }
}

fn required_checks(wants_web: bool) -> (r: Vec<&'static str>)
    ensures
        code_views(r@) == required_checks_spec(wants_web),
{
    let mut r: Vec<&'static str> = Vec::new();
    r.push("docker");
    r.push("docker_gpu");
    r.push("storage_write");
    r.push("capabilities");
    if wants_web {
        r.push("nginx_config");
        r.push("tls_certificate");
    }
    assert(code_views(r@) =~= required_checks_spec(wants_web));
    r
}

fn code_listed(required: &Vec<&'static str>, code: &str) -> (b: bool)
    ensures
        b == code_views(required@).contains(code@),
{
    let n = required.len();
    let cv = chars_of(code);
    for i in 0..n
        invariant
            n == required@.len(),
            cv@ == code@,
            forall|j: int| 0 <= j < i ==> code_views(required@)[j] != code@,
    {
        if equals_str(cv.as_slice(), required[i]) {
            assert(code_views(required@)[i as int] == code@);
            return true;
        }
    }
    false
}

fn readiness_detail_text(checks: &Vec<ReadinessCheck>, required: &Vec<&'static str>) -> (r: String)
    ensures
        r@ == readiness_detail(checks@, code_views(required@)),
{
    let n = checks.len();
    let ghost req = code_views(required@);
    let mut k: usize = 0;
    while k < n
        invariant
            n == checks@.len(),
            req == code_views(required@),
            k <= n,
            first_failing_from(checks@, req, 0) == first_failing_from(checks@, req, k as int),
        decreases n - k,
    {
        let c = &checks[k];
        let passes = match c.status {
            crate::shared::CheckStatus::Ready | crate::shared::CheckStatus::Warning => true,
            _ => false,
        };
        if !passes && code_listed(required, c.code.as_str()) {
            let mut m = c.code.clone();
            push_str(&mut m, ": ");
            push_str(&mut m, c.detail.as_str());
            return m;
        }
        k = k + 1;
    }
    string_from("host readiness is incomplete")
}

/// Decides, from the latest host evidence, whether the server may take a
/// deployment; the agent repeats live checks before touching Docker.
pub fn require_server_ready(server: &ServerPrecheck, wants_web: bool, required_revision: u32) -> (r:
    Result<(), AppError>)
    ensures
        r is Ok <==> server_ready_error(*server, wants_web, required_revision) is None,
        r matches Err(e) ==> e matches AppError::BadRequest(m) && server_ready_error(
            *server,
            wants_web,
            required_revision,
        ) == Some(m@),
{
    let name = server.name.as_str();
    let sv = chars_of(server.status.as_str());
    if !equals_str(sv.as_slice(), "ONLINE") {
        return Err(AppError::BadRequest(string_from("server is not online")));
    }
    let version = match &server.agent_version {
        Some(v) => Some(v.as_str()),
        None => None,
    };
    if !supports(version, DEPLOYMENT_MIN_AGENT_VERSION) {
        let mut m = string_from(name);
        push_str(&mut m, " reports foundry-agent ");
        match version {
            Some(v) => push_str(&mut m, v),
            None => push_str(&mut m, "unknown"),
        }
        push_str(
            &mut m,
            "; install 0.63.0 or newer with `sudo foundry-agent --setup-apps` before deploying",
        );
        return Err(AppError::BadRequest(m));
    }
    if server.setup_revision != Some(required_revision) {
        let mut m = string_from(name);
        push_str(&mut m, " has host setup revision ");
        match server.setup_revision {
            Some(v) => {
                let d = decimal_string(v as u64);
                push_str(&mut m, d.as_str());
            },
            None => push_str(&mut m, "missing"),
        }
        push_str(&mut m, " (required ");
        let d = decimal_string(required_revision as u64);
        push_str(&mut m, d.as_str());
        push_str(&mut m, "); run `sudo foundry-agent --setup-apps`, then refresh diagnostics");
        return Err(AppError::BadRequest(m));
    }
    let readiness = match &server.readiness {
        Some(r) => r,
        None => {
            let mut m = string_from(name);
            push_str(&mut m, " has not reported live readiness yet; run diagnostics and try again");
            return Err(AppError::BadRequest(m));
        },
    };
    let required = required_checks(wants_web);
    if !readiness.checks_ready(required.as_slice()) {
        let detail = readiness_detail_text(&readiness.checks, &required);
        let mut m = string_from(name);
        push_str(&mut m, " is not deployment-ready: ");
        push_str(&mut m, detail.as_str());
        return Err(AppError::BadRequest(m));
    }
    if server.docker_ok == Some(false) {
        let mut m = string_from("Docker isn't running on ");
        push_str(&mut m, name);
        push_str(&mut m, " — start the Docker daemon on the server, then redeploy.");
        return Err(AppError::BadRequest(m));
    }
    if wants_web && server.app_publishing_ready == Some(false) {
        let status = match &server.nginx_status {
            Some(s) => Some(s.as_str()),
            None => None,
        };
        let mut m = string_from("HTTP/S publishing isn't ready on ");
        push_str(&mut m, name);
        push_str(&mut m, ": ");
        push_str(&mut m, nginx_status_hint(status));
        push_str(&mut m, ". Fix it on the server, then redeploy.");
        return Err(AppError::BadRequest(m));
    }
    Ok(())
}

// ------------------------------------------------------------ target resolution

/// A resolved deployment target: the server, the slot that names it, every
/// slot it occupies and its group, if it is one.
pub struct ResolvedTarget {
    pub server_id: u128,
    pub primary_slot_id: u128,
    pub primary_slot_name: String,
    pub member_slot_ids: Vec<u128>,
    pub group_id: Option<u128>,
}

/// The refusal when an unmanaged running container holds the GPU.
pub open spec fn external_container_text(name: Seq<char>) -> Seq<char> {
    "GPU is occupied by external container "@ + debug_quoted(name)
        + "; stop or adopt it before deploying"@
}

/// The refusal, if any, of a single-slot target: an offline slot, then an
/// unmanaged running container on its device, then its occupant cap
/// (the count read as a `u32`, as stored).
pub open spec fn slot_target_refusal(offline: bool, external: Option<Seq<char>>, occupants: i64, max_occupants: u32) -> Option<
    Seq<char>,
> {
    if offline {
        Some("slot is offline"@)
    } else if external is Some {
        Some(external_container_text(external->0))
    } else if occupants as u32 >= max_occupants {
        Some("slot is at capacity ("@ + signed_decimal_text(occupants as int) + "/"@ + decimal_text(
            max_occupants as nat,
        ) + ")"@)
    } else {
        None
    }
}

pub open spec fn opt_str_view(s: Option<&str>) -> Option<Seq<char>> {
    match s {
        Some(v) => Some(v@),
        None => None,
    }
}

fn capacity_text(prefix: &str, occupants: i64, max_occupants: u32) -> (r: String)
    ensures
        r@ == prefix@ + signed_decimal_text(occupants as int) + "/"@ + decimal_text(max_occupants as nat)
            + ")"@,
{
    let mut m = string_from(prefix);
    push_str(&mut m, signed_decimal_string(occupants).as_str());
    push_str(&mut m, "/");
    push_str(&mut m, decimal_string(max_occupants as u64).as_str());
    push_str(&mut m, ")");
    m
}

/// Resolves a single-slot target from what the locked reads found: whether
/// the slot is offline, the first unmanaged running container on its
/// device, and how many live deployments (other than the one being
/// replaced) hold it.
pub fn resolve_slot_target(
    server_id: u128,
    slot_id: u128,
    slot_name: String,
    offline: bool,
    external: Option<&str>,
    occupants: i64,
    max_occupants: u32,
) -> (r: Result<ResolvedTarget, AppError>)
    ensures
        match slot_target_refusal(offline, opt_str_view(external), occupants, max_occupants) {
            Some(m) => r matches Err(e) && e matches AppError::BadRequest(t) && t@ == m,
            None => r matches Ok(t) && t.server_id == server_id && t.primary_slot_id == slot_id
                && t.primary_slot_name@ == slot_name@ && t.member_slot_ids@ == seq![slot_id]
                && t.group_id is None,
        },
{
    if offline {
        return Err(AppError::BadRequest(string_from("slot is offline")));
    }
    if let Some(name) = external {
        let mut m = string_from("GPU is occupied by external container ");
        push_str(&mut m, debug_str(name).as_str());
        push_str(&mut m, "; stop or adopt it before deploying");
        return Err(AppError::BadRequest(m));
    }
    if occupants as u32 >= max_occupants {
        return Err(AppError::BadRequest(capacity_text("slot is at capacity (", occupants, max_occupants)));
    }
    let mut ids: Vec<u128> = Vec::new();
    ids.push(slot_id);
    assert(ids@ =~= seq![slot_id]);
    Ok(ResolvedTarget {
        server_id,
        primary_slot_id: slot_id,
        primary_slot_name: slot_name,
        member_slot_ids: ids,
        group_id: None,
    })
}

/// One member GPU of a group being deployed, with what the locked reads
/// found about it.
pub struct DeployMember {
    pub slot_id: u128,
    pub gpu_index: u32,
    pub slot_state: String,
    pub mig_enabled: bool,
    /// Live deployments on the slot that are not the group's own.
    pub foreign_occupants: i64,
    /// Whether an unmanaged container is running on the member's device.
    pub external_running: bool,
}

/// Why a member keeps the group from deploying, if it does.
pub open spec fn member_busy_text(m: DeployMember) -> Option<Seq<char>> {
    let label = "GPU "@ + decimal_text(m.gpu_index as nat);
    if m.slot_state@ == "OFFLINE"@ {
        Some(label + " (offline)"@)
    } else if m.mig_enabled {
        Some(label + " (MIG enabled)"@)
    } else if m.foreign_occupants > 0 {
        Some(label + " (in individual use)"@)
    } else if m.external_running {
        Some(label + " (external container running)"@)
    } else {
        None
    }
}

/// The busy members' reasons, in member order.
pub open spec fn busy_members(ms: Seq<DeployMember>) -> Seq<Seq<char>>
    decreases ms.len(),
{
    if ms.len() == 0 {
        Seq::empty()
    } else {
        match member_busy_text(ms.last()) {
            Some(t) => busy_members(ms.drop_last()).push(t),
            None => busy_members(ms.drop_last()),
        }
    }
}

/// The refusal, if any, of a group target: a group without members is not
/// found; then its occupant cap; then every busy member, listed.
pub open spec fn group_target_refusal(ms: Seq<DeployMember>, occupants: i64, max_occupants: u32) -> Option<
    Seq<char>,
> {
    if ms.len() == 0 {
        Some("group has no members"@)
    } else if occupants as u32 >= max_occupants {
        Some("group is at capacity ("@ + signed_decimal_text(occupants as int) + "/"@ + decimal_text(
            max_occupants as nat,
        ) + ")"@)
    } else if busy_members(ms).len() > 0 {
        Some("group not deployable — "@ + join(busy_members(ms), ", "@))
    } else {
        None
    }
}

pub open spec fn member_slot_ids(ms: Seq<DeployMember>) -> Seq<u128> {
    ms.map_values(|m: DeployMember| m.slot_id)
}

fn member_busy_string(m: &DeployMember) -> (r: Option<String>)
    ensures
        match member_busy_text(*m) {
            Some(t) => r matches Some(s) && s@ == t,
            None => r is None,
        },
{
    let mut label = string_from("GPU ");
    push_str(&mut label, decimal_string(m.gpu_index as u64).as_str());
    if equals_str(chars_of(m.slot_state.as_str()).as_slice(), "OFFLINE") {
        push_str(&mut label, " (offline)");
        Some(label)
    } else if m.mig_enabled {
        push_str(&mut label, " (MIG enabled)");
        Some(label)
    } else if m.foreign_occupants > 0 {
        push_str(&mut label, " (in individual use)");
        Some(label)
    } else if m.external_running {
        push_str(&mut label, " (external container running)");
        Some(label)
    } else {
        None
    }
}

/// Resolves a group target from its locked members (in GPU order) and
/// its live occupant count: the first member names the target and every
/// member's slot is occupied.
pub fn resolve_group_target(
    server_id: u128,
    group_id: u128,
    members: &Vec<DeployMember>,
    occupants: i64,
    max_occupants: u32,
) -> (r: Result<ResolvedTarget, AppError>)
    ensures
        members@.len() == 0 ==> (r matches Err(e) && e matches AppError::NotFound(t) && t@
            == "group has no members"@),
        members@.len() > 0 ==> match group_target_refusal(members@, occupants, max_occupants) {
            Some(m) => r matches Err(e) && e matches AppError::BadRequest(t) && t@ == m,
            None => r matches Ok(t) && t.server_id == server_id && t.primary_slot_id == members@[0].slot_id
                && t.primary_slot_name@ == decimal_text(members@[0].gpu_index as nat)
                && t.member_slot_ids@ == member_slot_ids(members@) && t.group_id == Some(group_id),
        },
{
    let n = members.len();
    if n == 0 {
        return Err(AppError::NotFound(string_from("group has no members")));
    }
    if occupants as u32 >= max_occupants {
        return Err(AppError::BadRequest(capacity_text("group is at capacity (", occupants, max_occupants)));
    }
    let mut busy: Vec<Vec<char>> = Vec::new();
    let mut ids: Vec<u128> = Vec::new();
    let mut i: usize = 0;
    assert(members@.take(0) =~= Seq::<DeployMember>::empty());
    while i < n
        invariant
            i <= n == members@.len(),
            views(busy@) == busy_members(members@.take(i as int)),
            ids@ == member_slot_ids(members@.take(i as int)),
        decreases n - i,
    {
        assert(members@.take(i + 1).drop_last() =~= members@.take(i as int));
        assert(members@.take(i + 1).last() == members@[i as int]);
        let m = &members[i];
        match member_busy_string(m) {
            Some(t) => {
                let tv = chars_of(t.as_str());
                let ghost prev = views(busy@);
                busy.push(tv);
                assert(views(busy@) =~= prev.push(t@));
            },
            None => {},
        }
        ids.push(m.slot_id);
        assert(member_slot_ids(members@.take(i + 1)) =~= member_slot_ids(members@.take(i as int)).push(
            m.slot_id,
        ));
        i = i + 1;
    }
    assert(members@.take(n as int) =~= members@);
    if busy.len() > 0 {
        let sep = chars_of(", ");
        let joined = join_chars(&busy, sep.as_slice());
        let mut m = string_from("group not deployable — ");
        push_str(&mut m, string_of(joined.as_slice()).as_str());
        return Err(AppError::BadRequest(m));
    }
    let name = decimal_string(members[0].gpu_index as u64);
    Ok(ResolvedTarget {
        server_id,
        primary_slot_id: members[0].slot_id,
        primary_slot_name: name,
        member_slot_ids: ids,
        group_id: Some(group_id),
    })
}

} // verus!
