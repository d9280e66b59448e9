//! The executor's decisions between its Docker and filesystem steps: how a
//! deploy payload becomes a container spec, which container a task acts
//! on, the preflight rules, and how each failure is reported.

use crate::agent::docker::{
    BindSpec, ContainerSpec, ContainerSummary, DockerError, PortSpec,
};
use crate::agent::file_system::IoErrorKind;
use crate::text::{
    chars_of, contains, contains_seq, decimal_string, decimal_text, equals_str, join,
    join_chars, push_str, slice_chars, starts_with, starts_with_seq, string_from, string_of,
    debug_quoted, debug_str, views,
};
use vstd::prelude::*;

verus! {

pub const VOLUME_ROOT: &'static str = "/storage/containers/";

/// A failed task: the stage it failed in, its message, and what is known
/// of the container it leaves behind.
#[derive(Debug)]
pub struct ExecutionFailure {
    pub stage: String,
    pub message: String,
    pub container_id: Option<String>,
    pub health_status: Option<String>,
    pub health_detail: Option<String>,
}

impl ExecutionFailure {
    pub fn new(stage: &str, message: &str) -> (r: ExecutionFailure)
        ensures
            r.stage@ == stage@,
            r.message@ == message@,
            r.container_id is None,
            r.health_status is None,
            r.health_detail is None,
    {
        ExecutionFailure {
            stage: string_from(stage),
            message: string_from(message),
            container_id: None,
            health_status: None,
            health_detail: None,
        }
    }
}

/// The error text a failure reports: its first 1000 characters.
pub open spec fn reported_error(message: Seq<char>) -> Seq<char> {
    if message.len() <= 1000 {
        message
    } else {
        message.take(1000)
    }
}

pub fn report_error(message: &str) -> (r: String)
    ensures
        r@ == reported_error(message@),
{
    let v = chars_of(message);
    if v.len() <= 1000 {
        string_of(v.as_slice())
    } else {
        string_of(slice_chars(v.as_slice(), 0, 1000).as_slice())
    }
}

/// One port of a deploy payload, as the executor needs it.
pub struct PayloadPort {
    pub container_port: u16,
    pub host_port: u16,
    pub protocol: String,
}

/// One persistent mount of a deploy payload.
pub struct PayloadVolume {
    pub host_path: String,
    pub container_path: String,
    pub read_only: bool,
}

/// What a deploy task carries (ids as their text).
pub struct DeployPayload {
    pub deployment_id: String,
    pub image_ref: String,
    pub container_name: String,
    pub gpu_device_uuid: String,
    pub gpu_device_uuids: Vec<String>,
    pub slot_id: String,
    pub slot_ids: Vec<String>,
    pub gpu_group_id: Option<String>,
    pub slot_name: String,
    pub ports: Vec<PayloadPort>,
    pub env: Vec<(String, String)>,
    pub volumes: Vec<PayloadVolume>,
    pub mem_limit_mb: Option<u32>,
    pub image_size_bytes: Option<u64>,
}

pub open spec fn string_views(v: Seq<String>) -> Seq<Seq<char>> {
    v.map_values(|s: String| s@)
}

pub open spec fn pair_views(v: Seq<(String, String)>) -> Seq<(Seq<char>, Seq<char>)> {
    v.map_values(|p: (String, String)| (p.0@, p.1@))
}

/// The devices of a deployment: all listed ones, or the single device of a
/// payload from an older controller.
pub open spec fn device_ids(p: DeployPayload) -> Seq<Seq<char>> {
    if p.gpu_device_uuids@.len() == 0 {
        seq![p.gpu_device_uuid@]
    } else {
        string_views(p.gpu_device_uuids@)
    }
}

/// The member slots as one comma-joined label, or the primary slot for an
/// older controller's payload.
pub open spec fn slot_ids_label(p: DeployPayload) -> Seq<char> {
    if p.slot_ids@.len() == 0 {
        p.slot_id@
    } else {
        join(string_views(p.slot_ids@), ","@)
    }
}

/// The labels of a managed container, ordered by key.
pub open spec fn container_labels(p: DeployPayload) -> Seq<(Seq<char>, Seq<char>)> {
    let head = seq![
        ("foundry.deployment_id"@, p.deployment_id@),
        ("foundry.gpu_uuid"@, p.gpu_device_uuid@),
    ];
    let group = match p.gpu_group_id {
        Some(g) => seq![("foundry.group_id"@, g@)],
        None => Seq::empty(),
    };
    head + group + seq![
        ("foundry.managed"@, "true"@),
        ("foundry.slot"@, p.slot_name@),
        ("foundry.slot_id"@, p.slot_id@),
        ("foundry.slot_ids"@, slot_ids_label(p)),
    ]
}

fn copy_strings(v: &Vec<String>) -> (r: Vec<String>)
    ensures
        string_views(r@) == string_views(v@),
{
    let mut r: Vec<String> = Vec::new();
    let n = v.len();
    for i in 0..n
        invariant
            n == v@.len(),
            string_views(r@) == string_views(v@).take(i as int),
    {
        let ghost prev = string_views(r@);
        r.push(v[i].clone());
        assert(string_views(r@) =~= prev.push(v@[i as int]@));
        assert(string_views(v@).take(i + 1) =~= string_views(v@).take(i as int).push(v@[i as int]@));
    }
    assert(string_views(v@).take(n as int) =~= string_views(v@));
    r
}

fn pair(k: &str, v: &str) -> (r: (String, String))
    ensures
        r.0@ == k@,
        r.1@ == v@,
{
    (string_from(k), string_from(v))
}

/// The container spec a deploy payload describes.
pub fn container_spec(p: &DeployPayload) -> (s: ContainerSpec)
    ensures
        s.name@ == p.container_name@,
        s.image@ == p.image_ref@,
        pair_views(s.env@) == pair_views(p.env@),
        pair_views(s.labels@) == container_labels(*p),
        s.ports@.len() == p.ports@.len(),
        forall|i: int|
            0 <= i < s.ports@.len() ==> (#[trigger] s.ports@[i]).container_port
                == p.ports@[i].container_port && s.ports@[i].host_port == p.ports@[i].host_port
                && s.ports@[i].protocol@ == p.ports@[i].protocol@,
        s.binds@.len() == p.volumes@.len(),
        forall|i: int|
            0 <= i < s.binds@.len() ==> (#[trigger] s.binds@[i]).host_path@
                == p.volumes@[i].host_path@ && s.binds@[i].container_path@
                == p.volumes@[i].container_path@ && s.binds@[i].read_only
                == p.volumes@[i].read_only,
        s.memory_bytes == match p.mem_limit_mb {
            Some(mb) => Some((mb as int * 1048576) as i64),
            None => None,
        },
        string_views(s.device_uuids@) == device_ids(*p),
{
    let device_uuids = if p.gpu_device_uuids.len() == 0 {
        let mut d: Vec<String> = Vec::new();
        d.push(p.gpu_device_uuid.clone());
        assert(string_views(d@) =~= seq![p.gpu_device_uuid@]);
        d
    } else {
        copy_strings(&p.gpu_device_uuids)
    };
    let slot_ids = if p.slot_ids.len() == 0 {
        p.slot_id.clone()
    } else {
        let mut parts: Vec<Vec<char>> = Vec::new();
        let n = p.slot_ids.len();
        for i in 0..n
            invariant
                n == p.slot_ids@.len(),
                views(parts@) == string_views(p.slot_ids@).take(i as int),
        {
            let ghost prev = views(parts@);
            parts.push(chars_of(p.slot_ids[i].as_str()));
            assert(views(parts@) =~= prev.push(p.slot_ids@[i as int]@));
            assert(string_views(p.slot_ids@).take(i + 1) =~= string_views(p.slot_ids@).take(
                i as int,
            ).push(p.slot_ids@[i as int]@));
        }
        assert(string_views(p.slot_ids@).take(n as int) =~= string_views(p.slot_ids@));
        let comma = [','];
        let joined = join_chars(&parts, comma.as_slice());
        proof {
            reveal_strlit(",");
        }
        assert(comma@ =~= ","@);
        string_of(joined.as_slice())
    };
    let mut labels: Vec<(String, String)> = Vec::new();
    labels.push(pair("foundry.deployment_id", p.deployment_id.as_str()));
    labels.push(pair("foundry.gpu_uuid", p.gpu_device_uuid.as_str()));
    if let Some(g) = &p.gpu_group_id {
        labels.push(pair("foundry.group_id", g.as_str()));
    }
    labels.push(pair("foundry.managed", "true"));
    labels.push(pair("foundry.slot", p.slot_name.as_str()));
    labels.push(pair("foundry.slot_id", p.slot_id.as_str()));
    labels.push((string_from("foundry.slot_ids"), slot_ids));
    assert(pair_views(labels@) =~= container_labels(*p));
    let mut env: Vec<(String, String)> = Vec::new();
    let en = p.env.len();
    for i in 0..en
        invariant
            en == p.env@.len(),
            pair_views(env@) == pair_views(p.env@).take(i as int),
    {
        let ghost prev = pair_views(env@);
        env.push((p.env[i].0.clone(), p.env[i].1.clone()));
        assert(pair_views(env@) =~= prev.push((p.env@[i as int].0@, p.env@[i as int].1@)));
        assert(pair_views(p.env@).take(i + 1) =~= pair_views(p.env@).take(i as int).push(
            (p.env@[i as int].0@, p.env@[i as int].1@),
        ));
    }
    assert(pair_views(p.env@).take(en as int) =~= pair_views(p.env@));
    let mut ports: Vec<PortSpec> = Vec::new();
    let pn = p.ports.len();
    for i in 0..pn
        invariant
            pn == p.ports@.len(),
            ports@.len() == i,
            forall|k: int|
                0 <= k < i ==> (#[trigger] ports@[k]).container_port == p.ports@[k].container_port
                    && ports@[k].host_port == p.ports@[k].host_port && ports@[k].protocol@
                    == p.ports@[k].protocol@,
    {
        let q = &p.ports[i];
        ports.push(
            PortSpec {
                container_port: q.container_port,
                host_port: q.host_port,
                protocol: q.protocol.clone(),
            },
        );
    }
    let mut binds: Vec<BindSpec> = Vec::new();
    let vn = p.volumes.len();
    for i in 0..vn
        invariant
            vn == p.volumes@.len(),
            binds@.len() == i,
            forall|k: int|
                0 <= k < i ==> (#[trigger] binds@[k]).host_path@ == p.volumes@[k].host_path@
                    && binds@[k].container_path@ == p.volumes@[k].container_path@
                    && binds@[k].read_only == p.volumes@[k].read_only,
    {
        let v = &p.volumes[i];
        binds.push(
            BindSpec {
                host_path: v.host_path.clone(),
                container_path: v.container_path.clone(),
                read_only: v.read_only,
            },
        );
    }
    let memory_bytes = match p.mem_limit_mb {
        Some(mb) => Some((mb as i64) * 1048576),
        None => None,
    };
    ContainerSpec {
        name: p.container_name.clone(),
        image: p.image_ref.clone(),
        env,
        labels,
        ports,
        binds,
        memory_bytes,
        device_uuids,
    }
}

/// The value of a label, if the container has it (the last entry with the
/// key, as a map built from the list keeps it).
pub open spec fn label_value(labels: Seq<(String, String)>, key: Seq<char>) -> Option<Seq<char>>
    decreases labels.len(),
{
    if labels.len() == 0 {
        None
    } else if labels.last().0@ == key {
        Some(labels.last().1@)
    } else {
        label_value(labels.drop_last(), key)
    }
}

pub fn label_of(labels: &Vec<(String, String)>, key: &str) -> (r: Option<String>)
    ensures
        match r {
            Some(v) => label_value(labels@, key@) == Some(v@),
            None => label_value(labels@, key@) is None,
        },
{
    let mut i = labels.len();
    assert(labels@.take(i as int) =~= labels@);
    while i > 0
        invariant
            i <= labels@.len(),
            label_value(labels@, key@) == label_value(labels@.take(i as int), key@),
        decreases i,
    {
        let k = chars_of(labels[i - 1].0.as_str());
        assert(labels@.take(i as int).last() == labels@[i - 1]);
        assert(labels@.take(i as int).drop_last() =~= labels@.take(i - 1));
        if equals_str(k.as_slice(), key) {
            return Some(labels[i - 1].1.clone());
        }
        i = i - 1;
    }
    None
}

/// A container this agent manages for the deployment.
pub open spec fn managed_for(c: ContainerSummary, deployment_id: Seq<char>) -> bool {
    label_value(c.labels@, "foundry.managed"@) == Some("true"@) && label_value(
        c.labels@,
        "foundry.deployment_id"@,
    ) == Some(deployment_id)
}

/// The first container managed for the deployment (found by label, never
/// by name): its id and state.
pub fn find_managed(list: &Vec<ContainerSummary>, deployment_id: &str) -> (r: Option<(String, String)>)
    ensures
        match r {
            Some((id, state)) => exists|i: int|
                0 <= i < list@.len() && managed_for(#[trigger] list@[i], deployment_id@) && list@[i].id@
                    == id@ && list@[i].state@ == state@ && forall|k: int|
                    0 <= k < i ==> !managed_for(#[trigger] list@[k], deployment_id@),
            None => forall|i: int| 0 <= i < list@.len() ==> !managed_for(#[trigger] list@[i], deployment_id@),
        },
{
    let n = list.len();
    for i in 0..n
        invariant
            n == list@.len(),
            forall|k: int| 0 <= k < i ==> !managed_for(#[trigger] list@[k], deployment_id@),
    {
        let c = &list[i];
        let managed = match label_of(&c.labels, "foundry.managed") {
            Some(v) => equals_str(chars_of(v.as_str()).as_slice(), "true"),
            None => false,
        };
        let ours = match label_of(&c.labels, "foundry.deployment_id") {
            Some(v) => equals_str(chars_of(v.as_str()).as_slice(), deployment_id),
            None => false,
        };
        if managed && ours {
            assert(managed_for(list@[i as int], deployment_id@));
            return Some((c.id.clone(), c.state.clone()));
        }
    }
    None
}

/// The first container whose docker id starts with the (short) id of an
/// adopted container.
pub fn find_by_id(list: &Vec<ContainerSummary>, short_id: &str) -> (r: Option<(String, String)>)
    ensures
        match r {
            Some((id, state)) => exists|i: int|
                0 <= i < list@.len() && starts_with((#[trigger] list@[i]).id@, short_id@)
                    && list@[i].id@ == id@ && list@[i].state@ == state@ && forall|k: int|
                    0 <= k < i ==> !starts_with((#[trigger] list@[k]).id@, short_id@),
            None => forall|i: int| 0 <= i < list@.len() ==> !starts_with((#[trigger] list@[i]).id@, short_id@),
        },
{
    let n = list.len();
    let sv = chars_of(short_id);
    for i in 0..n
        invariant
            n == list@.len(),
            sv@ == short_id@,
            forall|k: int| 0 <= k < i ==> !starts_with((#[trigger] list@[k]).id@, short_id@),
    {
        let c = &list[i];
        let idv = chars_of(c.id.as_str());
        if starts_with_seq(idv.as_slice(), sv.as_slice()) {
            return Some((c.id.clone(), c.state.clone()));
        }
    }
    None
}

/// A deployment image must be pinned by digest.
pub fn check_pinned(image_ref: &str) -> (r: Result<(), ExecutionFailure>)
    ensures
        r is Ok <==> contains(image_ref@, "@sha256:"@),
        r matches Err(f) ==> f.stage@ == "PREFLIGHT"@ && f.message@
            == "deployment image is not pinned by digest"@ && f.container_id is None && f.health_status is None && f.health_detail is None,
{
    let v = chars_of(image_ref);
    let pin = chars_of("@sha256:");
    if !contains_seq(v.as_slice(), pin.as_slice()) {
        return Err(ExecutionFailure::new("PREFLIGHT", "deployment image is not pinned by digest"));
    }
    Ok(())
}

/// A mount must lie below the volume root and never climb.
pub open spec fn mount_allowed(host_path: Seq<char>) -> bool {
    starts_with(host_path, VOLUME_ROOT@) && !contains(host_path, ".."@)
}

pub fn check_mount(host_path: &str) -> (r: Result<(), ExecutionFailure>)
    ensures
        r is Ok <==> mount_allowed(host_path@),
        r matches Err(f) ==> f.stage@ == "PREFLIGHT"@ && f.message@ == "refusing mount outside "@
            + VOLUME_ROOT@ + ": "@ + host_path@ && f.container_id is None && f.health_status is None && f.health_detail is None,
{
    let v = chars_of(host_path);
    let root = chars_of(VOLUME_ROOT);
    let dots = chars_of("..");
    if !starts_with_seq(v.as_slice(), root.as_slice()) || contains_seq(v.as_slice(), dots.as_slice()) {
        let mut m = string_from("refusing mount outside ");
        push_str(&mut m, VOLUME_ROOT);
        push_str(&mut m, ": ");
        push_str(&mut m, host_path);
        return Err(ExecutionFailure { stage: string_from("PREFLIGHT"), message: m, container_id: None, health_status: None, health_detail: None });
    }
    Ok(())
}

/// Why creating a mount directory failed; a read-only or permission
/// failure points at the host setup.
pub open spec fn mount_failure_text(host_path: Seq<char>, sandboxed: bool, display: Seq<char>) -> Seq<char> {
    if sandboxed {
        "creating "@ + host_path + " failed: "@ + display + " — the volume root "@ + VOLUME_ROOT@
            + " is not writable by the agent; run `sudo foundry-agent --setup-apps` on this server"@
    } else {
        "creating "@ + host_path + " failed: "@ + display
    }
}

/// `sandboxed` says the error kind was read-only filesystem or permission
/// denied; `display` is the error's own text.
pub fn mount_failure(host_path: &str, sandboxed: bool, display: &str) -> (r: ExecutionFailure)
    ensures
        r.stage@ == "PREFLIGHT"@,
        r.message@ == mount_failure_text(host_path@, sandboxed, display@),
        r.container_id is None && r.health_status is None && r.health_detail is None,
{
    let mut m = string_from("creating ");
    push_str(&mut m, host_path);
    push_str(&mut m, " failed: ");
    push_str(&mut m, display);
    if sandboxed {
        push_str(&mut m, " — the volume root ");
        push_str(&mut m, VOLUME_ROOT);
        push_str(
            &mut m,
            " is not writable by the agent; run `sudo foundry-agent --setup-apps` on this server",
        );
    }
    ExecutionFailure { stage: string_from("PREFLIGHT"), message: m, container_id: None, health_status: None, health_detail: None }
}

/// The disk a pull may need: twice the compressed size plus 2 GiB of
/// working room (saturating).
pub open spec fn disk_required(size: u64) -> int {
    let doubled = if size as int * 2 > u64::MAX {
        u64::MAX as int
    } else {
        size as int * 2
    };
    if doubled + 2147483648 > u64::MAX {
        u64::MAX as int
    } else {
        doubled + 2147483648
    }
}

pub fn check_disk(image_size: Option<u64>, available: Option<u64>) -> (r: Result<(), ExecutionFailure>)
    ensures
        r is Ok <==> !(image_size is Some && available is Some && available->0 < disk_required(
            image_size->0,
        )),
        r matches Err(f) ==> f.stage@ == "PREFLIGHT"@ && f.message@ == "insufficient disk space: "@
            + decimal_text(available->0 as nat) + " bytes available, approximately "@
            + decimal_text(disk_required(image_size->0) as nat) + " required"@ && f.container_id is None && f.health_status is None && f.health_detail is None,
{
    if let (Some(size), Some(avail)) = (image_size, available) {
        let doubled: u64 = if size > u64::MAX / 2 {
            u64::MAX
        } else {
            size * 2
        };
        let required = doubled.saturating_add(2147483648);
        if avail < required {
            let mut m = string_from("insufficient disk space: ");
            push_str(&mut m, decimal_string(avail).as_str());
            push_str(&mut m, " bytes available, approximately ");
            push_str(&mut m, decimal_string(required).as_str());
            push_str(&mut m, " required");
            return Err(ExecutionFailure { stage: string_from("PREFLIGHT"), message: m, container_id: None, health_status: None, health_detail: None });
        }
    }
    Ok(())
}

/// A host port the preflight found taken.
pub fn port_bound(host_port: u16) -> (r: ExecutionFailure)
    ensures
        r.stage@ == "PREFLIGHT"@,
        r.message@ == "host port "@ + decimal_text(host_port as nat) + " is already bound"@,
        r.container_id is None && r.health_status is None && r.health_detail is None,
{
    let mut m = string_from("host port ");
    push_str(&mut m, decimal_string(host_port as u64).as_str());
    push_str(&mut m, " is already bound");
    ExecutionFailure { stage: string_from("PREFLIGHT"), message: m, container_id: None, health_status: None, health_detail: None }
}

/// A failed create: a name conflict names the container the operator must
/// deal with; anything else reports the engine's text.
pub fn create_failure(error: &DockerError, container_name: &str) -> (r: ExecutionFailure)
    ensures
        r.stage@ == "CREATE"@,
        r.container_id is None && r.health_status is None && r.health_detail is None,
        error is Conflict ==> r.message@ == "container name "@ + debug_quoted(container_name@)
            + " is already used by a container not managed by Foundry — pick another name or remove that container on the host"@,
        !(error is Conflict) ==> r.message@ == error.message_spec(),
{
    let m = match error {
        DockerError::Conflict => {
            let mut m = string_from("container name ");
            push_str(&mut m, debug_str(container_name).as_str());
            push_str(
                &mut m,
                " is already used by a container not managed by Foundry — pick another name or remove that container on the host",
            );
            m
        },
        other => other.message(),
    };
    ExecutionFailure { stage: string_from("CREATE"), message: m, container_id: None, health_status: None, health_detail: None }
}

/// What one health probe means for a started container.
pub enum HealthStep {
    /// Ready, with the status the deployment records and the probe detail.
    Ready(String, Option<String>),
    /// The container is removed and the deploy fails.
    Fail(ExecutionFailure),
    /// Probe again.
    Wait,
}

/// Docker's health status after start: no health check counts as
/// running, `healthy` as healthy, `unhealthy` fails; anything else waits
/// until the deadline passes, then fails as timed out.
pub fn health_step(status: &str, detail: Option<String>, deadline_passed: bool) -> (r: HealthStep)
    ensures
        status@ == "none"@ ==> (r matches HealthStep::Ready(s, d) && s@ == "RUNNING"@ && d == detail),
        status@ == "healthy"@ ==> (r matches HealthStep::Ready(s, d) && s@ == "HEALTHY"@ && d
            == detail),
        status@ == "unhealthy"@ ==> (r matches HealthStep::Fail(f) && f.stage@ == "HEALTH"@
            && f.message@ == "container reported unhealthy"@ && f.container_id is None
            && f.health_status is Some && f.health_status->0@ == "UNHEALTHY"@ && f.health_detail
            == detail),
        status@ != "none"@ && status@ != "healthy"@ && status@ != "unhealthy"@ && deadline_passed
            ==> (r matches HealthStep::Fail(f) && f.stage@ == "HEALTH"@ && f.message@
            == "container health check timed out after 180 seconds"@ && f.container_id is None
            && f.health_status is Some && f.health_status->0@ == "TIMEOUT"@ && f.health_detail
            == detail),
        status@ != "none"@ && status@ != "healthy"@ && status@ != "unhealthy"@ && !deadline_passed
            ==> r is Wait,
{
    let v = chars_of(status);
    proof {
        reveal_strlit("none");
        reveal_strlit("healthy");
        reveal_strlit("unhealthy");
    }
    assert("none"@.len() == 4 && "healthy"@.len() == 7 && "unhealthy"@.len() == 9);
    if equals_str(v.as_slice(), "none") {
        HealthStep::Ready(string_from("RUNNING"), detail)
    } else if equals_str(v.as_slice(), "healthy") {
        HealthStep::Ready(string_from("HEALTHY"), detail)
    } else if equals_str(v.as_slice(), "unhealthy") {
        HealthStep::Fail(
            ExecutionFailure {
                stage: string_from("HEALTH"),
                message: string_from("container reported unhealthy"),
                container_id: None,
                health_status: Some(string_from("UNHEALTHY")),
                health_detail: detail,
            },
        )
    } else if deadline_passed {
        HealthStep::Fail(
            ExecutionFailure {
                stage: string_from("HEALTH"),
                message: string_from("container health check timed out after 180 seconds"),
                container_id: None,
                health_status: Some(string_from("TIMEOUT")),
                health_detail: detail,
            },
        )
    } else {
        HealthStep::Wait
    }
}

} // verus!
