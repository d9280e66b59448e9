//! The deploy executor as a state machine. Each step takes what the last
//! Docker or host call came back with and decides what happens next, so
//! the order of the work and every failure it reports are settled here;
//! the caller only performs the calls and hands their outcomes back.
//!
//! A deploy finds a container already managed for the deployment (a
//! running one only gets its vhosts re-applied, a stopped one is removed),
//! runs the preflight (pinned image, Docker answering, vhost preflight,
//! free host ports, disk room), creates the mount directories, pulls,
//! creates, starts, waits for health and publishes. Preparing a
//! replacement runs the preflight and the pull only.

use crate::agent::docker::{ContainerSpec, ContainerSummary, DockerError};
use crate::agent::tasks::{
    check_disk, check_mount, check_pinned, container_spec, create_failure, disk_required, find_managed,
    health_step, managed_for, mount_allowed, mount_failure, mount_failure_text, port_bound, DeployPayload,
    ExecutionFailure, HealthStep, VOLUME_ROOT,
};
use crate::text::{contains, debug_quoted, decimal_text, push_str, string_from};
use vstd::prelude::*;

verus! {

/// A task that went through: the container it left and its health.
#[derive(Debug)]
pub struct ExecutionSuccess {
    pub container_id: Option<String>,
    pub health_status: Option<String>,
    pub health_detail: Option<String>,
}

/// Where a deploy stands: which call's outcome it waits for.
pub enum DeployPhase {
    /// The listing of containers, to find one already managed for it.
    Lookup,
    /// The removal of a stopped container left by an earlier attempt.
    ClearingStale,
    /// Whether Docker answers a listing.
    EngineCheck,
    /// The vhost preflight for the web ports.
    VhostCheck,
    /// Whether the host port of the payload's port at this position is free.
    PortCheck(usize),
    /// The free bytes of the storage disk.
    CapacityCheck,
    /// The creation of the directory of the mount at this position.
    MountDir(usize),
    Pulling,
    Creating,
    /// The start of the created container.
    Starting(String),
    /// The removal of a container that would not start, with the failure's
    /// text.
    DiscardingUnstarted(String),
    /// A health probe of the started container.
    Waiting(String),
    /// The removal of a container that failed its health check.
    DiscardingUnhealthy(ExecutionFailure),
    /// Publishing the vhosts of a healthy container: its id, health status
    /// and health detail.
    Publishing(String, String, Option<String>),
    /// Re-applying the vhosts of a container that is already running.
    Republishing(String),
    Done,
}

/// What the last call came back with.
pub enum DeployEvent {
    /// The containers Docker lists, or the listing's error text.
    Listed(Result<Vec<ContainerSummary>, String>),
    /// A removal finished (its outcome does not matter).
    Removed,
    EngineChecked(Result<(), String>),
    VhostChecked(Result<(), String>),
    /// Whether the probed host port could be bound.
    PortProbed(bool),
    /// The storage disk's free bytes, when they could be read.
    Capacity(Option<u64>),
    /// A mount directory was created, or why not: whether the error was a
    /// read-only filesystem or a denied permission, and its text.
    DirCreated(Result<(), (bool, String)>),
    Pulled(Result<(), String>),
    Created(Result<String, DockerError>),
    Started(Result<(), String>),
    /// A health probe's status and detail (or its error's text), and
    /// whether the 180 second deadline has passed.
    HealthProbed(Result<(String, Option<String>), String>, bool),
    Published(Result<(), String>),
}

/// The next call to make.
pub enum DeployAction {
    ListContainers,
    Remove(String),
    CheckEngine,
    CheckVhost,
    /// Probe the host port of the payload's port at this position.
    ProbePort(usize),
    ReadCapacity,
    /// Create the host directory of the mount at this position.
    CreateDir(usize),
    /// Report the `PullingImage` stage with this detail, then pull.
    Pull(String),
    /// Report the `CreatingContainer` stage, then create the container.
    Create(ContainerSpec),
    /// Report the `Starting` stage, then start the container.
    Start(String),
    /// Probe the container's health: the first time after reporting the
    /// `WaitingHealth` stage, afterwards after a two second pause.
    ProbeHealth(String, bool),
    /// Apply the vhosts of the web ports, after reporting the `Publishing`
    /// stage when the flag says so.
    ApplyVhost(bool),
    /// The task is over.
    Finish(Result<ExecutionSuccess, ExecutionFailure>),
}

pub open spec fn opt_text(t: Option<String>) -> Option<Seq<char>> {
    match t {
        Some(s) => Some(s@),
        None => None,
    }
}

/// The failure has these parts.
pub open spec fn failure_is(
    f: ExecutionFailure,
    stage: Seq<char>,
    message: Seq<char>,
    container_id: Option<Seq<char>>,
    health_status: Option<Seq<char>>,
    health_detail: Option<Seq<char>>,
) -> bool {
    &&& f.stage@ == stage
    &&& f.message@ == message
    &&& opt_text(f.container_id) == container_id
    &&& opt_text(f.health_status) == health_status
    &&& opt_text(f.health_detail) == health_detail
}

pub open spec fn fails_with(act: DeployAction, stage: Seq<char>, message: Seq<char>) -> bool {
    act matches DeployAction::Finish(Err(f)) && failure_is(f, stage, message, None, None, None)
}

pub open spec fn succeeds_with(
    act: DeployAction,
    container_id: Seq<char>,
    health_status: Seq<char>,
    health_detail: Option<Seq<char>>,
) -> bool {
    act matches DeployAction::Finish(Ok(s)) && opt_text(s.container_id) == Some(container_id) && opt_text(
        s.health_status,
    ) == Some(health_status) && opt_text(s.health_detail) == health_detail
}

/// The preflight begins: an image not pinned by digest ends the task.
pub open spec fn preflight_begins(p: DeployPayload, next: DeployPhase, act: DeployAction) -> bool {
    if contains(p.image_ref@, "@sha256:"@) {
        next is EngineCheck && act is CheckEngine
    } else {
        next is Done && fails_with(act, "PREFLIGHT"@, "deployment image is not pinned by digest"@)
    }
}

/// The ports from position `k` on are probed, then the disk room.
pub open spec fn ports_from(p: DeployPayload, k: int, next: DeployPhase, act: DeployAction) -> bool {
    if k < p.ports@.len() {
        next == DeployPhase::PortCheck(k as usize) && act == DeployAction::ProbePort(k as usize)
    } else {
        next is CapacityCheck && act is ReadCapacity
    }
}

/// The pull begins, with the stage detail of a deploy or of a preparation.
pub open spec fn pull_begins(prepare: bool, next: DeployPhase, act: DeployAction) -> bool {
    next is Pulling && (act matches DeployAction::Pull(d) && d@ == if prepare {
        "preparing replacement image"@
    } else {
        "pulling: contacting registry"@
    })
}

/// The mounts from position `k` on get their directories, then the pull.
pub open spec fn mounts_from(p: DeployPayload, k: int, next: DeployPhase, act: DeployAction) -> bool {
    if k < p.volumes@.len() {
        if mount_allowed(p.volumes@[k].host_path@) {
            next == DeployPhase::MountDir(k as usize) && act == DeployAction::CreateDir(k as usize)
        } else {
            next is Done && fails_with(
                act,
                "PREFLIGHT"@,
                "refusing mount outside "@ + VOLUME_ROOT@ + ": "@ + p.volumes@[k].host_path@,
            )
        }
    } else {
        pull_begins(false, next, act)
    }
}

/// Where a deploy or a preparation starts.
pub open spec fn begins(p: DeployPayload, prepare: bool, next: DeployPhase, act: DeployAction) -> bool {
    if prepare {
        preflight_begins(p, next, act)
    } else {
        next is Lookup && act is ListContainers
    }
}

fn preflight_begin(p: &DeployPayload) -> (r: (DeployPhase, DeployAction))
    ensures
        preflight_begins(*p, r.0, r.1),
{
    match check_pinned(p.image_ref.as_str()) {
        Ok(()) => (DeployPhase::EngineCheck, DeployAction::CheckEngine),
        Err(f) => (DeployPhase::Done, DeployAction::Finish(Err(f))),
    }
}

fn ports_from_exec(p: &DeployPayload, k: usize) -> (r: (DeployPhase, DeployAction))
    ensures
        ports_from(*p, k as int, r.0, r.1),
{
    if k < p.ports.len() {
        (DeployPhase::PortCheck(k), DeployAction::ProbePort(k))
    } else {
        (DeployPhase::CapacityCheck, DeployAction::ReadCapacity)
    }
}

fn pull_begin(prepare: bool) -> (r: (DeployPhase, DeployAction))
    ensures
        pull_begins(prepare, r.0, r.1),
{
    let detail = if prepare {
        string_from("preparing replacement image")
    } else {
        string_from("pulling: contacting registry")
    };
    (DeployPhase::Pulling, DeployAction::Pull(detail))
}

fn mounts_from_exec(p: &DeployPayload, k: usize) -> (r: (DeployPhase, DeployAction))
    ensures
        mounts_from(*p, k as int, r.0, r.1),
{
    if k < p.volumes.len() {
        match check_mount(p.volumes[k].host_path.as_str()) {
            Ok(()) => (DeployPhase::MountDir(k), DeployAction::CreateDir(k)),
            Err(f) => (DeployPhase::Done, DeployAction::Finish(Err(f))),
        }
    } else {
        pull_begin(false)
    }
}

/// The first step of a deploy, or of a preparation (`prepare`).
pub fn deploy_begin(p: &DeployPayload, prepare: bool) -> (r: (DeployPhase, DeployAction))
    ensures
        begins(*p, prepare, r.0, r.1),
{
    if prepare {
        preflight_begin(p)
    } else {
        (DeployPhase::Lookup, DeployAction::ListContainers)
    }
}

/// How a health status reads: `none` (no health check) and `healthy` are
/// ready, `unhealthy` fails, anything else waits for the deadline.
pub open spec fn health_ready_status(status: Seq<char>) -> Option<Seq<char>> {
    if status == "none"@ {
        Some("RUNNING"@)
    } else if status == "healthy"@ {
        Some("HEALTHY"@)
    } else {
        None
    }
}

/// The container at `i` is the first one managed for the deployment.
pub open spec fn first_managed(list: Seq<ContainerSummary>, deployment_id: Seq<char>, i: int) -> bool {
    &&& 0 <= i < list.len()
    &&& managed_for(list[i], deployment_id)
    &&& forall|k: int| 0 <= k < i ==> !managed_for(#[trigger] list[k], deployment_id)
}

/// What a deploy does with the containers Docker lists: nothing managed
/// for it starts the preflight; a running one only gets its vhosts
/// re-applied; a stopped one is removed first.
pub open spec fn lookup_outcome(p: DeployPayload, list: Seq<ContainerSummary>, next: DeployPhase, act: DeployAction) -> bool {
    if forall|i: int| 0 <= i < list.len() ==> !managed_for(#[trigger] list[i], p.deployment_id@) {
        preflight_begins(p, next, act)
    } else {
        exists|i: int|
            #[trigger] first_managed(list, p.deployment_id@, i) && if list[i].state@ == "running"@ {
                next matches DeployPhase::Republishing(id) && id@ == list[i].id@ && act == DeployAction::ApplyVhost(false)
            } else {
                next is ClearingStale && (act matches DeployAction::Remove(id) && id@ == list[i].id@)
            }
    }
}

/// One step: what a deploy in `phase` does with the outcome of its last
/// call. `has_web` says whether the payload has web ports to publish.
pub open spec fn step_spec(
    p: DeployPayload,
    prepare: bool,
    has_web: bool,
    phase: DeployPhase,
    event: DeployEvent,
    next: DeployPhase,
    act: DeployAction,
) -> bool {
    match (phase, event) {
        (DeployPhase::Lookup, DeployEvent::Listed(Err(e))) => next is Done && fails_with(act, "PREFLIGHT"@, e@),
        (DeployPhase::Lookup, DeployEvent::Listed(Ok(list))) => lookup_outcome(p, list@, next, act),
        (DeployPhase::ClearingStale, DeployEvent::Removed) => preflight_begins(p, next, act),
        (DeployPhase::EngineCheck, DeployEvent::EngineChecked(Err(e))) => next is Done && fails_with(
            act,
            "PREFLIGHT"@,
            e@,
        ),
        (DeployPhase::EngineCheck, DeployEvent::EngineChecked(Ok(()))) => next is VhostCheck && act is CheckVhost,
        (DeployPhase::VhostCheck, DeployEvent::VhostChecked(Err(e))) => next is Done && fails_with(
            act,
            "PREFLIGHT"@,
            e@,
        ),
        (DeployPhase::VhostCheck, DeployEvent::VhostChecked(Ok(()))) => ports_from(p, 0, next, act),
        (DeployPhase::PortCheck(k), DeployEvent::PortProbed(free)) => if k >= p.ports@.len() {
            next is Done && fails_with(act, "TASK"@, "port probe out of range"@)
        } else if free {
            ports_from(p, k + 1, next, act)
        } else {
            next is Done && fails_with(
                act,
                "PREFLIGHT"@,
                "host port "@ + decimal_text(p.ports@[k as int].host_port as nat) + " is already bound"@,
            )
        },
        (DeployPhase::CapacityCheck, DeployEvent::Capacity(available)) => if p.image_size_bytes is Some
            && available is Some && available->0 < disk_required(p.image_size_bytes->0) {
            next is Done && fails_with(
                act,
                "PREFLIGHT"@,
                "insufficient disk space: "@ + decimal_text(available->0 as nat) + " bytes available, approximately "@
                    + decimal_text(disk_required(p.image_size_bytes->0) as nat) + " required"@,
            )
        } else if prepare {
            pull_begins(true, next, act)
        } else {
            mounts_from(p, 0, next, act)
        },
        (DeployPhase::MountDir(k), DeployEvent::DirCreated(Ok(()))) => if k >= p.volumes@.len() {
            next is Done && fails_with(act, "TASK"@, "mount out of range"@)
        } else {
            mounts_from(p, k + 1, next, act)
        },
        (DeployPhase::MountDir(k), DeployEvent::DirCreated(Err((sandboxed, display)))) => if k >= p.volumes@.len() {
            next is Done && fails_with(act, "TASK"@, "mount out of range"@)
        } else {
            next is Done && fails_with(
                act,
                "PREFLIGHT"@,
                mount_failure_text(p.volumes@[k as int].host_path@, sandboxed, display@),
            )
        },
        (DeployPhase::Pulling, DeployEvent::Pulled(Err(e))) => next is Done && fails_with(act, "PULL"@, e@),
        (DeployPhase::Pulling, DeployEvent::Pulled(Ok(()))) => if prepare {
            next is Done && (act matches DeployAction::Finish(Ok(s)) && s.container_id is None && s.health_status is None
                && s.health_detail is None)
        } else {
            next is Creating && act is Create
        },
        (DeployPhase::Creating, DeployEvent::Created(Err(e))) => next is Done && fails_with(
            act,
            "CREATE"@,
            if e is Conflict {
                "container name "@ + debug_quoted(p.container_name@)
                    + " is already used by a container not managed by Foundry — pick another name or remove that container on the host"@
            } else {
                e.message_spec()
            },
        ),
        (DeployPhase::Creating, DeployEvent::Created(Ok(id))) => next == DeployPhase::Starting(id) && act
            == DeployAction::Start(id),
        (DeployPhase::Starting(id), DeployEvent::Started(Err(e))) => next matches DeployPhase::DiscardingUnstarted(m)
            && m@ == "container start failed: "@ + e@ && act == DeployAction::Remove(id),
        (DeployPhase::Starting(id), DeployEvent::Started(Ok(()))) => next == DeployPhase::Waiting(id) && act
            == DeployAction::ProbeHealth(id, true),
        (DeployPhase::DiscardingUnstarted(m), DeployEvent::Removed) => next is Done && fails_with(act, "START"@, m@),
        (DeployPhase::Waiting(id), DeployEvent::HealthProbed(Err(e), _)) => next is Done && (act matches DeployAction::Finish(
            Err(f),
        ) && failure_is(f, "HEALTH"@, e@, Some(id@), None, None)),
        (DeployPhase::Waiting(id), DeployEvent::HealthProbed(Ok((status, detail)), deadline_passed)) => match health_ready_status(
            status@,
        ) {
            Some(ready) => if has_web {
                next matches DeployPhase::Publishing(i, s, d) && i == id && s@ == ready && d == detail && act
                    == DeployAction::ApplyVhost(true)
            } else {
                next is Done && succeeds_with(act, id@, ready, opt_text(detail))
            },
            None => if status@ == "unhealthy"@ {
                next matches DeployPhase::DiscardingUnhealthy(f) && failure_is(
                    f,
                    "HEALTH"@,
                    "container reported unhealthy"@,
                    Some(id@),
                    Some("UNHEALTHY"@),
                    opt_text(detail),
                ) && act == DeployAction::Remove(id)
            } else if deadline_passed {
                next matches DeployPhase::DiscardingUnhealthy(f) && failure_is(
                    f,
                    "HEALTH"@,
                    "container health check timed out after 180 seconds"@,
                    Some(id@),
                    Some("TIMEOUT"@),
                    opt_text(detail),
                ) && act == DeployAction::Remove(id)
            } else {
                next == DeployPhase::Waiting(id) && act == DeployAction::ProbeHealth(id, false)
            },
        },
        (DeployPhase::DiscardingUnhealthy(f), DeployEvent::Removed) => next is Done && act == DeployAction::Finish(Err(f)),
        (DeployPhase::Publishing(id, s, d), DeployEvent::Published(Err(e))) => next is Done && (act matches DeployAction::Finish(
            Err(f),
        ) && failure_is(f, "PUBLISH"@, "vhost publish failed: "@ + e@, Some(id@), Some(s@), opt_text(d))),
        (DeployPhase::Publishing(id, s, d), DeployEvent::Published(Ok(()))) => next is Done && succeeds_with(
            act,
            id@,
            s@,
            opt_text(d),
        ),
        (DeployPhase::Republishing(id), DeployEvent::Published(Err(e))) => next is Done && fails_with(
            act,
            "PUBLISH"@,
            e@,
        ),
        (DeployPhase::Republishing(id), DeployEvent::Published(Ok(()))) => next is Done && succeeds_with(
            act,
            id@,
            "RUNNING"@,
            None,
        ),
        _ => next is Done && fails_with(act, "TASK"@, "executor step out of order"@),
    }
}

fn fail(stage: &str, message: String) -> (r: DeployAction)
    ensures
        fails_with(r, stage@, message@),
{
    DeployAction::Finish(
        Err(
            ExecutionFailure {
                stage: string_from(stage),
                message,
                container_id: None,
                health_status: None,
                health_detail: None,
            },
        ),
    )
}

pub open spec fn early(phase: DeployPhase) -> bool {
    phase is Lookup || phase is ClearingStale || phase is EngineCheck || phase is VhostCheck || phase is PortCheck
        || phase is CapacityCheck || phase is MountDir || phase is Pulling || phase is Creating
}

/// Everything is decided here and only here: the caller performs `act`,
/// then hands its outcome to the next step, until the action is `Finish`.
/// An outcome that does not answer the phase's call ends the task with a
/// `TASK` failure.
pub fn deploy_step(p: &DeployPayload, prepare: bool, has_web: bool, phase: DeployPhase, event: DeployEvent) -> (r: (
    DeployPhase,
    DeployAction,
))
    ensures
        step_spec(*p, prepare, has_web, phase, event, r.0, r.1),
{
    let is_early = match &phase {
        DeployPhase::Lookup | DeployPhase::ClearingStale | DeployPhase::EngineCheck | DeployPhase::VhostCheck
        | DeployPhase::PortCheck(_) | DeployPhase::CapacityCheck | DeployPhase::MountDir(_) | DeployPhase::Pulling
        | DeployPhase::Creating => true,
        _ => false,
    };
    if is_early {
        step_early(p, prepare, has_web, phase, event)
    } else {
        step_late(p, has_web, phase, event)
    }
}

/// The steps up to the container's creation.
fn step_early(p: &DeployPayload, prepare: bool, has_web: bool, phase: DeployPhase, event: DeployEvent) -> (r: (
    DeployPhase,
    DeployAction,
))
    requires
        early(phase),
    ensures
        step_spec(*p, prepare, has_web, phase, event, r.0, r.1),
{
    match (phase, event) {
        (DeployPhase::Lookup, DeployEvent::Listed(Err(e))) => (DeployPhase::Done, fail("PREFLIGHT", e)),
        (DeployPhase::Lookup, DeployEvent::Listed(Ok(list))) => match find_managed(&list, p.deployment_id.as_str()) {
            Some((id, state)) => {
                proof {
                    let i = choose|i: int|
                        0 <= i < list@.len() && managed_for(#[trigger] list@[i], p.deployment_id@) && list@[i].id@
                            == id@ && list@[i].state@ == state@ && forall|k: int|
                            0 <= k < i ==> !managed_for(#[trigger] list@[k], p.deployment_id@);
                    assert(first_managed(list@, p.deployment_id@, i));
                }
                let running = crate::text::equals_str(crate::text::chars_of(state.as_str()).as_slice(), "running");
                if running {
                    (DeployPhase::Republishing(id), DeployAction::ApplyVhost(false))
                } else {
                    (DeployPhase::ClearingStale, DeployAction::Remove(id))
                }
            },
            None => preflight_begin(p),
        },
        (DeployPhase::ClearingStale, DeployEvent::Removed) => preflight_begin(p),
        (DeployPhase::EngineCheck, DeployEvent::EngineChecked(Err(e))) => (DeployPhase::Done, fail("PREFLIGHT", e)),
        (DeployPhase::EngineCheck, DeployEvent::EngineChecked(Ok(()))) => (
            DeployPhase::VhostCheck,
            DeployAction::CheckVhost,
        ),
        (DeployPhase::VhostCheck, DeployEvent::VhostChecked(Err(e))) => (DeployPhase::Done, fail("PREFLIGHT", e)),
        (DeployPhase::VhostCheck, DeployEvent::VhostChecked(Ok(()))) => ports_from_exec(p, 0),
        (DeployPhase::PortCheck(k), DeployEvent::PortProbed(free)) => {
            if k >= p.ports.len() {
                (DeployPhase::Done, fail("TASK", string_from("port probe out of range")))
            } else if free {
                ports_from_exec(p, k + 1)
            } else {
                (DeployPhase::Done, DeployAction::Finish(Err(port_bound(p.ports[k].host_port))))
            }
        },
        (DeployPhase::CapacityCheck, DeployEvent::Capacity(available)) => match check_disk(
            p.image_size_bytes,
            available,
        ) {
            Err(f) => (DeployPhase::Done, DeployAction::Finish(Err(f))),
            Ok(()) => if prepare {
                pull_begin(true)
            } else {
                mounts_from_exec(p, 0)
            },
        },
        (DeployPhase::MountDir(k), DeployEvent::DirCreated(Ok(()))) => {
            if k >= p.volumes.len() {
                (DeployPhase::Done, fail("TASK", string_from("mount out of range")))
            } else {
                mounts_from_exec(p, k + 1)
            }
        },
        (DeployPhase::MountDir(k), DeployEvent::DirCreated(Err((sandboxed, display)))) => {
            if k >= p.volumes.len() {
                (DeployPhase::Done, fail("TASK", string_from("mount out of range")))
            } else {
                (
                    DeployPhase::Done,
                    DeployAction::Finish(
                        Err(mount_failure(p.volumes[k].host_path.as_str(), sandboxed, display.as_str())),
                    ),
                )
            }
        },
        (DeployPhase::Pulling, DeployEvent::Pulled(Err(e))) => (DeployPhase::Done, fail("PULL", e)),
        (DeployPhase::Pulling, DeployEvent::Pulled(Ok(()))) => if prepare {
            (
                DeployPhase::Done,
                DeployAction::Finish(
                    Ok(ExecutionSuccess { container_id: None, health_status: None, health_detail: None }),
                ),
            )
        } else {
            (DeployPhase::Creating, DeployAction::Create(container_spec(p)))
        },
        (DeployPhase::Creating, DeployEvent::Created(Err(e))) => (
            DeployPhase::Done,
            DeployAction::Finish(Err(create_failure(&e, p.container_name.as_str()))),
        ),
        (DeployPhase::Creating, DeployEvent::Created(Ok(id))) => {
            let for_start = id.clone();
            (DeployPhase::Starting(id), DeployAction::Start(for_start))
        },
        _ => (DeployPhase::Done, fail("TASK", string_from("executor step out of order"))),
    }
}

/// The steps after the container exists: start, health, publishing.
fn step_late(p: &DeployPayload, has_web: bool, phase: DeployPhase, event: DeployEvent) -> (r: (DeployPhase, DeployAction))
    requires
        !early(phase),
    ensures
        step_spec(*p, false, has_web, phase, event, r.0, r.1),
        step_spec(*p, true, has_web, phase, event, r.0, r.1),
{
    match (phase, event) {
        (DeployPhase::Starting(id), DeployEvent::Started(Err(e))) => {
            let mut m = string_from("container start failed: ");
            push_str(&mut m, e.as_str());
            (DeployPhase::DiscardingUnstarted(m), DeployAction::Remove(id))
        },
        (DeployPhase::Starting(id), DeployEvent::Started(Ok(()))) => {
            let probe = id.clone();
            (DeployPhase::Waiting(id), DeployAction::ProbeHealth(probe, true))
        },
        (DeployPhase::DiscardingUnstarted(m), DeployEvent::Removed) => (DeployPhase::Done, fail("START", m)),
        (DeployPhase::Waiting(id), DeployEvent::HealthProbed(Err(e), _)) => (
            DeployPhase::Done,
            DeployAction::Finish(
                Err(
                    ExecutionFailure {
                        stage: string_from("HEALTH"),
                        message: e,
                        container_id: Some(id),
                        health_status: None,
                        health_detail: None,
                    },
                ),
            ),
        ),
        (DeployPhase::Waiting(id), DeployEvent::HealthProbed(Ok((status, detail)), deadline_passed)) => {
            match health_step(status.as_str(), detail, deadline_passed) {
                HealthStep::Ready(s, d) => {
                    if has_web {
                        (DeployPhase::Publishing(id, s, d), DeployAction::ApplyVhost(true))
                    } else {
                        (
                            DeployPhase::Done,
                            DeployAction::Finish(
                                Ok(ExecutionSuccess { container_id: Some(id), health_status: Some(s), health_detail: d }),
                            ),
                        )
                    }
                },
                HealthStep::Fail(f) => {
                    let removed = id.clone();
                    let failure = ExecutionFailure {
                        stage: f.stage,
                        message: f.message,
                        container_id: Some(id),
                        health_status: f.health_status,
                        health_detail: f.health_detail,
                    };
                    (DeployPhase::DiscardingUnhealthy(failure), DeployAction::Remove(removed))
                },
                HealthStep::Wait => {
                    let probe = id.clone();
                    (DeployPhase::Waiting(id), DeployAction::ProbeHealth(probe, false))
                },
            }
        },
        (DeployPhase::DiscardingUnhealthy(f), DeployEvent::Removed) => (DeployPhase::Done, DeployAction::Finish(Err(f))),
        (DeployPhase::Publishing(id, s, d), DeployEvent::Published(Err(e))) => {
            let mut m = string_from("vhost publish failed: ");
            push_str(&mut m, e.as_str());
            (
                DeployPhase::Done,
                DeployAction::Finish(
                    Err(
                        ExecutionFailure {
                            stage: string_from("PUBLISH"),
                            message: m,
                            container_id: Some(id),
                            health_status: Some(s),
                            health_detail: d,
                        },
                    ),
                ),
            )
        },
        (DeployPhase::Publishing(id, s, d), DeployEvent::Published(Ok(()))) => (
            DeployPhase::Done,
            DeployAction::Finish(Ok(ExecutionSuccess { container_id: Some(id), health_status: Some(s), health_detail: d })),
        ),
        (DeployPhase::Republishing(id), DeployEvent::Published(Err(e))) => (DeployPhase::Done, fail("PUBLISH", e)),
        (DeployPhase::Republishing(id), DeployEvent::Published(Ok(()))) => (
            DeployPhase::Done,
            DeployAction::Finish(
                Ok(
                    ExecutionSuccess {
                        container_id: Some(id),
                        health_status: Some(string_from("RUNNING")),
                        health_detail: None,
                    },
                ),
            ),
        ),
        _ => (DeployPhase::Done, fail("TASK", string_from("executor step out of order"))),
    }
}

// ------------------------------------------------------------ laws

/// The phases a preparation passes through.
pub open spec fn preparation_phase(phase: DeployPhase) -> bool {
    phase is EngineCheck || phase is VhostCheck || phase is PortCheck || phase is CapacityCheck || phase is Pulling
        || phase is Done
}

/// The calls that change containers or the host's directories.
pub open spec fn touches_containers(act: DeployAction) -> bool {
    act is Create || act is Start || act is Remove || act is CreateDir || act is ApplyVhost
}

/// Preparing a replacement only checks and pulls: it starts in a
/// preparation phase, every step keeps it in one, and no step creates,
/// starts or removes a container, makes a directory or touches a vhost.
pub proof fn lemma_preparation_only_checks_and_pulls(
    p: DeployPayload,
    has_web: bool,
    phase: DeployPhase,
    event: DeployEvent,
    next: DeployPhase,
    act: DeployAction,
)
    requires
        preparation_phase(phase),
        step_spec(p, true, has_web, phase, event, next, act),
    ensures
        preparation_phase(next),
        !touches_containers(act),
{
}

/// A preparation begins in a preparation phase with nothing touched.
pub proof fn lemma_preparation_begins_with_checks(p: DeployPayload, next: DeployPhase, act: DeployAction)
    requires
        begins(p, true, next, act),
    ensures
        preparation_phase(next),
        !touches_containers(act),
{
}

/// A container is created only right after a successful pull, and never
/// by a preparation.
pub proof fn lemma_create_follows_a_successful_pull(
    p: DeployPayload,
    prepare: bool,
    has_web: bool,
    phase: DeployPhase,
    event: DeployEvent,
    next: DeployPhase,
    act: DeployAction,
)
    requires
        step_spec(p, prepare, has_web, phase, event, next, act),
        act is Create,
    ensures
        phase is Pulling,
        event matches DeployEvent::Pulled(Ok(())),
        !prepare,
{
}

/// The event is the outcome of the call the phase waits for.
pub open spec fn answers(phase: DeployPhase, event: DeployEvent) -> bool {
    match phase {
        DeployPhase::Lookup => event is Listed,
        DeployPhase::ClearingStale | DeployPhase::DiscardingUnstarted(_) | DeployPhase::DiscardingUnhealthy(_) => event is Removed,
        DeployPhase::EngineCheck => event is EngineChecked,
        DeployPhase::VhostCheck => event is VhostChecked,
        DeployPhase::PortCheck(_) => event is PortProbed,
        DeployPhase::CapacityCheck => event is Capacity,
        DeployPhase::MountDir(_) => event is DirCreated,
        DeployPhase::Pulling => event is Pulled,
        DeployPhase::Creating => event is Created,
        DeployPhase::Starting(_) => event is Started,
        DeployPhase::Waiting(_) => event is HealthProbed,
        DeployPhase::Publishing(..) | DeployPhase::Republishing(_) => event is Published,
        DeployPhase::Done => false,
    }
}

/// Once a container exists, a failure either removes it first or reports
/// it: a start or health failure goes through its removal, and a failure
/// that ends the task names the container.
pub proof fn lemma_failures_account_for_the_container(
    p: DeployPayload,
    prepare: bool,
    has_web: bool,
    phase: DeployPhase,
    event: DeployEvent,
    next: DeployPhase,
    act: DeployAction,
)
    requires
        phase is Starting || phase is Waiting || phase is Publishing,
        answers(phase, event),
        step_spec(p, prepare, has_web, phase, event, next, act),
    ensures
        next is DiscardingUnstarted || next is DiscardingUnhealthy ==> act is Remove,
        (phase is Waiting || phase is Publishing) ==> (act matches DeployAction::Finish(Err(f)) ==> f.container_id is Some),
{
}

/// A deploy delivered again after its container came up (an agent crash
/// after the start) creates nothing: it only re-applies the vhosts of the
/// running container it finds.
pub proof fn lemma_redelivered_deploy_keeps_its_running_container(
    p: DeployPayload,
    has_web: bool,
    list: Vec<ContainerSummary>,
    i: int,
    next: DeployPhase,
    act: DeployAction,
)
    requires
        0 <= i < list@.len(),
        managed_for(list@[i], p.deployment_id@),
        forall|k: int| 0 <= k < i ==> !managed_for(#[trigger] list@[k], p.deployment_id@),
        list@[i].state@ == "running"@,
        step_spec(p, false, has_web, DeployPhase::Lookup, DeployEvent::Listed(Ok(list)), next, act),
    ensures
        next matches DeployPhase::Republishing(id) && id@ == list@[i].id@,
        act == DeployAction::ApplyVhost(false),
{
    assert(!(forall|j: int| 0 <= j < list@.len() ==> !managed_for(#[trigger] list@[j], p.deployment_id@)));
    assert(lookup_outcome(p, list@, next, act));
    let j = choose|j: int|
        #[trigger] first_managed(list@, p.deployment_id@, j) && if list@[j].state@ == "running"@ {
            next matches DeployPhase::Republishing(id) && id@ == list@[j].id@ && act == DeployAction::ApplyVhost(false)
        } else {
            next is ClearingStale && (act matches DeployAction::Remove(id) && id@ == list@[j].id@)
        };
    assert(first_managed(list@, p.deployment_id@, j));
    if j < i {
        assert(!managed_for(list@[j], p.deployment_id@));
    } else if i < j {
        assert(!managed_for(list@[i], p.deployment_id@));
    }
}

// ------------------------------------------------------------ whole runs

/// One step of a run: the phase, the outcome handed in, and the phase and
/// action that `deploy_step` answered with.
pub open spec fn step_holds(
    p: DeployPayload,
    prepare: bool,
    has_web: bool,
    st: (DeployPhase, DeployEvent, DeployPhase, DeployAction),
) -> bool {
    step_spec(p, prepare, has_web, st.0, st.1, st.2, st.3)
}

/// Step `i` starts in the phase that step `i - 1` left.
pub open spec fn chained(steps: Seq<(DeployPhase, DeployEvent, DeployPhase, DeployAction)>, i: int) -> bool {
    steps[i].0 == steps[i - 1].2
}

/// A run of the executor: every step is a step of `deploy_step`, each one
/// starting where the last one left, whatever outcomes the calls had.
pub open spec fn is_run(
    p: DeployPayload,
    prepare: bool,
    has_web: bool,
    steps: Seq<(DeployPhase, DeployEvent, DeployPhase, DeployAction)>,
) -> bool {
    &&& forall|i: int| 0 <= i < steps.len() ==> step_holds(p, prepare, has_web, #[trigger] steps[i])
    &&& forall|i: int| 0 < i < steps.len() ==> #[trigger] chained(steps, i)
}

/// The phases from the creation of the container on.
pub open spec fn created(phase: DeployPhase) -> bool {
    phase is Creating || phase is Starting || phase is DiscardingUnstarted || phase is Waiting
        || phase is DiscardingUnhealthy || phase is Publishing
}

/// The phases a run cannot leave for a pull again.
pub open spec fn past_pull(phase: DeployPhase) -> bool {
    created(phase) || phase is Republishing || phase is Done
}

proof fn lemma_step_stays_past_pull(
    p: DeployPayload,
    prepare: bool,
    has_web: bool,
    phase: DeployPhase,
    event: DeployEvent,
    next: DeployPhase,
    act: DeployAction,
)
    requires
        past_pull(phase),
        step_spec(p, prepare, has_web, phase, event, next, act),
    ensures
        past_pull(next),
{
}

proof fn lemma_step_enters_created(
    p: DeployPayload,
    prepare: bool,
    has_web: bool,
    phase: DeployPhase,
    event: DeployEvent,
    next: DeployPhase,
    act: DeployAction,
)
    requires
        step_spec(p, prepare, has_web, phase, event, next, act),
    ensures
        created(next) ==> created(phase) || act is Create,
        !(next is Lookup),
        next is Republishing ==> phase is Lookup,
        !prepare && !(phase is Republishing) && (act matches DeployAction::Finish(Ok(_))) ==> created(phase),
        act is Pull || act is Create ==> !past_pull(phase),
{
}

proof fn lemma_past_pull_persists(
    p: DeployPayload,
    prepare: bool,
    has_web: bool,
    steps: Seq<(DeployPhase, DeployEvent, DeployPhase, DeployAction)>,
    a: int,
    b: int,
)
    requires
        is_run(p, prepare, has_web, steps),
        0 <= a < b < steps.len(),
        past_pull(steps[a].2),
    ensures
        past_pull(steps[b].0),
    decreases b - a,
{
    assert(chained(steps, b));
    if b > a + 1 {
        lemma_past_pull_persists(p, prepare, has_web, steps, a, b - 1);
        assert(step_holds(p, prepare, has_web, steps[b - 1]));
        lemma_step_stays_past_pull(
            p,
            prepare,
            has_web,
            steps[b - 1].0,
            steps[b - 1].1,
            steps[b - 1].2,
            steps[b - 1].3,
        );
    }
}

/// Over a whole run, at most one container is created: once a create has
/// been asked for, the run never comes back to a pull, and only a finished
/// pull asks for a create.
pub proof fn lemma_run_creates_at_most_once(
    p: DeployPayload,
    prepare: bool,
    has_web: bool,
    steps: Seq<(DeployPhase, DeployEvent, DeployPhase, DeployAction)>,
)
    requires
        is_run(p, prepare, has_web, steps),
    ensures
        forall|a: int, b: int|
            0 <= a < b < steps.len() ==> !((#[trigger] steps[a]).3 is Create && (#[trigger] steps[b]).3 is Create),
{
    assert forall|a: int, b: int| 0 <= a < b < steps.len() implies !((#[trigger] steps[a]).3 is Create && (
    #[trigger] steps[b]).3 is Create) by {
        if steps[a].3 is Create && steps[b].3 is Create {
            assert(step_holds(p, prepare, has_web, steps[a]));
            assert(step_holds(p, prepare, has_web, steps[b]));
            lemma_past_pull_persists(p, prepare, has_web, steps, a, b);
        }
    }
}

proof fn lemma_created_after_a_create(
    p: DeployPayload,
    prepare: bool,
    has_web: bool,
    steps: Seq<(DeployPhase, DeployEvent, DeployPhase, DeployAction)>,
    j: int,
)
    requires
        is_run(p, prepare, has_web, steps),
        0 <= j < steps.len(),
        !created(steps[0].0),
        created(steps[j].0),
    ensures
        exists|a: int| 0 <= a < j && (#[trigger] steps[a]).3 is Create,
    decreases j,
{
    assert(chained(steps, j));
    assert(step_holds(p, prepare, has_web, steps[j - 1]));
    lemma_step_enters_created(p, prepare, has_web, steps[j - 1].0, steps[j - 1].1, steps[j - 1].2, steps[j - 1].3);
    if !(steps[j - 1].3 is Create) {
        lemma_created_after_a_create(p, prepare, has_web, steps, j - 1);
    }
}

proof fn lemma_no_republishing_after_a_clearing(
    p: DeployPayload,
    has_web: bool,
    steps: Seq<(DeployPhase, DeployEvent, DeployPhase, DeployAction)>,
    j: int,
)
    requires
        is_run(p, false, has_web, steps),
        0 < j < steps.len(),
        steps[0].2 is ClearingStale,
    ensures
        !(steps[j].0 is Republishing),
        !(steps[j].0 is Lookup),
{
    assert(chained(steps, j));
    assert(step_holds(p, false, has_web, steps[j - 1]));
    lemma_step_enters_created(p, false, has_web, steps[j - 1].0, steps[j - 1].1, steps[j - 1].2, steps[j - 1].3);
    if j > 1 {
        assert(chained(steps, j - 1));
        assert(step_holds(p, false, has_web, steps[j - 2]));
        lemma_step_enters_created(p, false, has_web, steps[j - 2].0, steps[j - 2].1, steps[j - 2].2, steps[j - 2].3);
    }
}

/// A deploy that finds a stopped container of its deployment replaces it:
/// its first step removes that container, the whole run creates at most one
/// new container, and the run reports success only after a create that
/// came after the removal.
pub proof fn lemma_stale_container_is_replaced_once(
    p: DeployPayload,
    has_web: bool,
    list: Vec<ContainerSummary>,
    i: int,
    steps: Seq<(DeployPhase, DeployEvent, DeployPhase, DeployAction)>,
)
    requires
        is_run(p, false, has_web, steps),
        steps.len() > 0,
        steps[0].0 is Lookup,
        steps[0].1 == DeployEvent::Listed(Ok(list)),
        first_managed(list@, p.deployment_id@, i),
        list@[i].state@ != "running"@,
    ensures
        steps[0].2 is ClearingStale,
        steps[0].3 matches DeployAction::Remove(id) && id@ == list@[i].id@,
        forall|a: int, b: int|
            0 <= a < b < steps.len() ==> !((#[trigger] steps[a]).3 is Create && (#[trigger] steps[b]).3 is Create),
        forall|j: int|
            0 <= j < steps.len() && ((#[trigger] steps[j]).3 matches DeployAction::Finish(Ok(_))) ==> exists|a: int|
                0 < a < j && (#[trigger] steps[a]).3 is Create,
{
    assert(step_holds(p, false, has_web, steps[0]));
    let (phase, event, next, act) = steps[0];
    assert(!(forall|k: int| 0 <= k < list@.len() ==> !managed_for(#[trigger] list@[k], p.deployment_id@))) by {
        assert(managed_for(list@[i], p.deployment_id@));
    }
    assert(lookup_outcome(p, list@, next, act));
    let k = choose|k: int|
        #[trigger] first_managed(list@, p.deployment_id@, k) && if list@[k].state@ == "running"@ {
            next matches DeployPhase::Republishing(id) && id@ == list@[k].id@ && act == DeployAction::ApplyVhost(false)
        } else {
            next is ClearingStale && (act matches DeployAction::Remove(id) && id@ == list@[k].id@)
        };
    assert(k == i) by {
        if k < i {
            assert(!managed_for(list@[k], p.deployment_id@));
        } else if i < k {
            assert(!managed_for(list@[i], p.deployment_id@));
        }
    }
    lemma_run_creates_at_most_once(p, false, has_web, steps);
    assert forall|j: int|
        0 <= j < steps.len() && ((#[trigger] steps[j]).3 matches DeployAction::Finish(Ok(_))) implies exists|a: int|
        0 < a < j && (#[trigger] steps[a]).3 is Create by {
        assert(j > 0);
        lemma_no_republishing_after_a_clearing(p, has_web, steps, j);
        assert(step_holds(p, false, has_web, steps[j]));
        lemma_step_enters_created(p, false, has_web, steps[j].0, steps[j].1, steps[j].2, steps[j].3);
        lemma_created_after_a_create(p, false, has_web, steps, j);
        let a = choose|a: int| 0 <= a < j && (#[trigger] steps[a]).3 is Create;
        assert(a != 0);
        assert(0 < a < j && steps[a].3 is Create);
    }
}

/// A pull that fails ends the run with a `PULL` failure carrying the pull's
/// error, and no step of the run, before or after it, creates a container.
pub proof fn lemma_failed_pull_creates_nothing(
    p: DeployPayload,
    prepare: bool,
    has_web: bool,
    steps: Seq<(DeployPhase, DeployEvent, DeployPhase, DeployAction)>,
    j: int,
)
    requires
        is_run(p, prepare, has_web, steps),
        0 <= j < steps.len(),
        steps[j].0 is Pulling,
        steps[j].1 matches DeployEvent::Pulled(Err(_)),
    ensures
        steps[j].1 matches DeployEvent::Pulled(Err(e)) && fails_with(steps[j].3, "PULL"@, e@),
        steps[j].2 is Done,
        forall|a: int| 0 <= a < steps.len() ==> !((#[trigger] steps[a]).3 is Create),
{
    assert(step_holds(p, prepare, has_web, steps[j]));
    assert forall|a: int| 0 <= a < steps.len() implies !((#[trigger] steps[a]).3 is Create) by {
        if steps[a].3 is Create {
            assert(step_holds(p, prepare, has_web, steps[a]));
            if a < j {
                lemma_past_pull_persists(p, prepare, has_web, steps, a, j);
            } else if a > j {
                lemma_past_pull_persists(p, prepare, has_web, steps, j, a);
            }
        }
    }
}

/// A create that Docker refuses because the name is taken ends the run with
/// a `CREATE` failure that quotes the container name, and the run never asks
/// for another create afterwards.
pub proof fn lemma_name_conflict_ends_the_run(
    p: DeployPayload,
    prepare: bool,
    has_web: bool,
    steps: Seq<(DeployPhase, DeployEvent, DeployPhase, DeployAction)>,
    j: int,
)
    requires
        is_run(p, prepare, has_web, steps),
        0 <= j < steps.len(),
        steps[j].0 is Creating,
        steps[j].1 == DeployEvent::Created(Err(DockerError::Conflict)),
    ensures
        fails_with(
            steps[j].3,
            "CREATE"@,
            "container name "@ + debug_quoted(p.container_name@)
                + " is already used by a container not managed by Foundry — pick another name or remove that container on the host"@,
        ),
        steps[j].2 is Done,
        forall|a: int| j <= a < steps.len() ==> !((#[trigger] steps[a]).3 is Create),
{
    assert(step_holds(p, prepare, has_web, steps[j]));
    assert forall|a: int| j <= a < steps.len() implies !((#[trigger] steps[a]).3 is Create) by {
        if steps[a].3 is Create {
            assert(step_holds(p, prepare, has_web, steps[a]));
            if a > j {
                lemma_past_pull_persists(p, prepare, has_web, steps, j, a);
            }
        }
    }
}

/// A deploy that finds its container already running keeps it for the whole
/// run: the first step only re-applies its vhosts, no step pulls or creates,
/// and once the vhosts are applied the run reports that container as
/// `RUNNING`.
pub proof fn lemma_running_container_is_kept_for_the_run(
    p: DeployPayload,
    has_web: bool,
    list: Vec<ContainerSummary>,
    i: int,
    steps: Seq<(DeployPhase, DeployEvent, DeployPhase, DeployAction)>,
)
    requires
        is_run(p, false, has_web, steps),
        steps.len() > 0,
        steps[0].0 is Lookup,
        steps[0].1 == DeployEvent::Listed(Ok(list)),
        first_managed(list@, p.deployment_id@, i),
        list@[i].state@ == "running"@,
    ensures
        steps[0].2 matches DeployPhase::Republishing(id) && id@ == list@[i].id@,
        steps[0].3 == DeployAction::ApplyVhost(false),
        forall|a: int| 0 <= a < steps.len() ==> !((#[trigger] steps[a]).3 is Pull || steps[a].3 is Create),
        steps.len() > 1 && steps[1].1 == DeployEvent::Published(Ok(())) ==> succeeds_with(
            steps[1].3,
            list@[i].id@,
            "RUNNING"@,
            None,
        ),
{
    assert(step_holds(p, false, has_web, steps[0]));
    lemma_redelivered_deploy_keeps_its_running_container(p, has_web, list, i, steps[0].2, steps[0].3);
    assert forall|a: int| 0 <= a < steps.len() implies !((#[trigger] steps[a]).3 is Pull || steps[a].3 is Create) by {
        if a > 0 {
            assert(step_holds(p, false, has_web, steps[a]));
            lemma_past_pull_persists(p, false, has_web, steps, 0, a);
            lemma_step_enters_created(p, false, has_web, steps[a].0, steps[a].1, steps[a].2, steps[a].3);
        }
    }
    if steps.len() > 1 {
        assert(chained(steps, 1));
        assert(step_holds(p, false, has_web, steps[1]));
    }
}

} // verus!
