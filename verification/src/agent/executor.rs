//! The executor's other decisions: which routine a task runs, how its
//! outcome is reported, the container calls of the lifecycle tasks, and
//! the scope rule for removing volume directories.

use crate::agent::deploy_flow::{opt_text, ExecutionSuccess};
use crate::agent::docker::ContainerSummary;
use crate::agent::tasks::{
    find_by_id, find_managed, managed_for, report_error, reported_error, ExecutionFailure, VOLUME_ROOT,
};
use crate::shared::TaskType;
use crate::text::{chars_of, contains, contains_seq, equals_str, push_str, starts_with, starts_with_seq, string_from};
use vstd::prelude::*;

verus! {

/// The kind of payload a task carries.
pub enum PayloadKind {
    Deploy,
    Replacement,
    Publish,
    Container,
    Volume,
    VolumeBatch,
    Nothing,
}

/// The routine that runs a task.
#[derive(Debug)]
pub enum Routine {
    Deploy,
    Prepare,
    Quiesce,
    Rollback,
    Publish,
    Stop,
    Restart,
    Remove,
    RemoveVolume,
    PurgeVolumes,
    Upgrade,
    RefreshInventory,
}

/// The routine for each task kind with the payload it must carry.
pub open spec fn routine_for(task: TaskType, payload: PayloadKind) -> Option<Routine> {
    match (task, payload) {
        (TaskType::DeployContainer, PayloadKind::Deploy) => Some(Routine::Deploy),
        (TaskType::PrepareDeploy, PayloadKind::Deploy) => Some(Routine::Prepare),
        (TaskType::QuiesceContainer, PayloadKind::Replacement) => Some(Routine::Quiesce),
        (TaskType::RollbackContainer, PayloadKind::Replacement) => Some(Routine::Rollback),
        (TaskType::PublishVhost, PayloadKind::Publish) => Some(Routine::Publish),
        (TaskType::StopContainer, PayloadKind::Container) => Some(Routine::Stop),
        (TaskType::RestartContainer, PayloadKind::Container) => Some(Routine::Restart),
        (TaskType::RemoveContainer, PayloadKind::Container) => Some(Routine::Remove),
        (TaskType::RemoveVolume, PayloadKind::Volume) => Some(Routine::RemoveVolume),
        (TaskType::PurgeVolumes, PayloadKind::VolumeBatch) => Some(Routine::PurgeVolumes),
        (TaskType::UpgradeAgent, PayloadKind::Nothing) => Some(Routine::Upgrade),
        (TaskType::RefreshInventory, PayloadKind::Nothing) => Some(Routine::RefreshInventory),
        _ => None,
    }
}

/// Which routine runs a task; any other combination of kind and payload
/// fails the task.
pub fn dispatch(task: TaskType, payload: PayloadKind) -> (r: Result<Routine, ExecutionFailure>)
    ensures
        match routine_for(task, payload) {
            Some(routine) => r == Ok::<Routine, ExecutionFailure>(routine),
            None => r matches Err(f) && f.stage@ == "TASK"@ && f.message@
                == "unsupported task/payload combination: "@ + task.name_spec() && f.container_id is None
                && f.health_status is None && f.health_detail is None,
        },
{
    match (task, payload) {
        (TaskType::DeployContainer, PayloadKind::Deploy) => Ok(Routine::Deploy),
        (TaskType::PrepareDeploy, PayloadKind::Deploy) => Ok(Routine::Prepare),
        (TaskType::QuiesceContainer, PayloadKind::Replacement) => Ok(Routine::Quiesce),
        (TaskType::RollbackContainer, PayloadKind::Replacement) => Ok(Routine::Rollback),
        (TaskType::PublishVhost, PayloadKind::Publish) => Ok(Routine::Publish),
        (TaskType::StopContainer, PayloadKind::Container) => Ok(Routine::Stop),
        (TaskType::RestartContainer, PayloadKind::Container) => Ok(Routine::Restart),
        (TaskType::RemoveContainer, PayloadKind::Container) => Ok(Routine::Remove),
        (TaskType::RemoveVolume, PayloadKind::Volume) => Ok(Routine::RemoveVolume),
        (TaskType::PurgeVolumes, PayloadKind::VolumeBatch) => Ok(Routine::PurgeVolumes),
        (TaskType::UpgradeAgent, PayloadKind::Nothing) => Ok(Routine::Upgrade),
        (TaskType::RefreshInventory, PayloadKind::Nothing) => Ok(Routine::RefreshInventory),
        _ => {
            let mut m = string_from("unsupported task/payload combination: ");
            push_str(&mut m, task.as_str());
            Err(ExecutionFailure::new("TASK", m.as_str()))
        },
    }
}

/// What the agent reports of a finished task (host evidence is attached
/// by the caller for an inventory refresh).
#[derive(Debug)]
pub struct TaskResult {
    pub success: bool,
    pub container_id: Option<String>,
    pub error: Option<String>,
    pub failure_stage: Option<String>,
    pub health_status: Option<String>,
    pub health_detail: Option<String>,
}

/// A success reports its container and health; a failure its stage, its
/// message cut to 1000 characters, and what it knows of the container.
pub fn task_result(outcome: Result<ExecutionSuccess, ExecutionFailure>) -> (r: TaskResult)
    ensures
        match outcome {
            Ok(s) => r.success && r.container_id == s.container_id && r.error is None && r.failure_stage is None
                && r.health_status == s.health_status && r.health_detail == s.health_detail,
            Err(f) => !r.success && r.container_id == f.container_id && opt_text(r.error) == Some(
                reported_error(f.message@),
            ) && r.failure_stage == Some(f.stage) && r.health_status == f.health_status && r.health_detail
                == f.health_detail,
        },
{
    match outcome {
        Ok(s) => TaskResult {
            success: true,
            container_id: s.container_id,
            error: None,
            failure_stage: None,
            health_status: s.health_status,
            health_detail: s.health_detail,
        },
        Err(f) => TaskResult {
            success: false,
            container_id: f.container_id,
            error: Some(report_error(f.message.as_str())),
            failure_stage: Some(f.stage),
            health_status: f.health_status,
            health_detail: f.health_detail,
        },
    }
}

/// The container a lifecycle task acts on: an adopted container by its
/// docker id, otherwise the one managed for the deployment.
pub fn resolve_target(list: &Vec<ContainerSummary>, container_id: Option<&str>, deployment_id: &str) -> (r: Option<
    (String, String),
>)
    ensures
        container_id is None ==> match r {
            Some((id, state)) => exists|i: int|
                0 <= i < list@.len() && managed_for(#[trigger] list@[i], deployment_id@) && list@[i].id@ == id@
                    && list@[i].state@ == state@ && forall|k: int|
                    0 <= k < i ==> !managed_for(#[trigger] list@[k], deployment_id@),
            None => forall|i: int| 0 <= i < list@.len() ==> !managed_for(#[trigger] list@[i], deployment_id@),
        },
        container_id matches Some(cid) ==> match r {
            Some((id, state)) => exists|i: int|
                0 <= i < list@.len() && starts_with((#[trigger] list@[i]).id@, cid@) && list@[i].id@ == id@
                    && list@[i].state@ == state@ && forall|k: int|
                    0 <= k < i ==> !starts_with((#[trigger] list@[k]).id@, cid@),
            None => forall|i: int| 0 <= i < list@.len() ==> !starts_with((#[trigger] list@[i]).id@, cid@),
        },
{
    match container_id {
        Some(cid) => find_by_id(list, cid),
        None => find_managed(list, deployment_id),
    }
}

/// The lifecycle tasks on a deployment's container.
pub enum Lifecycle {
    /// Withdraw the vhost, stop and remove the container, reclaim its image.
    Stop,
    /// Withdraw the vhost, remove the container, reclaim its image.
    Remove,
    /// Stop the predecessor of a replacement but keep it and its image.
    Quiesce,
    /// Bring a quiesced predecessor back and re-apply its vhosts.
    Rollback,
    Restart,
}

/// A call on the container.
#[derive(Debug)]
pub enum ContainerOp {
    /// Note the image it was created from (best effort).
    InspectImage(String),
    /// Stop it with a 30 second grace period.
    Stop(String),
    Remove(String),
    Start(String),
    /// Restart it with a 30 second grace period.
    Restart(String),
    /// Remove the noted image unless another container uses it (best
    /// effort).
    ReclaimImage,
    /// Withdraw the deployment's vhost; when that fails, start the
    /// container again and fail with `quiesce_vhost_failure`.
    WithdrawVhostOrRestart(String),
    /// Re-apply the deployment's vhosts.
    ApplyVhost,
}

/// Stop and remove withdraw the public route before they look for the
/// container, also when Docker has lost it already.
pub open spec fn withdraws_first(task: Lifecycle) -> bool {
    task is Stop || task is Remove
}

pub fn withdraws_vhost_first(task: &Lifecycle) -> (b: bool)
    ensures
        b == withdraws_first(*task),
{
    match task {
        Lifecycle::Stop | Lifecycle::Remove => true,
        _ => false,
    }
}

pub open spec fn is_running(state: Seq<char>) -> bool {
    state == "running"@
}

/// The calls a lifecycle task makes on the container it found, in order;
/// the first that fails ends the task with its error's text. A container
/// that is gone is success for stop and remove, and an error for the
/// others.
pub open spec fn lifecycle_spec(task: Lifecycle, found: Option<(String, String)>) -> Result<Seq<ContainerOp>, Seq<char>> {
    match found {
        None => match task {
            Lifecycle::Stop | Lifecycle::Remove => Ok(Seq::empty()),
            Lifecycle::Quiesce => Err("replacement predecessor is missing"@),
            Lifecycle::Rollback => Err("rollback container is missing"@),
            Lifecycle::Restart => Err("managed container not found on host"@),
        },
        Some((id, state)) => Ok(
            match task {
                Lifecycle::Stop => if is_running(state@) {
                    seq![ContainerOp::InspectImage(id), ContainerOp::Stop(id), ContainerOp::Remove(id), ContainerOp::ReclaimImage]
                } else {
                    seq![ContainerOp::InspectImage(id), ContainerOp::Remove(id), ContainerOp::ReclaimImage]
                },
                Lifecycle::Remove => seq![ContainerOp::InspectImage(id), ContainerOp::Remove(id), ContainerOp::ReclaimImage],
                Lifecycle::Quiesce => if is_running(state@) {
                    seq![ContainerOp::Stop(id), ContainerOp::WithdrawVhostOrRestart(id)]
                } else {
                    seq![ContainerOp::WithdrawVhostOrRestart(id)]
                },
                Lifecycle::Rollback => if is_running(state@) {
                    seq![ContainerOp::ApplyVhost]
                } else {
                    seq![ContainerOp::Start(id), ContainerOp::ApplyVhost]
                },
                Lifecycle::Restart => if is_running(state@) {
                    seq![ContainerOp::Restart(id)]
                } else {
                    seq![ContainerOp::Start(id)]
                },
            },
        ),
    }
}

/// Teardown is idempotent: a stop or removal delivered again after the
/// container is gone succeeds without a call.
pub proof fn lemma_teardown_of_a_missing_container_succeeds(task: Lifecycle)
    requires
        withdraws_first(task),
    ensures
        lifecycle_spec(task, None) == Ok::<Seq<ContainerOp>, Seq<char>>(Seq::empty()),
{
}

pub fn lifecycle_ops(task: Lifecycle, found: Option<(String, String)>) -> (r: Result<Vec<ContainerOp>, String>)
    ensures
        match lifecycle_spec(task, found) {
            Ok(ops) => r matches Ok(v) && v@ == ops,
            Err(m) => r matches Err(e) && e@ == m,
        },
{
    let (id, state) = match found {
        None => {
            return match task {
                Lifecycle::Stop | Lifecycle::Remove => Ok(Vec::new()),
                Lifecycle::Quiesce => Err(string_from("replacement predecessor is missing")),
                Lifecycle::Rollback => Err(string_from("rollback container is missing")),
                Lifecycle::Restart => Err(string_from("managed container not found on host")),
            };
        },
        Some(f) => f,
    };
    let running = equals_str(chars_of(state.as_str()).as_slice(), "running");
    let mut ops: Vec<ContainerOp> = Vec::new();
    match task {
        Lifecycle::Stop => {
            ops.push(ContainerOp::InspectImage(id.clone()));
            if running {
                ops.push(ContainerOp::Stop(id.clone()));
            }
            ops.push(ContainerOp::Remove(id));
            ops.push(ContainerOp::ReclaimImage);
        },
        Lifecycle::Remove => {
            ops.push(ContainerOp::InspectImage(id.clone()));
            ops.push(ContainerOp::Remove(id));
            ops.push(ContainerOp::ReclaimImage);
        },
        Lifecycle::Quiesce => {
            if running {
                ops.push(ContainerOp::Stop(id.clone()));
            }
            ops.push(ContainerOp::WithdrawVhostOrRestart(id));
        },
        Lifecycle::Rollback => {
            if !running {
                ops.push(ContainerOp::Start(id));
            }
            ops.push(ContainerOp::ApplyVhost);
        },
        Lifecycle::Restart => {
            if running {
                ops.push(ContainerOp::Restart(id));
            } else {
                ops.push(ContainerOp::Start(id));
            }
        },
    }
    assert(ops@ =~= lifecycle_spec(task, Some((id, state)))->Ok_0);
    Ok(ops)
}

/// Why a quiesce failed when the predecessor's vhost could not be
/// withdrawn.
pub fn quiesce_vhost_failure(error: &str) -> (r: String)
    ensures
        r@ == "could not withdraw predecessor vhost: "@ + error@,
{
    let mut m = string_from("could not withdraw predecessor vhost: ");
    push_str(&mut m, error);
    m
}

/// Publishing needs the managed container, running; the vhosts are then
/// applied and the container reported healthy.
pub fn publish_target(found: Option<(String, String)>) -> (r: Result<String, ExecutionFailure>)
    ensures
        match found {
            None => r matches Err(f) && f.stage@ == "PUBLISH"@ && f.message@ == "managed container is missing"@
                && f.container_id is None && f.health_status is None && f.health_detail is None,
            Some((id, state)) => if is_running(state@) {
                r == Ok::<String, ExecutionFailure>(id)
            } else {
                r matches Err(f) && f.stage@ == "PUBLISH"@ && f.message@ == "container is "@ + state@
                    + ", not running"@ && f.container_id is None && f.health_status is None
                    && f.health_detail is None
            },
        },
{
    match found {
        None => Err(ExecutionFailure::new("PUBLISH", "managed container is missing")),
        Some((id, state)) => {
            if equals_str(chars_of(state.as_str()).as_slice(), "running") {
                Ok(id)
            } else {
                let mut m = string_from("container is ");
                push_str(&mut m, state.as_str());
                push_str(&mut m, ", not running");
                Err(ExecutionFailure::new("PUBLISH", m.as_str()))
            }
        },
    }
}

/// A published container's success report.
pub fn published(id: String) -> (r: ExecutionSuccess)
    ensures
        r.container_id == Some(id),
        opt_text(r.health_status) == Some("HEALTHY"@),
        r.health_detail is None,
{
    ExecutionSuccess { container_id: Some(id), health_status: Some(string_from("HEALTHY")), health_detail: None }
}

/// A volume directory may be removed only when it lies strictly below the
/// volume root (something follows the root's text) and never climbs.
pub open spec fn removable_volume_path(path: Seq<char>) -> bool {
    starts_with(path, VOLUME_ROOT@) && !contains(path, ".."@) && path.len() > VOLUME_ROOT@.len()
}

pub fn check_volume_removal(path: &str) -> (r: Result<(), String>)
    ensures
        r is Ok <==> removable_volume_path(path@),
        r matches Err(m) ==> m@ == "refusing to remove path outside "@ + VOLUME_ROOT@,
{
    let v = chars_of(path);
    let root = chars_of(VOLUME_ROOT);
    let dots = chars_of("..");
    let ok = starts_with_seq(v.as_slice(), root.as_slice()) && !contains_seq(v.as_slice(), dots.as_slice());
    if !ok {
        let mut m = string_from("refusing to remove path outside ");
        push_str(&mut m, VOLUME_ROOT);
        return Err(m);
    }
    if v.len() <= root.len() {
        let mut m = string_from("refusing to remove path outside ");
        push_str(&mut m, VOLUME_ROOT);
        return Err(m);
    }
    Ok(())
}

/// How a removal went: a directory that was already gone counts as
/// removed.
pub fn volume_removal_result(error: Option<(bool, String)>) -> (r: Result<(), String>)
    ensures
        match error {
            None => r is Ok,
            Some((not_found, display)) => if not_found {
                r is Ok
            } else {
                r matches Err(m) && m@ == "volume removal failed: "@ + display@
            },
        },
{
    match error {
        None => Ok(()),
        Some((not_found, display)) => {
            if not_found {
                Ok(())
            } else {
                let mut m = string_from("volume removal failed: ");
                push_str(&mut m, display.as_str());
                Err(m)
            }
        },
    }
}

/// A purged volume's directory is made again, empty; why that failed.
pub fn recreation_failure(path: &str, display: &str) -> (r: String)
    ensures
        r@ == "volume recreation failed for "@ + path@ + ": "@ + display@,
{
    let mut m = string_from("volume recreation failed for ");
    push_str(&mut m, path);
    push_str(&mut m, ": ");
    push_str(&mut m, display);
    m
}

/// The running container a shell opens in: an adopted container by its
/// docker id, otherwise the one managed for the deployment (from the
/// listing of running containers).
pub fn shell_target(running: &Vec<ContainerSummary>, container_id: Option<&str>, deployment_id: &str) -> (r: Result<
    String,
    String,
>)
    ensures
        container_id is None ==> match r {
            Ok(id) => exists|i: int|
                0 <= i < running@.len() && managed_for(#[trigger] running@[i], deployment_id@) && running@[i].id@
                    == id@ && forall|k: int| 0 <= k < i ==> !managed_for(#[trigger] running@[k], deployment_id@),
            Err(m) => m@ == "no running managed container for this deployment"@ && forall|i: int|
                0 <= i < running@.len() ==> !managed_for(#[trigger] running@[i], deployment_id@),
        },
        container_id matches Some(cid) ==> match r {
            Ok(id) => exists|i: int|
                0 <= i < running@.len() && starts_with((#[trigger] running@[i]).id@, cid@) && running@[i].id@ == id@
                    && forall|k: int| 0 <= k < i ==> !starts_with((#[trigger] running@[k]).id@, cid@),
            Err(m) => m@ == "adopted container is not running"@ && forall|i: int|
                0 <= i < running@.len() ==> !starts_with((#[trigger] running@[i]).id@, cid@),
        },
{
    match resolve_target(running, container_id, deployment_id) {
        Some((id, _)) => Ok(id),
        None => match container_id {
            Some(_) => Err(string_from("adopted container is not running")),
            None => Err(string_from("no running managed container for this deployment")),
        },
    }
}

} // verus!
