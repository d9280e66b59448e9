//! What an agent's task result does to the deployment state machine,
//! including the replacement chain: prepare the successor, quiesce and
//! retain the predecessor, publish the healthy successor, then retire the
//! predecessor. The caller reads the facts inside the result's
//! transaction and carries out the plan in order.

use crate::controller::error::AppError;
use crate::controller::lifecycle::DeploymentState;
use crate::shared::{SlotState, TaskType};
use crate::text::{chars_of, slice_chars, string_from, string_of};
use vstd::prelude::*;

verus! {

use DeploymentState as D;

/// Which deployment a step acts on: the task's own deployment, the one it
/// replaces (its predecessor), or the one replacing it (its successor).
#[derive(Clone, Copy, Debug, PartialEq, Eq, Structural)]
pub enum Subject {
    This,
    Predecessor,
    Successor,
}

/// The detail recorded with a state move.
#[derive(Clone, Copy, Debug, PartialEq, Eq, Structural)]
pub enum Detail {
    /// No detail.
    Plain,
    /// `{"error": <reported error>}` when the agent reported one.
    ReportedError,
    /// `{"retained_for": <successor id>}`.
    RetainedFor,
    /// `{"replaced_by": <successor id>}`.
    ReplacedBy,
    /// `{"reason": "replacement publication failed; restoring predecessor"}`.
    RestoringPredecessor,
    /// `{"reason": "replacement rolled back"}`.
    RolledBack,
    /// `{"reason": "predecessor removal failed"}`.
    PredecessorRemovalFailed,
    /// `{"successor": <successor id>}`.
    SuccessorReady,
    /// `{"rollback_from": <successor id>}`.
    RollbackFrom,
}

/// One step of applying a result, in order.
#[derive(Clone, Copy, Debug, PartialEq, Eq, Structural)]
pub enum Step {
    /// Move a deployment through the state machine.
    Move(Subject, DeploymentState, Detail),
    /// Set every member slot of a deployment.
    Slots(Subject, SlotState),
    /// Queue a task for a deployment on the task's server.
    Enqueue(Subject, TaskType),
    /// Queue the volume purge a deployment needs, or its deploy when it
    /// needs none.
    PurgeOrDeploy(Subject),
    /// Queue a deployment's deploy.
    Deploy(Subject),
    /// Record a deployment as failed with the reported error; its slots are
    /// freed when nothing can be left on them, else marked failed.
    Fail(Subject, bool),
    /// Fail a replacement successor and hand its slots back to a running
    /// predecessor.
    FailSuccessor(Subject),
    /// Undo a replacement: restore what the predecessor was doing.
    RollbackReplacement,
    /// Retire a stopped or failed predecessor once its successor runs.
    FinishReplacement,
    /// Store the deployed container's id (at most 64 characters) and its
    /// health, clearing the error.
    RecordDeployed,
    /// Store the container, health and error of a failed publication.
    RecordPublishFailed,
    /// Clear the deployment's error.
    ClearError,
    /// Store the reported error.
    RecordError,
    /// Store on the successor that its replacement was aborted.
    RecordSuccessorAborted,
    /// Clear the predecessor's link to its successor.
    UnlinkPredecessor,
}

/// What the caller read before deciding.
#[derive(Clone, Copy, Debug, PartialEq, Eq, Structural)]
pub struct ResultFacts {
    /// The task concerns a deployment.
    pub has_deployment: bool,
    /// The deployment's successor, if it is being replaced.
    pub has_successor: bool,
    /// The state of the deployment this one replaces, if any.
    pub predecessor: Option<DeploymentState>,
    /// A failed deploy reached publication with a container in place.
    pub failed_at_publish_with_container: bool,
    /// A stopped predecessor is retained for this deployment.
    pub retained_predecessor: bool,
    /// A stopped predecessor waits on this deployment.
    pub stopped_predecessor: bool,
}

pub open spec fn quiesced_without_successor() -> Seq<char> {
    "quiesced deployment has no successor"@
}

pub open spec fn predecessor_missing() -> Seq<char> {
    "replacement predecessor not found"@
}

/// The plan for a task result, or the error that aborts the transaction
/// (its HTTP status and text: 404 for a missing row, 400 for a refusal).
pub open spec fn result_plan(task: TaskType, success: bool, f: ResultFacts) -> Result<
    Seq<Step>,
    (u16, Seq<char>),
> {
    if !f.has_deployment {
        Ok(Seq::empty())
    } else {
        match (task, success) {
            (TaskType::PrepareDeploy, true) => match f.predecessor {
                None => Err((404u16, predecessor_missing())),
                Some(D::Running) => Ok(
                    seq![
                        Step::Move(Subject::This, D::Prepared, Detail::Plain),
                        Step::Move(Subject::Predecessor, D::Stopping, Detail::Plain),
                        Step::Slots(Subject::Predecessor, SlotState::Stopping),
                        Step::Enqueue(Subject::Predecessor, TaskType::QuiesceContainer),
                    ],
                ),
                Some(_) => Ok(
                    seq![
                        Step::Move(Subject::This, D::Prepared, Detail::Plain),
                        Step::PurgeOrDeploy(Subject::This),
                    ],
                ),
            },
            (TaskType::PrepareDeploy, false) => Ok(seq![Step::FailSuccessor(Subject::This)]),
            (TaskType::DeployContainer, true) => Ok(
                seq![
                    Step::RecordDeployed,
                    Step::Move(Subject::This, D::Running, Detail::ReportedError),
                    Step::Slots(Subject::This, SlotState::Running),
                    Step::FinishReplacement,
                ],
            ),
            (TaskType::DeployContainer, false) => if f.failed_at_publish_with_container {
                if f.retained_predecessor {
                    Ok(
                        seq![
                            Step::RecordPublishFailed,
                            Step::Move(Subject::This, D::PublishFailed, Detail::ReportedError),
                            Step::Slots(Subject::This, SlotState::Running),
                            Step::Move(Subject::This, D::Stopping, Detail::RestoringPredecessor),
                            Step::Enqueue(Subject::This, TaskType::StopContainer),
                        ],
                    )
                } else {
                    Ok(
                        seq![
                            Step::RecordPublishFailed,
                            Step::Move(Subject::This, D::PublishFailed, Detail::ReportedError),
                            Step::Slots(Subject::This, SlotState::Running),
                        ],
                    )
                }
            } else {
                Ok(seq![Step::Fail(Subject::This, true), Step::RollbackReplacement])
            },
            (TaskType::PublishVhost, true) => Ok(
                seq![
                    Step::ClearError,
                    Step::Move(Subject::This, D::Running, Detail::Plain),
                    Step::Slots(Subject::This, SlotState::Running),
                    Step::FinishReplacement,
                ],
            ),
            (TaskType::PublishVhost, false) => Ok(seq![Step::RecordError]),
            (TaskType::QuiesceContainer, true) => if !f.has_successor {
                Err((400u16, quiesced_without_successor()))
            } else {
                Ok(
                    seq![
                        Step::Move(Subject::This, D::Stopped, Detail::RetainedFor),
                        Step::Slots(Subject::This, SlotState::Reserved),
                        Step::PurgeOrDeploy(Subject::Successor),
                    ],
                )
            },
            (TaskType::QuiesceContainer, false) => if f.has_successor {
                Ok(seq![Step::Fail(Subject::This, false), Step::FailSuccessor(Subject::Successor)])
            } else {
                Ok(seq![Step::Fail(Subject::This, false)])
            },
            (TaskType::StopContainer, true) => if f.stopped_predecessor {
                Ok(
                    seq![
                        Step::Move(Subject::This, D::Stopped, Detail::ReportedError),
                        Step::Slots(Subject::This, SlotState::Reserved),
                        Step::Move(Subject::This, D::Failed, Detail::RolledBack),
                        Step::Slots(Subject::This, SlotState::Free),
                        Step::RollbackReplacement,
                    ],
                )
            } else if f.has_successor {
                Ok(
                    seq![
                        Step::Move(Subject::This, D::Stopped, Detail::ReportedError),
                        Step::Slots(Subject::This, SlotState::Reserved),
                        Step::Enqueue(Subject::This, TaskType::RemoveContainer),
                    ],
                )
            } else {
                Ok(
                    seq![
                        Step::Move(Subject::This, D::Stopped, Detail::ReportedError),
                        Step::Slots(Subject::This, SlotState::Reserved),
                    ],
                )
            },
            (TaskType::StopContainer, false) => Ok(seq![Step::Fail(Subject::This, false)]),
            (TaskType::RestartContainer, true) | (TaskType::RollbackContainer, true) => Ok(
                seq![
                    Step::Move(Subject::This, D::Running, Detail::ReportedError),
                    Step::Slots(Subject::This, SlotState::Running),
                ],
            ),
            (TaskType::RestartContainer, false) | (TaskType::RollbackContainer, false) => Ok(
                seq![
                    Step::Move(Subject::This, D::Failed, Detail::ReportedError),
                    Step::Slots(Subject::This, SlotState::Failed),
                ],
            ),
            (TaskType::RemoveContainer, true) => if f.has_successor {
                Ok(
                    seq![
                        Step::Move(Subject::This, D::Replaced, Detail::ReplacedBy),
                        Step::Slots(Subject::Successor, SlotState::Running),
                    ],
                )
            } else {
                Ok(
                    seq![
                        Step::Move(Subject::This, D::Removed, Detail::ReportedError),
                        Step::Slots(Subject::This, SlotState::Free),
                    ],
                )
            },
            (TaskType::RemoveContainer, false) => if f.has_successor {
                Ok(
                    seq![
                        Step::Fail(Subject::This, false),
                        Step::RecordSuccessorAborted,
                        Step::Move(Subject::Successor, D::Failed, Detail::PredecessorRemovalFailed),
                    ],
                )
            } else {
                Ok(seq![Step::Fail(Subject::This, false)])
            },
            (TaskType::PurgeVolumes, true) => Ok(seq![Step::Deploy(Subject::This)]),
            (TaskType::PurgeVolumes, false) => Ok(seq![Step::Fail(Subject::This, true)]),
            _ => Ok(Seq::empty()),
        }
    }
}

pub open spec fn error_is(e: AppError, g: (u16, Seq<char>)) -> bool {
    match e {
        AppError::NotFound(x) => g.0 == 404 && x@ == g.1,
        AppError::BadRequest(x) => g.0 == 400 && x@ == g.1,
        _ => false,
    }
}

pub open spec fn plan_matches(r: Result<Vec<Step>, AppError>, expected: Result<Seq<Step>, (u16, Seq<char>)>) -> bool {
    match (r, expected) {
        (Ok(p), Ok(q)) => p@ == q,
        (Err(e), Err(g)) => error_is(e, g),
        _ => false,
    }
}

fn steps1(a: Step) -> (r: Vec<Step>)
    ensures
        r@ == seq![a],
{
    let mut v: Vec<Step> = Vec::new();
    v.push(a);
    assert(v@ =~= seq![a]);
    v
}

fn steps2(a: Step, b: Step) -> (r: Vec<Step>)
    ensures
        r@ == seq![a, b],
{
    let mut v = steps1(a);
    v.push(b);
    assert(v@ =~= seq![a, b]);
    v
}

fn steps3(a: Step, b: Step, c: Step) -> (r: Vec<Step>)
    ensures
        r@ == seq![a, b, c],
{
    let mut v = steps2(a, b);
    v.push(c);
    assert(v@ =~= seq![a, b, c]);
    v
}

fn steps4(a: Step, b: Step, c: Step, d: Step) -> (r: Vec<Step>)
    ensures
        r@ == seq![a, b, c, d],
{
    let mut v = steps3(a, b, c);
    v.push(d);
    assert(v@ =~= seq![a, b, c, d]);
    v
}

fn steps5(a: Step, b: Step, c: Step, d: Step, e: Step) -> (r: Vec<Step>)
    ensures
        r@ == seq![a, b, c, d, e],
{
    let mut v = steps4(a, b, c, d);
    v.push(e);
    assert(v@ =~= seq![a, b, c, d, e]);
    v
}

/// Decides how a task result moves its deployment (and, in a replacement,
/// its predecessor or successor).
pub fn plan_result(task: TaskType, success: bool, f: ResultFacts) -> (r: Result<
    Vec<Step>,
    AppError,
>)
    ensures
        plan_matches(r, result_plan(task, success, f)),
{
    if !f.has_deployment {
        return Ok(Vec::new());
    }
    let r = match (task, success) {
        (TaskType::PrepareDeploy, true) => match f.predecessor {
            None => {
                return Err(AppError::NotFound(string_from("replacement predecessor not found")));
            },
            Some(D::Running) => steps4(Step::Move(Subject::This, D::Prepared, Detail::Plain), Step::Move(Subject::Predecessor, D::Stopping, Detail::Plain), Step::Slots(Subject::Predecessor, SlotState::Stopping), Step::Enqueue(Subject::Predecessor, TaskType::QuiesceContainer)),
            Some(_) => steps2(Step::Move(Subject::This, D::Prepared, Detail::Plain), Step::PurgeOrDeploy(Subject::This)),
        },
        (TaskType::PrepareDeploy, false) => steps1(Step::FailSuccessor(Subject::This)),
        (TaskType::DeployContainer, true) => steps4(Step::RecordDeployed, Step::Move(Subject::This, D::Running, Detail::ReportedError), Step::Slots(Subject::This, SlotState::Running), Step::FinishReplacement),
        (TaskType::DeployContainer, false) => if f.failed_at_publish_with_container {
            if f.retained_predecessor {
                steps5(Step::RecordPublishFailed, Step::Move(Subject::This, D::PublishFailed, Detail::ReportedError), Step::Slots(Subject::This, SlotState::Running), Step::Move(Subject::This, D::Stopping, Detail::RestoringPredecessor), Step::Enqueue(Subject::This, TaskType::StopContainer))
            } else {
                steps3(Step::RecordPublishFailed, Step::Move(Subject::This, D::PublishFailed, Detail::ReportedError), Step::Slots(Subject::This, SlotState::Running))
            }
        } else {
            steps2(Step::Fail(Subject::This, true), Step::RollbackReplacement)
        },
        (TaskType::PublishVhost, true) => steps4(Step::ClearError, Step::Move(Subject::This, D::Running, Detail::Plain), Step::Slots(Subject::This, SlotState::Running), Step::FinishReplacement),
        (TaskType::PublishVhost, false) => steps1(Step::RecordError),
        (TaskType::QuiesceContainer, true) => {
            if !f.has_successor {
                return Err(AppError::BadRequest(string_from("quiesced deployment has no successor")));
            }
            steps3(Step::Move(Subject::This, D::Stopped, Detail::RetainedFor), Step::Slots(Subject::This, SlotState::Reserved), Step::PurgeOrDeploy(Subject::Successor))
        },
        (TaskType::QuiesceContainer, false) => if f.has_successor {
            steps2(Step::Fail(Subject::This, false), Step::FailSuccessor(Subject::Successor))
        } else {
            steps1(Step::Fail(Subject::This, false))
        },
        (TaskType::StopContainer, true) => if f.stopped_predecessor {
            steps5(Step::Move(Subject::This, D::Stopped, Detail::ReportedError), Step::Slots(Subject::This, SlotState::Reserved), Step::Move(Subject::This, D::Failed, Detail::RolledBack), Step::Slots(Subject::This, SlotState::Free), Step::RollbackReplacement)
        } else if f.has_successor {
            steps3(Step::Move(Subject::This, D::Stopped, Detail::ReportedError), Step::Slots(Subject::This, SlotState::Reserved), Step::Enqueue(Subject::This, TaskType::RemoveContainer))
        } else {
            steps2(Step::Move(Subject::This, D::Stopped, Detail::ReportedError), Step::Slots(Subject::This, SlotState::Reserved))
        },
        (TaskType::StopContainer, false) => steps1(Step::Fail(Subject::This, false)),
        (TaskType::RestartContainer, true) | (TaskType::RollbackContainer, true) => steps2(Step::Move(Subject::This, D::Running, Detail::ReportedError), Step::Slots(Subject::This, SlotState::Running)),
        (TaskType::RestartContainer, false) | (TaskType::RollbackContainer, false) => steps2(Step::Move(Subject::This, D::Failed, Detail::ReportedError), Step::Slots(Subject::This, SlotState::Failed)),
        (TaskType::RemoveContainer, true) => if f.has_successor {
            steps2(Step::Move(Subject::This, D::Replaced, Detail::ReplacedBy), Step::Slots(Subject::Successor, SlotState::Running))
        } else {
            steps2(Step::Move(Subject::This, D::Removed, Detail::ReportedError), Step::Slots(Subject::This, SlotState::Free))
        },
        (TaskType::RemoveContainer, false) => if f.has_successor {
            steps3(Step::Fail(Subject::This, false), Step::RecordSuccessorAborted, Step::Move(Subject::Successor, D::Failed, Detail::PredecessorRemovalFailed))
        } else {
            steps1(Step::Fail(Subject::This, false))
        },
        (TaskType::PurgeVolumes, true) => steps1(Step::Deploy(Subject::This)),
        (TaskType::PurgeVolumes, false) => steps1(Step::Fail(Subject::This, true)),
        _ => Vec::new(),
    };
    proof {
        reveal_strlit("replacement predecessor not found");
        reveal_strlit("quiesced deployment has no successor");
    }
    Ok(r)
}

/// Retiring the predecessor once its successor runs: a stopped or failed
/// predecessor is removed; any other is left alone.
pub open spec fn finish_replacement_spec(predecessor: Option<DeploymentState>) -> Seq<Step> {
    match predecessor {
        Some(D::Stopped) | Some(D::Failed) => seq![
            Step::Move(Subject::Predecessor, D::Removing, Detail::SuccessorReady),
            Step::Enqueue(Subject::Predecessor, TaskType::RemoveContainer),
        ],
        _ => Seq::empty(),
    }
}

pub fn finish_replacement(predecessor: Option<DeploymentState>) -> (r: Vec<Step>)
    ensures
        r@ == finish_replacement_spec(predecessor),
{
    match predecessor {
        Some(D::Stopped) | Some(D::Failed) => steps2(
            Step::Move(Subject::Predecessor, D::Removing, Detail::SuccessorReady),
            Step::Enqueue(Subject::Predecessor, TaskType::RemoveContainer),
        ),
        _ => Vec::new(),
    }
}

/// Undoing a replacement: the predecessor is unlinked and goes back to
/// what it was doing. One that was quiesced for this successor restarts;
/// one stopped earlier keeps its reservation; a failed or running one
/// keeps its slots in that state.
pub open spec fn rollback_spec(predecessor: Option<DeploymentState>, quiesced: bool) -> Seq<Step> {
    match predecessor {
        None => Seq::empty(),
        Some(D::Stopped) => if quiesced {
            seq![
                Step::UnlinkPredecessor,
                Step::Move(Subject::Predecessor, D::Restarting, Detail::RollbackFrom),
                Step::Slots(Subject::Predecessor, SlotState::Reserved),
                Step::Enqueue(Subject::Predecessor, TaskType::RollbackContainer),
            ]
        } else {
            seq![Step::UnlinkPredecessor, Step::Slots(Subject::Predecessor, SlotState::Reserved)]
        },
        Some(D::Failed) => seq![
            Step::UnlinkPredecessor,
            Step::Slots(Subject::Predecessor, SlotState::Failed),
        ],
        Some(D::Running) => seq![
            Step::UnlinkPredecessor,
            Step::Slots(Subject::Predecessor, SlotState::Running),
        ],
        Some(_) => seq![Step::UnlinkPredecessor],
    }
}

pub fn rollback_replacement(predecessor: Option<DeploymentState>, quiesced: bool) -> (r: Vec<Step>)
    ensures
        r@ == rollback_spec(predecessor, quiesced),
{
    match predecessor {
        None => Vec::new(),
        Some(D::Stopped) => if quiesced {
            steps4(
                Step::UnlinkPredecessor,
                Step::Move(Subject::Predecessor, D::Restarting, Detail::RollbackFrom),
                Step::Slots(Subject::Predecessor, SlotState::Reserved),
                Step::Enqueue(Subject::Predecessor, TaskType::RollbackContainer),
            )
        } else {
            steps2(Step::UnlinkPredecessor, Step::Slots(Subject::Predecessor, SlotState::Reserved))
        },
        Some(D::Failed) => steps2(
            Step::UnlinkPredecessor,
            Step::Slots(Subject::Predecessor, SlotState::Failed),
        ),
        Some(D::Running) => steps2(
            Step::UnlinkPredecessor,
            Step::Slots(Subject::Predecessor, SlotState::Running),
        ),
        Some(_) => steps1(Step::UnlinkPredecessor),
    }
}

/// Failing a replacement successor: it fails with its slots freed, and a
/// predecessor that is still running gets its slots back and loses the
/// link.
pub open spec fn fail_successor_spec(predecessor: Option<DeploymentState>) -> Seq<Step> {
    if predecessor == Some(D::Running) {
        seq![
            Step::Fail(Subject::This, true),
            Step::Slots(Subject::Predecessor, SlotState::Running),
            Step::UnlinkPredecessor,
        ]
    } else {
        seq![Step::Fail(Subject::This, true)]
    }
}

pub fn fail_replacement_successor(predecessor: Option<DeploymentState>) -> (r: Vec<Step>)
    ensures
        r@ == fail_successor_spec(predecessor),
{
    if predecessor == Some(D::Running) {
        steps3(
            Step::Fail(Subject::This, true),
            Step::Slots(Subject::Predecessor, SlotState::Running),
            Step::UnlinkPredecessor,
        )
    } else {
        steps1(Step::Fail(Subject::This, true))
    }
}

/// The error stored with a failed deployment: the reported one, or "task
/// failed", cut to 2000 characters.
pub open spec fn stored_error(error: Option<Seq<char>>) -> Seq<char> {
    let e = match error {
        Some(e) => e,
        None => "task failed"@,
    };
    if e.len() <= 2000 {
        e
    } else {
        e.take(2000)
    }
}

pub fn failure_message(error: Option<&str>) -> (r: String)
    ensures
        r@ == stored_error(
            match error {
                Some(e) => Some(e@),
                None => None,
            },
        ),
{
    let e = match error {
        Some(e) => chars_of(e),
        None => chars_of("task failed"),
    };
    if e.len() <= 2000 {
        string_of(e.as_slice())
    } else {
        string_of(slice_chars(e.as_slice(), 0, 2000).as_slice())
    }
}

pub open spec fn is_move(step: Step, who: Subject, to: DeploymentState) -> bool {
    match step {
        Step::Move(s, t, _) => s == who && t == to,
        _ => false,
    }
}

pub open spec fn is_fail(step: Step, who: Subject) -> bool {
    match step {
        Step::Fail(s, _) => s == who,
        _ => false,
    }
}

pub open spec fn moves(p: Seq<Step>, who: Subject, to: DeploymentState) -> bool {
    exists|i: int| 0 <= i < p.len() && is_move(#[trigger] p[i], who, to)
}

pub open spec fn fails(p: Seq<Step>, who: Subject) -> bool {
    exists|i: int| 0 <= i < p.len() && is_fail(#[trigger] p[i], who)
}

/// Results of tasks without a deployment, and of housekeeping tasks
/// (volume removal, inventory refresh, log upload, agent upgrade), never
/// touch a deployment.
pub proof fn lemma_housekeeping_leaves_deployments(task: TaskType, success: bool, f: ResultFacts)
    requires
        !f.has_deployment || task == TaskType::RemoveVolume || task == TaskType::RefreshInventory
            || task == TaskType::UploadLogs || task == TaskType::UpgradeAgent,
    ensures
        result_plan(task, success, f) == Ok::<Seq<Step>, (u16, Seq<char>)>(Seq::empty()),
{
}

/// A failed task never brings its deployment to Running, Removed or
/// Replaced.
pub proof fn lemma_failure_never_completes(task: TaskType, f: ResultFacts)
    requires
        result_plan(task, false, f) is Ok,
    ensures
        !moves(result_plan(task, false, f)->Ok_0, Subject::This, D::Running),
        !moves(result_plan(task, false, f)->Ok_0, Subject::This, D::Removed),
        !moves(result_plan(task, false, f)->Ok_0, Subject::This, D::Replaced),
{
}

/// A successful task never records its own deployment as failed.
pub proof fn lemma_success_never_fails_itself(task: TaskType, f: ResultFacts)
    requires
        result_plan(task, true, f) is Ok,
    ensures
        !fails(result_plan(task, true, f)->Ok_0, Subject::This),
{
}

/// A deployment is marked Replaced only when its container was removed
/// for a successor, and that successor's slots are then running.
pub proof fn lemma_replaced_only_after_removal(task: TaskType, success: bool, f: ResultFacts)
    requires
        result_plan(task, success, f) is Ok,
        moves(result_plan(task, success, f)->Ok_0, Subject::This, D::Replaced),
    ensures
        task == TaskType::RemoveContainer,
        success,
        f.has_successor,
        result_plan(task, success, f)->Ok_0.contains(Step::Slots(Subject::Successor, SlotState::Running)),
{
    let p = result_plan(task, success, f)->Ok_0;
    assert(p[1] == Step::Slots(Subject::Successor, SlotState::Running));
}

} // verus!
