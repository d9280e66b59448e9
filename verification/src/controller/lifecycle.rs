//! The deployment state machine: its states, their wire names and the one
//! table of legal moves that every transition is validated against.

use crate::controller::error::AppError;
use crate::text::{chars_of, equals_str, push_str, string_from};
use vstd::prelude::*;

verus! {

#[derive(Clone, Copy, Debug, PartialEq, Eq, Structural, Hash)]
pub enum DeploymentState {
    Pending,
    Validating,
    Prepared,
    PullingImage,
    CreatingContainer,
    Starting,
    WaitingHealth,
    Publishing,
    PublishFailed,
    Running,
    Stopping,
    Stopped,
    Restarting,
    Failed,
    Removing,
    Removed,
    Replaced,
}

use DeploymentState as D;

/// The legal deployment moves. The controller advances coarse steps
/// (dispatch to `PullingImage`, result to `Running`/`Failed`), so the table
/// allows the documented skips.
pub open spec fn legal(from: DeploymentState, to: DeploymentState) -> bool {
    match (from, to) {
        (D::Pending, D::Validating) => true,
        (D::Validating, D::PullingImage) => true,
        (D::Validating, D::Failed) => true,
        (D::PullingImage, D::CreatingContainer) => true,
        (D::PullingImage, D::Running) => true,
        (D::PullingImage, D::Failed) => true,
        (D::CreatingContainer, D::Starting) => true,
        (D::CreatingContainer, D::Failed) => true,
        (D::Starting, D::Running) => true,
        (D::Starting, D::Failed) => true,
        (D::Running, D::Stopping) => true,
        (D::Running, D::Failed) => true,
        (D::Running, D::Replaced) => true,
        (D::Stopping, D::Stopped) => true,
        (D::Stopping, D::Failed) => true,
        (D::Stopping, D::Replaced) => true,
        (D::Stopped, D::Restarting) => true,
        (D::Stopped, D::Removing) => true,
        (D::Stopped, D::Replaced) => true,
        (D::Restarting, D::Running) => true,
        (D::Restarting, D::Failed) => true,
        (D::Failed, D::Removing) => true,
        (D::Failed, D::Restarting) => true,
        (D::Removing, D::Removed) => true,
        (D::Removing, D::Failed) => true,
        _ => false,
    }
}

pub fn is_legal(from: DeploymentState, to: DeploymentState) -> (r: bool)
    ensures
        r == legal(from, to),
{
    match (from, to) {
        (D::Pending, D::Validating) => true,
        (D::Validating, D::PullingImage) | (D::Validating, D::Failed) => true,
        (D::PullingImage, D::CreatingContainer) | (D::PullingImage, D::Running) | (
            D::PullingImage,
            D::Failed,
        ) => true,
        (D::CreatingContainer, D::Starting) | (D::CreatingContainer, D::Failed) => true,
        (D::Starting, D::Running) | (D::Starting, D::Failed) => true,
        (D::Running, D::Stopping) | (D::Running, D::Failed) | (D::Running, D::Replaced) => true,
        (D::Stopping, D::Stopped) | (D::Stopping, D::Failed) | (D::Stopping, D::Replaced) => true,
        (D::Stopped, D::Restarting) | (D::Stopped, D::Removing) | (D::Stopped, D::Replaced) => true,
        (D::Restarting, D::Running) | (D::Restarting, D::Failed) => true,
        (D::Failed, D::Removing) | (D::Failed, D::Restarting) => true,
        (D::Removing, D::Removed) | (D::Removing, D::Failed) => true,
        _ => false,
    }
}

impl DeploymentState {
    /// The wire and database name of each state.
    pub open spec fn name_spec(self) -> Seq<char> {
        match self {
            D::Pending => "PENDING"@,
            D::Validating => "VALIDATING"@,
            D::Prepared => "PREPARED"@,
            D::PullingImage => "PULLING_IMAGE"@,
            D::CreatingContainer => "CREATING_CONTAINER"@,
            D::Starting => "STARTING"@,
            D::WaitingHealth => "WAITING_HEALTH"@,
            D::Publishing => "PUBLISHING"@,
            D::PublishFailed => "PUBLISH_FAILED"@,
            D::Running => "RUNNING"@,
            D::Stopping => "STOPPING"@,
            D::Stopped => "STOPPED"@,
            D::Restarting => "RESTARTING"@,
            D::Failed => "FAILED"@,
            D::Removing => "REMOVING"@,
            D::Removed => "REMOVED"@,
            D::Replaced => "REPLACED"@,
        }
    }

    pub fn as_str(self) -> (r: &'static str)
        ensures
            r@ == self.name_spec(),
    {
        match self {
            D::Pending => "PENDING",
            D::Validating => "VALIDATING",
            D::Prepared => "PREPARED",
            D::PullingImage => "PULLING_IMAGE",
            D::CreatingContainer => "CREATING_CONTAINER",
            D::Starting => "STARTING",
            D::WaitingHealth => "WAITING_HEALTH",
            D::Publishing => "PUBLISHING",
            D::PublishFailed => "PUBLISH_FAILED",
            D::Running => "RUNNING",
            D::Stopping => "STOPPING",
            D::Stopped => "STOPPED",
            D::Restarting => "RESTARTING",
            D::Failed => "FAILED",
            D::Removing => "REMOVING",
            D::Removed => "REMOVED",
            D::Replaced => "REPLACED",
        }
    }

    /// The state whose name is `s`, if any.
    pub open spec fn from_name_spec(s: Seq<char>) -> Option<DeploymentState> {
        if s == "PENDING"@ {
            Some(D::Pending)
        } else if s == "VALIDATING"@ {
            Some(D::Validating)
        } else if s == "PREPARED"@ {
            Some(D::Prepared)
        } else if s == "PULLING_IMAGE"@ {
            Some(D::PullingImage)
        } else if s == "CREATING_CONTAINER"@ {
            Some(D::CreatingContainer)
        } else if s == "STARTING"@ {
            Some(D::Starting)
        } else if s == "WAITING_HEALTH"@ {
            Some(D::WaitingHealth)
        } else if s == "PUBLISHING"@ {
            Some(D::Publishing)
        } else if s == "PUBLISH_FAILED"@ {
            Some(D::PublishFailed)
        } else if s == "RUNNING"@ {
            Some(D::Running)
        } else if s == "STOPPING"@ {
            Some(D::Stopping)
        } else if s == "STOPPED"@ {
            Some(D::Stopped)
        } else if s == "RESTARTING"@ {
            Some(D::Restarting)
        } else if s == "FAILED"@ {
            Some(D::Failed)
        } else if s == "REMOVING"@ {
            Some(D::Removing)
        } else if s == "REMOVED"@ {
            Some(D::Removed)
        } else if s == "REPLACED"@ {
            Some(D::Replaced)
        } else {
            None
        }
    }

    /// Reads a state from its name, as stored in the `state` column.
    pub fn parse(s: &str) -> (r: Option<DeploymentState>)
        ensures
            r == DeploymentState::from_name_spec(s@),
    {
        let c = chars_of(s);
        let v = c.as_slice();
        if equals_str(v, "PENDING") {
            Some(D::Pending)
        } else if equals_str(v, "VALIDATING") {
            Some(D::Validating)
        } else if equals_str(v, "PREPARED") {
            Some(D::Prepared)
        } else if equals_str(v, "PULLING_IMAGE") {
            Some(D::PullingImage)
        } else if equals_str(v, "CREATING_CONTAINER") {
            Some(D::CreatingContainer)
        } else if equals_str(v, "STARTING") {
            Some(D::Starting)
        } else if equals_str(v, "WAITING_HEALTH") {
            Some(D::WaitingHealth)
        } else if equals_str(v, "PUBLISHING") {
            Some(D::Publishing)
        } else if equals_str(v, "PUBLISH_FAILED") {
            Some(D::PublishFailed)
        } else if equals_str(v, "RUNNING") {
            Some(D::Running)
        } else if equals_str(v, "STOPPING") {
            Some(D::Stopping)
        } else if equals_str(v, "STOPPED") {
            Some(D::Stopped)
        } else if equals_str(v, "RESTARTING") {
            Some(D::Restarting)
        } else if equals_str(v, "FAILED") {
            Some(D::Failed)
        } else if equals_str(v, "REMOVING") {
            Some(D::Removing)
        } else if equals_str(v, "REMOVED") {
            Some(D::Removed)
        } else if equals_str(v, "REPLACED") {
            Some(D::Replaced)
        } else {
            None
        }
    }
}

/// Every state is read back from its own name.
pub proof fn lemma_name_round_trip(d: DeploymentState)
    ensures
        DeploymentState::from_name_spec(d.name_spec()) == Some(d),
{
    let s = d.name_spec();
    reveal_strlit("PENDING");
    reveal_strlit("VALIDATING");
    reveal_strlit("PREPARED");
    reveal_strlit("PULLING_IMAGE");
    reveal_strlit("CREATING_CONTAINER");
    reveal_strlit("STARTING");
    reveal_strlit("WAITING_HEALTH");
    reveal_strlit("PUBLISHING");
    reveal_strlit("PUBLISH_FAILED");
    reveal_strlit("RUNNING");
    reveal_strlit("STOPPING");
    reveal_strlit("STOPPED");
    reveal_strlit("RESTARTING");
    reveal_strlit("FAILED");
    reveal_strlit("REMOVING");
    reveal_strlit("REMOVED");
    reveal_strlit("REPLACED");
    assert("PENDING"@.len() == 7 && "PENDING"@[0] == 'P' && "PENDING"@[2] == 'N');
    assert("VALIDATING"@.len() == 10 && "VALIDATING"@[0] == 'V' && "VALIDATING"@[2] == 'L');
    assert("PREPARED"@.len() == 8 && "PREPARED"@[0] == 'P' && "PREPARED"@[2] == 'E');
    assert("PULLING_IMAGE"@.len() == 13 && "PULLING_IMAGE"@[0] == 'P' && "PULLING_IMAGE"@[2] == 'L');
    assert("CREATING_CONTAINER"@.len() == 18 && "CREATING_CONTAINER"@[0] == 'C' && "CREATING_CONTAINER"@[2] == 'E');
    assert("STARTING"@.len() == 8 && "STARTING"@[0] == 'S' && "STARTING"@[2] == 'A');
    assert("WAITING_HEALTH"@.len() == 14 && "WAITING_HEALTH"@[0] == 'W' && "WAITING_HEALTH"@[2] == 'I');
    assert("PUBLISHING"@.len() == 10 && "PUBLISHING"@[0] == 'P' && "PUBLISHING"@[2] == 'B');
    assert("PUBLISH_FAILED"@.len() == 14 && "PUBLISH_FAILED"@[0] == 'P' && "PUBLISH_FAILED"@[2] == 'B');
    assert("RUNNING"@.len() == 7 && "RUNNING"@[0] == 'R' && "RUNNING"@[2] == 'N');
    assert("STOPPING"@.len() == 8 && "STOPPING"@[0] == 'S' && "STOPPING"@[2] == 'O');
    assert("STOPPED"@.len() == 7 && "STOPPED"@[0] == 'S' && "STOPPED"@[2] == 'O');
    assert("RESTARTING"@.len() == 10 && "RESTARTING"@[0] == 'R' && "RESTARTING"@[2] == 'S');
    assert("FAILED"@.len() == 6 && "FAILED"@[0] == 'F' && "FAILED"@[2] == 'I');
    assert("REMOVING"@.len() == 8 && "REMOVING"@[0] == 'R' && "REMOVING"@[2] == 'M');
    assert("REMOVED"@.len() == 7 && "REMOVED"@[0] == 'R' && "REMOVED"@[2] == 'M');
    assert("REPLACED"@.len() == 8 && "REPLACED"@[0] == 'R' && "REPLACED"@[2] == 'P');
    // The names are told apart by their length and first and third letters.
    assert(s.len() >= 6);
    let key = (s.len(), s[0], s[2]);
}

/// The text of the error that refuses a move outside the table.
pub open spec fn illegal_transition_message(from: DeploymentState, to: DeploymentState) -> Seq<
    char,
> {
    "illegal deployment transition "@ + from.name_spec() + " → "@ + to.name_spec()
}

/// Validates a move against the table, as every transition of a deployment
/// does before anything is written.
pub fn check_transition(from: DeploymentState, to: DeploymentState) -> (r: Result<(), AppError>)
    ensures
        r is Ok <==> legal(from, to),
        r matches Err(e) ==> e == AppError::BadRequest(e->BadRequest_0) && e->BadRequest_0@
            == illegal_transition_message(from, to),
{
    if is_legal(from, to) {
        Ok(())
    } else {
        let mut m = string_from("illegal deployment transition ");
        push_str(&mut m, from.as_str());
        push_str(&mut m, " → ");
        push_str(&mut m, to.as_str());
        Err(AppError::BadRequest(m))
    }
}

/// `Removed` and `Replaced` are terminal: nothing leaves them.
pub proof fn lemma_terminal_states(to: DeploymentState)
    ensures
        !legal(D::Removed, to),
        !legal(D::Replaced, to),
{
}

/// No move keeps a deployment where it is.
pub proof fn lemma_no_self_moves(s: DeploymentState)
    ensures
        !legal(s, s),
{
}

/// Nothing returns a deployment to `Pending`, and `Pending` only moves on
/// to validation.
pub proof fn lemma_pending_is_initial(s: DeploymentState, t: DeploymentState)
    ensures
        !legal(s, D::Pending),
        legal(D::Pending, t) ==> t == D::Validating,
{
}

/// A deployment is only marked `Removed` by finishing a removal, and only
/// marked `Replaced` once it has been running.
pub proof fn lemma_removal_and_replacement_entry(s: DeploymentState)
    ensures
        legal(s, D::Removed) ==> s == D::Removing,
        legal(s, D::Replaced) ==> (s == D::Running || s == D::Stopping || s == D::Stopped),
{
}

/// Where each state can be entered from. A deployment is removed only once
/// it is stopped or has failed; it fails only from a step that is under
/// way; it runs only after a pull, a start or a restart; it is replaced
/// only while it runs, stops or is stopped; and removal ends in `Removed`
/// or fails.
pub proof fn lemma_entries_of_each_state(s: DeploymentState)
    ensures
        legal(s, D::Removing) <==> (s == D::Stopped || s == D::Failed),
        legal(s, D::Removed) <==> s == D::Removing,
        legal(s, D::Replaced) <==> (s == D::Running || s == D::Stopping || s == D::Stopped),
        legal(s, D::Failed) <==> (s == D::Validating || s == D::PullingImage || s == D::CreatingContainer
            || s == D::Starting || s == D::Running || s == D::Stopping || s == D::Restarting
            || s == D::Removing),
        legal(s, D::Running) <==> (s == D::PullingImage || s == D::Starting || s == D::Restarting),
        legal(s, D::Restarting) <==> (s == D::Stopped || s == D::Failed),
        legal(s, D::Stopping) <==> s == D::Running,
        legal(s, D::Stopped) <==> s == D::Stopping,
        legal(s, D::Starting) <==> s == D::CreatingContainer,
        legal(s, D::CreatingContainer) <==> s == D::PullingImage,
        legal(s, D::PullingImage) <==> s == D::Validating,
        legal(s, D::Validating) <==> s == D::Pending,
        !legal(s, D::Pending),
        !legal(s, D::Prepared),
        !legal(s, D::WaitingHealth),
        !legal(s, D::Publishing),
        !legal(s, D::PublishFailed),
{
}

/// A failed deployment can be removed or restarted, and nothing else; a
/// removed or replaced one never moves again.
pub proof fn lemma_exits_of_ended_states(t: DeploymentState)
    ensures
        legal(D::Failed, t) <==> (t == D::Removing || t == D::Restarting),
        !legal(D::Removed, t),
        !legal(D::Replaced, t),
{
}

} // verus!
