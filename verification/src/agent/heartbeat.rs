//! The agent's reporting loop, as decisions: where each report goes, and
//! which heartbeat outcomes are worth a log line. The loop itself (timers,
//! HTTP) runs outside; it hands each heartbeat's outcome to the monitor and
//! logs the notice it gets back, if any.

use crate::text::{chars_of, push_str, string_of, strip_trailing, strip_trailing_chars};
use vstd::prelude::*;

verus! {

/// The URL of a controller endpoint: the configured base without trailing
/// `/`, then the endpoint's path.
pub open spec fn endpoint_spec(controller_url: Seq<char>, path: Seq<char>) -> Seq<char> {
    strip_trailing(controller_url, '/') + path
}

pub fn endpoint(controller_url: &str, path: &str) -> (r: String)
    ensures
        r@ == endpoint_spec(controller_url@, path@),
{
    let v = chars_of(controller_url);
    let base = strip_trailing_chars(v.as_slice(), '/');
    let mut s = string_of(base.as_slice());
    push_str(&mut s, path);
    s
}

/// How one heartbeat went.
#[derive(Clone, Copy, Debug, PartialEq, Eq, Structural)]
pub enum HeartbeatOutcome {
    /// The controller accepted it.
    Accepted,
    /// The controller answered 401: the credentials were rotated or the
    /// server removed.
    Unauthorized,
    /// Any other status.
    Rejected(u16),
    /// No answer at all.
    Unreachable,
}

/// What to log.
#[derive(Clone, Copy, Debug, PartialEq, Eq, Structural)]
pub enum HeartbeatNotice {
    /// The controller is reachable again (or for the first time).
    Reachable,
    /// The credentials were refused: re-enroll with a fresh token.
    CredentialsRejected,
    /// A heartbeat failed with this status.
    Failed(u16),
    /// The controller cannot be reached.
    Unreachable,
}

/// Whether the controller was last seen healthy; unknown before the first
/// heartbeat.
pub struct HeartbeatMonitor {
    pub healthy: Option<bool>,
}

pub open spec fn notice_for(o: HeartbeatOutcome) -> HeartbeatNotice {
    match o {
        HeartbeatOutcome::Accepted => HeartbeatNotice::Reachable,
        HeartbeatOutcome::Unauthorized => HeartbeatNotice::CredentialsRejected,
        HeartbeatOutcome::Rejected(s) => HeartbeatNotice::Failed(s),
        HeartbeatOutcome::Unreachable => HeartbeatNotice::Unreachable,
    }
}

/// The monitor's state after an outcome, and the notice it gives: a notice
/// only when health changes (or is first known).
pub open spec fn observe_spec(healthy: Option<bool>, o: HeartbeatOutcome) -> (Option<bool>, Option<HeartbeatNotice>) {
    let now = o is Accepted;
    if healthy == Some(now) {
        (healthy, None)
    } else {
        (Some(now), Some(notice_for(o)))
    }
}

impl HeartbeatMonitor {
    pub fn new() -> (m: HeartbeatMonitor)
        ensures
            m.healthy is None,
    {
        HeartbeatMonitor { healthy: None }
    }

    /// Takes one heartbeat's outcome; returns what to log, if anything.
    pub fn observe(&mut self, outcome: HeartbeatOutcome) -> (r: Option<HeartbeatNotice>)
        ensures
            (final(self).healthy, r) == observe_spec(old(self).healthy, outcome),
    {
        let now = match outcome {
            HeartbeatOutcome::Accepted => true,
            _ => false,
        };
        if self.healthy == Some(now) {
            return None;
        }
        self.healthy = Some(now);
        Some(
            match outcome {
                HeartbeatOutcome::Accepted => HeartbeatNotice::Reachable,
                HeartbeatOutcome::Unauthorized => HeartbeatNotice::CredentialsRejected,
                HeartbeatOutcome::Rejected(s) => HeartbeatNotice::Failed(s),
                HeartbeatOutcome::Unreachable => HeartbeatNotice::Unreachable,
            },
        )
    }
}

/// The loop logs only on transitions: after any outcome, the same outcome
/// again gives no notice, and neither does any other outcome of the same
/// health.
pub proof fn lemma_notices_only_on_transitions(
    healthy: Option<bool>,
    first: HeartbeatOutcome,
    second: HeartbeatOutcome,
)
    requires
        (first is Accepted) == (second is Accepted),
    ensures
        observe_spec(observe_spec(healthy, first).0, second).1 is None,
{
}

/// Every failure after a success is reported once; a success after a
/// failure is reported once.
pub proof fn lemma_health_changes_are_reported(healthy: Option<bool>, o: HeartbeatOutcome)
    requires
        healthy != Some(o is Accepted),
    ensures
        observe_spec(healthy, o).1 == Some(notice_for(o)),
        observe_spec(healthy, o).0 == Some(o is Accepted),
{
}

} // verus!
