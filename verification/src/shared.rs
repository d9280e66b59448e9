//! Wire types the agent and the controller share: task kinds, slot states
//! and host readiness evidence.

use crate::text::{chars_of, equals_str, slice_chars, string_of};
use vstd::prelude::*;

verus! {

/// The kinds of work the controller queues for an agent.
#[derive(Clone, Copy, Debug, PartialEq, Eq, Structural)]
pub enum TaskType {
    DeployContainer,
    PrepareDeploy,
    QuiesceContainer,
    RollbackContainer,
    PublishVhost,
    StopContainer,
    RestartContainer,
    RemoveContainer,
    RemoveVolume,
    PurgeVolumes,
    RefreshInventory,
    UploadLogs,
    UpgradeAgent,
}

impl TaskType {
    /// The task kind's name on the wire and in messages.
    pub open spec fn name_spec(self) -> Seq<char> {
        match self {
            TaskType::DeployContainer => "DEPLOY_CONTAINER"@,
            TaskType::PrepareDeploy => "PREPARE_DEPLOY"@,
            TaskType::QuiesceContainer => "QUIESCE_CONTAINER"@,
            TaskType::RollbackContainer => "ROLLBACK_CONTAINER"@,
            TaskType::PublishVhost => "PUBLISH_VHOST"@,
            TaskType::StopContainer => "STOP_CONTAINER"@,
            TaskType::RestartContainer => "RESTART_CONTAINER"@,
            TaskType::RemoveContainer => "REMOVE_CONTAINER"@,
            TaskType::RemoveVolume => "REMOVE_VOLUME"@,
            TaskType::PurgeVolumes => "PURGE_VOLUMES"@,
            TaskType::RefreshInventory => "REFRESH_INVENTORY"@,
            TaskType::UploadLogs => "UPLOAD_LOGS"@,
            TaskType::UpgradeAgent => "UPGRADE_AGENT"@,
        }
    }

    pub fn as_str(self) -> (r: &'static str)
        ensures
            r@ == self.name_spec(),
    {
        match self {
            TaskType::DeployContainer => "DEPLOY_CONTAINER",
            TaskType::PrepareDeploy => "PREPARE_DEPLOY",
            TaskType::QuiesceContainer => "QUIESCE_CONTAINER",
            TaskType::RollbackContainer => "ROLLBACK_CONTAINER",
            TaskType::PublishVhost => "PUBLISH_VHOST",
            TaskType::StopContainer => "STOP_CONTAINER",
            TaskType::RestartContainer => "RESTART_CONTAINER",
            TaskType::RemoveContainer => "REMOVE_CONTAINER",
            TaskType::RemoveVolume => "REMOVE_VOLUME",
            TaskType::PurgeVolumes => "PURGE_VOLUMES",
            TaskType::RefreshInventory => "REFRESH_INVENTORY",
            TaskType::UploadLogs => "UPLOAD_LOGS",
            TaskType::UpgradeAgent => "UPGRADE_AGENT",
        }
    }
}

/// How a deployment port is exposed: raw TCP/UDP on the host, or HTTP(S)
/// published through the proxy.
#[derive(Clone, Copy, Debug, PartialEq, Eq, Structural)]
pub enum PortKind {
    Tcp,
    Udp,
    Http,
    Https,
}

impl PortKind {
    /// HTTP and HTTPS ports are published through the proxy.
    pub open spec fn web(self) -> bool {
        self is Http || self is Https
    }

    pub fn is_web(self) -> (r: bool)
        ensures
            r == self.web(),
    {
        match self {
            PortKind::Http | PortKind::Https => true,
            _ => false,
        }
    }

    /// The kind's name as stored in the `kind` column.
    pub open spec fn name_spec(self) -> Seq<char> {
        match self {
            PortKind::Tcp => "TCP"@,
            PortKind::Udp => "UDP"@,
            PortKind::Http => "HTTP"@,
            PortKind::Https => "HTTPS"@,
        }
    }

    pub open spec fn from_name_spec(s: Seq<char>) -> Option<PortKind> {
        if s == "TCP"@ {
            Some(PortKind::Tcp)
        } else if s == "UDP"@ {
            Some(PortKind::Udp)
        } else if s == "HTTP"@ {
            Some(PortKind::Http)
        } else if s == "HTTPS"@ {
            Some(PortKind::Https)
        } else {
            None
        }
    }

    pub fn as_str(self) -> (r: &'static str)
        ensures
            r@ == self.name_spec(),
    {
        match self {
            PortKind::Tcp => "TCP",
            PortKind::Udp => "UDP",
            PortKind::Http => "HTTP",
            PortKind::Https => "HTTPS",
        }
    }

    /// Reads a stored kind.
    pub fn parse(s: &str) -> (r: Option<PortKind>)
        ensures
            r == PortKind::from_name_spec(s@),
    {
        let c = chars_of(s);
        let v = c.as_slice();
        if equals_str(v, "TCP") {
            Some(PortKind::Tcp)
        } else if equals_str(v, "UDP") {
            Some(PortKind::Udp)
        } else if equals_str(v, "HTTP") {
            Some(PortKind::Http)
        } else if equals_str(v, "HTTPS") {
            Some(PortKind::Https)
        } else {
            None
        }
    }

    pub open spec fn protocol_spec(self) -> Seq<char> {
        if self is Udp {
            "udp"@
        } else {
            "tcp"@
        }
    }

    /// The transport protocol (`tcp` or `udp`).
    pub fn protocol(self) -> (r: &'static str)
        ensures
            r@ == self.protocol_spec(),
    {
        match self {
            PortKind::Udp => "udp",
            _ => "tcp",
        }
    }
}

/// The state of a GPU slot.
#[derive(Clone, Copy, Debug, PartialEq, Eq, Structural)]
pub enum SlotState {
    Free,
    Reserved,
    Deploying,
    Running,
    Stopping,
    Failed,
    Offline,
}

impl SlotState {
    /// The name of the state as stored in the `state` column.
    pub open spec fn name_spec(self) -> Seq<char> {
        match self {
            SlotState::Free => "FREE"@,
            SlotState::Reserved => "RESERVED"@,
            SlotState::Deploying => "DEPLOYING"@,
            SlotState::Running => "RUNNING"@,
            SlotState::Stopping => "STOPPING"@,
            SlotState::Failed => "FAILED"@,
            SlotState::Offline => "OFFLINE"@,
        }
    }

    /// The state whose stored name is `s`, if any.
    pub open spec fn from_name_spec(s: Seq<char>) -> Option<SlotState> {
        if s == "FREE"@ {
            Some(SlotState::Free)
        } else if s == "RESERVED"@ {
            Some(SlotState::Reserved)
        } else if s == "DEPLOYING"@ {
            Some(SlotState::Deploying)
        } else if s == "RUNNING"@ {
            Some(SlotState::Running)
        } else if s == "STOPPING"@ {
            Some(SlotState::Stopping)
        } else if s == "FAILED"@ {
            Some(SlotState::Failed)
        } else if s == "OFFLINE"@ {
            Some(SlotState::Offline)
        } else {
            None
        }
    }

    pub fn as_str(self) -> (r: &'static str)
        ensures
            r@ == self.name_spec(),
    {
        match self {
            SlotState::Free => "FREE",
            SlotState::Reserved => "RESERVED",
            SlotState::Deploying => "DEPLOYING",
            SlotState::Running => "RUNNING",
            SlotState::Stopping => "STOPPING",
            SlotState::Failed => "FAILED",
            SlotState::Offline => "OFFLINE",
        }
    }

    /// Reads a state from its stored name.
    pub fn parse(s: &str) -> (r: Option<SlotState>)
        ensures
            r == SlotState::from_name_spec(s@),
    {
        let c = chars_of(s);
        let v = c.as_slice();
        if equals_str(v, "FREE") {
            Some(SlotState::Free)
        } else if equals_str(v, "RESERVED") {
            Some(SlotState::Reserved)
        } else if equals_str(v, "DEPLOYING") {
            Some(SlotState::Deploying)
        } else if equals_str(v, "RUNNING") {
            Some(SlotState::Running)
        } else if equals_str(v, "STOPPING") {
            Some(SlotState::Stopping)
        } else if equals_str(v, "FAILED") {
            Some(SlotState::Failed)
        } else if equals_str(v, "OFFLINE") {
            Some(SlotState::Offline)
        } else {
            None
        }
    }
}

/// One MIG device of a GPU, as the agent reports it.
pub struct MigDeviceInfo {
    pub uuid: String,
    pub profile: String,
    pub memory_mb: u32,
    pub instance_id: u32,
}

/// One GPU of an inventory snapshot.
pub struct GpuInfo {
    pub uuid: String,
    pub index: u32,
    pub model: String,
    pub memory_mb: u32,
    pub mig_enabled: bool,
    pub mig_devices: Vec<MigDeviceInfo>,
}

/// A request of the volume file browser (ids are the 128-bit values of
/// their UUIDs).
pub enum FileClientMessage {
    List { request_id: u128, volume_id: u128, path: String },
    ReadText { request_id: u128, volume_id: u128, path: String },
    WriteText { request_id: u128, volume_id: u128, path: String, content: String },
    Mkdir { request_id: u128, volume_id: u128, path: String },
    Rename { request_id: u128, volume_id: u128, from: String, to: String },
    Copy { request_id: u128, from_volume_id: u128, from: String, to_volume_id: u128, to: String },
    Move { request_id: u128, from_volume_id: u128, from: String, to_volume_id: u128, to: String },
    Delete { request_id: u128, volume_id: u128, path: String },
    Download { request_id: u128, volume_id: u128, path: String },
    UploadStart { request_id: u128, volume_id: u128, path: String, size: u64 },
    UploadChunk { request_id: u128, offset: u64, data: String },
    UploadFinish { request_id: u128 },
}

/// Whether a slot is a whole GPU or one MIG slice of it.
#[derive(Clone, Copy, Debug, PartialEq, Eq, Structural)]
pub enum SlotType {
    FullGpu,
    MigSlot,
}

impl SlotType {
    pub open spec fn name_spec(self) -> Seq<char> {
        match self {
            SlotType::FullGpu => "FULL_GPU"@,
            SlotType::MigSlot => "MIG_SLOT"@,
        }
    }

    pub open spec fn from_name_spec(s: Seq<char>) -> Option<SlotType> {
        if s == "FULL_GPU"@ {
            Some(SlotType::FullGpu)
        } else if s == "MIG_SLOT"@ {
            Some(SlotType::MigSlot)
        } else {
            None
        }
    }

    pub fn as_str(self) -> (r: &'static str)
        ensures
            r@ == self.name_spec(),
    {
        match self {
            SlotType::FullGpu => "FULL_GPU",
            SlotType::MigSlot => "MIG_SLOT",
        }
    }

    /// Reads a slot type from its stored name.
    pub fn parse(s: &str) -> (r: Option<SlotType>)
        ensures
            r == SlotType::from_name_spec(s@),
    {
        let c = chars_of(s);
        let v = c.as_slice();
        if equals_str(v, "FULL_GPU") {
            Some(SlotType::FullGpu)
        } else if equals_str(v, "MIG_SLOT") {
            Some(SlotType::MigSlot)
        } else {
            None
        }
    }
}

#[derive(Clone, Copy, Debug, PartialEq, Eq, Structural)]
pub enum CheckStatus {
    Ready,
    Warning,
    Failed,
    Unknown,
}

impl CheckStatus {
    /// Ready and Warning both let a deployment go ahead.
    pub open spec fn passes(self) -> bool {
        self is Ready || self is Warning
    }
}

/// One probe of the host, by code (`docker`, `storage_write`, ...).
pub struct ReadinessCheck {
    pub code: String,
    pub status: CheckStatus,
    pub detail: String,
}

/// The readiness evidence an agent reports.
pub struct HostReadiness {
    pub setup_revision: Option<u32>,
    pub required_setup_revision: u32,
    pub checks: Vec<ReadinessCheck>,
}

/// Every required code has a check with that code that passes.
pub open spec fn checks_ready_spec(checks: Seq<ReadinessCheck>, required: Seq<Seq<char>>) -> bool {
    forall|r: int| 0 <= r < required.len() ==> code_passes(checks, #[trigger] required[r])
}

pub open spec fn code_views(v: Seq<&str>) -> Seq<Seq<char>> {
    v.map_values(|s: &str| s@)
}

/// Whether some check with this code passes.
pub open spec fn code_passes(checks: Seq<ReadinessCheck>, code: Seq<char>) -> bool {
    exists|k: int| 0 <= k < checks.len() && (#[trigger] checks[k]).code@ == code && checks[k].status.passes()
}

fn has_passing(checks: &Vec<ReadinessCheck>, code: &str) -> (b: bool)
    ensures
        b == code_passes(checks@, code@),
{
    let m = checks.len();
    for k in 0..m
        invariant
            m == checks@.len(),
            forall|j: int|
                0 <= j < k ==> !((#[trigger] checks@[j]).code@ == code@ && checks@[j].status.passes()),
    {
        let c = &checks[k];
        let cv = chars_of(c.code.as_str());
        if equals_str(cv.as_slice(), code) && (c.status == CheckStatus::Ready || c.status
            == CheckStatus::Warning) {
            assert(checks@[k as int].code@ == code@ && checks@[k as int].status.passes());
            return true;
        }
    }
    false
}

impl HostReadiness {
    pub fn checks_ready(&self, required: &[&str]) -> (r: bool)
        ensures
            r == checks_ready_spec(self.checks@, code_views(required@)),
    {
        let n = required.len();
        for i in 0..n
            invariant
                n == required@.len(),
                forall|r: int|
                    0 <= r < i ==> code_passes(self.checks@, #[trigger] code_views(required@)[r]),
        {
            let code = required[i];
            assert(code_views(required@)[i as int] == code@);
            if !has_passing(&self.checks, code) {
                return false;
            }
        }
        true
    }
}

/// At most `n` characters of `s`.
pub open spec fn truncated(s: Seq<char>, n: nat) -> Seq<char> {
    if s.len() <= n {
        s
    } else {
        s.take(n as int)
    }
}

/// The first `n` characters of `s` (all of it when shorter).
pub fn truncate(s: &str, n: usize) -> (r: String)
    ensures
        r@ == truncated(s@, n as nat),
{
    let v = chars_of(s);
    let end = if v.len() <= n {
        v.len()
    } else {
        n
    };
    let cut = slice_chars(v.as_slice(), 0, end);
    assert(v.len() <= n ==> v@.subrange(0, end as int) =~= v@);
    string_of(cut.as_slice())
}

/// A readiness check with its detail cut to 600 characters.
pub fn check(code: &str, status: CheckStatus, detail: &str) -> (r: ReadinessCheck)
    ensures
        r.code@ == code@,
        r.status == status,
        r.detail@ == truncated(detail@, 600),
{
    let dv = chars_of(detail);
    let end = if dv.len() <= 600 {
        dv.len()
    } else {
        600
    };
    let cut = slice_chars(dv.as_slice(), 0, end);
    assert(dv.len() <= 600 ==> dv@.subrange(0, end as int) =~= dv@);
    ReadinessCheck { code: string_of(chars_of(code).as_slice()), status, detail: string_of(cut.as_slice()) }
}

} // verus!
