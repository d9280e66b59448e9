//! Volume file sessions on the controller: what a browser request is
//! audited as, and the checks around handing a session to the agent.

use crate::controller::error::AppError;
use crate::shared::FileClientMessage;
use crate::text::{string_from, string_of, chars_of};
use vstd::prelude::*;

verus! {

/// What the audit log records of a mutating file request: the operation,
/// the volume it acts on, and its paths (and size, for an upload). File
/// content and upload data are never part of it.
pub struct MutationDetail {
    pub volume_id: u128,
    pub operation: String,
    pub path: Option<String>,
    pub from: Option<String>,
    pub to: Option<String>,
    pub from_volume_id: Option<u128>,
    pub size: Option<u64>,
}

/// A detail as plain values: (volume, operation, path, from, to, source
/// volume, size).
pub open spec fn detail_view(d: MutationDetail) -> (
    u128,
    Seq<char>,
    Option<Seq<char>>,
    Option<Seq<char>>,
    Option<Seq<char>>,
    Option<u128>,
    Option<u64>,
) {
    (
        d.volume_id,
        d.operation@,
        match d.path {
            Some(p) => Some(p@),
            None => None,
        },
        match d.from {
            Some(p) => Some(p@),
            None => None,
        },
        match d.to {
            Some(p) => Some(p@),
            None => None,
        },
        d.from_volume_id,
        d.size,
    )
}

/// The audit detail of a request: mutations only (write, mkdir, rename,
/// copy, move, delete, upload start); a copy or move is recorded against
/// its destination volume.
pub open spec fn mutation_spec(m: FileClientMessage) -> Option<
    (u128, Seq<char>, Option<Seq<char>>, Option<Seq<char>>, Option<Seq<char>>, Option<u128>, Option<u64>),
> {
    match m {
        FileClientMessage::WriteText { volume_id, path, .. } => Some(
            (volume_id, "write_text"@, Some(path@), None, None, None, None),
        ),
        FileClientMessage::Mkdir { volume_id, path, .. } => Some(
            (volume_id, "mkdir"@, Some(path@), None, None, None, None),
        ),
        FileClientMessage::Rename { volume_id, from, to, .. } => Some(
            (volume_id, "rename"@, None, Some(from@), Some(to@), None, None),
        ),
        FileClientMessage::Copy { from_volume_id, from, to_volume_id, to, .. } => Some(
            (to_volume_id, "copy"@, None, Some(from@), Some(to@), Some(from_volume_id), None),
        ),
        FileClientMessage::Move { from_volume_id, from, to_volume_id, to, .. } => Some(
            (to_volume_id, "move"@, None, Some(from@), Some(to@), Some(from_volume_id), None),
        ),
        FileClientMessage::Delete { volume_id, path, .. } => Some(
            (volume_id, "delete"@, Some(path@), None, None, None, None),
        ),
        FileClientMessage::UploadStart { volume_id, path, size, .. } => Some(
            (volume_id, "upload"@, Some(path@), None, None, None, Some(size)),
        ),
        _ => None,
    }
}

fn copy_text(s: &String) -> (r: String)
    ensures
        r@ == s@,
{
    string_of(chars_of(s.as_str()).as_slice())
}

fn detail(
    volume_id: u128,
    operation: &str,
    path: Option<&String>,
    from: Option<&String>,
    to: Option<&String>,
    from_volume_id: Option<u128>,
    size: Option<u64>,
) -> (r: MutationDetail)
    ensures
        detail_view(r) == (
            volume_id,
            operation@,
            match path {
                Some(p) => Some(p@),
                None => None::<Seq<char>>,
            },
            match from {
                Some(p) => Some(p@),
                None => None::<Seq<char>>,
            },
            match to {
                Some(p) => Some(p@),
                None => None::<Seq<char>>,
            },
            from_volume_id,
            size,
        ),
{
    MutationDetail {
        volume_id,
        operation: string_from(operation),
        path: match path {
            Some(p) => Some(copy_text(p)),
            None => None,
        },
        from: match from {
            Some(p) => Some(copy_text(p)),
            None => None,
        },
        to: match to {
            Some(p) => Some(copy_text(p)),
            None => None,
        },
        from_volume_id,
        size,
    }
}

/// What a browser request is audited as before it is forwarded, if it
/// mutates anything.
pub fn mutation_detail(message: &FileClientMessage) -> (r: Option<MutationDetail>)
    ensures
        match mutation_spec(*message) {
            Some(d) => r matches Some(x) && detail_view(x) == d,
            None => r is None,
        },
{
    proof {
        reveal_strlit("write_text");
        reveal_strlit("mkdir");
        reveal_strlit("rename");
        reveal_strlit("copy");
        reveal_strlit("move");
        reveal_strlit("delete");
        reveal_strlit("upload");
    }
    match message {
        FileClientMessage::WriteText { volume_id, path, .. } => Some(
            detail(*volume_id, "write_text", Some(path), None, None, None, None),
        ),
        FileClientMessage::Mkdir { volume_id, path, .. } => Some(
            detail(*volume_id, "mkdir", Some(path), None, None, None, None),
        ),
        FileClientMessage::Rename { volume_id, from, to, .. } => Some(
            detail(*volume_id, "rename", None, Some(from), Some(to), None, None),
        ),
        FileClientMessage::Copy { from_volume_id, from, to_volume_id, to, .. } => Some(
            detail(*to_volume_id, "copy", None, Some(from), Some(to), Some(*from_volume_id), None),
        ),
        FileClientMessage::Move { from_volume_id, from, to_volume_id, to, .. } => Some(
            detail(*to_volume_id, "move", None, Some(from), Some(to), Some(*from_volume_id), None),
        ),
        FileClientMessage::Delete { volume_id, path, .. } => Some(
            detail(*volume_id, "delete", Some(path), None, None, None, None),
        ),
        FileClientMessage::UploadStart { volume_id, path, size, .. } => Some(
            detail(*volume_id, "upload", Some(path), None, None, None, Some(*size)),
        ),
        _ => None,
    }
}

/// Opening a file session needs at least one volume the user may see.
pub fn require_visible_volumes(visible: usize) -> (r: Result<(), AppError>)
    ensures
        r is Ok <==> visible > 0,
        r matches Err(e) ==> e matches AppError::BadRequest(m) && m@
            == "this project has no accessible volumes on the selected server"@,
{
    if visible == 0 {
        return Err(AppError::BadRequest(string_from("this project has no accessible volumes on the selected server")));
    }
    Ok(())
}

/// A pending session as the agent side sees it.
pub struct PendingSessionFacts {
    pub server_id: u128,
    /// Whether the browser's end of the bridge is still unclaimed.
    pub bridge_available: bool,
}

/// Whether an agent may attach to a session: the session must exist, belong
/// to the agent's server, and not have been attached yet.
pub fn check_attach(session: Option<&PendingSessionFacts>, agent_server_id: u128) -> (r: Result<(), AppError>)
    ensures
        session is None ==> (r matches Err(e) && e matches AppError::NotFound(m) && m@ == "file session not found"@),
        session matches Some(s) && s.server_id != agent_server_id ==> (r matches Err(e) && e is Forbidden),
        session matches Some(s) && s.server_id == agent_server_id && !s.bridge_available ==> (r matches Err(e)
            && e matches AppError::BadRequest(m) && m@ == "file session already attached"@),
        r is Ok <==> (session matches Some(s) && s.server_id == agent_server_id && s.bridge_available),
{
    match session {
        None => Err(AppError::NotFound(string_from("file session not found"))),
        Some(s) => {
            if s.server_id != agent_server_id {
                Err(AppError::Forbidden)
            } else if !s.bridge_available {
                Err(AppError::BadRequest(string_from("file session already attached")))
            } else {
                Ok(())
            }
        },
    }
}

/// A session waiting in the registry, as plain values.
pub struct WaitingSession {
    pub server_id: u128,
    pub dispatched: bool,
    pub bridge_available: bool,
    /// Undispatched sessions older than the time-to-live are dropped.
    pub expired: bool,
}

pub open spec fn kept(s: WaitingSession) -> bool {
    s.dispatched || !s.expired
}

pub open spec fn dispatchable(s: WaitingSession, server_id: u128) -> bool {
    kept(s) && s.server_id == server_id && !s.dispatched && s.bridge_available
}

/// The session an agent's long poll hands out: the first one, in registry
/// order, that is still kept, belongs to the agent's server, has not been
/// handed out and still has its bridge.
pub fn next_dispatch(sessions: &Vec<WaitingSession>, server_id: u128) -> (r: Option<usize>)
    ensures
        match r {
            Some(i) => i < sessions@.len() && dispatchable(sessions@[i as int], server_id) && forall|k: int|
                0 <= k < i ==> !dispatchable(#[trigger] sessions@[k], server_id),
            None => forall|k: int| 0 <= k < sessions@.len() ==> !dispatchable(#[trigger] sessions@[k], server_id),
        },
{
    let n = sessions.len();
    let mut i: usize = 0;
    while i < n
        invariant
            i <= n == sessions@.len(),
            forall|k: int| 0 <= k < i ==> !dispatchable(#[trigger] sessions@[k], server_id),
        decreases n - i,
    {
        let s = &sessions[i];
        if (s.dispatched || !s.expired) && s.server_id == server_id && !s.dispatched && s.bridge_available {
            return Some(i);
        }
        i = i + 1;
    }
    None
}

} // verus!
