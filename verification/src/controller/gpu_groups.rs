//! GPU groups (one container over several whole GPUs of a server): the
//! rules for creating, sizing and deleting a group, and whether a group can
//! take a deployment right now.

use crate::controller::error::AppError;
use crate::text::{
    chars_of, concat3, decimal_string, decimal_text, push_str, string_from, string_of, trim,
    trim_chars, utf8_len, utf8_length,
};
use vstd::prelude::*;

verus! {

pub const MAX_OCCUPANTS_MIN: u32 = 1;

pub const MAX_OCCUPANTS_MAX: u32 = 4;

/// A group's concurrency cap must be 1 to 4.
pub fn validate_max_occupants(max_occupants: u32) -> (r: Result<(), AppError>)
    ensures
        r is Ok <==> MAX_OCCUPANTS_MIN <= max_occupants <= MAX_OCCUPANTS_MAX,
        r matches Err(e) ==> e matches AppError::BadRequest(m) && m@ == "max_occupants must be 1–4"@,
{
    if max_occupants < MAX_OCCUPANTS_MIN || max_occupants > MAX_OCCUPANTS_MAX {
        return Err(AppError::BadRequest(string_from("max_occupants must be 1–4")));
    }
    Ok(())
}

/// A group name is the request's name trimmed, 1 to 64 bytes long.
pub fn group_name(raw: &str) -> (r: Result<String, AppError>)
    ensures
        r is Ok <==> (1 <= utf8_len(trim(raw@)) <= 64),
        r matches Ok(s) ==> s@ == trim(raw@),
        r matches Err(e) ==> e matches AppError::BadRequest(m) && m@ == "group name must be 1–64 characters"@,
{
    let t = trim_chars(chars_of(raw).as_slice());
    let n = utf8_length(t.as_slice());
    if n == 0 || n > 64 {
        return Err(AppError::BadRequest(string_from("group name must be 1–64 characters")));
    }
    Ok(string_of(t.as_slice()))
}

/// The ids in their first-seen order, each once.
pub open spec fn distinct_in_order(ids: Seq<u128>) -> Seq<u128>
    decreases ids.len(),
{
    if ids.len() == 0 {
        Seq::empty()
    } else {
        let r = distinct_in_order(ids.drop_last());
        if r.contains(ids.last()) {
            r
        } else {
            r.push(ids.last())
        }
    }
}

/// The member GPUs of a new group: the picked ids without repeats, in the
/// operator's order; fewer than two distinct GPUs is refused.
pub fn group_members(ids: &[u128]) -> (r: Result<Vec<u128>, AppError>)
    ensures
        r is Ok <==> distinct_in_order(ids@).len() >= 2,
        r matches Ok(v) ==> v@ == distinct_in_order(ids@),
        r matches Err(e) ==> e matches AppError::BadRequest(m) && m@ == "a group needs at least 2 distinct GPUs"@,
{
    let mut out: Vec<u128> = Vec::new();
    let n = ids.len();
    let mut i: usize = 0;
    while i < n
        invariant
            i <= n == ids@.len(),
            out@ == distinct_in_order(ids@.take(i as int)),
        decreases n - i,
    {
        assert(ids@.take(i + 1).drop_last() =~= ids@.take(i as int));
        let x = ids[i];
        let mut seen = false;
        let mut k: usize = 0;
        while k < out.len()
            invariant
                k <= out@.len(),
                seen == exists|j: int| 0 <= j < k && out@[j] == x,
            decreases out@.len() - k,
        {
            if out[k] == x {
                seen = true;
            }
            k = k + 1;
        }
        assert(seen == out@.contains(x));
        if !seen {
            out.push(x);
        }
        i = i + 1;
    }
    assert(ids@.take(n as int) =~= ids@);
    if out.len() < 2 {
        return Err(AppError::BadRequest(string_from("a group needs at least 2 distinct GPUs")));
    }
    Ok(out)
}

/// What the database says of a GPU picked for a new group.
pub struct MemberCandidate {
    pub gpu_index: u32,
    pub mig_enabled: bool,
    pub server_id: u128,
    pub has_full_slot: bool,
}

/// Why a picked GPU cannot join a group on `server_id`: it does not exist,
/// sits on another server, has MIG enabled, or has no full-GPU slot.
pub open spec fn member_refusal(c: Option<MemberCandidate>, server_id: u128) -> Option<Seq<char>> {
    match c {
        None => Some("a selected GPU does not exist"@),
        Some(c) => if c.server_id != server_id {
            Some("all members must be on the same server"@)
        } else if c.mig_enabled {
            Some("GPU "@ + decimal_text(c.gpu_index as nat) + " has MIG enabled and cannot join a group"@)
        } else if !c.has_full_slot {
            Some("GPU "@ + decimal_text(c.gpu_index as nat) + " has no full-GPU slot"@)
        } else {
            None
        },
    }
}

pub fn check_member(candidate: Option<&MemberCandidate>, server_id: u128) -> (r: Result<(), AppError>)
    ensures
        match member_refusal(
            match candidate {
                Some(c) => Some(*c),
                None => None,
            },
            server_id,
        ) {
            None => r is Ok,
            Some(m) => r matches Err(e) && e matches AppError::BadRequest(t) && t@ == m,
        },
{
    let c = match candidate {
        None => return Err(AppError::BadRequest(string_from("a selected GPU does not exist"))),
        Some(c) => c,
    };
    if c.server_id != server_id {
        return Err(AppError::BadRequest(string_from("all members must be on the same server")));
    }
    if c.mig_enabled {
        return Err(
            AppError::BadRequest(
                concat3(
                    "GPU ",
                    decimal_string(c.gpu_index as u64).as_str(),
                    " has MIG enabled and cannot join a group",
                ),
            ),
        );
    }
    if !c.has_full_slot {
        return Err(
            AppError::BadRequest(
                concat3("GPU ", decimal_string(c.gpu_index as u64).as_str(), " has no full-GPU slot"),
            ),
        );
    }
    Ok(())
}

/// A group is deleted only when no live deployment runs on it and no
/// persistent volume belongs to it.
pub fn check_deletable(live_deployments: i64, volumes: i64) -> (r: Result<(), AppError>)
    ensures
        r is Ok <==> live_deployments <= 0 && volumes <= 0,
        live_deployments > 0 ==> (r matches Err(e) && e matches AppError::BadRequest(m) && m@
            == "a deployment is live on this group — stop it first"@),
        live_deployments <= 0 && volumes > 0 ==> (r matches Err(e) && e matches AppError::BadRequest(m)
            && m@ == "persistent volumes belong to this group — delete them from Storage first"@),
{
    if live_deployments > 0 {
        return Err(AppError::BadRequest(string_from("a deployment is live on this group — stop it first")));
    }
    if volumes > 0 {
        return Err(
            AppError::BadRequest(
                string_from("persistent volumes belong to this group — delete them from Storage first"),
            ),
        );
    }
    Ok(())
}

// ------------------------------------------------------------ availability

/// One member GPU of a listed group.
pub struct GroupMember {
    pub gpu_index: u32,
    pub memory_mb: Option<u32>,
    pub mig_enabled: bool,
    /// Its full-GPU slot and that slot's state, if it has one.
    pub slot_state: Option<String>,
    /// Active deployments on the slot that are not this group's own.
    pub foreign_occupants: i64,
}

/// Why a member keeps the group from deploying, if it does.
pub open spec fn member_busy(m: GroupMember) -> Option<Seq<char>> {
    let label = "GPU "@ + decimal_text(m.gpu_index as nat);
    if m.slot_state is None || m.slot_state->0@ == "OFFLINE"@ {
        Some(label + " is offline"@)
    } else if m.mig_enabled {
        Some(label + " has MIG enabled — remove it from the group or disable MIG"@)
    } else if m.foreign_occupants > 0 {
        Some(label + " is in individual use"@)
    } else {
        None
    }
}

/// The first member that keeps the group from deploying, in listing order.
pub open spec fn first_busy(ms: Seq<GroupMember>) -> Option<Seq<char>>
    decreases ms.len(),
{
    if ms.len() == 0 {
        None
    } else {
        match first_busy(ms.drop_last()) {
            Some(r) => Some(r),
            None => member_busy(ms.last()),
        }
    }
}

/// The members' memory added up, stopping at `u32::MAX`.
pub open spec fn combined_vram(ms: Seq<GroupMember>) -> u32
    decreases ms.len(),
{
    if ms.len() == 0 {
        0
    } else {
        let s = combined_vram(ms.drop_last()) + match ms.last().memory_mb {
            Some(m) => m as int,
            None => 0,
        };
        if s > u32::MAX {
            u32::MAX
        } else {
            s as u32
        }
    }
}

/// The reason a group cannot take a deployment: a member's, else its cap
/// (`in use` for a single-use group, `full · n/max` otherwise).
pub open spec fn busy_reason_spec(ms: Seq<GroupMember>, occupants: u32, max_occupants: u32) -> Option<Seq<char>> {
    match first_busy(ms) {
        Some(r) => Some(r),
        None => if occupants >= max_occupants {
            if max_occupants == 1 {
                Some("in use"@)
            } else {
                Some("full · "@ + decimal_text(occupants as nat) + "/"@ + decimal_text(max_occupants as nat))
            }
        } else {
            None
        },
    }
}

/// How a group stands for the server's group list.
pub struct GroupAvailability {
    pub combined_vram_mb: u32,
    pub occupants: u32,
    pub deployable: bool,
    pub busy_reason: Option<String>,
}

fn member_reason(m: &GroupMember) -> (r: Option<String>)
    ensures
        match member_busy(*m) {
            Some(t) => r matches Some(s) && s@ == t,
            None => r is None,
        },
{
    let mut label = string_from("GPU ");
    push_str(&mut label, decimal_string(m.gpu_index as u64).as_str());
    let offline = match &m.slot_state {
        None => true,
        Some(s) => crate::text::equals_str(chars_of(s.as_str()).as_slice(), "OFFLINE"),
    };
    if offline {
        push_str(&mut label, " is offline");
        Some(label)
    } else if m.mig_enabled {
        push_str(&mut label, " has MIG enabled — remove it from the group or disable MIG");
        Some(label)
    } else if m.foreign_occupants > 0 {
        push_str(&mut label, " is in individual use");
        Some(label)
    } else {
        None
    }
}

/// Whether a group can take a deployment now, with its combined VRAM and
/// occupancy: every member online, MIG-disabled and free of other holders,
/// and the group below its cap. A negative occupant count reads as 0.
pub fn group_availability(members: &Vec<GroupMember>, occupants: i64, max_occupants: u32) -> (r: GroupAvailability)
    ensures
        r.combined_vram_mb == combined_vram(members@),
        r.occupants == (if occupants < 0 {
            0u32
        } else {
            occupants as u32
        }),
        match busy_reason_spec(members@, r.occupants, max_occupants) {
            Some(t) => r.busy_reason matches Some(s) && s@ == t,
            None => r.busy_reason is None,
        },
        r.deployable == (busy_reason_spec(members@, r.occupants, max_occupants) is None),
{
    let mut vram: u32 = 0;
    let mut reason: Option<String> = None;
    let n = members.len();
    let mut i: usize = 0;
    while i < n
        invariant
            i <= n == members@.len(),
            vram == combined_vram(members@.take(i as int)),
            match first_busy(members@.take(i as int)) {
                Some(t) => reason matches Some(s) && s@ == t,
                None => reason is None,
            },
        decreases n - i,
    {
        assert(members@.take(i + 1).drop_last() =~= members@.take(i as int));
        let m = &members[i];
        let add: u32 = match m.memory_mb {
            Some(v) => v,
            None => 0,
        };
        vram = if vram > u32::MAX - add {
            u32::MAX
        } else {
            vram + add
        };
        if reason.is_none() {
            reason = member_reason(m);
        }
        i = i + 1;
    }
    assert(members@.take(n as int) =~= members@);
    let occ: u32 = if occupants < 0 {
        0
    } else {
        occupants as u32
    };
    if reason.is_none() && occ >= max_occupants {
        reason = if max_occupants == 1 {
            Some(string_from("in use"))
        } else {
            let mut s = string_from("full · ");
            push_str(&mut s, decimal_string(occ as u64).as_str());
            push_str(&mut s, "/");
            push_str(&mut s, decimal_string(max_occupants as u64).as_str());
            Some(s)
        };
    }
    let deployable = reason.is_none();
    GroupAvailability { combined_vram_mb: vram, occupants: occ, deployable, busy_reason: reason }
}

/// A deploy resolves a group to its members; a group without members (it
/// was deleted meanwhile) is not found.
pub fn require_members(member_count: usize) -> (r: Result<(), AppError>)
    ensures
        r is Ok <==> member_count > 0,
        r matches Err(e) ==> e matches AppError::NotFound(m) && m@ == "group has no members"@,
{
    if member_count == 0 {
        return Err(AppError::NotFound(string_from("group has no members")));
    }
    Ok(())
}

} // verus!
