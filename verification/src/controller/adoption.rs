//! Adoption of a running container that Foundry did not create: the checks
//! that decide whether it can be taken over, the slots it lands on, and the
//! stored form of its name and image.

use crate::controller::error::AppError;
use crate::encoding::{json_string_array, parse_string_array, string_seq};
use crate::shared::{truncate, truncated};
use crate::text::{chars_of, equals_str, string_from};
use vstd::prelude::*;

verus! {

/// What the latest snapshot says of the container to adopt.
pub struct AdoptionCandidate {
    pub managed: bool,
    pub state: String,
    /// The JSON list of the GPU devices it uses, as stored.
    pub gpu_uuids: Option<String>,
}

/// The devices a candidate uses: its stored list where that parses, else
/// none.
pub open spec fn candidate_devices(c: AdoptionCandidate) -> Seq<Seq<char>> {
    match c.gpu_uuids {
        Some(j) => match json_string_array(j@) {
            Some(v) => v,
            None => Seq::empty(),
        },
        None => Seq::empty(),
    }
}

/// Why a container cannot be adopted, as the status and text of the
/// error, checked in this order: it is not in the snapshot, Foundry
/// manages it, it is not running, an active deployment already adopted it,
/// it uses no GPU.
pub open spec fn adoption_refusal(c: Option<AdoptionCandidate>, active_adoptions: i64) -> Option<(u16, Seq<char>)> {
    match c {
        None => Some((404u16, "container not found in the latest snapshot"@)),
        Some(c) => if c.managed {
            Some((400u16, "this container is already managed by Foundry"@))
        } else if c.state@ != "running"@ {
            Some((400u16, "only a currently running container can be adopted"@))
        } else if active_adoptions > 0 {
            Some((400u16, "this container is already adopted"@))
        } else if candidate_devices(c).len() == 0 {
            Some((400u16, "only a container occupying a GPU can be adopted"@))
        } else {
            None
        },
    }
}

pub open spec fn owned(c: Option<&AdoptionCandidate>) -> Option<AdoptionCandidate> {
    match c {
        Some(x) => Some(*x),
        None => None,
    }
}

/// Decides whether the container can be adopted and returns the GPU devices
/// it uses.
pub fn check_adoptable(candidate: Option<&AdoptionCandidate>, active_adoptions: i64) -> (r: Result<Vec<String>, AppError>)
    ensures
        r is Ok <==> adoption_refusal(owned(candidate), active_adoptions) is None,
        r matches Ok(v) ==> string_seq(v@) == candidate_devices(*candidate.unwrap()),
        r matches Err(e) ==> (e is NotFound || e is BadRequest) && Some((e.status_spec(), e.message_spec()))
            == adoption_refusal(owned(candidate), active_adoptions),
{
    let c = match candidate {
        None => return Err(AppError::NotFound(string_from("container not found in the latest snapshot"))),
        Some(c) => c,
    };
    if c.managed {
        return Err(AppError::BadRequest(string_from("this container is already managed by Foundry")));
    }
    let sv = chars_of(c.state.as_str());
    if !equals_str(sv.as_slice(), "running") {
        return Err(AppError::BadRequest(string_from("only a currently running container can be adopted")));
    }
    if active_adoptions > 0 {
        return Err(AppError::BadRequest(string_from("this container is already adopted")));
    }
    let uuids = match &c.gpu_uuids {
        Some(j) => match parse_string_array(j.as_str()) {
            Some(v) => v,
            None => Vec::new(),
        },
        None => Vec::new(),
    };
    assert(uuids@.len() == 0 ==> string_seq(uuids@) =~= Seq::<Seq<char>>::empty());
    if uuids.len() == 0 {
        return Err(AppError::BadRequest(string_from("only a container occupying a GPU can be adopted")));
    }
    Ok(uuids)
}

pub open spec fn found_slots(found: Seq<Option<u128>>) -> Seq<u128>
    decreases found.len(),
{
    if found.len() == 0 {
        Seq::empty()
    } else {
        let r = found_slots(found.drop_last());
        match found.last() {
            Some(s) => r.push(s),
            None => r,
        }
    }
}

/// The slots the adopted deployment holds: those found for its devices,
/// in device order; none found is refused.
pub fn adoption_slots(found: &Vec<Option<u128>>) -> (r: Result<Vec<u128>, AppError>)
    ensures
        r is Ok <==> found_slots(found@).len() > 0,
        r matches Ok(v) ==> v@ == found_slots(found@),
        r matches Err(e) ==> e matches AppError::BadRequest(m) && m@
            == "the container's GPU does not map to any known slot on this server"@,
{
    let mut out: Vec<u128> = Vec::new();
    let n = found.len();
    let mut i: usize = 0;
    while i < n
        invariant
            i <= n == found@.len(),
            out@ == found_slots(found@.take(i as int)),
        decreases n - i,
    {
        assert(found@.take(i + 1).drop_last() =~= found@.take(i as int));
        if let Some(s) = found[i] {
            out.push(s);
        }
        i = i + 1;
    }
    assert(found@.take(n as int) =~= found@);
    if out.len() == 0 {
        return Err(AppError::BadRequest(string_from("the container's GPU does not map to any known slot on this server")));
    }
    Ok(out)
}

/// The adopted deployment's container name and image, cut to their
/// columns (255 and 1024 characters).
pub fn adopted_row(name: &str, image: &str) -> (r: (String, String))
    ensures
        r.0@ == truncated(name@, 255),
        r.1@ == truncated(image@, 1024),
{
    (truncate(name, 255), truncate(image, 1024))
}

} // verus!
