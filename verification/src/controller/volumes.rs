//! Placement-scoped persistent storage: names, container destinations and
//! the rule that decides whether an existing root may be mounted on a
//! target.

use crate::controller::agent_version::{parse, parse_spec, version_ge};
use crate::controller::error::AppError;
use crate::text::{
    all_ascii_digits, chars_of, debug_quoted, debug_str, is_ascii_alnum, is_control_char, join,
    join_chars, push_str, split, split_chars, string_from, string_of, trim, trim_chars,
    utf8_len, utf8_length, views, ascii_alnum, control_char, lemma_split_nonempty,
    is_white_space, lemma_split_then_part, trim_end, trim_start, utf8_width,
};
use crate::ids::{uuid_string, uuid_text};
use vstd::prelude::*;

verus! {

pub const VOLUME_ROOT: &'static str = "/storage/containers";

pub const PURGE_MIN_AGENT_VERSION: (u32, u32, u32) = (0, 54, 0);

pub const FILES_MIN_AGENT_VERSION: (u32, u32, u32) = (0, 63, 0);

/// Where a volume's host directory lives: shared by the whole server, or
/// owned by one physical slot (or GPU group).
#[derive(Clone, Copy, Debug, PartialEq, Eq, Structural)]
pub enum VolumePlacement {
    Server,
    Slot,
}

/// Reads an agent's reported version; the same rule as
/// `agent_version::parse`.
pub fn parse_version(version: &str) -> (r: Option<(u32, u32, u32)>)
    ensures
        r == parse_spec(version@),
{
    parse(version)
}

pub open spec fn volume_name_char(c: char) -> bool {
    is_ascii_alnum(c) || c == '-' || c == '_'
}

/// A volume name: 1 to 63 bytes of ASCII letters, digits, `-` and `_`,
/// starting with a letter or digit.
pub open spec fn valid_volume_name(s: Seq<char>) -> bool {
    &&& s.len() > 0
    &&& utf8_len(s) <= 63
    &&& forall|i: int| 0 <= i < s.len() ==> volume_name_char(#[trigger] s[i])
    &&& is_ascii_alnum(s[0])
}

pub open spec fn invalid_volume_name_message(s: Seq<char>) -> Seq<char> {
    "invalid volume name "@ + debug_quoted(s) + " (alphanumeric/dash/underscore, ≤63 chars)"@
}

pub fn validate_volume_name(name: &str) -> (r: Result<(), AppError>)
    ensures
        r is Ok <==> valid_volume_name(name@),
        r matches Err(e) ==> e matches AppError::BadRequest(m) && m@
            == invalid_volume_name_message(name@),
{
    let v = chars_of(name);
    let n = v.len();
    let mut ok = n > 0 && utf8_length(v.as_slice()) <= 63 && ascii_alnum(v[0]);
    let mut i: usize = 0;
    while ok && i < n
        invariant
            n == v@.len(),
            v@ == name@,
            i <= n,
            ok ==> forall|k: int| 0 <= k < i ==> volume_name_char(#[trigger] v@[k]),
            ok ==> n > 0 && utf8_len(v@) <= 63 && is_ascii_alnum(v@[0]),
            !ok ==> !valid_volume_name(name@),
        decreases n - i,
    {
        let c = v[i];
        if !(ascii_alnum(c) || c == '-' || c == '_') {
            ok = false;
        }
        i = i + 1;
    }
    if !ok {
        let mut m = string_from("invalid volume name ");
        let q = debug_str(name);
        push_str(&mut m, q.as_str());
        push_str(&mut m, " (alphanumeric/dash/underscore, ≤63 chars)");
        return Err(AppError::BadRequest(m));
    }
    Ok(())
}

/// The non-empty parts, in order.
pub open spec fn non_empty_parts(parts: Seq<Seq<char>>) -> Seq<Seq<char>>
    decreases parts.len(),
{
    if parts.len() == 0 {
        Seq::empty()
    } else {
        let r = non_empty_parts(parts.drop_last());
        if parts.last().len() > 0 {
            r.push(parts.last())
        } else {
            r
        }
    }
}

pub open spec fn is_dot_part(p: Seq<char>) -> bool {
    p == seq!['.'] || p == seq!['.', '.']
}

/// A destination Docker can bind without ambiguity: absolute, at most 255
/// bytes, no `:` (the compact bind separator) and no control character.
pub open spec fn safe_destination(t: Seq<char>) -> bool {
    &&& t.len() > 0 && t[0] == '/'
    &&& utf8_len(t) <= 255
    &&& !t.contains(':')
    &&& forall|i: int| 0 <= i < t.len() ==> !is_control_char(#[trigger] t[i])
}

/// The components after the leading `/`.
pub open spec fn path_components(t: Seq<char>) -> Seq<Seq<char>> {
    split(t, '/').drop_first()
}

/// What `normalize_container_path` answers: the normalized destination, or
/// the text of the validation error.
pub open spec fn normalized_container_path(p: Seq<char>) -> Result<Seq<char>, Seq<char>> {
    let t = trim(p);
    if !safe_destination(t) {
        Err("mount path "@ + debug_quoted(t) + " must be a safe absolute Docker destination"@)
    } else if exists|i: int|
        0 <= i < path_components(t).len() && is_dot_part(#[trigger] path_components(t)[i]) {
        Err("mount path "@ + debug_quoted(t) + " must not contain . or .. components"@)
    } else {
        let c = non_empty_parts(path_components(t));
        if c.len() == 0 {
            Ok(seq!['/'])
        } else {
            Ok(seq!['/'] + join(c, seq!['/']))
        }
    }
}

/// Normalizes a container bind destination: trimmed, absolute, empty
/// components dropped, and `.`/`..` components refused.
pub fn normalize_container_path(path: &str) -> (r: Result<String, AppError>)
    ensures
        r matches Ok(s) ==> normalized_container_path(path@) == Ok::<Seq<char>, Seq<char>>(s@),
        r matches Err(e) ==> e matches AppError::BadRequest(m) && normalized_container_path(
            path@,
        ) == Err::<Seq<char>, Seq<char>>(m@),
{
    let raw = chars_of(path);
    let t = trim_chars(raw.as_slice());
    let n = t.len();
    let mut safe = n > 0 && t[0] == '/' && utf8_length(t.as_slice()) <= 255;
    let mut i: usize = 0;
    while safe && i < n
        invariant
            n == t@.len(),
            i <= n,
            safe ==> t@.len() > 0 && t@[0] == '/' && utf8_len(t@) <= 255,
            safe ==> forall|k: int| 0 <= k < i ==> t@[k] != ':' && !is_control_char(#[trigger] t@[k]),
            !safe ==> !safe_destination(t@),
        decreases n - i,
    {
        let c = t[i];
        if c == ':' || control_char(c) {
            safe = false;
        }
        i = i + 1;
    }
    let ts = string_of(t.as_slice());
    if !safe {
        let mut m = string_from("mount path ");
        let q = debug_str(ts.as_str());
        push_str(&mut m, q.as_str());
        push_str(&mut m, " must be a safe absolute Docker destination");
        return Err(AppError::BadRequest(m));
    }
    assert(!t@.contains(':'));
    assert(safe_destination(t@));
    assert(t@ == trim(path@));
    let parts = split_chars(t.as_slice(), '/');
    proof {
        lemma_split_nonempty(t@, '/');
    }
    let ghost comps = path_components(t@);
    let mut kept: Vec<Vec<char>> = Vec::new();
    let pn = parts.len();
    let mut j: usize = 1;
    assert(comps.take(0) =~= Seq::<Seq<char>>::empty());
    while j < pn
        invariant
            1 <= j <= pn,
            pn == parts@.len(),
            views(parts@) == split(t@, '/'),
            comps == path_components(t@),
            t@ == trim(path@),
            ts@ == t@,
            safe_destination(t@),
            comps.len() == pn - 1,
            views(kept@) == non_empty_parts(comps.take(j - 1)),
            forall|k: int| 0 <= k < j - 1 ==> !is_dot_part(#[trigger] comps[k]),
        decreases pn - j,
    {
        let part = &parts[j];
        assert(part@ == comps[j - 1]);
        assert(comps.take(j as int).drop_last() =~= comps.take(j - 1));
        let pl = part.len();
        if (pl == 1 && part[0] == '.') || (pl == 2 && part[0] == '.' && part[1] == '.') {
            assert(is_dot_part(comps[j - 1])) by {
                if pl == 1 {
                    assert(part@ =~= seq!['.']);
                } else {
                    assert(part@ =~= seq!['.', '.']);
                }
            }
            assert(is_dot_part(path_components(trim(path@))[j - 1]));
            let mut m = string_from("mount path ");
            let q = debug_str(ts.as_str());
            push_str(&mut m, q.as_str());
            push_str(&mut m, " must not contain . or .. components");
            return Err(AppError::BadRequest(m));
        }
        assert(!is_dot_part(comps[j - 1]));
        if pl > 0 {
            kept.push(part.clone());
            assert(views(kept@) =~= non_empty_parts(comps.take(j - 1)).push(part@));
        }
        j = j + 1;
    }
    assert(comps.take(pn - 1) =~= comps);
    assert(!exists|i: int| 0 <= i < comps.len() && is_dot_part(#[trigger] comps[i]));
    let mut out = string_from("/");
    proof {
        reveal_strlit("/");
    }
    assert(out@ =~= seq!['/']);
    if kept.len() > 0 {
        let sep = ['/'];
        let joined = join_chars(&kept, sep.as_slice());
        assert(sep@ =~= seq!['/']);
        let js = string_of(joined.as_slice());
        push_str(&mut out, js.as_str());
    }
    Ok(out)
}

pub fn validate_container_path(path: &str) -> (r: Result<(), AppError>)
    ensures
        r is Ok <==> normalized_container_path(path@) is Ok,
        r matches Err(e) ==> e matches AppError::BadRequest(m) && normalized_container_path(
            path@,
        ) == Err::<Seq<char>, Seq<char>>(m@),
{
    match normalize_container_path(path) {
        Ok(_) => Ok(()),
        Err(e) => Err(e),
    }
}

/// Whether an existing root may be mounted on the target: it must sit on
/// the target's server, and its physical placement must be the target's
/// server (shared roots) or the target's GPU group, or its slot when it has
/// no group. Identifiers are the 128-bit values of their UUIDs.
pub open spec fn volume_compatible(
    source_server_id: u128,
    source_placement: VolumePlacement,
    source_placement_id: u128,
    target_server_id: u128,
    target_slot_id: u128,
    target_group_id: Option<u128>,
) -> bool {
    source_server_id == target_server_id && match source_placement {
        VolumePlacement::Server => source_placement_id == target_server_id,
        VolumePlacement::Slot => source_placement_id == match target_group_id {
            Some(g) => g,
            None => target_slot_id,
        },
    }
}

pub fn explicit_volume_compatible(
    source_server_id: u128,
    source_placement: VolumePlacement,
    source_placement_id: u128,
    target_server_id: u128,
    target_slot_id: u128,
    target_group_id: Option<u128>,
) -> (r: bool)
    ensures
        r == volume_compatible(
            source_server_id,
            source_placement,
            source_placement_id,
            target_server_id,
            target_slot_id,
            target_group_id,
        ),
{
    if source_server_id != target_server_id {
        return false;
    }
    match source_placement {
        VolumePlacement::Server => source_placement_id == target_server_id,
        VolumePlacement::Slot => source_placement_id == match target_group_id {
            Some(g) => g,
            None => target_slot_id,
        },
    }
}

/// Whether the reported agent version is at least `minimum`.
pub open spec fn reported_at_least(version: Option<Seq<char>>, minimum: (u32, u32, u32)) -> bool {
    match version {
        Some(v) => match parse_spec(v) {
            Some(p) => version_ge(p, minimum),
            None => false,
        },
        None => false,
    }
}

pub open spec fn reported_text(version: Option<Seq<char>>) -> Seq<char> {
    match version {
        Some(v) => v,
        None => "unknown"@,
    }
}

pub open spec fn opt_view(version: Option<&str>) -> Option<Seq<char>> {
    match version {
        Some(v) => Some(v@),
        None => None,
    }
}

fn support_gate(version: Option<&str>, minimum: (u32, u32, u32), prefix: &str) -> (r: Result<
    (),
    AppError,
>)
    ensures
        r is Ok <==> reported_at_least(opt_view(version), minimum),
        r matches Err(e) ==> e matches AppError::BadRequest(m) && m@ == prefix@ + reported_text(
            opt_view(version),
        ) + ")"@,
{
    let ok = match version {
        Some(v) => match parse(v) {
            Some(p) => p.0 > minimum.0 || (p.0 == minimum.0 && (p.1 > minimum.1 || (p.1
                == minimum.1 && p.2 >= minimum.2))),
            None => false,
        },
        None => false,
    };
    if ok {
        return Ok(());
    }
    let mut m = string_from(prefix);
    match version {
        Some(v) => push_str(&mut m, v),
        None => push_str(&mut m, "unknown"),
    }
    push_str(&mut m, ")");
    Err(AppError::BadRequest(m))
}

/// File sessions need a protocol the agent gained in 0.63; decides from the
/// version the agent reported (if any).
pub fn file_support(version: Option<&str>) -> (r: Result<(), AppError>)
    ensures
        r is Ok <==> reported_at_least(opt_view(version), FILES_MIN_AGENT_VERSION),
        r matches Err(e) ==> e matches AppError::BadRequest(m) && m@
            == "placement-scoped volume files require foundry-agent 0.63.0 or newer on this server (reported "@
            + reported_text(opt_view(version)) + ")"@,
{
    support_gate(
        version,
        FILES_MIN_AGENT_VERSION,
        "placement-scoped volume files require foundry-agent 0.63.0 or newer on this server (reported ",
    )
}

/// Volume purges are a task variant older agents cannot decode; decides from
/// the version the agent reported (if any).
pub fn purge_support(version: Option<&str>) -> (r: Result<(), AppError>)
    ensures
        r is Ok <==> reported_at_least(opt_view(version), PURGE_MIN_AGENT_VERSION),
        r matches Err(e) ==> e matches AppError::BadRequest(m) && m@
            == "volume purge requires foundry-agent 0.54.0 or newer on this server (reported "@
            + reported_text(opt_view(version)) + ")"@,
{
    support_gate(
        version,
        PURGE_MIN_AGENT_VERSION,
        "volume purge requires foundry-agent 0.54.0 or newer on this server (reported ",
    )
}

impl VolumePlacement {
    /// The placement's name as stored in the `placement` column.
    pub open spec fn name_spec(self) -> Seq<char> {
        match self {
            VolumePlacement::Server => "SERVER"@,
            VolumePlacement::Slot => "SLOT"@,
        }
    }

    pub fn as_str(self) -> (r: &'static str)
        ensures
            r@ == self.name_spec(),
    {
        match self {
            VolumePlacement::Server => "SERVER",
            VolumePlacement::Slot => "SLOT",
        }
    }

    /// Reads a stored placement.
    pub fn parse(s: &str) -> (r: Option<VolumePlacement>)
        ensures
            r == (if s@ == "SERVER"@ {
                Some(VolumePlacement::Server)
            } else if s@ == "SLOT"@ {
                Some(VolumePlacement::Slot)
            } else {
                None::<VolumePlacement>
            }),
    {
        let v = chars_of(s);
        if crate::text::equals_str(v.as_slice(), "SERVER") {
            Some(VolumePlacement::Server)
        } else if crate::text::equals_str(v.as_slice(), "SLOT") {
            Some(VolumePlacement::Slot)
        } else {
            None
        }
    }
}

/// The scope a new volume is keyed by: (placement id, slot, group). A
/// slot-placed volume belongs to the target's GPU group when it has one,
/// else to its slot; a server-wide one to the server.
pub open spec fn placement_scope_spec(
    placement: VolumePlacement,
    server_id: u128,
    slot_id: u128,
    group_id: Option<u128>,
) -> (u128, Option<u128>, Option<u128>) {
    match placement {
        VolumePlacement::Slot => match group_id {
            Some(g) => (g, None, Some(g)),
            None => (slot_id, Some(slot_id), None),
        },
        VolumePlacement::Server => (server_id, None, None),
    }
}

pub fn placement_scope(
    placement: VolumePlacement,
    server_id: u128,
    slot_id: u128,
    group_id: Option<u128>,
) -> (r: (u128, Option<u128>, Option<u128>))
    ensures
        r == placement_scope_spec(placement, server_id, slot_id, group_id),
{
    match placement {
        VolumePlacement::Slot => match group_id {
            Some(g) => (g, None, Some(g)),
            None => (slot_id, Some(slot_id), None),
        },
        VolumePlacement::Server => (server_id, None, None),
    }
}

/// The host directory of a new volume:
/// `/storage/containers/.foundry/<scope>/<project>/<name>/<volume id>`,
/// where the scope is `shared`, `groups/<group id>` or `slots/<slot id>`.
pub open spec fn new_volume_path_spec(
    placement: VolumePlacement,
    slot_id: u128,
    group_id: Option<u128>,
    project: Seq<char>,
    name: Seq<char>,
    volume_id: u128,
) -> Seq<char> {
    let scope = match placement {
        VolumePlacement::Server => "shared"@,
        VolumePlacement::Slot => match group_id {
            Some(g) => "groups/"@ + uuid_text(g),
            None => "slots/"@ + uuid_text(slot_id),
        },
    };
    "/storage/containers/.foundry/"@ + scope + "/"@ + project + "/"@ + name + "/"@ + uuid_text(volume_id)
}

pub fn new_volume_path(
    placement: VolumePlacement,
    slot_id: u128,
    group_id: Option<u128>,
    project: &str,
    name: &str,
    volume_id: u128,
) -> (r: String)
    ensures
        r@ == new_volume_path_spec(placement, slot_id, group_id, project@, name@, volume_id),
{
    let mut s = string_from("/storage/containers/.foundry/");
    match placement {
        VolumePlacement::Server => push_str(&mut s, "shared"),
        VolumePlacement::Slot => match group_id {
            Some(g) => {
                push_str(&mut s, "groups/");
                push_str(&mut s, uuid_string(g).as_str());
            },
            None => {
                push_str(&mut s, "slots/");
                push_str(&mut s, uuid_string(slot_id).as_str());
            },
        },
    }
    push_str(&mut s, "/");
    push_str(&mut s, project);
    push_str(&mut s, "/");
    push_str(&mut s, name);
    push_str(&mut s, "/");
    push_str(&mut s, uuid_string(volume_id).as_str());
    s
}

/// Whether a volume that is not directly compatible may still be carried
/// forward as a legacy group root: only by a replacement of a group
/// deployment, for a slot-placed root on the same server (the caller then
/// checks that the predecessor mounted it).
pub open spec fn legacy_root_candidate(
    replaces: bool,
    group_id: Option<u128>,
    directly_compatible: bool,
    same_server: bool,
    placement: VolumePlacement,
) -> bool {
    replaces && group_id is Some && !directly_compatible && same_server && placement == VolumePlacement::Slot
}

pub fn is_legacy_root_candidate(
    replaces: bool,
    group_id: Option<u128>,
    directly_compatible: bool,
    same_server: bool,
    placement: VolumePlacement,
) -> (r: bool)
    ensures
        r == legacy_root_candidate(replaces, group_id, directly_compatible, same_server, placement),
{
    replaces && group_id.is_some() && !directly_compatible && same_server && placement == VolumePlacement::Slot
}

/// The decision on a mount that names an existing volume: its stored name
/// and placement must still be the requested ones, and the root must be
/// directly compatible with the target or a proven legacy group root.
pub fn check_explicit_volume(
    stored_name: &str,
    stored_placement: VolumePlacement,
    requested_name: &str,
    requested_placement: VolumePlacement,
    directly_compatible: bool,
    legacy_root: bool,
) -> (r: Result<(), AppError>)
    ensures
        (stored_name@ != requested_name@ || stored_placement != requested_placement) ==> (r matches Err(e)
            && e matches AppError::BadRequest(m) && m@
            == "selected volume no longer matches the requested mount name or placement"@),
        (stored_name@ == requested_name@ && stored_placement == requested_placement) ==> (r is Ok
            <==> (directly_compatible || legacy_root)),
        (stored_name@ == requested_name@ && stored_placement == requested_placement && !directly_compatible
            && !legacy_root) ==> (r matches Err(e) && e is Forbidden),
{
    let a = chars_of(stored_name);
    if !crate::text::equals_str(a.as_slice(), requested_name) || stored_placement != requested_placement {
        return Err(AppError::BadRequest(string_from("selected volume no longer matches the requested mount name or placement")));
    }
    if !directly_compatible && !legacy_root {
        return Err(AppError::Forbidden);
    }
    Ok(())
}

// ------------------------------------------------------------ normalization is stable

proof fn lemma_utf8_len_concat(a: Seq<char>, b: Seq<char>)
    ensures
        utf8_len(a + b) == utf8_len(a) + utf8_len(b),
    decreases b.len(),
{
    if b.len() == 0 {
        assert(a + b =~= a);
    } else {
        lemma_utf8_len_concat(a, b.drop_last());
        assert((a + b).drop_last() =~= a + b.drop_last());
    }
}

/// The parts of a split never hold the separator.
proof fn lemma_split_parts_lack_separator(s: Seq<char>, sep: char)
    ensures
        forall|k: int| 0 <= k < split(s, sep).len() ==> !(#[trigger] split(s, sep)[k]).contains(sep),
    decreases s.len(),
{
    if s.len() > 0 {
        lemma_split_parts_lack_separator(s.drop_last(), sep);
        lemma_split_nonempty(s.drop_last(), sep);
        let p = split(s.drop_last(), sep);
        if s.last() != sep {
            let q = p.update(p.len() - 1, p.last().push(s.last()));
            assert forall|k: int| 0 <= k < q.len() implies !(#[trigger] q[k]).contains(sep) by {
                if k == p.len() - 1 {
                    if q[k].contains(sep) {
                        let i = choose|i: int| 0 <= i < q[k].len() && q[k][i] == sep;
                        if i < p.last().len() {
                            assert(p[k][i] == sep);
                            assert(p[k].contains(sep));
                        }
                    }
                } else {
                    assert(q[k] == p[k]);
                }
            }
        } else {
            let q = p.push(Seq::<char>::empty());
            assert forall|k: int| 0 <= k < q.len() implies !(#[trigger] q[k]).contains(sep) by {
                if k < p.len() {
                    assert(q[k] == p[k]);
                }
            }
        }
    }
}

/// Text that starts with the separator splits into an empty first part and
/// at least one more.
proof fn lemma_split_leading_separator(s: Seq<char>, sep: char)
    requires
        s.len() > 0,
        s[0] == sep,
    ensures
        split(s, sep).len() >= 2,
        split(s, sep)[0].len() == 0,
    decreases s.len(),
{
    lemma_split_nonempty(s.drop_last(), sep);
    if s.len() == 1 {
        assert(s.drop_last() =~= Seq::<char>::empty());
    } else {
        lemma_split_leading_separator(s.drop_last(), sep);
    }
}

/// The last part is empty exactly when the text is empty or ends with the
/// separator.
proof fn lemma_split_last_part(s: Seq<char>, sep: char)
    ensures
        split(s, sep).len() >= 1,
        (split(s, sep).last().len() == 0) <==> (s.len() == 0 || s.last() == sep),
{
    lemma_split_nonempty(s, sep);
    if s.len() > 0 {
        lemma_split_nonempty(s.drop_last(), sep);
    }
}

/// Each kept part is non-empty and is one of the parts it was taken from.
proof fn lemma_non_empty_parts_members(ps: Seq<Seq<char>>)
    ensures
        forall|k: int|
            0 <= k < non_empty_parts(ps).len() ==> (#[trigger] non_empty_parts(ps)[k]).len() > 0 && exists|i: int|
                0 <= i < ps.len() && ps[i] == non_empty_parts(ps)[k],
    decreases ps.len(),
{
    if ps.len() > 0 {
        lemma_non_empty_parts_members(ps.drop_last());
        let r = non_empty_parts(ps.drop_last());
        let q = non_empty_parts(ps);
        assert forall|k: int| 0 <= k < q.len() implies (#[trigger] q[k]).len() > 0 && exists|i: int|
            0 <= i < ps.len() && ps[i] == q[k] by {
            if k < r.len() {
                assert(q[k] == r[k]);
                let i = choose|i: int| 0 <= i < ps.drop_last().len() && ps.drop_last()[i] == r[k];
                assert(ps[i] == q[k]);
            } else {
                assert(ps[ps.len() - 1] == q[k]);
            }
        }
    }
}

/// Parts that are all non-empty are kept as they are.
proof fn lemma_non_empty_parts_keep_all(ps: Seq<Seq<char>>)
    requires
        forall|k: int| 0 <= k < ps.len() ==> (#[trigger] ps[k]).len() > 0,
    ensures
        non_empty_parts(ps) == ps,
    decreases ps.len(),
{
    if ps.len() > 0 {
        lemma_non_empty_parts_keep_all(ps.drop_last());
        assert(ps.drop_last().push(ps.last()) =~= ps);
    }
}

/// An empty first part changes nothing that is kept.
proof fn lemma_non_empty_parts_skip_empty_head(ps: Seq<Seq<char>>)
    requires
        ps.len() > 0,
        ps[0].len() == 0,
    ensures
        non_empty_parts(ps.drop_first()) == non_empty_parts(ps),
    decreases ps.len(),
{
    if ps.len() == 1 {
        assert(ps.drop_last() =~= Seq::<Seq<char>>::empty());
        assert(ps.drop_first() =~= Seq::<Seq<char>>::empty());
    } else {
        lemma_non_empty_parts_skip_empty_head(ps.drop_last());
        assert(ps.drop_first().drop_last() =~= ps.drop_last().drop_first());
        assert(ps.drop_first().last() == ps.last());
    }
}

proof fn lemma_join_push(xs: Seq<Seq<char>>, y: Seq<char>, sep: Seq<char>)
    ensures
        join(xs.push(y), sep) == if xs.len() == 0 {
            y
        } else {
            join(xs, sep) + sep + y
        },
{
    assert(xs.push(y).drop_last() =~= xs);
}

/// `/` and the parts joined with `/` split back into an empty part and
/// the parts.
proof fn lemma_split_rooted_join(q: Seq<Seq<char>>)
    requires
        q.len() > 0,
        forall|k: int| 0 <= k < q.len() ==> !(#[trigger] q[k]).contains('/'),
    ensures
        split(seq!['/'] + join(q, seq!['/']), '/') == seq![Seq::<char>::empty()] + q,
    decreases q.len(),
{
    if q.len() == 1 {
        assert(join(q, seq!['/']) == q[0]);
        assert(seq!['/'] + q[0] =~= Seq::<char>::empty() + seq!['/'] + q[0]);
        lemma_split_then_part(Seq::<char>::empty(), '/', q[0]);
        assert(seq![Seq::<char>::empty()] + q =~= seq![Seq::<char>::empty()].push(q[0]));
    } else {
        let d = q.drop_last();
        lemma_split_rooted_join(d);
        assert(!q.last().contains('/')) by {
            assert(!q[q.len() - 1].contains('/'));
        }
        assert(join(q, seq!['/']) == join(d, seq!['/']) + seq!['/'] + q.last());
        assert(seq!['/'] + join(q, seq!['/']) =~= (seq!['/'] + join(d, seq!['/'])) + seq!['/'] + q.last());
        lemma_split_then_part(seq!['/'] + join(d, seq!['/']), '/', q.last());
        assert((seq![Seq::<char>::empty()] + d).push(q.last()) =~= seq![Seq::<char>::empty()] + q);
    }
}

/// A character a safe destination may hold.
pub open spec fn destination_char(c: char) -> bool {
    c != ':' && !is_control_char(c)
}

/// The parts of a rooted path kept in order; what the normalized path joins.
pub open spec fn kept_path_parts(t: Seq<char>) -> Seq<Seq<char>> {
    non_empty_parts(split(t, '/'))
}

/// What joining the kept parts gives, against the text they came from:
/// with the leading `/` it is never longer, and it holds no character the
/// text did not allow.
proof fn lemma_kept_parts_fit(t: Seq<char>)
    requires
        t.len() > 0,
        t[0] == '/',
    ensures
        1 + utf8_len(join(kept_path_parts(t), seq!['/'])) + (if t.last() == '/' && kept_path_parts(t).len() > 0 {
            1int
        } else {
            0int
        }) <= utf8_len(t),
        (join(kept_path_parts(t), seq!['/']).len() == 0) <==> (kept_path_parts(t).len() == 0),
        (forall|j: int| 0 <= j < t.len() ==> destination_char(#[trigger] t[j])) ==> forall|i: int|
            0 <= i < join(kept_path_parts(t), seq!['/']).len() ==> destination_char(
                #[trigger] join(kept_path_parts(t), seq!['/'])[i],
            ),
    decreases t.len(),
{
    let sep = seq!['/'];
    let c = t.last();
    let td = t.drop_last();
    let p = split(td, '/');
    lemma_split_nonempty(td, '/');
    assert(td.push(c) =~= t);
    if t.len() == 1 {
        assert(td =~= Seq::<char>::empty());
        assert(split(t, '/') == p.push(Seq::<char>::empty()));
        assert(p.drop_last() =~= Seq::<Seq<char>>::empty());
        assert(non_empty_parts(p) == non_empty_parts(p.drop_last()));
        assert(p.push(Seq::<char>::empty()).drop_last() =~= p);
        assert(kept_path_parts(t) =~= Seq::<Seq<char>>::empty());
    } else {
        lemma_kept_parts_fit(td);
        lemma_split_last_part(td, '/');
        let q = non_empty_parts(p);
        let k = join(q, sep);
        assert(td[0] == '/');
        if c == '/' {
            assert(split(t, '/') == p.push(Seq::<char>::empty()));
            assert(p.push(Seq::<char>::empty()).drop_last() =~= p);
            assert(kept_path_parts(t) == q);
            lemma_utf8_len_concat(td, seq![c]);
            assert(td + seq![c] =~= t);
        } else {
            let v = p.last().push(c);
            assert(split(t, '/') == p.update(p.len() - 1, v));
            assert(p.update(p.len() - 1, v) =~= p.drop_last().push(v));
            assert(p.update(p.len() - 1, v).drop_last() =~= p.drop_last());
            assert(kept_path_parts(t) == non_empty_parts(p.drop_last()).push(v));
            assert(p.drop_last().push(p.last()) =~= p);
            lemma_utf8_len_concat(td, seq![c]);
            assert(td + seq![c] =~= t);
            if p.last().len() == 0 {
                assert(v =~= seq![c]);
                assert(q == non_empty_parts(p.drop_last()));
                lemma_join_push(q, v, sep);
                lemma_utf8_len_concat(k + sep, v);
                lemma_utf8_len_concat(k, sep);
                assert(utf8_len(seq![c]) == utf8_width(c)) by {
                    assert(seq![c].drop_last() =~= Seq::<char>::empty());
                }
                assert(utf8_len(sep) == 1) by {
                    assert(sep.drop_last() =~= Seq::<char>::empty());
                }
                let k2 = join(kept_path_parts(t), sep);
                if (forall|j: int| 0 <= j < t.len() ==> destination_char(#[trigger] t[j])) {
                    assert(forall|j: int| 0 <= j < td.len() ==> destination_char(#[trigger] td[j])) by {
                        assert forall|j: int| 0 <= j < td.len() implies destination_char(#[trigger] td[j]) by {
                            assert(td[j] == t[j]);
                        }
                    }
                    assert(destination_char(t[t.len() - 1]));
                    assert forall|i: int| 0 <= i < k2.len() implies destination_char(#[trigger] k2[i]) by {
                        if q.len() > 0 {
                            if i < k.len() {
                                assert(k2[i] == k[i]);
                            }
                        }
                    }
                }
            } else {
                assert(q == non_empty_parts(p.drop_last()).push(p.last()));
                let x = non_empty_parts(p.drop_last());
                lemma_join_push(x, p.last(), sep);
                lemma_join_push(x, v, sep);
                let k2 = join(kept_path_parts(t), sep);
                assert(k2 =~= k.push(c));
                assert(k.push(c).drop_last() =~= k);
                if (forall|j: int| 0 <= j < t.len() ==> destination_char(#[trigger] t[j])) {
                    assert(forall|j: int| 0 <= j < td.len() ==> destination_char(#[trigger] td[j])) by {
                        assert forall|j: int| 0 <= j < td.len() implies destination_char(#[trigger] td[j]) by {
                            assert(td[j] == t[j]);
                        }
                    }
                    assert(destination_char(t[t.len() - 1]));
                    assert forall|i: int| 0 <= i < k2.len() implies destination_char(#[trigger] k2[i]) by {
                        if i < k.len() {
                            assert(k2[i] == k[i]);
                        }
                    }
                }
            }
        }
    }
}

/// Normalizing a destination that normalization produced gives it back
/// unchanged, unless it ends in white space (a last component such as
/// `a ` survives the first pass, and the second pass trims it).
pub proof fn lemma_normalized_destination_is_stable(p: Seq<char>, r: Seq<char>)
    requires
        normalized_container_path(p) == Ok::<Seq<char>, Seq<char>>(r),
        !is_white_space(r.last()),
    ensures
        normalized_container_path(r) == Ok::<Seq<char>, Seq<char>>(r),
{
    let t = trim(p);
    let sep = seq!['/'];
    assert(safe_destination(t));
    lemma_split_leading_separator(t, '/');
    lemma_non_empty_parts_skip_empty_head(split(t, '/'));
    let q = kept_path_parts(t);
    assert(non_empty_parts(path_components(t)) == q);
    assert(forall|j: int| 0 <= j < t.len() ==> destination_char(#[trigger] t[j])) by {
        assert forall|j: int| 0 <= j < t.len() implies destination_char(#[trigger] t[j]) by {
            if t[j] == ':' {
                assert(t.contains(':'));
            }
        }
    }
    lemma_kept_parts_fit(t);
    let k = join(q, sep);
    // r is `/` followed by the joined parts.
    assert(r =~= seq!['/'] + k);
    assert(r[0] == '/');
    assert(!is_white_space(r[0]));
    assert(trim_start(r) == r);
    assert(trim_end(r) == r);
    assert(trim(r) == r);
    lemma_utf8_len_concat(sep, k);
    assert(utf8_len(sep) == 1) by {
        assert(sep.drop_last() =~= Seq::<char>::empty());
        assert(utf8_len(Seq::<char>::empty()) == 0);
        assert(('/' as u32) < 0x80);
        assert(utf8_width('/') == 1);
    }
    assert forall|i: int| 0 <= i < r.len() implies !is_control_char(#[trigger] r[i]) && r[i] != ':' by {
        if i > 0 {
            assert(r[i] == k[i - 1]);
        }
    }
    assert(!r.contains(':'));
    assert(safe_destination(r));
    if q.len() == 0 {
        assert(r =~= seq!['/']);
        assert(r =~= Seq::<char>::empty() + seq!['/'] + Seq::<char>::empty());
        lemma_split_then_part(Seq::<char>::empty(), '/', Seq::<char>::empty());
        assert(path_components(r) =~= seq![Seq::<char>::empty()]);
        assert(!exists|i: int| 0 <= i < path_components(r).len() && is_dot_part(#[trigger] path_components(r)[i]));
        assert(non_empty_parts(path_components(r)) =~= Seq::<Seq<char>>::empty()) by {
            let pc = path_components(r);
            assert(pc.drop_last() =~= Seq::<Seq<char>>::empty());
            assert(pc.last().len() == 0);
            assert(non_empty_parts(Seq::<Seq<char>>::empty()) =~= Seq::<Seq<char>>::empty());
            assert(non_empty_parts(pc) == non_empty_parts(pc.drop_last()));
        }
    } else {
        lemma_non_empty_parts_members(split(t, '/'));
        lemma_split_parts_lack_separator(t, '/');
        assert forall|j: int| 0 <= j < q.len() implies !(#[trigger] q[j]).contains('/') && q[j].len() > 0
            && !is_dot_part(q[j]) by {
            let i = choose|i: int| 0 <= i < split(t, '/').len() && split(t, '/')[i] == q[j];
            assert(!split(t, '/')[i].contains('/'));
            assert(i >= 1);
            assert(path_components(t)[i - 1] == q[j]);
        }
        lemma_split_rooted_join(q);
        assert(path_components(r) =~= q);
        lemma_non_empty_parts_keep_all(q);
    }
}

/// The volume gates read a reported version as the agent gates do: it
/// passes exactly when it parses to a triple at least the minimum, the
/// major number deciding first, then the minor, then the patch.
pub proof fn lemma_reported_version_gate(version: Seq<char>, minimum: (u32, u32, u32))
    ensures
        parse_spec(version) is None ==> !reported_at_least(Some(version), minimum),
        parse_spec(version) matches Some(p) ==> {
            &&& p.0 > minimum.0 ==> reported_at_least(Some(version), minimum)
            &&& p.0 < minimum.0 ==> !reported_at_least(Some(version), minimum)
            &&& p.0 == minimum.0 && p.1 > minimum.1 ==> reported_at_least(Some(version), minimum)
            &&& p.0 == minimum.0 && p.1 < minimum.1 ==> !reported_at_least(Some(version), minimum)
            &&& p.0 == minimum.0 && p.1 == minimum.1 ==> (reported_at_least(Some(version), minimum) <==> p.2
                >= minimum.2)
        },
        !reported_at_least(None, minimum),
{
}

} // verus!