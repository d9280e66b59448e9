//! What the agent reports of each container: its ports without the copies
//! Docker lists per host interface, the GPU devices it was given, its
//! mounts, and which listed containers are inspected at all.

use crate::encoding::string_seq;
use crate::sorting::{
    insert_text_set, lemma_text_le_reflexive, lemma_text_le_total, lemma_text_lt_transitive,
    strictly_sorted_text, text_le, text_lt, text_lt_exec,
};
use crate::agent::inventory::{
    container_name, layout_view, mig_view, resolve_device_ref, resolved_ref, short_id, MigView,
};
use crate::agent::tasks::{label_of, label_value};
use crate::shared::{GpuInfo, MigDeviceInfo};
use crate::text::{
    chars_of, equals_str, slice_chars, split, split_chars, starts_with, starts_with_seq,
    string_from, string_of, strip_leading, to_lowercase, trim, trim_chars, unicode_lowercase, views,
};
use vstd::prelude::*;

verus! {

/// A port as Docker lists it: the container port, the host port it is
/// published on (if any) and the protocol's name as Docker spells it.
pub struct ListedPort {
    pub private_port: u16,
    pub public_port: Option<u16>,
    pub protocol: Option<String>,
}

/// A port mapping of the inventory, protocol in lower case.
pub struct PortMapping {
    pub container_port: u16,
    pub host_port: Option<u16>,
    pub protocol: String,
}

pub open spec fn protocol_of(p: ListedPort) -> Seq<char> {
    match p.protocol {
        Some(t) => unicode_lowercase(t@),
        None => "tcp"@,
    }
}

/// What a listed port reports, as the key the mappings are ordered by.
pub open spec fn listed_key(p: ListedPort) -> (u16, Option<u16>, Seq<char>) {
    (p.private_port, p.public_port, protocol_of(p))
}

pub open spec fn mapping_key(p: PortMapping) -> (u16, Option<u16>, Seq<char>) {
    (p.container_port, p.host_port, p.protocol@)
}

pub open spec fn mapping_keys(v: Seq<PortMapping>) -> Seq<(u16, Option<u16>, Seq<char>)> {
    v.map_values(|p: PortMapping| mapping_key(p))
}

/// `None` before any port, ports by number.
pub open spec fn host_port_lt(a: Option<u16>, b: Option<u16>) -> bool {
    match (a, b) {
        (None, Some(_)) => true,
        (Some(x), Some(y)) => x < y,
        _ => false,
    }
}

/// The order of the tuple `(container_port, host_port, protocol)`.
pub open spec fn key_lt(a: (u16, Option<u16>, Seq<char>), b: (u16, Option<u16>, Seq<char>)) -> bool {
    a.0 < b.0 || (a.0 == b.0 && host_port_lt(a.1, b.1)) || (a.0 == b.0 && a.1 == b.1 && text_lt(a.2, b.2))
}

pub open spec fn strictly_sorted_keys(s: Seq<(u16, Option<u16>, Seq<char>)>) -> bool {
    forall|i: int, j: int| 0 <= i < j < s.len() ==> key_lt(#[trigger] s[i], #[trigger] s[j])
}

proof fn lemma_key_lt_transitive(
    a: (u16, Option<u16>, Seq<char>),
    b: (u16, Option<u16>, Seq<char>),
    c: (u16, Option<u16>, Seq<char>),
)
    requires
        key_lt(a, b),
        key_lt(b, c),
    ensures
        key_lt(a, c),
{
    if a.0 == b.0 && b.0 == c.0 && a.1 == b.1 && b.1 == c.1 {
        lemma_text_lt_transitive(a.2, b.2, c.2);
    }
}

/// Two different keys are ordered one way or the other.
proof fn lemma_key_lt_total(a: (u16, Option<u16>, Seq<char>), b: (u16, Option<u16>, Seq<char>))
    ensures
        a == b || key_lt(a, b) || key_lt(b, a),
{
    if a.0 == b.0 && a.1 == b.1 && a.2 != b.2 {
        lemma_text_le_total(a.2, b.2);
    }
}

proof fn lemma_key_lt_irreflexive(a: (u16, Option<u16>, Seq<char>))
    ensures
        !key_lt(a, a),
{
}

fn host_port_lt_exec(a: Option<u16>, b: Option<u16>) -> (r: bool)
    ensures
        r == host_port_lt(a, b),
{
    match (a, b) {
        (None, Some(_)) => true,
        (Some(x), Some(y)) => x < y,
        _ => false,
    }
}

fn key_lt_exec(a: &PortMapping, b: &PortMapping) -> (r: bool)
    ensures
        r == key_lt(mapping_key(*a), mapping_key(*b)),
{
    if a.container_port != b.container_port {
        return a.container_port < b.container_port;
    }
    if a.host_port != b.host_port {
        return host_port_lt_exec(a.host_port, b.host_port);
    }
    text_lt_exec(chars_of(a.protocol.as_str()).as_slice(), chars_of(b.protocol.as_str()).as_slice())
}

/// Adds a mapping to a strictly ordered list unless one with the same key
/// is there already.
fn insert_mapping(v: &mut Vec<PortMapping>, x: PortMapping)
    requires
        strictly_sorted_keys(mapping_keys(old(v)@)),
    ensures
        strictly_sorted_keys(mapping_keys(final(v)@)),
        forall|k: (u16, Option<u16>, Seq<char>)| #[trigger] mapping_keys(final(v)@).contains(k) <==> (
            mapping_keys(old(v)@).contains(k) || k == mapping_key(x)),
{
    let ghost cur = mapping_keys(v@);
    let ghost xk = mapping_key(x);
    let mut p: usize = 0;
    while p < v.len() && key_lt_exec(&v[p], &x)
        invariant
            p <= v@.len(),
            cur == mapping_keys(v@),
            xk == mapping_key(x),
            forall|k: int| 0 <= k < p ==> key_lt(#[trigger] cur[k], xk),
        decreases v@.len() - p,
    {
        assert(cur[p as int] == mapping_key(v@[p as int]));
        p = p + 1;
    }
    if p < v.len() {
        let after = key_lt_exec(&x, &v[p]);
        assert(cur[p as int] == mapping_key(v@[p as int]));
        proof {
            lemma_key_lt_total(cur[p as int], xk);
        }
        if !after {
            assert(cur[p as int] == xk);
            assert forall|y: (u16, Option<u16>, Seq<char>)| #[trigger] mapping_keys(v@).contains(y) <==> (cur.contains(y) || y == xk) by {
                if y == xk {
                    assert(cur[p as int] == y);
                }
            }
            return;
        }
    }
    v.insert(p, x);
    let ghost next = cur.insert(p as int, xk);
    assert(mapping_keys(v@) =~= next);
    assert forall|a: int, b: int| 0 <= a < b < next.len() implies key_lt(#[trigger] next[a], #[trigger] next[b]) by {
        if b < p {
            assert(key_lt(cur[a], cur[b]));
        } else if b == p {
        } else if a < p {
            if b - 1 > p {
                assert(key_lt(cur[p as int], cur[b - 1]));
                lemma_key_lt_transitive(xk, cur[p as int], cur[b - 1]);
            }
            lemma_key_lt_transitive(cur[a], xk, cur[b - 1]);
        } else if a == p {
            if b - 1 > p {
                assert(key_lt(cur[p as int], cur[b - 1]));
                lemma_key_lt_transitive(xk, cur[p as int], cur[b - 1]);
            }
        } else {
            assert(key_lt(cur[a - 1], cur[b - 1]));
        }
    }
    assert forall|y: (u16, Option<u16>, Seq<char>)| #[trigger] next.contains(y) <==> (cur.contains(y) || y == xk) by {
        if next.contains(y) {
            let k = choose|k: int| 0 <= k < next.len() && next[k] == y;
            if k < p {
                assert(cur[k] == y);
            } else if k > p {
                assert(cur[k - 1] == y);
            }
        }
        if cur.contains(y) {
            let k = choose|k: int| 0 <= k < cur.len() && cur[k] == y;
            if k < p {
                assert(next[k] == y);
            } else {
                assert(next[k + 1] == y);
            }
        }
        if y == xk {
            assert(next[p as int] == y);
        }
    }
}

/// A listed port as a mapping: the protocol's name in lower case, `tcp`
/// where Docker gives none.
pub fn port_mapping(p: &ListedPort) -> (r: PortMapping)
    ensures
        mapping_key(r) == listed_key(*p),
{
    let protocol = match &p.protocol {
        Some(t) => to_lowercase(t.as_str()),
        None => string_from("tcp"),
    };
    PortMapping { container_port: p.private_port, host_port: p.public_port, protocol }
}

/// Docker repeats a mapping for each host interface (`0.0.0.0` and `::`):
/// the mappings are reported once each, ordered by container port, host
/// port and protocol.
pub fn normalize_ports(listed: &Vec<ListedPort>) -> (r: Vec<PortMapping>)
    ensures
        strictly_sorted_keys(mapping_keys(r@)),
        forall|k: (u16, Option<u16>, Seq<char>)| #[trigger] mapping_keys(r@).contains(k) <==> exists|i: int|
            0 <= i < listed@.len() && listed_key(#[trigger] listed@[i]) == k,
{
    let mut out: Vec<PortMapping> = Vec::new();
    let n = listed.len();
    for i in 0..n
        invariant
            n == listed@.len(),
            strictly_sorted_keys(mapping_keys(out@)),
            forall|k: (u16, Option<u16>, Seq<char>)| #[trigger] mapping_keys(out@).contains(k) <==> exists|j: int|
                0 <= j < i && listed_key(#[trigger] listed@[j]) == k,
    {
        let m = port_mapping(&listed[i]);
        let ghost before = mapping_keys(out@);
        insert_mapping(&mut out, m);
        assert forall|k: (u16, Option<u16>, Seq<char>)| #[trigger] mapping_keys(out@).contains(k) <==> exists|j: int|
            0 <= j < i + 1 && listed_key(#[trigger] listed@[j]) == k by {
            if k == listed_key(listed@[i as int]) {
                assert(0 <= i < i + 1 && listed_key(listed@[i as int]) == k);
            }
            if before.contains(k) {
                let j = choose|j: int| 0 <= j < i && listed_key(#[trigger] listed@[j]) == k;
                assert(0 <= j < i + 1);
            }
            if exists|j: int| 0 <= j < i + 1 && listed_key(#[trigger] listed@[j]) == k {
                let j = choose|j: int| 0 <= j < i + 1 && listed_key(#[trigger] listed@[j]) == k;
                if j < i {
                    assert(before.contains(k));
                }
            }
        }
    }
    out
}

// ------------------------------------------------------------ GPU devices

/// A device request of a container's host config.
pub struct DeviceRequest {
    pub driver: Option<String>,
    pub capabilities: Vec<Vec<String>>,
    pub device_ids: Option<Vec<String>>,
    pub count: Option<i64>,
}

/// A request is for GPUs when its driver is `nvidia` or one of its
/// capability sets names `gpu`.
pub open spec fn is_gpu_request(r: DeviceRequest) -> bool {
    (r.driver matches Some(d) && d@ == "nvidia"@) || exists|i: int, j: int|
        0 <= i < r.capabilities@.len() && 0 <= j < r.capabilities@[i]@.len()
            && (#[trigger] r.capabilities@[i]@[j])@ == "gpu"@
}

/// The UUID is one the index map holds.
pub open spec fn indexed(gpu_index: Seq<(u32, String)>, u: Seq<char>) -> bool {
    exists|k: int| 0 <= k < gpu_index.len() && (#[trigger] gpu_index[k]).1@ == u
}

/// Whether a GPU request gives the container device `u`: its device ids
/// resolved, or, with no ids and a count of -1, every GPU.
pub open spec fn request_gives(r: DeviceRequest, gpu_index: Seq<(u32, String)>, u: Seq<char>) -> bool {
    is_gpu_request(r) && match r.device_ids {
        Some(ids) if ids@.len() > 0 => exists|j: int|
            0 <= j < ids@.len() && resolved_ref((#[trigger] ids@[j])@, gpu_index) == Some(u),
        _ => r.count == Some(-1i64) && indexed(gpu_index, u),
    }
}

/// Whether an environment entry `NVIDIA_VISIBLE_DEVICES=...` gives the
/// container device `u`: `all` is every GPU, `none`, `void` and nothing
/// are none, anything else a comma-separated list of references.
pub open spec fn env_gives(e: Seq<char>, gpu_index: Seq<(u32, String)>, u: Seq<char>) -> bool {
    let v = e.skip(23);
    starts_with(e, "NVIDIA_VISIBLE_DEVICES="@) && if v == "all"@ {
        indexed(gpu_index, u)
    } else if v == "none"@ || v == "void"@ || v.len() == 0 {
        false
    } else {
        exists|j: int| 0 <= j < split(v, ',').len() && resolved_ref(trim(#[trigger] split(v, ',')[j]), gpu_index) == Some(u)
    }
}

/// Every device UUID the index map holds, added to a set.
fn add_all_indexed(out: &mut Vec<String>, gpu_index: &Vec<(u32, String)>)
    requires
        strictly_sorted_text(string_seq(old(out)@)),
    ensures
        strictly_sorted_text(string_seq(final(out)@)),
        forall|y: Seq<char>| #[trigger] string_seq(final(out)@).contains(y) <==> (
            string_seq(old(out)@).contains(y) || indexed(gpu_index@, y)),
{
    let ghost start = string_seq(out@);
    let n = gpu_index.len();
    for k in 0..n
        invariant
            n == gpu_index@.len(),
            strictly_sorted_text(string_seq(out@)),
            forall|y: Seq<char>| #[trigger] string_seq(out@).contains(y) <==> (start.contains(y) || exists|m: int|
                0 <= m < k && (#[trigger] gpu_index@[m]).1@ == y),
    {
        let ghost before = string_seq(out@);
        insert_text_set(out, gpu_index[k].1.clone());
        assert forall|y: Seq<char>| #[trigger] string_seq(out@).contains(y) <==> (start.contains(y) || exists|m: int|
            0 <= m < k + 1 && (#[trigger] gpu_index@[m]).1@ == y) by {
            if exists|m: int| 0 <= m < k + 1 && (#[trigger] gpu_index@[m]).1@ == y {
                let m = choose|m: int| 0 <= m < k + 1 && (#[trigger] gpu_index@[m]).1@ == y;
                if m < k {
                    assert(before.contains(y));
                }
            }
            if y == gpu_index@[k as int].1@ {
                assert(0 <= k < k + 1 && gpu_index@[k as int].1@ == y);
            }
        }
    }
}

/// Resolves each reference of a list and adds what it names to a set.
fn add_resolved(out: &mut Vec<String>, refs: &Vec<Vec<char>>, trimmed: bool, gpu_index: &Vec<(u32, String)>)
    requires
        strictly_sorted_text(string_seq(old(out)@)),
    ensures
        strictly_sorted_text(string_seq(final(out)@)),
        forall|y: Seq<char>| #[trigger] string_seq(final(out)@).contains(y) <==> (
            string_seq(old(out)@).contains(y) || exists|j: int|
                0 <= j < refs@.len() && resolved_ref(
                    if trimmed { trim((#[trigger] refs@[j])@) } else { refs@[j]@ },
                    gpu_index@,
                ) == Some(y)),
{
    let ghost start = string_seq(out@);
    let n = refs.len();
    for j in 0..n
        invariant
            n == refs@.len(),
            strictly_sorted_text(string_seq(out@)),
            forall|y: Seq<char>| #[trigger] string_seq(out@).contains(y) <==> (start.contains(y) || exists|m: int|
                0 <= m < j && resolved_ref(
                    if trimmed { trim((#[trigger] refs@[m])@) } else { refs@[m]@ },
                    gpu_index@,
                ) == Some(y)),
    {
        let r = if trimmed {
            trim_chars(refs[j].as_slice())
        } else {
            slice_chars(refs[j].as_slice(), 0, refs[j].len())
        };
        assert(r@ == refs@[j as int]@.subrange(0, refs@[j as int]@.len() as int) || trimmed);
        assert(refs@[j as int]@.subrange(0, refs@[j as int]@.len() as int) =~= refs@[j as int]@);
        let ghost before = string_seq(out@);
        match resolve_device_ref(string_of(r.as_slice()).as_str(), gpu_index) {
            Some(u) => {
                insert_text_set(out, u);
            },
            None => {},
        }
        assert forall|y: Seq<char>| #[trigger] string_seq(out@).contains(y) <==> (start.contains(y) || exists|m: int|
            0 <= m < j + 1 && resolved_ref(
                if trimmed { trim((#[trigger] refs@[m])@) } else { refs@[m]@ },
                gpu_index@,
            ) == Some(y)) by {
            if exists|m: int| 0 <= m < j + 1 && resolved_ref(
                if trimmed { trim((#[trigger] refs@[m])@) } else { refs@[m]@ },
                gpu_index@,
            ) == Some(y) {
                let m = choose|m: int| 0 <= m < j + 1 && resolved_ref(
                    if trimmed { trim((#[trigger] refs@[m])@) } else { refs@[m]@ },
                    gpu_index@,
                ) == Some(y);
                if m < j {
                    assert(before.contains(y));
                }
            }
            if resolved_ref(r@, gpu_index@) == Some(y) {
                assert(0 <= j < j + 1);
            }
        }
    }
}

fn is_gpu_request_exec(r: &DeviceRequest) -> (b: bool)
    ensures
        b == is_gpu_request(*r),
{
    if let Some(d) = &r.driver {
        if equals_str(chars_of(d.as_str()).as_slice(), "nvidia") {
            return true;
        }
    }
    let n = r.capabilities.len();
    for i in 0..n
        invariant
            n == r.capabilities@.len(),
            !(r.driver matches Some(d) && d@ == "nvidia"@),
            forall|a: int, j: int| 0 <= a < i && 0 <= j < r.capabilities@[a]@.len() ==> (#[trigger] r.capabilities@[a]@[j])@ != "gpu"@,
    {
        let caps = &r.capabilities[i];
        let m = caps.len();
        for j in 0..m
            invariant
                m == caps@.len(),
                i < n == r.capabilities@.len(),
                caps == r.capabilities@[i as int],
                forall|b: int| 0 <= b < j ==> (#[trigger] caps@[b])@ != "gpu"@,
        {
            if equals_str(chars_of(caps[j].as_str()).as_slice(), "gpu") {
                assert((r.capabilities@[i as int]@[j as int])@ == "gpu"@);
                assert(0 <= i < r.capabilities@.len() && 0 <= j < r.capabilities@[i as int]@.len());
                return true;
            }
        }
    }
    false
}

/// Adds the devices one request gives.
fn add_request(out: &mut Vec<String>, r: &DeviceRequest, gpu_index: &Vec<(u32, String)>)
    requires
        strictly_sorted_text(string_seq(old(out)@)),
    ensures
        strictly_sorted_text(string_seq(final(out)@)),
        forall|y: Seq<char>| #[trigger] string_seq(final(out)@).contains(y) <==> (
            string_seq(old(out)@).contains(y) || request_gives(*r, gpu_index@, y)),
{
    if !is_gpu_request_exec(r) {
        return;
    }
    match &r.device_ids {
        Some(ids) if ids.len() > 0 => {
            let mut refs: Vec<Vec<char>> = Vec::new();
            for j in 0..ids.len()
                invariant
                    refs@.len() == j,
                    j <= ids@.len(),
                    forall|m: int| 0 <= m < j ==> (#[trigger] refs@[m])@ == ids@[m]@,
            {
                refs.push(chars_of(ids[j].as_str()));
            }
            add_resolved(out, &refs, false, gpu_index);
            assert forall|y: Seq<char>| #![trigger string_seq(out@).contains(y)] (exists|j: int| 0 <= j < refs@.len() && resolved_ref(
                #[trigger] refs@[j]@,
                gpu_index@,
            ) == Some(y)) <==> (exists|j: int|
                0 <= j < ids@.len() && resolved_ref((#[trigger] ids@[j])@, gpu_index@) == Some(y)) by {
                if exists|j: int| 0 <= j < refs@.len() && resolved_ref(#[trigger] refs@[j]@, gpu_index@) == Some(y) {
                    let j = choose|j: int| 0 <= j < refs@.len() && resolved_ref(#[trigger] refs@[j]@, gpu_index@) == Some(y);
                    assert(resolved_ref(ids@[j]@, gpu_index@) == Some(y));
                }
                if exists|j: int| 0 <= j < ids@.len() && resolved_ref((#[trigger] ids@[j])@, gpu_index@) == Some(y) {
                    let j = choose|j: int| 0 <= j < ids@.len() && resolved_ref((#[trigger] ids@[j])@, gpu_index@) == Some(y);
                    assert(resolved_ref(refs@[j]@, gpu_index@) == Some(y));
                }
            }
        },
        _ => {
            if r.count == Some(-1i64) {
                add_all_indexed(out, gpu_index);
            }
        },
    }
}

/// Adds the devices one environment entry gives.
fn add_env_entry(out: &mut Vec<String>, e: &str, gpu_index: &Vec<(u32, String)>)
    requires
        strictly_sorted_text(string_seq(old(out)@)),
    ensures
        strictly_sorted_text(string_seq(final(out)@)),
        forall|y: Seq<char>| #[trigger] string_seq(final(out)@).contains(y) <==> (
            string_seq(old(out)@).contains(y) || env_gives(e@, gpu_index@, y)),
{
    let v = chars_of(e);
    let prefix = chars_of("NVIDIA_VISIBLE_DEVICES=");
    proof {
        reveal_strlit("NVIDIA_VISIBLE_DEVICES=");
    }
    assert(prefix@.len() == 23);
    if !starts_with_seq(v.as_slice(), prefix.as_slice()) {
        return;
    }
    let rest = slice_chars(v.as_slice(), 23, v.len());
    assert(rest@ =~= e@.skip(23));
    if equals_str(rest.as_slice(), "all") {
        add_all_indexed(out, gpu_index);
        return;
    }
    if equals_str(rest.as_slice(), "none") || equals_str(rest.as_slice(), "void") || rest.len() == 0 {
        return;
    }
    let parts = split_chars(rest.as_slice(), ',');
    assert(views(parts@) == split(rest@, ','));
    add_resolved(out, &parts, true, gpu_index);
    assert forall|y: Seq<char>| #![trigger string_seq(out@).contains(y)] (exists|j: int| 0 <= j < parts@.len() && resolved_ref(
        trim((#[trigger] parts@[j])@),
        gpu_index@,
    ) == Some(y)) <==> (exists|j: int| 0 <= j < split(rest@, ',').len() && resolved_ref(
        trim(#[trigger] split(rest@, ',')[j]),
        gpu_index@,
    ) == Some(y)) by {
        if exists|j: int| 0 <= j < parts@.len() && resolved_ref(trim((#[trigger] parts@[j])@), gpu_index@) == Some(y) {
            let j = choose|j: int| 0 <= j < parts@.len() && resolved_ref(trim((#[trigger] parts@[j])@), gpu_index@) == Some(y);
            assert(views(parts@)[j] == parts@[j]@);
        }
        if exists|j: int| 0 <= j < split(rest@, ',').len() && resolved_ref(trim(#[trigger] split(rest@, ',')[j]), gpu_index@) == Some(y) {
            let j = choose|j: int| 0 <= j < split(rest@, ',').len() && resolved_ref(trim(#[trigger] split(rest@, ',')[j]), gpu_index@) == Some(y);
            assert(views(parts@)[j] == parts@[j]@);
        }
    }
}

/// The GPU and MIG device UUIDs a container was given, from its device
/// requests and its `NVIDIA_VISIBLE_DEVICES` entries: numeric references
/// resolved through the index map, UUID references as they are, `all`
/// (or a count of -1) as every GPU; each UUID once, in `String` order.
pub fn container_gpu_uuids(
    requests: &Vec<DeviceRequest>,
    env: &Vec<String>,
    gpu_index: &Vec<(u32, String)>,
) -> (r: Vec<String>)
    ensures
        strictly_sorted_text(string_seq(r@)),
        forall|y: Seq<char>| #[trigger] string_seq(r@).contains(y) <==> (
            (exists|i: int| 0 <= i < requests@.len() && request_gives(#[trigger] requests@[i], gpu_index@, y))
            || (exists|i: int| 0 <= i < env@.len() && env_gives((#[trigger] env@[i])@, gpu_index@, y))),
{
    let mut out: Vec<String> = Vec::new();
    assert(string_seq(out@) =~= Seq::<Seq<char>>::empty());
    for i in 0..requests.len()
        invariant
            i <= requests@.len(),
            strictly_sorted_text(string_seq(out@)),
            forall|y: Seq<char>| #[trigger] string_seq(out@).contains(y) <==> exists|m: int|
                0 <= m < i && request_gives(#[trigger] requests@[m], gpu_index@, y),
    {
        let ghost before = string_seq(out@);
        add_request(&mut out, &requests[i], gpu_index);
        assert forall|y: Seq<char>| #[trigger] string_seq(out@).contains(y) <==> exists|m: int|
            0 <= m < i + 1 && request_gives(#[trigger] requests@[m], gpu_index@, y) by {
            if exists|m: int| 0 <= m < i + 1 && request_gives(#[trigger] requests@[m], gpu_index@, y) {
                let m = choose|m: int| 0 <= m < i + 1 && request_gives(#[trigger] requests@[m], gpu_index@, y);
                if m < i {
                    assert(before.contains(y));
                }
            }
            if request_gives(requests@[i as int], gpu_index@, y) {
                assert(0 <= i < i + 1);
            }
        }
    }
    let ghost from_requests = string_seq(out@);
    for i in 0..env.len()
        invariant
            i <= env@.len(),
            strictly_sorted_text(string_seq(out@)),
            forall|y: Seq<char>| #[trigger] string_seq(out@).contains(y) <==> (from_requests.contains(y) || exists|m: int|
                0 <= m < i && env_gives((#[trigger] env@[m])@, gpu_index@, y)),
    {
        let ghost before = string_seq(out@);
        add_env_entry(&mut out, env[i].as_str(), gpu_index);
        assert forall|y: Seq<char>| #[trigger] string_seq(out@).contains(y) <==> (from_requests.contains(y) || exists|m: int|
            0 <= m < i + 1 && env_gives((#[trigger] env@[m])@, gpu_index@, y)) by {
            if exists|m: int| 0 <= m < i + 1 && env_gives((#[trigger] env@[m])@, gpu_index@, y) {
                let m = choose|m: int| 0 <= m < i + 1 && env_gives((#[trigger] env@[m])@, gpu_index@, y);
                if m < i {
                    assert(before.contains(y));
                }
            }
            if env_gives(env@[i as int]@, gpu_index@, y) {
                assert(0 <= i < i + 1);
            }
        }
    }
    out
}

// ------------------------------------------------------------ containers

/// A mount as Docker reports it on inspection.
pub struct ListedMount {
    pub source: Option<String>,
    pub destination: Option<String>,
    pub rw: Option<bool>,
    pub mount_type: Option<String>,
}

/// A mount of the inventory.
pub struct ContainerMount {
    pub source: String,
    pub destination: String,
    pub read_only: bool,
    pub mount_type: String,
}

pub open spec fn text_or_empty(t: Option<String>) -> Seq<char> {
    match t {
        Some(s) => s@,
        None => Seq::empty(),
    }
}

fn copy_or_empty(t: &Option<String>) -> (r: String)
    ensures
        r@ == text_or_empty(*t),
{
    match t {
        Some(s) => string_from(s.as_str()),
        None => String::new(),
    }
}

/// Docker reports `RW`; a mount it says nothing of is writable. The type's
/// name is in lower case, `bind` where Docker gives none.
pub fn container_mount(m: &ListedMount) -> (r: ContainerMount)
    ensures
        r.source@ == text_or_empty(m.source),
        r.destination@ == text_or_empty(m.destination),
        r.read_only == (m.rw == Some(false)),
        r.mount_type@ == match m.mount_type {
            Some(t) => unicode_lowercase(t@),
            None => "bind"@,
        },
{
    let mount_type = match &m.mount_type {
        Some(t) => to_lowercase(t.as_str()),
        None => string_from("bind"),
    };
    let read_only = match m.rw {
        Some(rw) => !rw,
        None => false,
    };
    ContainerMount {
        source: copy_or_empty(&m.source),
        destination: copy_or_empty(&m.destination),
        read_only,
        mount_type,
    }
}

/// A container as the listing shows it, before inspection.
pub struct ListedContainer {
    pub id: Option<String>,
    pub names: Option<Vec<String>>,
    pub image: Option<String>,
    /// The state's name as Docker spells it.
    pub state: Option<String>,
    pub status: Option<String>,
    pub labels: Option<Vec<(String, String)>>,
    pub ports: Vec<ListedPort>,
}

/// A container of the inventory snapshot.
pub struct ContainerInfo {
    pub container_id: String,
    pub name: String,
    pub image: String,
    pub state: String,
    pub status: String,
    pub managed: bool,
    pub ports: Vec<PortMapping>,
    pub gpu_uuids: Vec<String>,
    pub mounts: Vec<ContainerMount>,
}

/// A container's state in lower case (empty where Docker gives none).
pub open spec fn state_of(state: Option<String>) -> Seq<char> {
    match state {
        Some(t) => unicode_lowercase(t@),
        None => Seq::empty(),
    }
}

pub fn container_state(state: &Option<String>) -> (r: String)
    ensures
        r@ == state_of(*state),
{
    match state {
        Some(t) => to_lowercase(t.as_str()),
        None => String::new(),
    }
}

/// Foundry manages the containers it labelled `foundry.managed=true`.
pub open spec fn is_managed(labels: Option<Vec<(String, String)>>) -> bool {
    match labels {
        Some(l) => label_value(l@, "foundry.managed"@) == Some("true"@),
        None => false,
    }
}

fn managed_label(labels: &Option<Vec<(String, String)>>) -> (b: bool)
    ensures
        b == is_managed(*labels),
{
    match labels {
        Some(l) => match label_of(l, "foundry.managed") {
            Some(v) => equals_str(chars_of(v.as_str()).as_slice(), "true"),
            None => false,
        },
        None => false,
    }
}

/// The name a listing shows first, without its leading `/`s.
pub open spec fn first_name(names: Option<Vec<String>>) -> Seq<char> {
    match names {
        Some(ns) if ns@.len() > 0 => strip_leading(ns@[0]@, '/'),
        _ => Seq::empty(),
    }
}

/// The first 12 characters of an id.
pub open spec fn short_form(id: Seq<char>) -> Seq<char> {
    if id.len() <= 12 {
        id
    } else {
        id.take(12)
    }
}

/// A listed container with what inspecting it found (nothing, when it was
/// not inspected): short id, first name, lower-case state, whether Foundry
/// manages it, and its ports once each.
pub fn container_info(c: &ListedContainer, gpu_uuids: Vec<String>, mounts: Vec<ContainerMount>) -> (r: ContainerInfo)
    ensures
        r.container_id@ == short_form(text_or_empty(c.id)),
        r.name@ == first_name(c.names),
        r.image@ == text_or_empty(c.image),
        r.state@ == state_of(c.state),
        r.status@ == text_or_empty(c.status),
        r.managed == is_managed(c.labels),
        strictly_sorted_keys(mapping_keys(r.ports@)),
        forall|k: (u16, Option<u16>, Seq<char>)| #[trigger] mapping_keys(r.ports@).contains(k) <==> exists|i: int|
            0 <= i < c.ports@.len() && listed_key(#[trigger] c.ports@[i]) == k,
        r.gpu_uuids@ == gpu_uuids@,
        r.mounts@ == mounts@,
{
    let id = copy_or_empty(&c.id);
    let name = match &c.names {
        Some(ns) if ns.len() > 0 => container_name(ns[0].as_str()),
        _ => String::new(),
    };
    ContainerInfo {
        container_id: short_id(id.as_str()),
        name,
        image: copy_or_empty(&c.image),
        state: container_state(&c.state),
        status: copy_or_empty(&c.status),
        managed: managed_label(&c.labels),
        ports: normalize_ports(&c.ports),
        gpu_uuids,
        mounts,
    }
}

/// Stopped containers listed before position `i`.
pub open spec fn stopped_before(states: Seq<Seq<char>>, i: int) -> nat
    decreases i,
{
    if i <= 0 {
        0
    } else {
        stopped_before(states, i - 1) + if states[i - 1] == "running"@ {
            0nat
        } else {
            1nat
        }
    }
}

/// Running containers are always inspected: they hold GPUs. Stopped ones
/// are inspected while fewer than 100 were before them, so an exited
/// external container still shows on its slot without a scan of every
/// exited container.
pub open spec fn inspected(states: Seq<Seq<char>>, i: int) -> bool {
    states[i] == "running"@ || stopped_before(states, i) < 100
}

/// Which of the listed containers (by their lower-case states) are
/// inspected.
pub fn inspection_plan(states: &Vec<String>) -> (r: Vec<bool>)
    ensures
        r@.len() == states@.len(),
        forall|i: int| 0 <= i < states@.len() ==> r@[i] == inspected(string_seq(states@), i),
{
    let ghost ss = string_seq(states@);
    let mut budget: u64 = 100;
    let mut out: Vec<bool> = Vec::new();
    for i in 0..states.len()
        invariant
            i <= states@.len(),
            ss == string_seq(states@),
            out@.len() == i,
            budget == if stopped_before(ss, i as int) >= 100 {
                0
            } else {
                100 - stopped_before(ss, i as int)
            },
            forall|k: int| 0 <= k < i ==> out@[k] == inspected(ss, k),
    {
        assert(ss[i as int] == states@[i as int]@);
        if equals_str(chars_of(states[i].as_str()).as_slice(), "running") {
            out.push(true);
        } else if budget > 0 {
            budget = budget - 1;
            out.push(true);
        } else {
            out.push(false);
        }
    }
    out
}

// ------------------------------------------------------------ GPUs

/// NVML's total memory in whole MiB, cut to 32 bits as the report holds
/// it; 0 where NVML could not say.
pub open spec fn memory_mb_of(total_bytes: Option<u64>) -> u32 {
    match total_bytes {
        Some(t) => ((t / 1048576) % 0x1_0000_0000) as u32,
        None => 0,
    }
}

/// A GPU as NVML describes it; `mig_current` is its current MIG mode
/// (1 is enabled). Its MIG devices come from `nvidia-smi -L` afterwards.
pub fn gpu_info(
    uuid: String,
    index: u32,
    model: Option<String>,
    total_bytes: Option<u64>,
    mig_current: Option<u32>,
) -> (r: GpuInfo)
    ensures
        r.uuid@ == uuid@,
        r.index == index,
        r.model@ == match model {
            Some(m) => m@,
            None => "unknown"@,
        },
        r.memory_mb == memory_mb_of(total_bytes),
        r.mig_enabled == (mig_current == Some(1u32)),
        r.mig_devices@.len() == 0,
{
    let memory_mb: u32 = match total_bytes {
        Some(t) => {
            let mb = t / 1048576;
            let cut = mb as u32;
            assert(cut == mb % 0x1_0000_0000) by (bit_vector)
                requires
                    cut == mb as u32,
            ;
            cut
        },
        None => 0,
    };
    GpuInfo {
        uuid,
        index,
        model: match model {
            Some(m) => m,
            None => string_from("unknown"),
        },
        memory_mb,
        mig_enabled: mig_current == Some(1u32),
        mig_devices: Vec::new(),
    }
}

/// The MIG layout is read only when some GPU has MIG enabled.
pub fn needs_mig_layout(gpus: &Vec<GpuInfo>) -> (b: bool)
    ensures
        b == exists|i: int| 0 <= i < gpus@.len() && (#[trigger] gpus@[i]).mig_enabled,
{
    for i in 0..gpus.len()
        invariant
            i <= gpus@.len(),
            forall|k: int| 0 <= k < i ==> !(#[trigger] gpus@[k]).mig_enabled,
    {
        if gpus[i].mig_enabled {
            return true;
        }
    }
    false
}

/// The MIG devices the layout lists under a GPU's UUID (the first entry
/// with that key), if any.
pub open spec fn layout_devices(layout: Seq<(Seq<char>, Seq<MigView>)>, uuid: Seq<char>) -> Option<Seq<MigView>>
    decreases layout.len(),
{
    if layout.len() == 0 {
        None
    } else if layout[0].0 == uuid {
        Some(layout[0].1)
    } else {
        layout_devices(layout.drop_first(), uuid)
    }
}

pub open spec fn mig_views(v: Seq<MigDeviceInfo>) -> Seq<MigView> {
    v.map_values(|d: MigDeviceInfo| mig_view(d))
}

fn copy_devices(v: &Vec<MigDeviceInfo>) -> (r: Vec<MigDeviceInfo>)
    ensures
        mig_views(r@) == mig_views(v@),
{
    let mut out: Vec<MigDeviceInfo> = Vec::new();
    for i in 0..v.len()
        invariant
            i <= v@.len(),
            out@.len() == i,
            mig_views(out@) == mig_views(v@.take(i as int)),
    {
        let d = &v[i];
        let ghost before = out@;
        out.push(MigDeviceInfo {
            uuid: string_from(d.uuid.as_str()),
            profile: string_from(d.profile.as_str()),
            memory_mb: d.memory_mb,
            instance_id: d.instance_id,
        });
        assert(mig_view(out@[i as int]) == mig_view(v@[i as int]));
        assert(v@.take(i + 1) =~= v@.take(i as int).push(v@[i as int]));
        assert forall|k: int| 0 <= k < i + 1 implies #[trigger] mig_views(out@)[k] == mig_views(v@.take(i + 1))[k] by {
            if k < i {
                assert(out@[k] == before[k]);
                assert(mig_views(before)[k] == mig_views(v@.take(i as int))[k]);
            }
        }
        assert(mig_views(out@) =~= mig_views(v@.take(i + 1)));
    }
    assert(v@.take(v@.len() as int) =~= v@);
    out
}

fn find_layout(layout: &Vec<(String, Vec<MigDeviceInfo>)>, uuid: &str) -> (r: Option<usize>)
    ensures
        match r {
            Some(k) => k < layout@.len() && layout_devices(layout_view(layout@), uuid@) == Some(
                layout_view(layout@)[k as int].1,
            ),
            None => layout_devices(layout_view(layout@), uuid@) is None,
        },
{
    let ghost lv = layout_view(layout@);
    let n = layout.len();
    let mut k: usize = 0;
    assert(lv.skip(0) =~= lv);
    while k < n
        invariant
            k <= n == layout@.len(),
            lv == layout_view(layout@),
            lv.len() == n,
            layout_devices(lv, uuid@) == layout_devices(lv.skip(k as int), uuid@),
        decreases n - k,
    {
        assert(lv.skip(k as int).drop_first() =~= lv.skip(k + 1));
        assert(lv.skip(k as int)[0] == lv[k as int]);
        if equals_str(chars_of(layout[k].0.as_str()).as_slice(), uuid) {
            return Some(k);
        }
        k = k + 1;
    }
    None
}

/// The GPUs with the MIG devices that `nvidia-smi -L` listed under their
/// UUIDs; a GPU it did not list keeps the devices it had.
pub fn attach_mig_layout(gpus: Vec<GpuInfo>, layout: &Vec<(String, Vec<MigDeviceInfo>)>) -> (r: Vec<GpuInfo>)
    ensures
        r@.len() == gpus@.len(),
        forall|i: int| 0 <= i < gpus@.len() ==> {
            &&& (#[trigger] r@[i]).uuid == gpus@[i].uuid
            &&& r@[i].index == gpus@[i].index
            &&& r@[i].model == gpus@[i].model
            &&& r@[i].memory_mb == gpus@[i].memory_mb
            &&& r@[i].mig_enabled == gpus@[i].mig_enabled
            &&& mig_views(r@[i].mig_devices@) == match layout_devices(layout_view(layout@), gpus@[i].uuid@) {
                Some(ds) => ds,
                None => mig_views(gpus@[i].mig_devices@),
            }
        },
{
    let ghost input = gpus@;
    let mut rest = gpus;
    let mut out: Vec<GpuInfo> = Vec::new();
    let n = rest.len();
    let mut i: usize = 0;
    assert(rest@ =~= input.skip(0));
    while i < n
        invariant
            i <= n == input.len(),
            rest@ == input.skip(i as int),
            out@.len() == i,
            forall|k: int| 0 <= k < i ==> {
                &&& (#[trigger] out@[k]).uuid == input[k].uuid
                &&& out@[k].index == input[k].index
                &&& out@[k].model == input[k].model
                &&& out@[k].memory_mb == input[k].memory_mb
                &&& out@[k].mig_enabled == input[k].mig_enabled
                &&& mig_views(out@[k].mig_devices@) == match layout_devices(layout_view(layout@), input[k].uuid@) {
                    Some(ds) => ds,
                    None => mig_views(input[k].mig_devices@),
                }
            },
        decreases n - i,
    {
        let ghost before = rest@;
        let g = rest.remove(0);
        assert(g == input[i as int]);
        assert(rest@ =~= input.skip(i + 1));
        let mig_devices = match find_layout(layout, g.uuid.as_str()) {
            Some(k) => {
                let d = copy_devices(&layout[k].1);
                assert(layout_view(layout@)[k as int].1 == mig_views(layout@[k as int].1@));
                d
            },
            None => g.mig_devices,
        };
        out.push(GpuInfo {
            uuid: g.uuid,
            index: g.index,
            model: g.model,
            memory_mb: g.memory_mb,
            mig_enabled: g.mig_enabled,
            mig_devices,
        });
        i = i + 1;
    }
    out
}

} // verus!
