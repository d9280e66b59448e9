//! Image inspection from registry manifests: platform choice, compressed
//! size, exposed ports and persistent-volume defaults.

use crate::controller::error::AppError;
use crate::text::{
    ascii_alnum, chars_of, equals_str, is_ascii_alnum, lemma_split_nonempty, parse_unsigned,
    parse_unsigned_chars, slice_chars, split, split_chars, string_from, string_of, strip_both,
    strip_both_chars, to_ascii_lower, ascii_lower, is_ascii_digit, is_ascii_lower, is_ascii_upper,
    lemma_strip_leading_suffix, lemma_strip_trailing_prefix, strip_leading,
};
use crate::controller::volumes::{
    normalized_container_path, valid_volume_name, validate_container_path, validate_volume_name,
};
use crate::encoding::string_seq;
use crate::sorting::{
    lemma_port_order_total, lemma_text_order_total, port_order, port_views, sort_ports, sort_strings,
    text_order,
};
use crate::text::{push_str, strip_trailing, strip_trailing_chars, trim, trim_chars};
use vstd::prelude::*;
use vstd::relations::sorted_by;

verus! {

/// A platform entry of a multi-arch image index.
pub struct PlatformDescriptor {
    pub digest: String,
    pub os: Option<String>,
    pub architecture: Option<String>,
}

/// The parts of a registry manifest the controller reads.
pub struct Manifest {
    /// Single-arch: the digest of the image config blob.
    pub config_digest: Option<String>,
    /// Multi-arch index: the per-platform sub-manifests.
    pub manifests: Option<Vec<PlatformDescriptor>>,
    /// Single-arch: the compressed size of each layer, where reported.
    pub layers: Option<Vec<Option<i64>>>,
}

pub open spec fn linux_amd64(p: PlatformDescriptor) -> bool {
    p.os is Some && p.os->0@ == "linux"@ && p.architecture is Some && p.architecture->0@ == "amd64"@
}

/// The sub-manifest to follow: the first linux/amd64 entry, else the first
/// entry; `None` for an empty index.
pub open spec fn chosen_platform(list: Seq<PlatformDescriptor>) -> Option<int> {
    if exists|i: int| 0 <= i < list.len() && linux_amd64(#[trigger] list[i]) {
        Some(choose|i: int| 0 <= i < list.len() && linux_amd64(#[trigger] list[i]) && forall|k: int|
            0 <= k < i ==> !linux_amd64(#[trigger] list[k]))
    } else if list.len() > 0 {
        Some(0)
    } else {
        None
    }
}

fn is_linux_amd64(p: &PlatformDescriptor) -> (b: bool)
    ensures
        b == linux_amd64(*p),
{
    let os_ok = match &p.os {
        Some(o) => equals_str(chars_of(o.as_str()).as_slice(), "linux"),
        None => false,
    };
    let arch_ok = match &p.architecture {
        Some(a) => equals_str(chars_of(a.as_str()).as_slice(), "amd64"),
        None => false,
    };
    os_ok && arch_ok
}

/// Picks the sub-manifest of an image index; the fleet runs linux/amd64.
pub fn choose_platform(list: &Vec<PlatformDescriptor>) -> (r: Result<usize, AppError>)
    ensures
        r matches Ok(i) ==> chosen_platform(list@) == Some(i as int),
        r is Err <==> chosen_platform(list@) is None,
        r matches Err(e) ==> e matches AppError::BadRequest(m) && m@
            == "image index lists no platforms"@,
{
    let n = list.len();
    for i in 0..n
        invariant
            n == list@.len(),
            forall|k: int| 0 <= k < i ==> !linux_amd64(#[trigger] list@[k]),
    {
        if is_linux_amd64(&list[i]) {
            proof {
                let w = choose|j: int| 0 <= j < list@.len() && linux_amd64(#[trigger] list@[j])
                    && forall|k: int| 0 <= k < j ==> !linux_amd64(#[trigger] list@[k]);
                assert(linux_amd64(list@[i as int]));
                if w < i {
                } else if w > i {
                    assert(!linux_amd64(list@[i as int]));
                }
            }
            return Ok(i);
        }
    }
    if n == 0 {
        return Err(AppError::BadRequest(string_from("image index lists no platforms")));
    }
    Ok(0)
}

pub open spec fn layer_sum(sizes: Seq<Option<i64>>) -> int
    decreases sizes.len(),
{
    if sizes.len() == 0 {
        0
    } else {
        layer_sum(sizes.drop_last()) + match sizes.last() {
            Some(s) => s as int,
            None => 0,
        }
    }
}

pub open spec fn all_sizes_known(sizes: Seq<Option<i64>>) -> bool {
    forall|i: int| 0 <= i < sizes.len() ==> (#[trigger] sizes[i]) is Some && sizes[i]->0 >= 0
}

/// The compressed image size: the sum of the layer sizes, known only when
/// there are layers, each reports a non-negative size, and the positive
/// total fits in an `i64`.
pub open spec fn compressed_size_spec(m: Manifest) -> Option<i64> {
    match m.layers {
        None => None,
        Some(layers) => {
            let sizes = layers@;
            if sizes.len() > 0 && all_sizes_known(sizes) && 0 < layer_sum(sizes) <= i64::MAX {
                Some(layer_sum(sizes) as i64)
            } else {
                None
            }
        },
    }
}

proof fn lemma_layer_sum_grows(sizes: Seq<Option<i64>>, k: int)
    requires
        0 <= k <= sizes.len(),
        all_sizes_known(sizes),
    ensures
        0 <= layer_sum(sizes.take(k)) <= layer_sum(sizes),
    decreases sizes.len(),
{
    if k < sizes.len() {
        assert(sizes.drop_last().take(k) =~= sizes.take(k));
        assert(all_sizes_known(sizes.drop_last())) by {
            assert forall|i: int| 0 <= i < sizes.drop_last().len() implies (#[trigger] sizes.drop_last()[i]) is Some && sizes.drop_last()[i]->0 >= 0 by {
                assert(sizes.drop_last()[i] == sizes[i]);
            }
        }
        lemma_layer_sum_grows(sizes.drop_last(), k);
        assert(sizes[sizes.len() - 1] is Some && sizes[sizes.len() - 1]->0 >= 0);
    } else {
        assert(sizes.take(k) =~= sizes);
        if sizes.len() > 0 {
            assert(sizes.drop_last().take(sizes.len() - 1) =~= sizes.drop_last());
            assert(all_sizes_known(sizes.drop_last())) by {
                assert forall|i: int| 0 <= i < sizes.drop_last().len() implies (#[trigger] sizes.drop_last()[i]) is Some && sizes.drop_last()[i]->0 >= 0 by {
                    assert(sizes.drop_last()[i] == sizes[i]);
                }
            }
            lemma_layer_sum_grows(sizes.drop_last(), sizes.len() - 1);
            assert(sizes[sizes.len() - 1] is Some && sizes[sizes.len() - 1]->0 >= 0);
        }
    }
}

pub fn compressed_size_from_manifest(manifest: &Manifest) -> (r: Option<i64>)
    ensures
        r == compressed_size_spec(*manifest),
{
    let layers = match &manifest.layers {
        Some(l) => l,
        None => {
            return None;
        },
    };
    let n = layers.len();
    if n == 0 {
        return None;
    }
    let mut total: i64 = 0;
    for i in 0..n
        invariant
            n == layers@.len(),
            n > 0,
            manifest.layers == Some(*layers),
            total == layer_sum(layers@.take(i as int)),
            forall|k: int| 0 <= k < i ==> (#[trigger] layers@[k]) is Some && layers@[k]->0 >= 0,
    {
        assert(layers@.take(i + 1).drop_last() =~= layers@.take(i as int));
        match layers[i] {
            Some(size) => {
                if size < 0 {
                    return None;
                }
                match total.checked_add(size) {
                    Some(t) => {
                        total = t;
                    },
                    None => {
                        proof {
                            if all_sizes_known(layers@) {
                                lemma_layer_sum_grows(layers@, i + 1);
                            }
                        }
                        return None;
                    },
                }
            },
            None => {
                return None;
            },
        }
    }
    assert(layers@.take(n as int) =~= layers@);
    if total > 0 {
        Some(total)
    } else {
        None
    }
}

/// A port an image exposes.
pub struct ExposedPort {
    pub container_port: u16,
    pub protocol: String,
}

/// The port and protocol parts of an `EXPOSE` key: split at the first `/`;
/// a bare port means tcp.
pub open spec fn port_key_parts(key: Seq<char>) -> (Seq<char>, Seq<char>) {
    if key.contains('/') {
        let i = choose|i: int| 0 <= i < key.len() && key[i] == '/' && forall|k: int|
            0 <= k < i ==> key[k] != '/';
        (key.take(i), key.skip(i + 1))
    } else {
        (key, "tcp"@)
    }
}

/// `8080/tcp` is (8080, tcp); a bare `8080` is tcp; port 0 and protocols
/// other than tcp and udp are refused.
pub open spec fn port_key_spec(key: Seq<char>) -> Option<(u16, Seq<char>)> {
    let (port, protocol) = port_key_parts(key);
    match parse_unsigned(port, u16::MAX as nat) {
        Some(p) => if p != 0 && (protocol == "tcp"@ || protocol == "udp"@) {
            Some((p as u16, protocol))
        } else {
            None
        },
        None => None,
    }
}

pub fn parse_port_key(key: &str) -> (r: Option<ExposedPort>)
    ensures
        r matches Some(p) ==> port_key_spec(key@) == Some((p.container_port, p.protocol@)),
        r is None ==> port_key_spec(key@) is None,
{
    let v = chars_of(key);
    let n = v.len();
    let mut i: usize = 0;
    while i < n && v[i] != '/'
        invariant
            i <= n == v@.len(),
            forall|k: int| 0 <= k < i ==> v@[k] != '/',
        decreases n - i,
    {
        i = i + 1;
    }
    let (port, protocol) = if i < n {
        proof {
            assert(v@.contains('/')) by {
                assert(v@[i as int] == '/');
            }
            let c = choose|c: int| 0 <= c < v@.len() && v@[c] == '/' && forall|k: int|
                0 <= k < c ==> v@[k] != '/';
            if c < i {
                assert(v@[c] != '/');
            } else if c > i {
                assert(v@[i as int] != '/');
            }
        }
        (slice_chars(v.as_slice(), 0, i), slice_chars(v.as_slice(), i + 1, n))
    } else {
        proof {
            assert(!v@.contains('/')) by {
                if v@.contains('/') {
                    let c = choose|c: int| 0 <= c < v@.len() && v@[c] == '/';
                    assert(v@[c] != '/');
                }
            }
            reveal_strlit("tcp");
        }
        assert(v@.subrange(0, n as int) =~= v@);
        (slice_chars(v.as_slice(), 0, n), chars_of("tcp"))
    };
    assert(v@.take(i as int) =~= v@.subrange(0, i as int));
    assert(i < n ==> v@.skip(i + 1) =~= v@.subrange(i + 1, n as int));
    let p = match parse_unsigned_chars(port.as_slice(), 0xffff) {
        Some(p) => p as u16,
        None => {
            return None;
        },
    };
    let tcp = equals_str(protocol.as_slice(), "tcp");
    let udp = equals_str(protocol.as_slice(), "udp");
    if p == 0 || !(tcp || udp) {
        return None;
    }
    Some(ExposedPort { container_port: p, protocol: string_of(protocol.as_slice()) })
}

/// One character of a suggested volume name: letters, digits and `_` kept
/// (lowercased), everything else a `-`.
pub open spec fn name_char(c: char) -> char {
    if is_ascii_alnum(c) || c == '_' {
        ascii_lower(c)
    } else {
        '-'
    }
}

/// The characters mapped in order, runs of `-` collapsed, stopping at 63.
/// The second component says whether the last character kept is a `-`.
pub open spec fn collapsed(raw: Seq<char>) -> (Seq<char>, bool)
    decreases raw.len(),
{
    if raw.len() == 0 {
        (Seq::empty(), false)
    } else {
        let (n, last_dash) = collapsed(raw.drop_last());
        if n.len() >= 63 {
            (n, last_dash)
        } else {
            let m = name_char(raw.last());
            if m == '-' && last_dash {
                (n, last_dash)
            } else {
                (n.push(m), m == '-')
            }
        }
    }
}

/// Every `from` replaced by `to`.
pub open spec fn replaced(s: Seq<char>, from: char, to: char) -> Seq<char> {
    s.map_values(|c: char| if c == from {
        to
    } else {
        c
    })
}

/// A volume name derived from the image's repository name and the mount
/// path, e.g. `comfyui-blank-data-settings`.
pub open spec fn suggested_volume_name_spec(repo_path: Seq<char>, container_path: Seq<char>) -> Seq<
    char,
> {
    let image = split(repo_path, '/').last();
    let raw = image + "-"@ + replaced(strip_both(container_path, '/'), '/', '-');
    let name = strip_both(collapsed(raw).0, '-');
    if name.len() == 0 {
        "image-data"@
    } else {
        name
    }
}

pub fn suggested_volume_name(repo_path: &str, container_path: &str) -> (r: String)
    ensures
        r@ == suggested_volume_name_spec(repo_path@, container_path@),
        is_suggested_name(r@),
{
    proof {
        lemma_suggested_volume_name_well_formed(repo_path@, container_path@);
    }
    let rv = chars_of(repo_path);
    let segs = split_chars(rv.as_slice(), '/');
    proof {
        lemma_split_nonempty(rv@, '/');
    }
    let image = &segs[segs.len() - 1];
    let cv = chars_of(container_path);
    let stripped = strip_both_chars(cv.as_slice(), '/');
    let mut raw: Vec<char> = image.clone();
    raw.push('-');
    let ghost head = raw@;
    let sl = stripped.len();
    for k in 0..sl
        invariant
            sl == stripped@.len(),
            raw@ == head + replaced(stripped@, '/', '-').take(k as int),
    {
        let c = if stripped[k] == '/' {
            '-'
        } else {
            stripped[k]
        };
        raw.push(c);
        assert(replaced(stripped@, '/', '-').take(k + 1) =~= replaced(stripped@, '/', '-').take(
            k as int,
        ).push(c));
    }
    assert(replaced(stripped@, '/', '-').take(sl as int) =~= replaced(stripped@, '/', '-'));
    proof {
        reveal_strlit("-");
        assert(image@ == split(repo_path@, '/').last());
        assert(head =~= image@ + "-"@);
    }
    let n = raw.len();
    let mut name: Vec<char> = Vec::new();
    let mut last_dash = false;
    let mut i: usize = 0;
    assert(raw@.take(0) =~= Seq::<char>::empty());
    while i < n && name.len() < 63
        invariant
            n == raw@.len(),
            i <= n,
            (name@, last_dash) == collapsed(raw@.take(i as int)),
            name@.len() <= 63,
        decreases n - i,
    {
        assert(raw@.take(i + 1).drop_last() =~= raw@.take(i as int));
        let c = raw[i];
        let mapped = if ascii_alnum(c) || c == '_' {
            to_ascii_lower(c)
        } else {
            '-'
        };
        if !(mapped == '-' && last_dash) {
            name.push(mapped);
            last_dash = mapped == '-';
        }
        i = i + 1;
    }
    proof {
        lemma_collapsed_stops(raw@, i as int);
    }
    let trimmed = strip_both_chars(name.as_slice(), '-');
    if trimmed.len() == 0 {
        string_from("image-data")
    } else {
        string_of(trimmed.as_slice())
    }
}

pub open spec fn suggested_name_char(c: char) -> bool {
    is_ascii_lower(c) || is_ascii_digit(c) || c == '_' || c == '-'
}

/// Two `-` in a row at `i`.
pub open spec fn dash_pair(s: Seq<char>, i: int) -> bool {
    s[i] == '-' && s[i + 1] == '-'
}

/// The shape of every suggested volume name: 1 to 63 characters of
/// lowercase ASCII letters, digits, `_` and `-`, never two `-` in a row,
/// and no `-` at either end.
pub open spec fn is_suggested_name(s: Seq<char>) -> bool {
    &&& 0 < s.len() <= 63
    &&& forall|i: int| 0 <= i < s.len() ==> suggested_name_char(#[trigger] s[i])
    &&& forall|i: int| 0 <= i < s.len() - 1 ==> !#[trigger] dash_pair(s, i)
    &&& s[0] != '-'
    &&& s.last() != '-'
}

proof fn lemma_name_char(c: char)
    ensures
        suggested_name_char(name_char(c)),
{
    if is_ascii_upper(c) {
        assert((((c as u32) + 32) as char) as u32 == (c as u32) + 32);
    }
}

proof fn lemma_collapsed_shape(raw: Seq<char>)
    ensures
        collapsed(raw).0.len() <= 63,
        collapsed(raw).1 <==> (collapsed(raw).0.len() > 0 && collapsed(raw).0.last() == '-'),
        forall|i: int| 0 <= i < collapsed(raw).0.len() ==> suggested_name_char(#[trigger] collapsed(raw).0[i]),
        forall|i: int| 0 <= i < collapsed(raw).0.len() - 1 ==> !#[trigger] dash_pair(collapsed(raw).0, i),
    decreases raw.len(),
{
    if raw.len() > 0 {
        lemma_collapsed_shape(raw.drop_last());
        let (n, d) = collapsed(raw.drop_last());
        if n.len() < 63 {
            let m = name_char(raw.last());
            lemma_name_char(raw.last());
            if !(m == '-' && d) {
                let t = n.push(m);
                assert forall|i: int| 0 <= i < t.len() implies suggested_name_char(#[trigger] t[i]) by {
                    if i < n.len() {
                        assert(t[i] == n[i]);
                    }
                }
                assert forall|i: int| 0 <= i < t.len() - 1 implies !#[trigger] dash_pair(t, i) by {
                    if i < n.len() - 1 {
                        assert(dash_pair(t, i) == dash_pair(n, i));
                    }
                }
            }
        }
    }
}

/// Whatever the repository path and the mount path, the suggested volume
/// name is 1 to 63 characters of lowercase ASCII letters, digits, `_` and
/// `-`, with no `--` and no `-` at either end (`image-data` when nothing
/// usable is left).
pub proof fn lemma_suggested_volume_name_well_formed(repo_path: Seq<char>, container_path: Seq<char>)
    ensures
        is_suggested_name(suggested_volume_name_spec(repo_path, container_path)),
{
    let image = split(repo_path, '/').last();
    let raw = image + "-"@ + replaced(strip_both(container_path, '/'), '/', '-');
    let n = collapsed(raw).0;
    lemma_collapsed_shape(raw);
    let a = strip_leading(n, '-');
    lemma_strip_leading_suffix(n, '-');
    let b = strip_trailing(a, '-');
    lemma_strip_trailing_prefix(a, '-');
    let off = n.len() - a.len();
    if b.len() > 0 {
        assert forall|i: int| 0 <= i < b.len() implies suggested_name_char(#[trigger] b[i]) by {
            assert(b[i] == a[i]);
            assert(a[i] == n[off + i]);
        }
        assert forall|i: int| 0 <= i < b.len() - 1 implies !#[trigger] dash_pair(b, i) by {
            assert(b[i] == n[off + i]);
            assert(b[i + 1] == n[off + i + 1]);
            assert(dash_pair(b, i) == dash_pair(n, off + i));
        }
        assert(b[0] == a[0]);
    } else {
        reveal_strlit("image-data");
        let d = "image-data"@;
        assert(forall|i: int| 0 <= i < d.len() ==> suggested_name_char(#[trigger] d[i]));
        assert(forall|i: int| 0 <= i < d.len() - 1 ==> !#[trigger] dash_pair(d, i));
    }
}

/// Once 63 characters are kept, the rest of the input changes nothing.
proof fn lemma_collapsed_stops(raw: Seq<char>, i: int)
    requires
        0 <= i <= raw.len(),
        i < raw.len() ==> collapsed(raw.take(i)).0.len() >= 63,
    ensures
        collapsed(raw) == collapsed(raw.take(i)),
    decreases raw.len(),
{
    if i == raw.len() {
        assert(raw.take(i) =~= raw);
    } else {
        assert(raw.drop_last().take(i) =~= raw.take(i));
        lemma_collapsed_stops(raw.drop_last(), i);
    }
}

// ------------------------------------------------------------ volumes

/// Most persistent mounts an image declares.
pub const MAX_DECLARED_VOLUMES: usize = 16;

/// A persistent mount an image declares.
pub struct DeclaredVolume {
    pub volume_name: String,
    pub container_path: String,
    pub read_only: bool,
}

pub open spec fn dv(v: DeclaredVolume) -> (Seq<char>, Seq<char>, bool) {
    (v.volume_name@, v.container_path@, v.read_only)
}

pub open spec fn dvs(v: Seq<DeclaredVolume>) -> Seq<(Seq<char>, Seq<char>, bool)> {
    v.map_values(|x: DeclaredVolume| dv(x))
}

pub open spec fn has_path(out: Seq<(Seq<char>, Seq<char>, bool)>, p: Seq<char>) -> bool {
    exists|i: int| 0 <= i < out.len() && (#[trigger] out[i]).1 == p
}

/// One entry of the image's Foundry volume label: kept (with its path
/// trimmed) when there is room, its name and path are valid and no earlier
/// mount has the path.
pub open spec fn label_step(
    out: Seq<(Seq<char>, Seq<char>, bool)>,
    e: (Seq<char>, Seq<char>, bool),
) -> Seq<(Seq<char>, Seq<char>, bool)> {
    let path = trim(e.1);
    if out.len() < MAX_DECLARED_VOLUMES && valid_volume_name(e.0) && normalized_container_path(path) is Ok
        && !has_path(out, path) {
        out.push((e.0, path, e.2))
    } else {
        out
    }
}

pub open spec fn label_volumes(entries: Seq<(Seq<char>, Seq<char>, bool)>) -> Seq<(Seq<char>, Seq<char>, bool)>
    decreases entries.len(),
{
    if entries.len() == 0 {
        Seq::empty()
    } else {
        label_step(label_volumes(entries.drop_last()), entries.last())
    }
}

/// One Dockerfile `VOLUME` path: kept (trimmed, writable, under a name
/// derived from the repository) when there is room, the path is valid and
/// no earlier mount has it.
pub open spec fn docker_step(
    repo: Seq<char>,
    out: Seq<(Seq<char>, Seq<char>, bool)>,
    p: Seq<char>,
) -> Seq<(Seq<char>, Seq<char>, bool)> {
    let path = trim(p);
    if out.len() < MAX_DECLARED_VOLUMES && normalized_container_path(path) is Ok && !has_path(out, path) {
        out.push((suggested_volume_name_spec(repo, path), path, false))
    } else {
        out
    }
}

pub open spec fn docker_volumes(
    repo: Seq<char>,
    start: Seq<(Seq<char>, Seq<char>, bool)>,
    paths: Seq<Seq<char>>,
) -> Seq<(Seq<char>, Seq<char>, bool)>
    decreases paths.len(),
{
    if paths.len() == 0 {
        start
    } else {
        docker_step(repo, docker_volumes(repo, start, paths.drop_last()), paths.last())
    }
}

/// The persistent mounts an image declares: the entries of its Foundry
/// label first, then its `VOLUME` paths in sorted order, at most 16, each
/// path once.
pub open spec fn declared_spec(
    repo: Seq<char>,
    paths: Seq<Seq<char>>,
    label: Option<Seq<(Seq<char>, Seq<char>, bool)>>,
) -> Seq<(Seq<char>, Seq<char>, bool)> {
    let start = match label {
        Some(entries) => label_volumes(entries),
        None => Seq::empty(),
    };
    docker_volumes(repo, start, paths.sort_by(text_order()))
}

fn mount_taken(out: &Vec<DeclaredVolume>, path: &[char]) -> (r: bool)
    ensures
        r == has_path(dvs(out@), path@),
{
    let n = out.len();
    let mut i: usize = 0;
    while i < n
        invariant
            i <= n == out@.len(),
            forall|k: int| 0 <= k < i ==> (#[trigger] dvs(out@)[k]).1 != path@,
        decreases n - i,
    {
        let pv = chars_of(out[i].container_path.as_str());
        assert(dvs(out@)[i as int] == dv(out@[i as int]));
        if crate::text::equals_str(pv.as_slice(), string_of(path).as_str()) {
            return true;
        }
        i = i + 1;
    }
    false
}

/// The persistent mounts an image declares: the image's Foundry volume
/// label (its entries, where the label parsed) first, then the Dockerfile
/// `VOLUME` paths in sorted order under names derived from the repository;
/// invalid entries and repeated paths are skipped, and at most 16 mounts
/// are kept.
pub fn declared_volumes(
    repo_path: &str,
    docker_paths: Vec<String>,
    label: Option<Vec<DeclaredVolume>>,
) -> (r: Vec<DeclaredVolume>)
    ensures
        dvs(r@) == declared_spec(
            repo_path@,
            string_seq(docker_paths@),
            match label {
                Some(l) => Some(dvs(l@)),
                None => None,
            },
        ),
{
    let mut out: Vec<DeclaredVolume> = Vec::new();
    let ghost start = match &label {
        Some(l) => label_volumes(dvs(l@)),
        None => Seq::<(Seq<char>, Seq<char>, bool)>::empty(),
    };
    assert(dvs(out@) =~= Seq::<(Seq<char>, Seq<char>, bool)>::empty());
    if let Some(entries) = label {
        let ghost es = dvs(entries@);
        let n = entries.len();
        let mut i: usize = 0;
        while i < n
            invariant
                i <= n == entries@.len(),
                es == dvs(entries@),
                dvs(out@) == label_volumes(es.take(i as int)),
            decreases n - i,
        {
            assert(es.take(i + 1).drop_last() =~= es.take(i as int));
            let e = &entries[i];
            assert(es[i as int] == dv(*e));
            let pv = trim_chars(chars_of(e.container_path.as_str()).as_slice());
            let room = out.len() < MAX_DECLARED_VOLUMES;
            let ghost prev = dvs(out@);
            if room && validate_volume_name(e.volume_name.as_str()).is_ok() && validate_container_path(
                string_of(pv.as_slice()).as_str(),
            ).is_ok() && !mount_taken(&out, pv.as_slice()) {
                let v = DeclaredVolume {
                    volume_name: string_of(chars_of(e.volume_name.as_str()).as_slice()),
                    container_path: string_of(pv.as_slice()),
                    read_only: e.read_only,
                };
                out.push(v);
                assert(dvs(out@) =~= prev.push(dv(v)));
            }
            i = i + 1;
        }
        assert(es.take(n as int) =~= es);
    }
    let ghost input = string_seq(docker_paths@);
    let sorted = sort_strings(docker_paths);
    let ghost sp = string_seq(sorted@);
    proof {
        lemma_text_order_total();
        input.lemma_sort_by_ensures(text_order());
        vstd::seq_lib::lemma_sorted_unique(sp, input.sort_by(text_order()), text_order());
    }
    let m = sorted.len();
    let mut j: usize = 0;
    assert(dvs(out@) == docker_volumes(repo_path@, start, sp.take(0))) by {
        assert(sp.take(0) =~= Seq::<Seq<char>>::empty());
    }
    while j < m
        invariant
            j <= m == sorted@.len(),
            sp == string_seq(sorted@),
            dvs(out@) == docker_volumes(repo_path@, start, sp.take(j as int)),
        decreases m - j,
    {
        assert(sp.take(j + 1).drop_last() =~= sp.take(j as int));
        assert(sp[j as int] == sorted@[j as int]@);
        let pv = trim_chars(chars_of(sorted[j].as_str()).as_slice());
        let path = string_of(pv.as_slice());
        let ghost prev = dvs(out@);
        if out.len() < MAX_DECLARED_VOLUMES && validate_container_path(path.as_str()).is_ok()
            && !mount_taken(&out, pv.as_slice()) {
            let v = DeclaredVolume {
                volume_name: suggested_volume_name(repo_path, path.as_str()),
                container_path: string_of(pv.as_slice()),
                read_only: false,
            };
            out.push(v);
            assert(dvs(out@) =~= prev.push(dv(v)));
        }
        j = j + 1;
    }
    assert(sp.take(m as int) =~= sp);
    out
}

// ------------------------------------------------------------ ports

/// The ports that the `ExposedPorts` keys declare, skipping keys that do
/// not read.
pub open spec fn parsed_ports(keys: Seq<Seq<char>>) -> Seq<(u16, Seq<char>)>
    decreases keys.len(),
{
    if keys.len() == 0 {
        Seq::empty()
    } else {
        let r = parsed_ports(keys.drop_last());
        match port_key_spec(keys.last()) {
            Some(p) => r.push(p),
            None => r,
        }
    }
}

pub open spec fn exposed_views(v: Seq<ExposedPort>) -> Seq<(u16, Seq<char>)> {
    v.map_values(|p: ExposedPort| (p.container_port, p.protocol@))
}

/// The ports an image exposes, by port and then protocol. The keys may come
/// in any order: the result is the same for every order.
pub fn image_ports(keys: Vec<String>) -> (r: Vec<ExposedPort>)
    ensures
        exposed_views(r@) == parsed_ports(string_seq(keys@)).sort_by(port_order()),
{
    let ghost ks = string_seq(keys@);
    let mut found: Vec<(u16, String)> = Vec::new();
    let n = keys.len();
    let mut i: usize = 0;
    assert(port_views(found@) =~= parsed_ports(ks.take(0))) by {
        assert(ks.take(0) =~= Seq::<Seq<char>>::empty());
    }
    while i < n
        invariant
            i <= n == keys@.len(),
            ks == string_seq(keys@),
            port_views(found@) == parsed_ports(ks.take(i as int)),
        decreases n - i,
    {
        assert(ks.take(i + 1).drop_last() =~= ks.take(i as int));
        assert(ks[i as int] == keys@[i as int]@);
        let ghost prev = port_views(found@);
        match parse_port_key(keys[i].as_str()) {
            Some(p) => {
                let e = (p.container_port, p.protocol);
                found.push(e);
                assert(port_views(found@) =~= prev.push((e.0, e.1@)));
            },
            None => {},
        }
        i = i + 1;
    }
    assert(ks.take(n as int) =~= ks);
    let ghost parsed = port_views(found@);
    let sorted = sort_ports(found);
    proof {
        lemma_port_order_total();
        parsed.lemma_sort_by_ensures(port_order());
        vstd::seq_lib::lemma_sorted_unique(port_views(sorted@), parsed.sort_by(port_order()), port_order());
    }
    let mut out: Vec<ExposedPort> = Vec::new();
    let mut rest = sorted;
    let ghost all = port_views(rest@);
    let m = rest.len();
    let mut j: usize = 0;
    assert(all.skip(0) =~= all);
    while j < m
        invariant
            j <= m == all.len(),
            port_views(rest@) == all.skip(j as int),
            exposed_views(out@) == all.take(j as int),
        decreases m - j,
    {
        let ghost before = rest@;
        assert(port_views(rest@).len() == rest@.len());
        let (port, protocol) = rest.remove(0);
        assert((port, protocol@) == port_views(before)[0]);
        assert(rest@ =~= before.subrange(1, before.len() as int));
        assert forall|k: int| 0 <= k < port_views(rest@).len() implies port_views(rest@)[k] == all.skip(j + 1)[k] by {
            assert(port_views(rest@)[k] == (rest@[k].0, rest@[k].1@));
            assert(rest@[k] == before[k + 1]);
            assert(port_views(before)[k + 1] == (before[k + 1].0, before[k + 1].1@));
        }
        assert(port_views(rest@) =~= all.skip(j + 1));
        let ghost prev = exposed_views(out@);
        let e = ExposedPort { container_port: port, protocol };
        out.push(e);
        assert(exposed_views(out@) =~= prev.push((port, e.protocol@)));
        assert(all.take(j + 1) =~= all.take(j as int).push(all[j as int]));
        j = j + 1;
    }
    assert(all.take(m as int) =~= all);
    out
}

// ------------------------------------------------------------ requests

/// `<registry>/v2/<repository>/<kind>/<reference>`, the registry URL
/// without trailing `/`.
pub open spec fn registry_url_spec(registry: Seq<char>, repo: Seq<char>, kind: Seq<char>, reference: Seq<char>) -> Seq<char> {
    strip_trailing(registry, '/') + "/v2/"@ + repo + "/"@ + kind + "/"@ + reference
}

fn registry_url(registry: &str, repo_path: &str, kind: &str, reference: &str) -> (r: String)
    ensures
        r@ == registry_url_spec(registry@, repo_path@, kind@, reference@),
{
    let base = strip_trailing_chars(chars_of(registry).as_slice(), '/');
    let mut s = string_of(base.as_slice());
    push_str(&mut s, "/v2/");
    push_str(&mut s, repo_path);
    push_str(&mut s, "/");
    push_str(&mut s, kind);
    push_str(&mut s, "/");
    push_str(&mut s, reference);
    s
}

/// The URL of a manifest (by tag or digest).
pub fn manifest_url(registry: &str, repo_path: &str, reference: &str) -> (r: String)
    ensures
        r@ == registry_url_spec(registry@, repo_path@, "manifests"@, reference@),
{
    registry_url(registry, repo_path, "manifests", reference)
}

/// The URL of a blob (the image config) by digest.
pub fn blob_url(registry: &str, repo_path: &str, digest: &str) -> (r: String)
    ensures
        r@ == registry_url_spec(registry@, repo_path@, "blobs"@, digest@),
{
    registry_url(registry, repo_path, "blobs", digest)
}

/// The digest of the image config a single-arch manifest points to; a
/// manifest without one is refused.
pub fn config_digest(manifest: &Manifest) -> (r: Result<String, AppError>)
    ensures
        match manifest.config_digest {
            Some(d) => r matches Ok(s) && s@ == d@,
            None => r matches Err(e) && e matches AppError::BadRequest(m) && m@
                == "manifest carries no image config"@,
        },
{
    match &manifest.config_digest {
        Some(d) => Ok(string_of(chars_of(d.as_str()).as_slice())),
        None => Err(AppError::BadRequest(string_from("manifest carries no image config"))),
    }
}

} // verus!