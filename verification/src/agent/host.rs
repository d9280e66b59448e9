//! Host evidence: persistent-storage accounting over a measured directory
//! tree, and the readiness checks built from probe results.

use crate::shared::{check, CheckStatus, HostReadiness, ReadinessCheck};
use crate::text::{
    chars_of, contains, contains_seq, parse_unsigned, parse_unsigned_chars, push_str,
    string_from, string_of, trim, trim_chars,
};
use crate::ids::{hex_string, hex_text, parse_hex, parse_hex_u64, parse_uuid, parsed_uuid, uuid_text};
use crate::shared::truncated;
use crate::agent::file_system::{components, path_components, STORAGE_ROOT};
use crate::text::{utf8_len, utf8_length};
use crate::text::{concat3, decimal_string, decimal_text, split, split_chars, starts_with, views};
use vstd::prelude::*;

verus! {

/// What a walk of the storage tree found at one path, without following
/// symlinks: a regular file and its length, a directory and its entries,
/// or anything else (a symlink, a device, an unreadable entry).
pub enum FsEntry {
    File(u64),
    Directory(Vec<FsEntry>),
    Other,
}

/// Deepest directory level the accounting descends into.
pub const MAX_DEPTH: u64 = 64;

pub open spec fn entry_size(e: FsEntry, depth: nat) -> int
    decreases e, 0nat,
{
    if depth > MAX_DEPTH {
        0
    } else {
        match e {
            FsEntry::File(n) => n as int,
            FsEntry::Directory(children) => children_size(children@, depth + 1),
            FsEntry::Other => 0,
        }
    }
}

pub open spec fn children_size(children: Seq<FsEntry>, depth: nat) -> int
    decreases children, 1nat,
{
    if children.len() == 0 {
        0
    } else {
        children_size(children.drop_last(), depth) + entry_size(children.last(), depth)
    }
}

proof fn lemma_sizes_nonneg(e: FsEntry, depth: nat)
    ensures
        entry_size(e, depth) >= 0,
    decreases e, 0nat,
{
    if depth <= MAX_DEPTH {
        if let FsEntry::Directory(children) = e {
            lemma_children_nonneg(children@, depth + 1);
        }
    }
}

proof fn lemma_children_nonneg(children: Seq<FsEntry>, depth: nat)
    ensures
        children_size(children, depth) >= 0,
    decreases children, 1nat,
{
    if children.len() > 0 {
        lemma_children_nonneg(children.drop_last(), depth);
        lemma_sizes_nonneg(children.last(), depth);
    }
}

fn directory_size(e: &FsEntry, depth: u64) -> (r: u64)
    requires
        depth <= MAX_DEPTH + 1,
        entry_size(*e, depth as nat) <= u64::MAX,
    ensures
        r == entry_size(*e, depth as nat),
    decreases *e, 0nat,
{
    if depth > MAX_DEPTH {
        return 0;
    }
    match e {
        FsEntry::File(n) => *n,
        FsEntry::Directory(children) => {
            let mut total: u64 = 0;
            let n = children.len();
            for i in 0..n
                invariant
                    n == children@.len(),
                    *e == FsEntry::Directory(*children),
                    depth <= MAX_DEPTH,
                    children_size(children@, depth as nat + 1) <= u64::MAX,
                    total == children_size(children@.take(i as int), depth as nat + 1),
            {
                assert(children@.take(i + 1).drop_last() =~= children@.take(i as int));
                assert(decreases_to!(*e => (*e)->Directory_0));
                assert(decreases_to!(*children => children@));
                assert(decreases_to!(children@ => children@[i as int]));
                proof {
                    lemma_children_prefix(children@, i + 1, depth as nat + 1);
                    lemma_children_nonneg(children@.take(i as int), depth as nat + 1);
                    lemma_sizes_nonneg(children@[i as int], depth as nat + 1);
                }
                let s = directory_size(&children[i], depth + 1);
                total = total + s;
            }
            assert(children@.take(n as int) =~= children@);
            total
        },
        FsEntry::Other => 0,
    }
}

proof fn lemma_children_prefix(children: Seq<FsEntry>, k: int, depth: nat)
    requires
        0 <= k <= children.len(),
    ensures
        children_size(children.take(k), depth) <= children_size(children, depth),
    decreases children.len(),
{
    if k < children.len() {
        assert(children.drop_last().take(k) =~= children.take(k));
        lemma_children_prefix(children.drop_last(), k, depth);
        lemma_sizes_nonneg(children.last(), depth);
    } else {
        assert(children.take(k) =~= children);
    }
}

/// The bytes under a path: regular files count by length, directories by
/// their entries, down to 64 levels; nothing else counts.
pub fn directory_size_for(tree: &FsEntry) -> (r: u64)
    requires
        entry_size(*tree, 0) <= u64::MAX,
    ensures
        r == entry_size(*tree, 0),
{
    directory_size(tree, 0)
}

/// The setup revision recorded on the host: the marker file's trimmed text
/// as a number.
pub fn parse_setup_revision(text: &str) -> (r: Option<u32>)
    ensures
        match parse_unsigned(trim(text@), u32::MAX as nat) {
            Some(v) => r == Some(v as u32),
            None => r is None,
        },
{
    let v = chars_of(text);
    let t = trim_chars(v.as_slice());
    match parse_unsigned_chars(t.as_slice(), 0xffff_ffff) {
        Some(n) => Some(n as u32),
        None => None,
    }
}

/// The wildcard certificate check, from what the probes found: both files
/// present, validity for another week, the certificate's SAN text, and
/// the server's name and apps domain.
pub open spec fn certificate_status(
    files_present: bool,
    valid_for_week: bool,
    sans: Option<Seq<char>>,
    expected: Option<Seq<char>>,
) -> (CheckStatus, Seq<char>) {
    if !files_present {
        (CheckStatus::Failed, "TLS certificate or private key is missing"@)
    } else if !valid_for_week {
        (CheckStatus::Failed, "certificate expires within 7 days or cannot be parsed"@)
    } else if sans is None {
        (CheckStatus::Unknown, "certificate is valid but SANs could not be inspected"@)
    } else {
        match expected {
            Some(w) => if !contains(sans->0, "DNS:"@ + w) {
                (CheckStatus::Failed, "certificate does not cover expected wildcard "@ + w)
            } else {
                (CheckStatus::Ready, "certificate is valid for at least 7 days and covers "@ + w)
            },
            None => (
                CheckStatus::Warning,
                "certificate is valid for at least 7 days; server name is unknown"@,
            ),
        }
    }
}

/// The wildcard a server's certificate must cover: `*.<server>.<domain>`.
pub open spec fn expected_wildcard(server_name: Option<Seq<char>>, domain: Seq<char>) -> Option<
    Seq<char>,
> {
    match server_name {
        Some(n) => Some("*."@ + n + "."@ + domain),
        None => None,
    }
}

pub open spec fn certificate_view(
    files_present: bool,
    valid_for_week: bool,
    sans: Option<Seq<char>>,
    server_name: Option<Seq<char>>,
    domain: Seq<char>,
) -> (Seq<char>, CheckStatus, Seq<char>) {
    let (status, detail) = certificate_status(files_present, valid_for_week, sans, expected_wildcard(server_name, domain));
    check_of("tls_certificate"@, status, detail)
}

/// The certificate check: the wildcard `*.<server>.<domain>` must be among
/// the certificate's names.
pub fn certificate_check(
    files_present: bool,
    valid_for_week: bool,
    sans: Option<&str>,
    server_name: Option<&str>,
    domain: &str,
) -> (r: ReadinessCheck)
    ensures
        check_view(r) == certificate_view(files_present, valid_for_week, opt_view(sans), opt_view(server_name), domain@),
{
    if !files_present {
        return check("tls_certificate", CheckStatus::Failed, "TLS certificate or private key is missing");
    }
    if !valid_for_week {
        return check(
            "tls_certificate",
            CheckStatus::Failed,
            "certificate expires within 7 days or cannot be parsed",
        );
    }
    let names = match sans {
        Some(s) => s,
        None => {
            return check(
                "tls_certificate",
                CheckStatus::Unknown,
                "certificate is valid but SANs could not be inspected",
            );
        },
    };
    match server_name {
        Some(n) => {
            let mut expected = string_from("*.");
            push_str(&mut expected, n);
            push_str(&mut expected, ".");
            push_str(&mut expected, domain);
            let mut needle = string_from("DNS:");
            push_str(&mut needle, expected.as_str());
            let hv = chars_of(names);
            let nv = chars_of(needle.as_str());
            if !contains_seq(hv.as_slice(), nv.as_slice()) {
                let mut m = string_from("certificate does not cover expected wildcard ");
                push_str(&mut m, expected.as_str());
                check("tls_certificate", CheckStatus::Failed, m.as_str())
            } else {
                let mut m = string_from("certificate is valid for at least 7 days and covers ");
                push_str(&mut m, expected.as_str());
                check("tls_certificate", CheckStatus::Ready, m.as_str())
            }
        },
        None => check(
            "tls_certificate",
            CheckStatus::Warning,
            "certificate is valid for at least 7 days; server name is unknown",
        ),
    }
}

// ------------------------------------------------------------ probes

pub open spec fn check_of(code: Seq<char>, status: CheckStatus, detail: Seq<char>) -> (Seq<char>, CheckStatus, Seq<char>) {
    (code, status, truncated(detail, 600))
}

pub open spec fn check_view(c: ReadinessCheck) -> (Seq<char>, CheckStatus, Seq<char>) {
    (c.code@, c.status, c.detail@)
}

pub open spec fn opt_view(t: Option<&str>) -> Option<Seq<char>> {
    match t {
        Some(s) => Some(s@),
        None => None,
    }
}

pub open spec fn docker_view(docker_ok: bool) -> (Seq<char>, CheckStatus, Seq<char>) {
    if docker_ok {
        check_of("docker"@, CheckStatus::Ready, "Docker daemon and socket are accessible"@)
    } else {
        check_of("docker"@, CheckStatus::Failed, "Docker daemon/socket is not accessible to foundry-agent"@)
    }
}

/// Whether Docker answers the agent.
pub fn docker_check(docker_ok: bool) -> (r: ReadinessCheck)
    ensures
        check_view(r) == docker_view(docker_ok),
{
    if docker_ok {
        check("docker", CheckStatus::Ready, "Docker daemon and socket are accessible")
    } else {
        check("docker", CheckStatus::Failed, "Docker daemon/socket is not accessible to foundry-agent")
    }
}

pub open spec fn docker_gpu_view(probe: Result<String, String>) -> (Seq<char>, CheckStatus, Seq<char>) {
    match probe {
        Ok(d) => check_of("docker_gpu"@, CheckStatus::Ready, d@),
        Err(d) => check_of("docker_gpu"@, CheckStatus::Failed, d@),
    }
}

/// Whether containers can reach the GPUs, with the probe's own text.
pub fn docker_gpu_check(probe: &Result<String, String>) -> (r: ReadinessCheck)
    ensures
        check_view(r) == docker_gpu_view(*probe),
{
    match probe {
        Ok(d) => check("docker_gpu", CheckStatus::Ready, d.as_str()),
        Err(d) => check("docker_gpu", CheckStatus::Failed, d.as_str()),
    }
}

pub open spec fn storage_write_view(error: Option<Seq<char>>) -> (Seq<char>, CheckStatus, Seq<char>) {
    match error {
        None => check_of("storage_write"@, CheckStatus::Ready, "persistent storage is writable"@),
        Some(e) => check_of("storage_write"@, CheckStatus::Failed, "/storage/containers is not writable: "@ + e),
    }
}

/// Whether a probe file could be written under the storage root (the
/// failure's text when it could not).
pub fn storage_write_check(error: Option<&str>) -> (r: ReadinessCheck)
    ensures
        check_view(r) == storage_write_view(opt_view(error)),
{
    match error {
        None => check("storage_write", CheckStatus::Ready, "persistent storage is writable"),
        Some(e) => {
            let mut m = string_from("/storage/containers is not writable: ");
            push_str(&mut m, e);
            check("storage_write", CheckStatus::Failed, m.as_str())
        },
    }
}

/// How `sudo -n nginx -t` went.
pub enum NginxProbe {
    Succeeded,
    /// It ran and failed, with what it wrote to stderr.
    Failed(String),
    /// It could not be started, with the error's text.
    NotRun(String),
}

pub open spec fn nginx_view(probe: NginxProbe) -> (Seq<char>, CheckStatus, Seq<char>) {
    match probe {
            NginxProbe::Succeeded => check_of("nginx_config"@, CheckStatus::Ready, "sudo -n nginx -t succeeded"@),
            NginxProbe::Failed(err) => check_of(
                "nginx_config"@,
                CheckStatus::Failed,
                "sudo -n nginx -t failed: "@ + trim(err@),
            ),
            NginxProbe::NotRun(e) => check_of("nginx_config"@, CheckStatus::Failed, "could not execute sudo nginx: "@ + e@),
        }
}

/// Whether the nginx configuration tests clean.
pub fn nginx_check(probe: &NginxProbe) -> (r: ReadinessCheck)
    ensures
        check_view(r) == nginx_view(*probe),
{
    match probe {
        NginxProbe::Succeeded => check("nginx_config", CheckStatus::Ready, "sudo -n nginx -t succeeded"),
        NginxProbe::Failed(err) => {
            let t = string_of(trim_chars(chars_of(err.as_str()).as_slice()).as_slice());
            let mut m = string_from("sudo -n nginx -t failed: ");
            push_str(&mut m, t.as_str());
            check("nginx_config", CheckStatus::Failed, m.as_str())
        },
        NginxProbe::NotRun(e) => {
            let mut m = string_from("could not execute sudo nginx: ");
            push_str(&mut m, e.as_str());
            check("nginx_config", CheckStatus::Failed, m.as_str())
        },
    }
}

pub open spec fn setup_revision_view(revision: Option<u32>, required: u32) -> (Seq<char>, CheckStatus, Seq<char>) {
    check_of(
            "setup_revision"@,
            if revision == Some(required) {
                CheckStatus::Ready
            } else {
                CheckStatus::Failed
            },
            "host setup revision "@ + match revision {
                Some(v) => decimal_text(v as nat),
                None => "missing"@,
            } + " (required "@ + decimal_text(required as nat) + ")"@,
        )
}

/// Whether the host setup is at the revision the agent needs.
pub fn setup_revision_check(revision: Option<u32>, required: u32) -> (r: ReadinessCheck)
    ensures
        check_view(r) == setup_revision_view(revision, required),
{
    let shown = match revision {
        Some(v) => decimal_string(v as u64),
        None => string_from("missing"),
    };
    let mut detail = concat3("host setup revision ", shown.as_str(), " (required ");
    push_str(&mut detail, decimal_string(required as u64).as_str());
    push_str(&mut detail, ")");
    let status = if revision == Some(required) {
        CheckStatus::Ready
    } else {
        CheckStatus::Failed
    };
    check("setup_revision", status, detail.as_str())
}

/// The effective capability mask in `/proc/self/status`: the first line
/// starting with `CapEff:` whose rest, trimmed, reads as hexadecimal.
pub open spec fn cap_eff_from(lines: Seq<Seq<char>>, i: int) -> Option<u64>
    decreases lines.len() - i,
{
    if i < 0 || i >= lines.len() {
        None
    } else if starts_with(lines[i], "CapEff:"@) && parse_hex_u64(trim(lines[i].skip(7))) is Some {
        parse_hex_u64(trim(lines[i].skip(7)))
    } else {
        cap_eff_from(lines, i + 1)
    }
}

/// `CAP_DAC_OVERRIDE` (bit 1) is needed to manage files that containers of
/// any user id created in the volumes.
pub open spec fn capability_status(status: Option<Seq<char>>) -> (CheckStatus, Seq<char>) {
    match status {
        None => (CheckStatus::Unknown, "could not read CapEff"@),
        Some(text) => match cap_eff_from(split(text, '\n'), 0) {
            None => (CheckStatus::Unknown, "could not read CapEff"@),
            Some(bits) => if (bits / 2) % 2 == 1 {
                (
                    CheckStatus::Ready,
                    "effective capabilities 0x"@ + hex_text(bits as nat) + "; CAP_DAC_OVERRIDE present"@,
                )
            } else {
                (
                    CheckStatus::Failed,
                    "effective capabilities 0x"@ + hex_text(bits as nat) + "; CAP_DAC_OVERRIDE missing"@,
                )
            },
        },
    }
}

fn find_cap_eff(lines: &Vec<Vec<char>>) -> (r: Option<u64>)
    ensures
        r == cap_eff_from(views(lines@), 0),
{
    let prefix = chars_of("CapEff:");
    proof {
        reveal_strlit("CapEff:");
    }
    assert(prefix@.len() == 7);
    let n = lines.len();
    let mut i: usize = 0;
    while i < n
        invariant
            i <= n == lines@.len(),
            prefix@ == "CapEff:"@,
            prefix@.len() == 7,
            cap_eff_from(views(lines@), 0) == cap_eff_from(views(lines@), i as int),
        decreases n - i,
    {
        let line = &lines[i];
        assert(views(lines@)[i as int] == line@);
        if crate::text::starts_with_seq(line.as_slice(), prefix.as_slice()) {
            let rest = crate::text::slice_chars(line.as_slice(), 7, line.len());
            assert(rest@ =~= line@.skip(7));
            let t = trim_chars(rest.as_slice());
            match parse_hex(t.as_slice()) {
                Some(v) => {
                    return Some(v);
                },
                None => {},
            }
        }
        i = i + 1;
    }
    None
}

/// The capability check from the text of `/proc/self/status` (none when it
/// could not be read).
pub fn capability_check(status: Option<&str>) -> (r: ReadinessCheck)
    ensures
        check_view(r) == check_of("capabilities"@, capability_status(opt_view(status)).0, capability_status(opt_view(status)).1),
{
    let text = match status {
        None => return check("capabilities", CheckStatus::Unknown, "could not read CapEff"),
        Some(t) => t,
    };
    let lines = split_chars(chars_of(text).as_slice(), '\n');
    let found = find_cap_eff(&lines);
    match found {
        None => check("capabilities", CheckStatus::Unknown, "could not read CapEff"),
        Some(bits) => {
            let hex = hex_string(bits);
            let has = bits & 2 != 0;
            assert(has == ((bits / 2) % 2 == 1)) by (bit_vector)
                requires
                    has == (bits & 2 != 0),
            ;
            if has {
                check(
                    "capabilities",
                    CheckStatus::Ready,
                    concat3("effective capabilities 0x", hex.as_str(), "; CAP_DAC_OVERRIDE present").as_str(),
                )
            } else {
                check(
                    "capabilities",
                    CheckStatus::Failed,
                    concat3("effective capabilities 0x", hex.as_str(), "; CAP_DAC_OVERRIDE missing").as_str(),
                )
            }
        },
    }
}

// ------------------------------------------------------------ storage

/// `Path::starts_with`: the components of `base` begin the components of
/// `path`.
pub open spec fn path_starts_with(path: Seq<char>, base: Seq<char>) -> bool {
    components(base).len() <= components(path).len()
        && components(path).take(components(base).len() as int) == components(base)
}

pub fn path_starts_with_exec(path: &[char], base: &[char]) -> (b: bool)
    ensures
        b == path_starts_with(path@, base@),
{
    let p = path_components(path);
    let q = path_components(base);
    if q.len() > p.len() {
        return false;
    }
    let ghost pv = views(p@);
    let ghost qv = views(q@);
    for i in 0..q.len()
        invariant
            q@.len() <= p@.len(),
            pv == views(p@),
            qv == views(q@),
            pv == components(path@),
            qv == components(base@),
            forall|k: int| 0 <= k < i ==> pv[k] == qv[k],
    {
        assert(pv[i as int] == p@[i as int]@);
        assert(qv[i as int] == q@[i as int]@);
        if !crate::text::equals_chars(p[i].as_slice(), q[i].as_slice()) {
            assert(pv.take(qv.len() as int)[i as int] != qv[i as int]);
            return false;
        }
    }
    assert(pv.take(qv.len() as int) =~= qv);
    true
}

/// A byte length as a `usize` holds it.
pub open spec fn byte_len(s: Seq<char>) -> nat {
    if utf8_len(s) <= usize::MAX {
        utf8_len(s)
    } else {
        usize::MAX as nat
    }
}

/// The mount a path lies on: of the mount points it starts with, the one
/// whose text is longest, the last of them where several are.
pub open spec fn is_storage_mount(mounts: Seq<(String, u64, u64)>, path: Seq<char>, i: int) -> bool {
    &&& 0 <= i < mounts.len()
    &&& path_starts_with(path, mounts[i].0@)
    &&& forall|j: int| 0 <= j < mounts.len() && path_starts_with(path, #[trigger] mounts[j].0@) ==> byte_len(mounts[j].0@)
        <= byte_len(mounts[i].0@)
    &&& forall|j: int| i < j < mounts.len() && path_starts_with(path, #[trigger] mounts[j].0@) ==> byte_len(mounts[j].0@)
        < byte_len(mounts[i].0@)
}

/// The total and available bytes of the disk that holds the storage root,
/// from the mounted disks as `(mount point, total, available)`; none when
/// no disk holds it.
pub fn storage_capacity_from(mounts: &Vec<(String, u64, u64)>) -> (r: Option<(u64, u64)>)
    ensures
        match r {
            Some((total, available)) => exists|i: int|
                is_storage_mount(mounts@, STORAGE_ROOT@, i) && (#[trigger] mounts@[i]).1 == total && mounts@[i].2
                    == available,
            None => forall|j: int| 0 <= j < mounts@.len() ==> !path_starts_with(STORAGE_ROOT@, #[trigger] mounts@[j].0@),
        },
{
    let root = chars_of(STORAGE_ROOT);
    let mut best: Option<usize> = None;
    let mut best_len: usize = 0;
    let n = mounts.len();
    for i in 0..n
        invariant
            n == mounts@.len(),
            root@ == STORAGE_ROOT@,
            match best {
                Some(b) => b < i && best_len == byte_len(mounts@[b as int].0@) && path_starts_with(
                    STORAGE_ROOT@,
                    mounts@[b as int].0@,
                ) && (forall|j: int| 0 <= j < i && path_starts_with(STORAGE_ROOT@, #[trigger] mounts@[j].0@) ==> byte_len(
                    mounts@[j].0@,
                ) <= best_len) && (forall|j: int| b < j < i && path_starts_with(STORAGE_ROOT@, #[trigger] mounts@[j].0@)
                    ==> byte_len(mounts@[j].0@) < best_len),
                None => forall|j: int| 0 <= j < i ==> !path_starts_with(STORAGE_ROOT@, #[trigger] mounts@[j].0@),
            },
    {
        let m = chars_of(mounts[i].0.as_str());
        if path_starts_with_exec(root.as_slice(), m.as_slice()) {
            let len = utf8_length(m.as_slice());
            match best {
                Some(b) => {
                    if best_len <= len {
                        best = Some(i);
                        best_len = len;
                    }
                },
                None => {
                    best = Some(i);
                    best_len = len;
                },
            }
        }
    }
    match best {
        Some(b) => {
            assert(is_storage_mount(mounts@, STORAGE_ROOT@, b as int));
            Some((mounts[b].1, mounts[b].2))
        },
        None => None,
    }
}

/// At most this many entries of the volumes directory are looked at.
pub const MAX_VOLUME_ENTRIES: usize = 10000;

/// The entries among the first `n` that name a volume by its UUID, with
/// their positions.
pub open spec fn volume_entries_upto(names: Seq<String>, n: int) -> Seq<(usize, u128)>
    decreases n,
{
    if n <= 0 {
        Seq::empty()
    } else {
        let before = volume_entries_upto(names, n - 1);
        match parsed_uuid(names[n - 1]@) {
            Some(id) => before.push(((n - 1) as usize, id)),
            None => before,
        }
    }
}

/// Which entries of the volumes directory (by name, in the order read) are
/// measured: those of the first 10 000 whose name is a volume's UUID.
pub fn volume_entries(names: &Vec<String>) -> (r: Vec<(usize, u128)>)
    ensures
        r@ == volume_entries_upto(
            names@,
            if names@.len() < MAX_VOLUME_ENTRIES {
                names@.len() as int
            } else {
                MAX_VOLUME_ENTRIES as int
            },
        ),
        forall|i: int, v: u128|
            0 <= i < names@.len() && i < MAX_VOLUME_ENTRIES && #[trigger] names@[i]@ == #[trigger] uuid_text(v) ==> r@.contains(
                (i as usize, v),
            ),
{
    let n = if names.len() < MAX_VOLUME_ENTRIES {
        names.len()
    } else {
        MAX_VOLUME_ENTRIES
    };
    let mut out: Vec<(usize, u128)> = Vec::new();
    for i in 0..n
        invariant
            n <= names@.len(),
            n <= MAX_VOLUME_ENTRIES,
            n == names@.len() || n == MAX_VOLUME_ENTRIES,
            out@ == volume_entries_upto(names@, i as int),
            forall|k: int, v: u128|
                0 <= k < i && #[trigger] names@[k]@ == #[trigger] uuid_text(v) ==> out@.contains((k as usize, v)),
    {
        let ghost before = out@;
        match parse_uuid(names[i].as_str()) {
            Some(id) => out.push((i, id)),
            None => {},
        }
        assert forall|k: int, v: u128| 0 <= k < i + 1 && #[trigger] names@[k]@ == #[trigger] uuid_text(v) implies out@.contains(
            (k as usize, v),
        ) by {
            if k < i {
                let j = choose|j: int| 0 <= j < before.len() && before[j] == (k as usize, v);
                assert(out@[j] == (k as usize, v));
            } else {
                assert(out@[out@.len() - 1] == (k as usize, v));
            }
        }
    }
    out
}

// ------------------------------------------------------------ readiness

/// What the TLS probe found: whether the certificate and key files exist,
/// whether the certificate stays valid for another week, and its subject
/// alternative names as text when they could be read.
pub struct CertificateEvidence {
    pub files_present: bool,
    pub valid_for_week: bool,
    pub sans: Option<String>,
}

/// The host's readiness evidence: the probe results as checks, in the
/// order docker, docker_gpu, storage_write, capabilities, nginx_config,
/// tls_certificate, setup_revision, with the setup revisions found and
/// required.
pub fn readiness(
    docker_ok: bool,
    docker_gpu: &Result<String, String>,
    storage_error: Option<&str>,
    proc_status: Option<&str>,
    nginx: &NginxProbe,
    certificate: &CertificateEvidence,
    server_name: Option<&str>,
    domain: &str,
    revision: Option<u32>,
    required: u32,
) -> (r: HostReadiness)
    ensures
        r.setup_revision == revision,
        r.required_setup_revision == required,
        r.checks@.len() == 7,
        check_view(r.checks@[0]) == docker_view(docker_ok),
        check_view(r.checks@[1]) == docker_gpu_view(*docker_gpu),
        check_view(r.checks@[2]) == storage_write_view(opt_view(storage_error)),
        check_view(r.checks@[3]) == check_of(
            "capabilities"@,
            capability_status(opt_view(proc_status)).0,
            capability_status(opt_view(proc_status)).1,
        ),
        check_view(r.checks@[4]) == nginx_view(*nginx),
        check_view(r.checks@[5]) == certificate_view(
            certificate.files_present,
            certificate.valid_for_week,
            match certificate.sans {
                Some(t) => Some(t@),
                None => None,
            },
            opt_view(server_name),
            domain@,
        ),
        check_view(r.checks@[6]) == setup_revision_view(revision, required),
{
    let mut checks: Vec<ReadinessCheck> = Vec::new();
    checks.push(docker_check(docker_ok));
    checks.push(docker_gpu_check(docker_gpu));
    checks.push(storage_write_check(storage_error));
    checks.push(capability_check(proc_status));
    checks.push(nginx_check(nginx));
    let sans = match &certificate.sans {
        Some(t) => Some(t.as_str()),
        None => None,
    };
    checks.push(certificate_check(certificate.files_present, certificate.valid_for_week, sans, server_name, domain));
    checks.push(setup_revision_check(revision, required));
    HostReadiness { setup_revision: revision, required_setup_revision: required, checks }
}

} // verus!
