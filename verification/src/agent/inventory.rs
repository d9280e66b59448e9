//! Reading inventory evidence: MIG profile sizes, UUIDs in `nvidia-smi -L`
//! lines, and container device references.

use crate::text::{
    chars_of, first_match, matches_at, find_seq, parse_unsigned, parse_unsigned_chars, slice_chars,
    split, split_chars, starts_with, starts_with_seq, strip_leading, strip_leading_chars,
    strip_trailing_seq, string_of, equals_str, ends_with_seq, lemma_split_nonempty, views,
};
use crate::shared::MigDeviceInfo;
use crate::text::{is_white_space, trim, trim_chars, strip_trailing, strip_trailing_chars};
use vstd::prelude::*;

verus! {

/// `s` without trailing repetitions of `gb`.
fn strip_gb(v: &[char]) -> (r: Vec<char>)
    ensures
        r@ == strip_trailing_seq(v@, "gb"@),
{
    let gb = chars_of("gb");
    proof {
        reveal_strlit("gb");
    }
    let mut end = v.len();
    assert(v@.subrange(0, end as int) =~= v@);
    while end >= 2 && ends_with_seq(slice_chars(v, 0, end).as_slice(), gb.as_slice())
        invariant
            end <= v@.len(),
            gb@ == "gb"@,
            gb@.len() == 2,
            strip_trailing_seq(v@, "gb"@) == strip_trailing_seq(v@.subrange(0, end as int), "gb"@),
        decreases end,
    {
        assert(v@.subrange(0, end as int).subrange(0, end - 2) =~= v@.subrange(0, end - 2));
        end = end - 2;
    }
    proof {
        if end < 2 {
            assert(!crate::text::ends_with(v@.subrange(0, end as int), "gb"@));
        }
    }
    slice_chars(v, 0, end)
}

/// The gigabytes a MIG profile name declares: the number after the first
/// `.`, without its `gb` suffix (`1g.10gb` declares 10).
pub open spec fn profile_gb(profile: Seq<char>) -> Option<nat> {
    let parts = split(profile, '.');
    if parts.len() >= 2 {
        parse_unsigned(strip_trailing_seq(parts[1], "gb"@), u32::MAX as nat)
    } else {
        None
    }
}

/// The memory a MIG profile declares, in MiB.
pub fn profile_memory_mb(profile: &str) -> (r: Option<u32>)
    requires
        profile_gb(profile@) matches Some(g) ==> g * 1024 <= u32::MAX,
    ensures
        match profile_gb(profile@) {
            Some(g) => r == Some((g * 1024) as u32),
            None => r is None,
        },
{
    let v = chars_of(profile);
    let parts = split_chars(v.as_slice(), '.');
    if parts.len() < 2 {
        return None;
    }
    assert(parts@[1]@ == views(parts@)[1]);
    let digits = strip_gb(parts[1].as_slice());
    match parse_unsigned_chars(digits.as_slice(), 0xffff_ffff) {
        Some(g) => Some((g as u32) * 1024),
        None => None,
    }
}

/// The UUID token that starts with `prefix`: from its first occurrence up
/// to the next `)` or space.
pub open spec fn uuid_token(line: Seq<char>, prefix: Seq<char>) -> Option<Seq<char>> {
    match first_match(line, prefix) {
        None => None,
        Some(i) => {
            let rest = line.skip(i);
            Some(rest.take(token_end(rest, 0)))
        },
    }
}

/// The position of the first `)` or space at or after `k`, or the length.
pub open spec fn token_end(rest: Seq<char>, k: int) -> int
    decreases rest.len() - k,
{
    if k >= rest.len() {
        rest.len() as int
    } else if rest[k] == ')' || rest[k] == ' ' {
        k
    } else {
        token_end(rest, k + 1)
    }
}

pub fn extract_uuid(line: &str, prefix: &str) -> (r: Option<String>)
    ensures
        match r {
            Some(s) => uuid_token(line@, prefix@) == Some(s@),
            None => uuid_token(line@, prefix@) is None,
        },
{
    let v = chars_of(line);
    let p = chars_of(prefix);
    let start = match find_seq(v.as_slice(), p.as_slice()) {
        Some(i) => i,
        None => {
            return None;
        },
    };
    let n = v.len();
    let ghost rest = line@.skip(start as int);
    let mut k = start;
    while k < n && v[k] != ')' && v[k] != ' '
        invariant
            start <= k <= n == v@.len(),
            v@ == line@,
            rest == line@.skip(start as int),
            token_end(rest, 0) == token_end(rest, k - start),
        decreases n - k,
    {
        k = k + 1;
    }
    let token = slice_chars(v.as_slice(), start, k);
    assert(token@ =~= rest.take(k - start));
    Some(string_of(token.as_slice()))
}

pub open spec fn is_uuid_ref(r: Seq<char>) -> bool {
    starts_with(r, "GPU-"@) || starts_with(r, "MIG-"@)
}

/// The UUID of the GPU at an NVML index, from the index map (each index
/// listed once).
pub open spec fn uuid_at(gpu_index: Seq<(u32, String)>, i: u32) -> Option<Seq<char>>
    decreases gpu_index.len(),
{
    if gpu_index.len() == 0 {
        None
    } else if gpu_index[0].0 == i {
        Some(gpu_index[0].1@)
    } else {
        uuid_at(gpu_index.drop_first(), i)
    }
}

/// A device reference is a UUID (`GPU-...`/`MIG-...`, used as it is) or an
/// NVML index resolved through the map.
pub open spec fn resolved_ref(r: Seq<char>, gpu_index: Seq<(u32, String)>) -> Option<Seq<char>> {
    if is_uuid_ref(r) {
        Some(r)
    } else {
        match parse_unsigned(r, u32::MAX as nat) {
            Some(i) => uuid_at(gpu_index, i as u32),
            None => None,
        }
    }
}

pub fn resolve_device_ref(r: &str, gpu_index: &Vec<(u32, String)>) -> (out: Option<String>)
    ensures
        match out {
            Some(s) => resolved_ref(r@, gpu_index@) == Some(s@),
            None => resolved_ref(r@, gpu_index@) is None,
        },
{
    let v = chars_of(r);
    let gpu = chars_of("GPU-");
    let mig = chars_of("MIG-");
    if starts_with_seq(v.as_slice(), gpu.as_slice()) || starts_with_seq(v.as_slice(), mig.as_slice()) {
        return Some(string_of(v.as_slice()));
    }
    let i = match parse_unsigned_chars(v.as_slice(), 0xffff_ffff) {
        Some(i) => i as u32,
        None => {
            return None;
        },
    };
    let n = gpu_index.len();
    let mut k: usize = 0;
    assert(gpu_index@.skip(0) =~= gpu_index@);
    assert(resolved_ref(r@, gpu_index@) == uuid_at(gpu_index@, i));
    while k < n
        invariant
            k <= n == gpu_index@.len(),
            resolved_ref(r@, gpu_index@) == uuid_at(gpu_index@, i),
            uuid_at(gpu_index@, i) == uuid_at(gpu_index@.skip(k as int), i),
        decreases n - k,
    {
        assert(gpu_index@.skip(k as int).drop_first() =~= gpu_index@.skip(k + 1));
        assert(gpu_index@.skip(k as int)[0] == gpu_index@[k as int]);
        if gpu_index[k].0 == i {
            return Some(gpu_index[k].1.clone());
        }
        k = k + 1;
    }
    None
}

/// A container's short id: the first 12 characters of its id.
pub fn short_id(id: &str) -> (r: String)
    ensures
        r@ == (if id@.len() <= 12 {
            id@
        } else {
            id@.take(12)
        }),
{
    let v = chars_of(id);
    if v.len() <= 12 {
        string_of(v.as_slice())
    } else {
        string_of(slice_chars(v.as_slice(), 0, 12).as_slice())
    }
}

/// A container's name as Docker lists it, without the leading `/`s.
pub fn container_name(listed: &str) -> (r: String)
    ensures
        r@ == strip_leading(listed@, '/'),
{
    let v = chars_of(listed);
    string_of(strip_leading_chars(v.as_slice(), '/').as_slice())
}

// ------------------------------------------------------------ nvidia-smi -L

/// A MIG device as plain values.
pub struct MigView {
    pub uuid: Seq<char>,
    pub profile: Seq<char>,
    pub memory_mb: u32,
    pub instance_id: u32,
}

pub open spec fn mig_view(d: MigDeviceInfo) -> MigView {
    MigView { uuid: d.uuid@, profile: d.profile@, memory_mb: d.memory_mb, instance_id: d.instance_id }
}

/// The end of the word that starts at `i`: the first whitespace at or
/// after `i`, or the length.
pub open spec fn word_end(s: Seq<char>, i: int) -> int
    decreases s.len() - i,
{
    if i < 0 || i >= s.len() {
        s.len() as int
    } else if is_white_space(s[i]) {
        i
    } else {
        word_end(s, i + 1)
    }
}

/// The end of the whitespace run that starts at `i`.
pub open spec fn space_end(s: Seq<char>, i: int) -> int
    decreases s.len() - i,
{
    if i < 0 || i >= s.len() {
        s.len() as int
    } else if !is_white_space(s[i]) {
        i
    } else {
        space_end(s, i + 1)
    }
}

/// The second whitespace-separated word of a line that starts with a word
/// (`split_whitespace().nth(1)`), or `unknown` when there is none.
pub open spec fn second_word(t: Seq<char>) -> Seq<char> {
    let a = word_end(t, 0);
    let b = space_end(t, a);
    let c = word_end(t, b);
    if b < c {
        t.subrange(b, c)
    } else {
        "unknown"@
    }
}

/// The text between the first `Device` and the next one (or the end):
/// `split("Device").nth(1)`.
pub open spec fn device_segment(t: Seq<char>) -> Option<Seq<char>> {
    match first_match(t, "Device"@) {
        None => None,
        Some(i) => {
            let rest = t.skip(i + 6);
            match first_match(rest, "Device"@) {
                None => Some(rest),
                Some(j) => Some(rest.take(j)),
            }
        },
    }
}

/// The instance id of a MIG line: in the segment after `Device`, trimmed
/// and without trailing `:`, the number before the first `:`; 0 where
/// there is none.
pub open spec fn instance_id_of(t: Seq<char>) -> u32 {
    match device_segment(t) {
        None => 0,
        Some(seg) => {
            let head = split(strip_trailing(trim(seg), ':'), ':')[0];
            match parse_unsigned(trim(head), u32::MAX as nat) {
                Some(v) => v as u32,
                None => 0,
            }
        },
    }
}

/// The memory of a MIG profile in MiB, 0 where the name declares none.
pub open spec fn mig_memory(profile: Seq<char>) -> u32 {
    match profile_gb(profile) {
        Some(g) => (g * 1024) as u32,
        None => 0,
    }
}

pub open spec fn mig_line_device(t: Seq<char>, uuid: Seq<char>) -> MigView {
    MigView {
        uuid,
        profile: second_word(t),
        memory_mb: mig_memory(second_word(t)),
        instance_id: instance_id_of(t),
    }
}

/// The position of the entry for GPU `g`, or -1.
pub open spec fn key_index(out: Seq<(Seq<char>, Seq<MigView>)>, g: Seq<char>) -> int
    decreases out.len(),
{
    if out.len() == 0 {
        -1
    } else {
        let k = key_index(out.drop_last(), g);
        if k >= 0 {
            k
        } else if out.last().0 == g {
            out.len() - 1
        } else {
            -1
        }
    }
}

/// Appends a device to GPU `g`'s entry, opening the entry at the end when
/// the GPU has none yet.
pub open spec fn add_device(out: Seq<(Seq<char>, Seq<MigView>)>, g: Seq<char>, d: MigView) -> Seq<(Seq<char>, Seq<MigView>)> {
    let k = key_index(out, g);
    if k >= 0 {
        out.update(k, (g, out[k].1.push(d)))
    } else {
        out.push((g, seq![d]))
    }
}

/// One trimmed line of `nvidia-smi -L`: a `GPU ` line names the GPU the
/// following `MIG ` lines belong to; a `MIG ` line with a MIG UUID under a
/// known GPU adds a device.
pub open spec fn smi_step(
    cur: Option<Seq<char>>,
    out: Seq<(Seq<char>, Seq<MigView>)>,
    t: Seq<char>,
) -> (Option<Seq<char>>, Seq<(Seq<char>, Seq<MigView>)>) {
    if starts_with(t, "GPU "@) {
        (uuid_token(t, "GPU-"@), out)
    } else if starts_with(t, "MIG "@) {
        match cur {
            None => (cur, out),
            Some(g) => match uuid_token(t, "MIG-"@) {
                None => (cur, out),
                Some(m) => (cur, add_device(out, g, mig_line_device(t, m))),
            },
        }
    } else {
        (cur, out)
    }
}

pub open spec fn smi_state(lines: Seq<Seq<char>>) -> (Option<Seq<char>>, Seq<(Seq<char>, Seq<MigView>)>)
    decreases lines.len(),
{
    if lines.len() == 0 {
        (None, Seq::empty())
    } else {
        let (cur, out) = smi_state(lines.drop_last());
        smi_step(cur, out, trim(lines.last()))
    }
}

/// The MIG layout that `nvidia-smi -L` prints: per GPU UUID (in order of
/// first appearance), its MIG devices in listing order.
pub open spec fn smi_layout(text: Seq<char>) -> Seq<(Seq<char>, Seq<MigView>)> {
    smi_state(split(text, '\n')).1
}

/// Every MIG profile of the listing declares a size that fits in MiB.
pub open spec fn smi_profiles_fit(text: Seq<char>) -> bool {
    forall|i: int|
        0 <= i < split(text, '\n').len() ==> (starts_with(trim(#[trigger] split(text, '\n')[i]), "MIG "@)
            ==> (profile_gb(second_word(trim(split(text, '\n')[i]))) matches Some(g) ==> g * 1024
            <= u32::MAX))
}

pub open spec fn layout_view(out: Seq<(String, Vec<MigDeviceInfo>)>) -> Seq<(Seq<char>, Seq<MigView>)> {
    out.map_values(|p: (String, Vec<MigDeviceInfo>)| (p.0@, p.1@.map_values(|d: MigDeviceInfo| mig_view(d))))
}

fn index_word_end(s: &[char], i: usize) -> (r: usize)
    requires
        i <= s@.len(),
    ensures
        r == word_end(s@, i as int),
        i <= r <= s@.len(),
{
    let mut k = i;
    while k < s.len() && !crate::text::white_space(s[k])
        invariant
            i <= k <= s@.len(),
            word_end(s@, i as int) == word_end(s@, k as int),
        decreases s@.len() - k,
    {
        k = k + 1;
    }
    k
}

fn index_space_end(s: &[char], i: usize) -> (r: usize)
    requires
        i <= s@.len(),
    ensures
        r == space_end(s@, i as int),
        i <= r <= s@.len(),
{
    let mut k = i;
    while k < s.len() && crate::text::white_space(s[k])
        invariant
            i <= k <= s@.len(),
            space_end(s@, i as int) == space_end(s@, k as int),
        decreases s@.len() - k,
    {
        k = k + 1;
    }
    k
}

fn second_word_of(t: &[char]) -> (r: Vec<char>)
    ensures
        r@ == second_word(t@),
{
    let a = index_word_end(t, 0);
    let b = index_space_end(t, a);
    let c = index_word_end(t, b);
    if b < c {
        slice_chars(t, b, c)
    } else {
        chars_of("unknown")
    }
}

fn device_segment_of(t: &[char]) -> (r: Option<Vec<char>>)
    ensures
        match r {
            Some(v) => device_segment(t@) == Some(v@),
            None => device_segment(t@) is None,
        },
{
    let dev = chars_of("Device");
    proof {
        reveal_strlit("Device");
    }
    assert(dev@.len() == 6);
    let i = match find_seq(t, dev.as_slice()) {
        Some(i) => i,
        None => return None,
    };
    let tl = t.len();
    assert(matches_at(t@, dev@, i as int));
    assert(i + 6 <= tl);
    let rest = slice_chars(t, i + 6, tl);
    assert(rest@ =~= t@.skip(i + 6));
    match find_seq(rest.as_slice(), dev.as_slice()) {
        None => Some(rest),
        Some(j) => {
            let seg = slice_chars(rest.as_slice(), 0, j);
            assert(seg@ =~= rest@.take(j as int));
            Some(seg)
        },
    }
}

fn instance_id_from(t: &[char]) -> (r: u32)
    ensures
        r == instance_id_of(t@),
{
    let seg = match device_segment_of(t) {
        Some(s) => s,
        None => return 0,
    };
    let trimmed = trim_chars(seg.as_slice());
    let stripped = strip_trailing_chars(trimmed.as_slice(), ':');
    let parts = split_chars(stripped.as_slice(), ':');
    proof {
        lemma_split_nonempty(stripped@, ':');
    }
    assert(parts@[0]@ == views(parts@)[0]);
    let head = trim_chars(parts[0].as_slice());
    match parse_unsigned_chars(head.as_slice(), 0xffff_ffff) {
        Some(v) => v as u32,
        None => 0,
    }
}

fn mig_memory_of(profile: &[char]) -> (r: u32)
    requires
        profile_gb(profile@) matches Some(g) ==> g * 1024 <= u32::MAX,
    ensures
        r == mig_memory(profile@),
{
    let s = string_of(profile);
    match profile_memory_mb(s.as_str()) {
        Some(m) => m,
        None => 0,
    }
}

fn find_key(out: &Vec<(String, Vec<MigDeviceInfo>)>, g: &str) -> (r: Option<usize>)
    ensures
        match r {
            Some(k) => key_index(layout_view(out@), g@) == k as int && k < out@.len() && out@[k as int].0@ == g@,
            None => key_index(layout_view(out@), g@) == -1,
        },
{
    let gv = chars_of(g);
    let n = out.len();
    let mut k: usize = 0;
    while k < n
        invariant
            k <= n == out@.len(),
            gv@ == g@,
            key_index(layout_view(out@).take(k as int), g@) == -1,
        decreases n - k,
    {
        let kv = chars_of(out[k].0.as_str());
        assert(layout_view(out@).take(k + 1).drop_last() =~= layout_view(out@).take(k as int));
        if crate::text::equals_str(kv.as_slice(), g) {
            proof {
                lemma_key_index_prefix(layout_view(out@), g@, k as int);
            }
            return Some(k);
        }
        k = k + 1;
    }
    assert(layout_view(out@).take(n as int) =~= layout_view(out@));
    None
}

proof fn lemma_key_index_prefix(out: Seq<(Seq<char>, Seq<MigView>)>, g: Seq<char>, k: int)
    requires
        0 <= k < out.len(),
        out[k].0 == g,
        key_index(out.take(k), g) == -1,
    ensures
        key_index(out, g) == k,
    decreases out.len(),
{
    if k == out.len() - 1 {
        assert(out.drop_last() =~= out.take(k));
    } else {
        assert(out.drop_last().take(k) =~= out.take(k));
        assert(out.drop_last().take(k + 1).drop_last() =~= out.take(k));
        assert(out.drop_last()[k] == out[k]);
        lemma_key_index_prefix(out.drop_last(), g, k);
    }
}

fn copy_text(s: &String) -> (r: String)
    ensures
        r@ == s@,
{
    let v = chars_of(s.as_str());
    string_of(v.as_slice())
}

fn add_device_to(out: &mut Vec<(String, Vec<MigDeviceInfo>)>, g: &String, d: MigDeviceInfo)
    ensures
        layout_view(final(out)@) == add_device(layout_view(old(out)@), g@, mig_view(d)),
{
    let ghost before = layout_view(out@);
    let ghost old_out = out@;
    match find_key(out, g.as_str()) {
        Some(k) => {
            let (key, mut devs) = out.remove(k);
            assert(key@ == g@);
            let ghost old_devs = devs@;
            devs.push(d);
            assert(devs@.map_values(|d: MigDeviceInfo| mig_view(d)) =~= old_devs.map_values(
                |d: MigDeviceInfo| mig_view(d),
            ).push(mig_view(d)));
            let ghost entry = (key, devs);
            out.insert(k, (key, devs));
            assert(out@ =~= old_out.update(k as int, entry));
            assert(layout_view(out@) =~= before.update(k as int, (g@, before[k as int].1.push(mig_view(d)))));
        },
        None => {
            let mut devs: Vec<MigDeviceInfo> = Vec::new();
            devs.push(d);
            assert(devs@.map_values(|d: MigDeviceInfo| mig_view(d)) =~= seq![mig_view(d)]);
            out.push((copy_text(g), devs));
            assert(layout_view(out@) =~= before.push((g@, seq![mig_view(d)])));
        },
    }
}

/// Reads `nvidia-smi -L`: per GPU UUID, the MIG devices listed under it
/// (profile, memory the profile declares, instance id, UUID).
pub fn parse_smi_list(text: &str) -> (r: Vec<(String, Vec<MigDeviceInfo>)>)
    requires
        smi_profiles_fit(text@),
    ensures
        layout_view(r@) == smi_layout(text@),
{
    let v = chars_of(text);
    let lines = split_chars(v.as_slice(), '\n');
    let gpu_p = chars_of("GPU ");
    let mig_p = chars_of("MIG ");
    let mut out: Vec<(String, Vec<MigDeviceInfo>)> = Vec::new();
    let mut current: Option<String> = None;
    let n = lines.len();
    let mut i: usize = 0;
    while i < n
        invariant
            i <= n == lines@.len(),
            views(lines@) == split(text@, '\n'),
            gpu_p@ == "GPU "@,
            mig_p@ == "MIG "@,
            smi_profiles_fit(text@),
            (match current {
                Some(c) => Some(c@),
                None => None,
            }, layout_view(out@)) == smi_state(views(lines@).take(i as int)),
        decreases n - i,
    {
        let ghost ls = views(lines@);
        assert(ls.take(i + 1).drop_last() =~= ls.take(i as int));
        assert(ls.take(i + 1).last() == lines@[i as int]@);
        let t = trim_chars(lines[i].as_slice());
        if starts_with_seq(t.as_slice(), gpu_p.as_slice()) {
            current = extract_uuid(string_of(t.as_slice()).as_str(), "GPU-");
        } else if starts_with_seq(t.as_slice(), mig_p.as_slice()) {
            if let Some(g) = &current {
                if let Some(m) = extract_uuid(string_of(t.as_slice()).as_str(), "MIG-") {
                    let profile = second_word_of(t.as_slice());
                    assert(starts_with(trim(split(text@, '\n')[i as int]), "MIG "@));
                    let memory_mb = mig_memory_of(profile.as_slice());
                    let d = MigDeviceInfo {
                        uuid: m,
                        profile: string_of(profile.as_slice()),
                        memory_mb,
                        instance_id: instance_id_from(t.as_slice()),
                    };
                    add_device_to(&mut out, g, d);
                }
            }
        }
        i = i + 1;
    }
    assert(views(lines@).take(n as int) =~= views(lines@));
    out
}

} // verus!