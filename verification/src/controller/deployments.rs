//! Deployment requests: names, hostnames, environment, port and mount
//! validation, host-port allocation and the stage-one readiness gate.

use crate::controller::error::AppError;
use crate::controller::agent_version::{supports, supports_spec, REPLACEMENT_MIN_AGENT_VERSION};
use crate::controller::lifecycle::DeploymentState;
use crate::shared::PortKind;
use crate::controller::volumes::{
    normalized_container_path, normalize_container_path, valid_volume_name, validate_volume_name,
    volume_name_char, VolumePlacement,
};
use crate::text::{
    ascii_alnum, chars_of, debug_quoted, debug_str, decimal_string, decimal_text, is_ascii_alnum,
    ascii_lower, is_ascii_digit, is_ascii_lower, is_ascii_upper, lemma_strip_leading_suffix,
    lemma_strip_trailing_prefix, strip_leading, strip_trailing, push_str, slice_chars, split, split_chars, strip_both, strip_both_chars,
    string_from, string_of, to_lowercase, trim, trim_chars, unicode_lowercase, utf8_len,
    utf8_length, views, lemma_split_nonempty,
};
use vstd::prelude::*;

verus! {

pub const MAX_DEPLOYMENT_VOLUMES: usize = 16;

/// Smallest and largest host port the controller hands out.
pub const PORT_POOL_START: u16 = 20000;

pub const PORT_POOL_END: u16 = 29999;

/// Host ports never handed out, even when requested.
pub const RESERVED_HOST_PORT: u16 = 22;

// ---------------------------------------------------------------- names

pub open spec fn name_rule_message() -> Seq<char> {
    "name must be alphanumeric/dash/underscore, ≤63 chars"@
}

/// A requested deployment name, checked and copied.
pub fn sanitize_name(name: &str) -> (r: Result<String, AppError>)
    ensures
        r matches Ok(s) ==> valid_volume_name(name@) && s@ == name@,
        r is Err ==> !valid_volume_name(name@),
        r matches Err(e) ==> e matches AppError::BadRequest(m) && m@ == name_rule_message(),
{
    match validate_volume_name(name) {
        Ok(()) => Ok(string_from(name)),
        Err(_) => Err(AppError::BadRequest(string_from(
            "name must be alphanumeric/dash/underscore, ≤63 chars",
        ))),
    }
}

pub open spec fn legacy_name_message() -> Seq<char> {
    "this legacy deployment has no stable name, so it cannot be replaced while preserving its persistent-volume namespace; create a new deployment instead"@
}

pub open spec fn keep_name_message(existing: Seq<char>) -> Seq<char> {
    "replacement must keep deployment name "@ + debug_quoted(existing)
        + "; that name is its persistent-volume namespace. Omit name or use "@ + debug_quoted(
        existing,
    )
}

/// The name a replacement carries: the predecessor's, which is also its
/// persistent-volume namespace. `Err` holds the validation message.
pub open spec fn replacement_name_spec(existing: Option<Seq<char>>, requested: Option<Seq<char>>) -> Result<
    Seq<char>,
    Seq<char>,
> {
    match existing {
        None => Err(legacy_name_message()),
        Some(e) => if e.len() == 0 {
            Err(legacy_name_message())
        } else {
            match requested {
                None => Ok(e),
                Some(q) => if trim(q).len() == 0 || trim(q) == e {
                    Ok(e)
                } else {
                    Err(keep_name_message(e))
                },
            }
        },
    }
}

pub open spec fn opt_view(s: Option<&str>) -> Option<Seq<char>> {
    match s {
        Some(v) => Some(v@),
        None => None,
    }
}

/// Replacements retain their predecessor's name: it is the container name,
/// the app URL and the persistent-volume namespace.
pub fn replacement_container_name(existing: Option<&str>, requested: Option<&str>) -> (r: Result<
    String,
    AppError,
>)
    ensures
        r matches Ok(s) ==> replacement_name_spec(opt_view(existing), opt_view(requested)) == Ok::<
            Seq<char>,
            Seq<char>,
        >(s@),
        r matches Err(e) ==> e matches AppError::BadRequest(m) && replacement_name_spec(
            opt_view(existing),
            opt_view(requested),
        ) == Err::<Seq<char>, Seq<char>>(m@),
{
    let e = match existing {
        Some(e) => e,
        None => {
            return Err(AppError::BadRequest(string_from(
                "this legacy deployment has no stable name, so it cannot be replaced while preserving its persistent-volume namespace; create a new deployment instead",
            )));
        },
    };
    if e.is_empty() {
        return Err(AppError::BadRequest(string_from(
            "this legacy deployment has no stable name, so it cannot be replaced while preserving its persistent-volume namespace; create a new deployment instead",
        )));
    }
    let ev = chars_of(e);
    let keep = match requested {
        None => true,
        Some(q) => {
            let qv = chars_of(q);
            let t = trim_chars(qv.as_slice());
            t.len() == 0 || (t.len() == ev.len() && crate::text::match_at(
                ev.as_slice(),
                t.as_slice(),
                0,
            ))
        },
    };
    if keep {
        proof {
            if let Some(q) = requested {
                if trim(q@).len() != 0 {
                    assert(ev@.subrange(0, trim(q@).len() as int) =~= ev@);
                }
            }
        }
        return Ok(string_from(e));
    }
    proof {
        if let Some(q) = requested {
            if trim(q@) == e@ {
                assert(ev@.subrange(0, trim(q@).len() as int) =~= ev@);
            }
        }
    }
    let q = debug_str(e);
    let mut m = string_from("replacement must keep deployment name ");
    push_str(&mut m, q.as_str());
    push_str(&mut m, "; that name is its persistent-volume namespace. Omit name or use ");
    push_str(&mut m, q.as_str());
    Err(AppError::BadRequest(m))
}

// ------------------------------------------------------------ slugs

/// `c`, with `from` replaced by `-`.
pub open spec fn slug_char(c: char, from: char) -> char {
    if c == from {
        '-'
    } else {
        c
    }
}

/// The characters of `s` after replacing `from` by `-`, keeping only ASCII
/// letters, digits and `-`.
pub open spec fn slug_chars(s: Seq<char>, from: char) -> Seq<char>
    decreases s.len(),
{
    if s.len() == 0 {
        Seq::empty()
    } else {
        let r = slug_chars(s.drop_last(), from);
        let c = slug_char(s.last(), from);
        if is_ascii_alnum(c) || c == '-' {
            r.push(c)
        } else {
            r
        }
    }
}

/// At most the first `n` characters.
pub open spec fn prefix_upto(s: Seq<char>, n: nat) -> Seq<char> {
    if s.len() <= n {
        s
    } else {
        s.take(n as int)
    }
}

fn slug_of(v: &[char], from: char) -> (r: Vec<char>)
    ensures
        r@ == slug_chars(v@, from),
{
    let mut r: Vec<char> = Vec::new();
    let n = v.len();
    assert(v@.take(0) =~= Seq::<char>::empty());
    for i in 0..n
        invariant
            n == v@.len(),
            r@ == slug_chars(v@.take(i as int), from),
    {
        assert(v@.take(i + 1).drop_last() =~= v@.take(i as int));
        let c = if v[i] == from {
            '-'
        } else {
            v[i]
        };
        if ascii_alnum(c) || c == '-' {
            r.push(c);
        }
    }
    assert(v@.take(n as int) =~= v@);
    r
}

fn take_upto(v: &[char], n: usize) -> (r: Vec<char>)
    ensures
        r@ == prefix_upto(v@, n as nat),
{
    if v.len() <= n {
        slice_chars(v, 0, v.len())
    } else {
        slice_chars(v, 0, n)
    }
}

/// A lowercase LDH DNS label from already-lowercased text: `_` becomes `-`,
/// everything but ASCII letters, digits and `-` is dropped, and leading and
/// trailing `-` are trimmed; `None` when nothing is left.
pub open spec fn dns_label_of_lower(lower: Seq<char>) -> Option<Seq<char>> {
    let l = strip_both(slug_chars(lower, '_'), '-');
    if l.len() > 0 {
        Some(l)
    } else {
        None
    }
}

pub open spec fn opt_string_view(s: Option<String>) -> Option<Seq<char>> {
    match s {
        Some(v) => Some(v@),
        None => None,
    }
}

/// A well-formed label: non-empty, only lowercase ASCII letters, digits and
/// `-`, and neither starting nor ending with `-`.
pub open spec fn is_dns_label(l: Seq<char>) -> bool {
    &&& l.len() > 0
    &&& forall|i: int| 0 <= i < l.len() ==> is_dns_label_char(#[trigger] l[i])
    &&& l[0] != '-'
    &&& l.last() != '-'
}

pub open spec fn is_dns_label_char(c: char) -> bool {
    is_ascii_lower(c) || is_ascii_digit(c) || c == '-'
}

proof fn lemma_slug_alphabet(s: Seq<char>, from: char)
    requires
        forall|i: int| 0 <= i < s.len() ==> !is_ascii_upper(#[trigger] s[i]),
    ensures
        forall|i: int|
            0 <= i < slug_chars(s, from).len() ==> is_dns_label_char(#[trigger] slug_chars(s, from)[i]),
    decreases s.len(),
{
    if s.len() > 0 {
        assert(!is_ascii_upper(s[s.len() - 1]));
        lemma_slug_alphabet(s.drop_last(), from);
        let r = slug_chars(s.drop_last(), from);
        let c = slug_char(s.last(), from);
        if is_ascii_alnum(c) || c == '-' {
            assert forall|i: int| 0 <= i < r.push(c).len() implies is_dns_label_char(
                #[trigger] r.push(c)[i],
            ) by {
                if i < r.len() {
                    assert(r.push(c)[i] == r[i]);
                }
            }
        }
    }
}

/// Every label made from lowered text (text without ASCII uppercase
/// letters, as `str::to_lowercase` leaves it) is well formed.
pub proof fn lemma_dns_label_well_formed(lower: Seq<char>)
    requires
        forall|i: int| 0 <= i < lower.len() ==> !is_ascii_upper(#[trigger] lower[i]),
    ensures
        dns_label_of_lower(lower) matches Some(l) ==> is_dns_label(l),
{
    let k = slug_chars(lower, '_');
    lemma_slug_alphabet(lower, '_');
    let a = strip_leading(k, '-');
    lemma_strip_leading_suffix(k, '-');
    let b = strip_trailing(a, '-');
    lemma_strip_trailing_prefix(a, '-');
    if b.len() > 0 {
        assert forall|i: int| 0 <= i < b.len() implies is_dns_label_char(#[trigger] b[i]) by {
            assert(b[i] == a[i]);
            assert(a[i] == k[k.len() - a.len() + i]);
        }
        assert(b[0] == a[0]);
    }
}

/// The label of text that `str::to_lowercase` has already lowered.
pub fn dns_label_from_lowercase(lower: &str) -> (r: Option<String>)
    ensures
        opt_string_view(r) == dns_label_of_lower(lower@),
{
    let v = chars_of(lower);
    let kept = slug_of(v.as_slice(), '_');
    let l = strip_both_chars(kept.as_slice(), '-');
    if l.len() > 0 {
        Some(string_of(l.as_slice()))
    } else {
        None
    }
}

/// The DNS label shared by the container-name and server-name slugs of an
/// app hostname.
pub fn dns_label(raw: &str) -> (r: Option<String>)
    ensures
        opt_string_view(r) == dns_label_of_lower(unicode_lowercase(raw@)),
        r matches Some(l) ==> is_dns_label(l@),
        (forall|i: int| 0 <= i < raw@.len() ==> (#[trigger] raw@[i] as u32) < 0x80) ==> opt_string_view(r)
            == dns_label_of_lower(raw@.map_values(|c: char| ascii_lower(c))),
{
    let lower = to_lowercase(raw);
    proof {
        lemma_dns_label_well_formed(lower@);
    }
    dns_label_from_lowercase(lower.as_str())
}

/// The image's repository name: the text after its last `/`, cut at its
/// first `:`.
pub open spec fn image_base(image_ref: Seq<char>) -> Seq<char> {
    split(split(image_ref, '/').last(), ':')[0]
}

/// A generated deployment name: `<image>-g<slot>-<suffix>`, where the image
/// part keeps at most 20 and the slot hint at most 8 slug characters (a
/// MIG slot `0:3` becomes `0-3`).
pub open spec fn generated_name(image_ref: Seq<char>, slot_name: Seq<char>, suffix: Seq<char>) -> Seq<
    char,
> {
    prefix_upto(slug_chars(image_base(image_ref), '-'), 20) + "-g"@ + prefix_upto(
        slug_chars(slot_name, ':'),
        8,
    ) + "-"@ + suffix
}

pub open spec fn is_lower_hex(c: char) -> bool {
    is_ascii_digit(c) || ('a' <= c && c <= 'f')
}

/// `Uuid::now_v7().simple().to_string()`: a fresh time-ordered UUID written
/// as 32 lowercase hexadecimal digits.
#[verifier::external_body]
fn fresh_uuid_simple() -> (r: String)
    ensures
        r@.len() == 32,
        forall|i: int| 0 <= i < 32 ==> is_lower_hex(#[trigger] r@[i]),
{
    uuid::Uuid::now_v7().simple().to_string()
}

/// A generated name with a given suffix.
pub fn generate_name_with_suffix(image_ref: &str, slot_name: &str, suffix: &str) -> (r: String)
    ensures
        r@ == generated_name(image_ref@, slot_name@, suffix@),
{
    let iv = chars_of(image_ref);
    let segments = split_chars(iv.as_slice(), '/');
    proof {
        lemma_split_nonempty(iv@, '/');
    }
    let last = &segments[segments.len() - 1];
    assert(last@ == split(image_ref@, '/').last());
    let pieces = split_chars(last.as_slice(), ':');
    proof {
        lemma_split_nonempty(last@, ':');
    }
    let first = &pieces[0];
    assert(first@ == image_base(image_ref@));
    let base_slug = slug_of(first.as_slice(), '-');
    let base = take_upto(base_slug.as_slice(), 20);
    let sv = chars_of(slot_name);
    let hint_slug = slug_of(sv.as_slice(), ':');
    let hint = take_upto(hint_slug.as_slice(), 8);
    let mut out = string_of(base.as_slice());
    push_str(&mut out, "-g");
    let hs = string_of(hint.as_slice());
    push_str(&mut out, hs.as_str());
    push_str(&mut out, "-");
    push_str(&mut out, suffix);
    out
}

/// A generated name whose suffix is the last five hex digits of a fresh
/// UUIDv7.
pub fn generate_name(image_ref: &str, slot_name: &str) -> (r: String)
    ensures
        exists|suffix: Seq<char>|
            suffix.len() == 5 && (forall|i: int| 0 <= i < 5 ==> is_lower_hex(#[trigger] suffix[i]))
                && r@ == generated_name(image_ref@, slot_name@, suffix),
{
    let id = fresh_uuid_simple();
    let idv = chars_of(id.as_str());
    let tail = slice_chars(idv.as_slice(), 27, 32);
    let suffix = string_of(tail.as_slice());
    let r = generate_name_with_suffix(image_ref, slot_name, suffix.as_str());
    assert(forall|i: int| 0 <= i < 5 ==> is_lower_hex(#[trigger] suffix@[i]) && suffix@[i]
        == id@[i + 27]);
    r
}

// ---------------------------------------------------------- environment

pub open spec fn env_key_char(c: char) -> bool {
    is_ascii_alnum(c) || c == '_'
}

/// An environment key: 1 to 128 bytes of ASCII letters, digits and `_`,
/// not starting with a digit.
pub open spec fn valid_env_key(k: Seq<char>) -> bool {
    &&& k.len() > 0
    &&& utf8_len(k) <= 128
    &&& forall|i: int| 0 <= i < k.len() ==> env_key_char(#[trigger] k[i])
    &&& !is_ascii_digit(k[0])
}

/// What `validate_env` refuses, in the order it checks.
pub open spec fn env_error(key: Seq<char>, value: Seq<char>) -> Option<Seq<char>> {
    if !valid_env_key(key) {
        Some("invalid env key "@ + debug_quoted(key))
    } else if utf8_len(value) > 4096 {
        Some("env value too long"@)
    } else {
        None
    }
}

pub fn validate_env(key: &str, value: &str) -> (r: Result<(), AppError>)
    ensures
        r is Ok <==> env_error(key@, value@) is None,
        r matches Err(e) ==> e matches AppError::BadRequest(m) && env_error(key@, value@) == Some(
            m@,
        ),
{
    let k = chars_of(key);
    let n = k.len();
    let mut ok = n > 0 && utf8_length(k.as_slice()) <= 128 && !('0' <= k[0] && k[0] <= '9');
    let mut i: usize = 0;
    while ok && i < n
        invariant
            n == k@.len(),
            k@ == key@,
            i <= n,
            ok ==> n > 0 && utf8_len(k@) <= 128 && !is_ascii_digit(k@[0]),
            ok ==> forall|j: int| 0 <= j < i ==> env_key_char(#[trigger] k@[j]),
            !ok ==> !valid_env_key(key@),
        decreases n - i,
    {
        if !(ascii_alnum(k[i]) || k[i] == '_') {
            ok = false;
        }
        i = i + 1;
    }
    if !ok {
        let mut m = string_from("invalid env key ");
        let q = debug_str(key);
        push_str(&mut m, q.as_str());
        return Err(AppError::BadRequest(m));
    }
    let vv = chars_of(value);
    if utf8_length(vv.as_slice()) > 4096 {
        return Err(AppError::BadRequest(string_from("env value too long")));
    }
    Ok(())
}

// ---------------------------------------------------------------- ports

/// One port of a deployment request.
pub struct PortRequest {
    pub container_port: u16,
    /// A pinned host port; `None` lets the controller allocate one.
    pub host_port: Option<u16>,
    pub kind: PortKind,
    /// The primary application port (HTTP/HTTPS only, at most one).
    pub primary: bool,
    pub health_path: Option<String>,
    pub max_body_size_bytes: Option<u64>,
    pub proxy_timeout_seconds: Option<u32>,
}

pub open spec fn same_transport(a: PortKind, b: PortKind) -> bool {
    (a is Udp) == (b is Udp)
}

pub open spec fn count_primary(ps: Seq<PortRequest>) -> nat
    decreases ps.len(),
{
    if ps.len() == 0 {
        0
    } else {
        count_primary(ps.drop_last()) + if ps.last().primary {
            1nat
        } else {
            0nat
        }
    }
}

pub open spec fn in_port_pool(h: u16) -> bool {
    PORT_POOL_START <= h <= PORT_POOL_END && h != RESERVED_HOST_PORT
}

pub open spec fn starts_with_slash(s: Seq<char>) -> bool {
    s.len() > 0 && s[0] == '/'
}

/// The first problem with port `p`, given the ports before it.
pub open spec fn port_error(p: PortRequest, prior: Seq<PortRequest>, has_domain: bool) -> Option<
    Seq<char>,
> {
    if p.container_port == 0 {
        Some("container port 0 is invalid"@)
    } else if exists|k: int|
        0 <= k < prior.len() && (#[trigger] prior[k]).container_port == p.container_port
            && same_transport(prior[k].kind, p.kind) {
        Some("duplicate container port "@ + decimal_text(p.container_port as nat))
    } else if p.host_port is Some && p.kind.web() {
        Some("HTTP/HTTPS ports are proxy-published; host port cannot be pinned"@)
    } else if p.host_port is Some && !in_port_pool(p.host_port->0) {
        Some("host port "@ + decimal_text(p.host_port->0 as nat)
            + " is outside the allowed pool (20000–29999)"@)
    } else if p.kind.web() && !has_domain {
        Some("HTTP/HTTPS publishing is disabled: FOUNDRY_APPS_DOMAIN is not configured"@)
    } else if p.primary && !p.kind.web() {
        Some("only an HTTP/HTTPS port can be the primary application"@)
    } else if p.primary && count_primary(prior) >= 1 {
        Some("only one published application port can be primary"@)
    } else if p.health_path is Some && (!starts_with_slash(p.health_path->0@) || utf8_len(
        p.health_path->0@,
    ) > 1024) {
        Some("health_path must start with / and be at most 1024 characters"@)
    } else if p.max_body_size_bytes is Some && !(1024 <= p.max_body_size_bytes->0
        <= 8589934592u64) {
        Some("max_body_size_bytes must be between 1 KiB and 8 GiB"@)
    } else if p.proxy_timeout_seconds is Some && !(1 <= p.proxy_timeout_seconds->0 <= 86400u32) {
        Some("proxy_timeout_seconds must be between 1 and 86400"@)
    } else {
        None
    }
}

/// The first problem among the first `n` ports.
pub open spec fn ports_error_upto(ps: Seq<PortRequest>, n: nat, has_domain: bool) -> Option<
    Seq<char>,
>
    decreases n,
{
    if n == 0 {
        None
    } else {
        match ports_error_upto(ps, (n - 1) as nat, has_domain) {
            Some(e) => Some(e),
            None => port_error(ps[n - 1], ps.take(n - 1), has_domain),
        }
    }
}

/// What `validate_ports` refuses: more than 32 ports, or the first problem
/// of the first port that has one.
pub open spec fn ports_error(ps: Seq<PortRequest>, has_domain: bool) -> Option<Seq<char>> {
    if ps.len() > 32 {
        Some("too many ports (max 32)"@)
    } else {
        ports_error_upto(ps, ps.len(), has_domain)
    }
}

/// The conditions each port must meet on its own.
pub open spec fn port_acceptable(p: PortRequest, has_domain: bool) -> bool {
    &&& p.container_port != 0
    &&& p.host_port matches Some(h) ==> !p.kind.web() && in_port_pool(h)
    &&& p.kind.web() ==> has_domain
    &&& p.primary ==> p.kind.web()
    &&& p.health_path matches Some(h) ==> starts_with_slash(h@) && utf8_len(h@) <= 1024
    &&& p.max_body_size_bytes matches Some(b) ==> 1024 <= b <= 8589934592u64
    &&& p.proxy_timeout_seconds matches Some(t) ==> 1 <= t <= 86400u32
}

/// Two ports that publish the same container port over the same transport.
pub open spec fn port_clash(a: PortRequest, b: PortRequest) -> bool {
    a.container_port == b.container_port && same_transport(a.kind, b.kind)
}

/// The first `n` ports pass every check: each is acceptable on its own, no
/// two clash, and at most one is primary.
pub open spec fn ports_acceptable_upto(ps: Seq<PortRequest>, n: nat, has_domain: bool) -> bool {
    &&& forall|i: int| 0 <= i < n ==> port_acceptable(#[trigger] ps[i], has_domain)
    &&& forall|i: int, j: int| 0 <= i < j < n ==> !port_clash(#[trigger] ps[i], #[trigger] ps[j])
    &&& count_primary(ps.take(n as int)) <= 1
}

/// A request's ports are acceptable: at most 32, each acceptable on its
/// own, no two with the same container port and transport, at most one
/// primary.
pub open spec fn ports_acceptable(ps: Seq<PortRequest>, has_domain: bool) -> bool {
    ps.len() <= 32 && ports_acceptable_upto(ps, ps.len(), has_domain)
}

proof fn lemma_port_error_none(p: PortRequest, prior: Seq<PortRequest>, has_domain: bool)
    ensures
        port_error(p, prior, has_domain) is None <==> port_acceptable(p, has_domain) && (forall|k: int|
            0 <= k < prior.len() ==> !port_clash(#[trigger] prior[k], p)) && !(p.primary && count_primary(prior) >= 1),
{
    if exists|k: int|
        0 <= k < prior.len() && (#[trigger] prior[k]).container_port == p.container_port
            && same_transport(prior[k].kind, p.kind) {
        let k = choose|k: int|
            0 <= k < prior.len() && (#[trigger] prior[k]).container_port == p.container_port
                && same_transport(prior[k].kind, p.kind);
        assert(port_clash(prior[k], p));
    }
    if exists|k: int| 0 <= k < prior.len() && port_clash(#[trigger] prior[k], p) {
        let k = choose|k: int| 0 <= k < prior.len() && port_clash(#[trigger] prior[k], p);
        assert((#[trigger] prior[k]).container_port == p.container_port && same_transport(prior[k].kind, p.kind));
    }
}

proof fn lemma_ports_error_upto_none(ps: Seq<PortRequest>, n: nat, has_domain: bool)
    requires
        n <= ps.len(),
    ensures
        ports_error_upto(ps, n, has_domain) is None <==> ports_acceptable_upto(ps, n, has_domain),
    decreases n,
{
    if n == 0 {
        assert(ps.take(0) =~= Seq::<PortRequest>::empty());
    } else {
        let m = (n - 1) as nat;
        lemma_ports_error_upto_none(ps, m, has_domain);
        let prior = ps.take(m as int);
        let p = ps[m as int];
        lemma_port_error_none(p, prior, has_domain);
        assert(ps.take(n as int).drop_last() =~= prior);
        assert(ps.take(n as int).last() == p);
        assert(forall|k: int| 0 <= k < prior.len() ==> #[trigger] prior[k] == ps[k]);
        if ports_acceptable_upto(ps, n, has_domain) {
            assert(port_acceptable(ps[m as int], has_domain));
            assert forall|i: int, j: int| 0 <= i < j < m implies !port_clash(#[trigger] ps[i], #[trigger] ps[j]) by {}
            assert(forall|i: int| 0 <= i < m ==> port_acceptable(#[trigger] ps[i], has_domain));
            assert(count_primary(prior) <= count_primary(ps.take(n as int)));
            assert forall|k: int| 0 <= k < prior.len() implies !port_clash(#[trigger] prior[k], p) by {
                assert(prior[k] == ps[k]);
                assert(!port_clash(ps[k], ps[m as int]));
            }
        }
        if ports_error_upto(ps, n, has_domain) is None {
            assert forall|i: int, j: int| 0 <= i < j < n implies !port_clash(#[trigger] ps[i], #[trigger] ps[j]) by {
                if j == m {
                    assert(prior[i] == ps[i]);
                    assert(!port_clash(prior[i], p));
                }
            }
            assert forall|i: int| 0 <= i < n implies port_acceptable(#[trigger] ps[i], has_domain) by {
                if i < m {
                }
            }
        }
    }
}

/// `validate_ports` accepts exactly the acceptable port lists.
pub proof fn lemma_ports_accepted_iff(ps: Seq<PortRequest>, has_domain: bool)
    ensures
        ports_error(ps, has_domain) is None <==> ports_acceptable(ps, has_domain),
{
    lemma_ports_error_upto_none(ps, ps.len(), has_domain);
}

fn check_port(p: &PortRequest, prior: &[PortRequest], primaries: usize, has_domain: bool) -> (r:
    Option<String>)
    requires
        primaries == count_primary(prior@),
    ensures
        opt_string_view(r) == port_error(*p, prior@, has_domain),
{
    if p.container_port == 0 {
        return Some(string_from("container port 0 is invalid"));
    }
    let mut k: usize = 0;
    while k < prior.len()
        invariant
            k <= prior@.len(),
            p.container_port != 0,
            forall|j: int|
                0 <= j < k ==> !((#[trigger] prior@[j]).container_port == p.container_port
                    && same_transport(prior@[j].kind, p.kind)),
        decreases prior@.len() - k,
    {
        let q = &prior[k];
        if q.container_port == p.container_port && (q.kind == PortKind::Udp) == (p.kind
            == PortKind::Udp) {
            assert((#[trigger] prior@[k as int]).container_port == p.container_port
                && same_transport(prior@[k as int].kind, p.kind));
            let mut m = string_from("duplicate container port ");
            let d = decimal_string(p.container_port as u64);
            push_str(&mut m, d.as_str());
            return Some(m);
        }
        k = k + 1;
    }
    if let Some(h) = p.host_port {
        if p.kind.is_web() {
            return Some(string_from(
                "HTTP/HTTPS ports are proxy-published; host port cannot be pinned",
            ));
        }
        if h < PORT_POOL_START || h > PORT_POOL_END || h == RESERVED_HOST_PORT {
            let mut m = string_from("host port ");
            let d = decimal_string(h as u64);
            push_str(&mut m, d.as_str());
            push_str(&mut m, " is outside the allowed pool (20000–29999)");
            return Some(m);
        }
    }
    if p.kind.is_web() && !has_domain {
        return Some(string_from(
            "HTTP/HTTPS publishing is disabled: FOUNDRY_APPS_DOMAIN is not configured",
        ));
    }
    if p.primary {
        if !p.kind.is_web() {
            return Some(string_from("only an HTTP/HTTPS port can be the primary application"));
        }
        if primaries >= 1 {
            return Some(string_from("only one published application port can be primary"));
        }
    }
    if let Some(hp) = &p.health_path {
        let hv = chars_of(hp.as_str());
        if hv.len() == 0 || hv[0] != '/' || utf8_length(hv.as_slice()) > 1024 {
            return Some(string_from(
                "health_path must start with / and be at most 1024 characters",
            ));
        }
    }
    if let Some(b) = p.max_body_size_bytes {
        if b < 1024 || b > 8589934592u64 {
            return Some(string_from("max_body_size_bytes must be between 1 KiB and 8 GiB"));
        }
    }
    if let Some(t) = p.proxy_timeout_seconds {
        if t < 1 || t > 86400 {
            return Some(string_from("proxy_timeout_seconds must be between 1 and 86400"));
        }
    }
    None
}

/// Checks a deployment's requested ports; `apps_domain` is the configured
/// domain for published apps, if any.
pub fn validate_ports(specs: &[PortRequest], apps_domain: Option<&str>) -> (r: Result<
    (),
    AppError,
>)
    ensures
        r is Ok <==> ports_error(specs@, apps_domain is Some) is None,
        r is Ok <==> ports_acceptable(specs@, apps_domain is Some),
        r matches Err(e) ==> e matches AppError::BadRequest(m) && ports_error(
            specs@,
            apps_domain is Some,
        ) == Some(m@),
{
    proof {
        lemma_ports_accepted_iff(specs@, apps_domain is Some);
    }
    let has_domain = apps_domain.is_some();
    if specs.len() > 32 {
        return Err(AppError::BadRequest(string_from("too many ports (max 32)")));
    }
    let n = specs.len();
    let mut primaries: usize = 0;
    for i in 0..n
        invariant
            n == specs@.len(),
            n <= 32,
            has_domain == apps_domain is Some,
            primaries == count_primary(specs@.take(i as int)),
            primaries <= i,
            ports_error_upto(specs@, i as nat, has_domain) is None,
    {
        assert(specs@.take(i + 1).drop_last() =~= specs@.take(i as int));
        let prior = slice_ports(specs, i);
        match check_port(&specs[i], prior, primaries, has_domain) {
            Some(m) => {
                assert(ports_error_upto(specs@, (i + 1) as nat, has_domain) == Some(m@));
                proof {
                    lemma_port_error_persists(specs@, (i + 1) as nat, n as nat, has_domain);
                    lemma_ports_accepted_iff(specs@, has_domain);
                }
                return Err(AppError::BadRequest(m));
            },
            None => {},
        }
        if specs[i].primary {
            primaries = primaries + 1;
        }
    }
    assert(specs@.take(n as int) =~= specs@);
    Ok(())
}

/// Once a port has a problem, the answer no longer changes.
proof fn lemma_port_error_persists(ps: Seq<PortRequest>, m: nat, n: nat, has_domain: bool)
    requires
        m <= n,
        ports_error_upto(ps, m, has_domain) is Some,
    ensures
        ports_error_upto(ps, n, has_domain) == ports_error_upto(ps, m, has_domain),
    decreases n - m,
{
    if m < n {
        lemma_port_error_persists(ps, m, (n - 1) as nat, has_domain);
    }
}

fn slice_ports(specs: &[PortRequest], i: usize) -> (r: &[PortRequest])
    requires
        i <= specs@.len(),
    ensures
        r@ == specs@.take(i as int),
{
    let (a, _) = specs.split_at(i);
    a
}

// ----------------------------------------------------- host-port allocation

/// A port as the deployment records it, with its host port allocated.
pub struct DeploymentPort {
    pub container_port: u16,
    pub host_port: u16,
    pub protocol: String,
    pub kind: PortKind,
    pub hostname: Option<String>,
    pub primary: bool,
    pub health_path: Option<String>,
    pub max_body_size_bytes: u64,
    pub proxy_timeout_seconds: u32,
}

/// Defaults of the proxy settings a request leaves open.
pub const DEFAULT_MAX_BODY_SIZE_BYTES: u64 = 2147483648;

pub const DEFAULT_PROXY_TIMEOUT_SECONDS: u32 = 300;

/// The first pool port at or after `c` that is not in `used`.
pub open spec fn first_free_from(used: Seq<u16>, c: int) -> Option<u16>
    decreases PORT_POOL_END + 1 - c,
{
    if c > PORT_POOL_END {
        None
    } else if used.contains(c as u16) {
        first_free_from(used, c + 1)
    } else {
        Some(c as u16)
    }
}

pub open spec fn in_use_message(h: u16) -> Seq<char> {
    "host port "@ + decimal_text(h as nat) + " is already in use on this server"@
}

pub open spec fn pool_exhausted_message() -> Seq<char> {
    "no free host ports left in the pool"@
}

pub open spec fn prepend(o: Seq<u16>, r: Result<Seq<u16>, Seq<char>>) -> Result<Seq<u16>, Seq<char>> {
    match r {
        Ok(x) => Ok(o + x),
        Err(e) => Err(e),
    }
}

/// Host ports for the requested ports, in order: a pinned port must be
/// free; an open one takes the lowest free pool port above the previous
/// pick. Each pick is then in use.
pub open spec fn alloc_from(used: Seq<u16>, cursor: int, hosts: Seq<Option<u16>>) -> Result<
    Seq<u16>,
    Seq<char>,
>
    decreases hosts.len(),
{
    if hosts.len() == 0 {
        Ok(Seq::empty())
    } else {
        match hosts[0] {
            Some(h) => if used.contains(h) {
                Err(in_use_message(h))
            } else {
                prepend(seq![h], alloc_from(used.push(h), cursor, hosts.drop_first()))
            },
            None => match first_free_from(used, cursor) {
                None => Err(pool_exhausted_message()),
                Some(c) => prepend(seq![c], alloc_from(used.push(c), c + 1, hosts.drop_first())),
            },
        }
    }
}

pub open spec fn requested_hosts(specs: Seq<PortRequest>) -> Seq<Option<u16>> {
    specs.map_values(|p: PortRequest| p.host_port)
}

/// The host ports `allocate_ports` picks, given the ports active
/// deployments on the server already claim.
pub open spec fn allocated_hosts(claimed: Seq<u16>, specs: Seq<PortRequest>) -> Result<
    Seq<u16>,
    Seq<char>,
> {
    alloc_from(claimed.push(RESERVED_HOST_PORT), PORT_POOL_START as int, requested_hosts(specs))
}

fn contains_port(v: &Vec<u16>, x: u16) -> (b: bool)
    ensures
        b == v@.contains(x),
{
    let n = v.len();
    for i in 0..n
        invariant
            n == v@.len(),
            forall|k: int| 0 <= k < i ==> v@[k] != x,
    {
        if v[i] == x {
            assert(v@[i as int] == x);
            return true;
        }
    }
    false
}

proof fn lemma_prepend_assoc(a: Seq<u16>, b: Seq<u16>, r: Result<Seq<u16>, Seq<char>>)
    ensures
        prepend(a, prepend(b, r)) == prepend(a + b, r),
{
    if let Ok(x) = r {
        assert(a + (b + x) =~= (a + b) + x);
    }
}

proof fn lemma_alloc_step(used: Seq<u16>, cursor: int, hosts: Seq<Option<u16>>, i: int)
    requires
        0 <= i < hosts.len(),
    ensures
        hosts.subrange(i, hosts.len() as int).drop_first() =~= hosts.subrange(
            i + 1,
            hosts.len() as int,
        ),
        hosts.subrange(i, hosts.len() as int)[0] == hosts[i],
{
}

/// Allocates host ports against the ports active deployments on the server
/// already claim; proxy settings a request leaves open get their defaults.
pub fn allocate_ports(claimed: &[u16], specs: &[PortRequest]) -> (r: Result<
    Vec<DeploymentPort>,
    AppError,
>)
    ensures
        r matches Ok(out) ==> allocated_hosts(claimed@, specs@) is Ok && out@.len() == specs@.len()
            && forall|i: int|
            0 <= i < out@.len() ==> {
                &&& (#[trigger] out@[i]).host_port == allocated_hosts(claimed@, specs@)->Ok_0[i]
                &&& out@[i].container_port == specs@[i].container_port
                &&& out@[i].kind == specs@[i].kind
                &&& out@[i].protocol@ == specs@[i].kind.protocol_spec()
                &&& out@[i].primary == specs@[i].primary
                &&& out@[i].hostname is None
                &&& out@[i].health_path == specs@[i].health_path
                &&& out@[i].max_body_size_bytes == match specs@[i].max_body_size_bytes {
                    Some(b) => b,
                    None => DEFAULT_MAX_BODY_SIZE_BYTES,
                }
                &&& out@[i].proxy_timeout_seconds == match specs@[i].proxy_timeout_seconds {
                    Some(t) => t,
                    None => DEFAULT_PROXY_TIMEOUT_SECONDS,
                }
            },
        r matches Err(e) ==> e matches AppError::BadRequest(m) && allocated_hosts(
            claimed@,
            specs@,
        ) == Err::<Seq<u16>, Seq<char>>(m@),
{
    let mut used: Vec<u16> = Vec::new();
    let cn = claimed.len();
    for k in 0..cn
        invariant
            cn == claimed@.len(),
            used@ == claimed@.take(k as int),
    {
        used.push(claimed[k]);
        assert(claimed@.take(k + 1) =~= claimed@.take(k as int).push(claimed@[k as int]));
    }
    assert(claimed@.take(cn as int) =~= claimed@);
    used.push(RESERVED_HOST_PORT);
    let ghost hosts = requested_hosts(specs@);
    let ghost total = allocated_hosts(claimed@, specs@);
    let n = specs.len();
    let mut out: Vec<DeploymentPort> = Vec::new();
    let mut picked: Vec<u16> = Vec::new();
    let mut cursor: u32 = PORT_POOL_START as u32;
    assert(hosts.subrange(0, n as int) =~= hosts);
    assert(total == prepend(picked@, alloc_from(used@, cursor as int, hosts.subrange(0, n as int))));
    for i in 0..n
        invariant
            n == specs@.len(),
            hosts == requested_hosts(specs@),
            hosts.len() == n,
            total == allocated_hosts(claimed@, specs@),
            total == prepend(picked@, alloc_from(used@, cursor as int, hosts.subrange(i as int, n as int))),
            PORT_POOL_START <= cursor <= PORT_POOL_END + 1,
            picked@.len() == i,
            out@.len() == i,
            forall|k: int|
                0 <= k < i ==> {
                    &&& (#[trigger] out@[k]).host_port == picked@[k]
                    &&& out@[k].container_port == specs@[k].container_port
                    &&& out@[k].kind == specs@[k].kind
                    &&& out@[k].protocol@ == specs@[k].kind.protocol_spec()
                    &&& out@[k].primary == specs@[k].primary
                    &&& out@[k].hostname is None
                    &&& out@[k].health_path == specs@[k].health_path
                    &&& out@[k].max_body_size_bytes == match specs@[k].max_body_size_bytes {
                        Some(b) => b,
                        None => DEFAULT_MAX_BODY_SIZE_BYTES,
                    }
                    &&& out@[k].proxy_timeout_seconds == match specs@[k].proxy_timeout_seconds {
                        Some(t) => t,
                        None => DEFAULT_PROXY_TIMEOUT_SECONDS,
                    }
                },
    {
        let spec = &specs[i];
        proof {
            lemma_alloc_step(used@, cursor as int, hosts, i as int);
        }
        let ghost used0 = used@;
        let ghost cursor0 = cursor as int;
        assert(hosts[i as int] == spec.host_port);
        let host = match spec.host_port {
            Some(h) => {
                if contains_port(&used, h) {
                    let mut m = string_from("host port ");
                    let d = decimal_string(h as u64);
                    push_str(&mut m, d.as_str());
                    push_str(&mut m, " is already in use on this server");
                    return Err(AppError::BadRequest(m));
                }
                used.push(h);
                h
            },
            None => {
                let ghost start = cursor as int;
                let ghost before = used@;
                while cursor <= PORT_POOL_END as u32 && contains_port(&used, cursor as u16)
                    invariant
                        used@ == before,
                        PORT_POOL_START <= start <= cursor <= PORT_POOL_END + 1,
                        first_free_from(before, start) == first_free_from(before, cursor as int),
                    decreases PORT_POOL_END + 1 - cursor,
                {
                    cursor = cursor + 1;
                }
                if cursor > PORT_POOL_END as u32 {
                    return Err(AppError::BadRequest(string_from(
                        "no free host ports left in the pool",
                    )));
                }
                let c = cursor as u16;
                cursor = cursor + 1;
                used.push(c);
                c
            },
        };
        assert(alloc_from(used0, cursor0, hosts.subrange(i as int, n as int)) == prepend(
            seq![host],
            alloc_from(used@, cursor as int, hosts.subrange(i + 1, n as int)),
        ));
        proof {
            lemma_prepend_assoc(
                picked@,
                seq![host],
                alloc_from(used@, cursor as int, hosts.subrange(i + 1, n as int)),
            );
            assert(picked@.push(host) =~= picked@ + seq![host]);
        }
        picked.push(host);
        let health_path = match &spec.health_path {
            Some(h) => Some(h.clone()),
            None => None,
        };
        out.push(
            DeploymentPort {
                container_port: spec.container_port,
                host_port: host,
                protocol: string_from(spec.kind.protocol()),
                kind: spec.kind,
                hostname: None,
                primary: spec.primary,
                health_path,
                max_body_size_bytes: match spec.max_body_size_bytes {
                    Some(b) => b,
                    None => DEFAULT_MAX_BODY_SIZE_BYTES,
                },
                proxy_timeout_seconds: match spec.proxy_timeout_seconds {
                    Some(t) => t,
                    None => DEFAULT_PROXY_TIMEOUT_SECONDS,
                },
            },
        );
    }
    assert(hosts.subrange(n as int, n as int) =~= Seq::<Option<u16>>::empty());
    assert(picked@ + Seq::<u16>::empty() =~= picked@);
    Ok(out)
}

proof fn lemma_first_free(used: Seq<u16>, c: int)
    requires
        0 <= c,
        first_free_from(used, c) is Some,
    ensures
        c <= first_free_from(used, c)->0 <= PORT_POOL_END,
        !used.contains(first_free_from(used, c)->0),
    decreases PORT_POOL_END + 1 - c,
{
    if c <= PORT_POOL_END && used.contains(c as u16) {
        lemma_first_free(used, c + 1);
    }
}

proof fn lemma_alloc_sound(used: Seq<u16>, cursor: int, hosts: Seq<Option<u16>>)
    requires
        0 <= cursor,
        alloc_from(used, cursor, hosts) is Ok,
    ensures
        ({
            let hs = alloc_from(used, cursor, hosts)->Ok_0;
            &&& hs.len() == hosts.len()
            &&& forall|i: int| 0 <= i < hs.len() && hosts[i] is Some ==> #[trigger] hs[i] == hosts[i]->0
            &&& forall|i: int|
                0 <= i < hs.len() && hosts[i] is None ==> cursor <= #[trigger] hs[i] <= PORT_POOL_END
            &&& forall|i: int| 0 <= i < hs.len() ==> !used.contains(#[trigger] hs[i])
            &&& forall|i: int, j: int| 0 <= i < j < hs.len() ==> #[trigger] hs[i] != #[trigger] hs[j]
        }),
    decreases hosts.len(),
{
    if hosts.len() > 0 {
        let tail = hosts.drop_first();
        let (h, used2, cursor2) = match hosts[0] {
            Some(h) => (h, used.push(h), cursor),
            None => {
                lemma_first_free(used, cursor);
                let c = first_free_from(used, cursor)->0;
                (c, used.push(c), c + 1)
            },
        };
        lemma_alloc_sound(used2, cursor2, tail);
        let rest = alloc_from(used2, cursor2, tail)->Ok_0;
        let hs = alloc_from(used, cursor, hosts)->Ok_0;
        assert(hs =~= seq![h] + rest);
        assert forall|i: int| 0 <= i < rest.len() implies !used.contains(#[trigger] rest[i]) && rest[i]
            != h by {
            assert(!used2.contains(rest[i]));
            if used.contains(rest[i]) {
                let k = choose|k: int| 0 <= k < used.len() && used[k] == rest[i];
                assert(used2[k] == rest[i]);
            }
            assert(used2[used.len() as int] == h);
        }
        assert forall|i: int| 0 <= i < hs.len() implies !used.contains(#[trigger] hs[i]) by {
            if i > 0 {
                assert(hs[i] == rest[i - 1]);
            }
        }
        assert forall|i: int, j: int| 0 <= i < j < hs.len() implies #[trigger] hs[i]
            != #[trigger] hs[j] by {
            assert(hs[j] == rest[j - 1]);
            if i > 0 {
                assert(hs[i] == rest[i - 1]);
            }
        }
        assert forall|i: int| 0 <= i < hs.len() && hosts[i] is Some implies #[trigger] hs[i]
            == hosts[i]->0 by {
            if i > 0 {
                assert(hs[i] == rest[i - 1]);
                assert(hosts[i] == tail[i - 1]);
            }
        }
        assert forall|i: int| 0 <= i < hs.len() && hosts[i] is None implies cursor <= #[trigger] hs[i]
            <= PORT_POOL_END by {
            if i > 0 {
                assert(hs[i] == rest[i - 1]);
                assert(hosts[i] == tail[i - 1]);
            }
        }
    }
}

/// Host-port allocation never hands out a port twice, never one that an
/// active deployment already holds or the reserved SSH port, keeps every
/// pinned port, and takes open ports from the pool.
pub proof fn lemma_allocation_is_conflict_free(claimed: Seq<u16>, specs: Seq<PortRequest>)
    requires
        allocated_hosts(claimed, specs) is Ok,
    ensures
        ({
            let hs = allocated_hosts(claimed, specs)->Ok_0;
            &&& hs.len() == specs.len()
            &&& forall|i: int|
                0 <= i < hs.len() && specs[i].host_port is Some ==> #[trigger] hs[i]
                    == specs[i].host_port->0
            &&& forall|i: int|
                0 <= i < hs.len() && specs[i].host_port is None ==> in_port_pool(#[trigger] hs[i])
            &&& forall|i: int|
                0 <= i < hs.len() ==> !claimed.contains(#[trigger] hs[i]) && hs[i]
                    != RESERVED_HOST_PORT
            &&& forall|i: int, j: int| 0 <= i < j < hs.len() ==> #[trigger] hs[i] != #[trigger] hs[j]
        }),
{
    let used = claimed.push(RESERVED_HOST_PORT);
    let hosts = requested_hosts(specs);
    lemma_alloc_sound(used, PORT_POOL_START as int, hosts);
    let hs = allocated_hosts(claimed, specs)->Ok_0;
    assert forall|i: int| 0 <= i < hs.len() implies !claimed.contains(#[trigger] hs[i]) && hs[i]
        != RESERVED_HOST_PORT by {
        assert(!used.contains(hs[i]));
        assert(used[claimed.len() as int] == RESERVED_HOST_PORT);
        if claimed.contains(hs[i]) {
            let k = choose|k: int| 0 <= k < claimed.len() && claimed[k] == hs[i];
            assert(used[k] == hs[i]);
        }
    }
    assert forall|i: int| 0 <= i < hs.len() && specs[i].host_port is None implies in_port_pool(
        #[trigger] hs[i],
    ) by {
        assert(hosts[i] == specs[i].host_port);
    }
    assert forall|i: int| 0 <= i < hs.len() && specs[i].host_port is Some implies #[trigger] hs[i]
        == specs[i].host_port->0 by {
        assert(hosts[i] == specs[i].host_port);
    }
}

// ------------------------------------------------------------ app hostnames

pub open spec fn dns_label_spec(raw: Seq<char>) -> Option<Seq<char>> {
    dns_label_of_lower(unicode_lowercase(raw))
}

/// The slugs an app hostname is built from: the deployment's label, the
/// server's label and the apps domain. Asked only when a web port exists.
pub open spec fn hostname_parts_spec(
    container_name: Seq<char>,
    server_name: Seq<char>,
    apps_domain: Option<Seq<char>>,
) -> Result<(Seq<char>, Seq<char>, Seq<char>), Seq<char>> {
    if apps_domain is None {
        Err("FOUNDRY_APPS_DOMAIN is not configured"@)
    } else if dns_label_spec(container_name) is None {
        Err("name reduces to an empty app hostname — use letters or digits"@)
    } else if dns_label_spec(server_name) is None {
        Err("server name "@ + debug_quoted(server_name)
            + " has no DNS-safe form — rename the server to publish apps"@)
    } else {
        Ok((dns_label_spec(container_name)->0, dns_label_spec(server_name)->0, apps_domain->0))
    }
}

pub fn hostname_parts(container_name: &str, server_name: &str, apps_domain: Option<&str>) -> (r:
    Result<(String, String, String), AppError>)
    ensures
        r matches Ok(t) ==> hostname_parts_spec(container_name@, server_name@, opt_view(apps_domain))
            == Ok::<(Seq<char>, Seq<char>, Seq<char>), Seq<char>>((t.0@, t.1@, t.2@)),
        r matches Err(e) ==> e matches AppError::BadRequest(m) && hostname_parts_spec(
            container_name@,
            server_name@,
            opt_view(apps_domain),
        ) == Err::<(Seq<char>, Seq<char>, Seq<char>), Seq<char>>(m@),
{
    let domain = match apps_domain {
        Some(d) => d,
        None => {
            return Err(AppError::BadRequest(string_from("FOUNDRY_APPS_DOMAIN is not configured")));
        },
    };
    let slug = match dns_label(container_name) {
        Some(s) => s,
        None => {
            return Err(AppError::BadRequest(string_from(
                "name reduces to an empty app hostname — use letters or digits",
            )));
        },
    };
    let server_slug = match dns_label(server_name) {
        Some(s) => s,
        None => {
            let mut m = string_from("server name ");
            let q = debug_str(server_name);
            push_str(&mut m, q.as_str());
            push_str(&mut m, " has no DNS-safe form — rename the server to publish apps");
            return Err(AppError::BadRequest(m));
        },
    };
    Ok((slug, server_slug, string_from(domain)))
}

/// The hostname label of one web port: the slug alone when the deployment
/// has one web port, `<slug>-<port>` when it has several.
pub open spec fn web_label(slug: Seq<char>, web_count: nat, container_port: u16) -> Seq<char> {
    if web_count == 1 {
        slug
    } else {
        slug + "-"@ + decimal_text(container_port as nat)
    }
}

/// `<label>.<server>.<domain>`, or the error for a label over 63 bytes.
pub open spec fn app_hostname_spec(
    slug: Seq<char>,
    server_slug: Seq<char>,
    domain: Seq<char>,
    web_count: nat,
    container_port: u16,
) -> Result<Seq<char>, Seq<char>> {
    let label = web_label(slug, web_count, container_port);
    if utf8_len(label) > 63 {
        Err("app hostname label "@ + debug_quoted(label)
            + " exceeds 63 characters — pick a shorter name"@)
    } else {
        Ok(label + "."@ + server_slug + "."@ + domain)
    }
}

pub fn app_hostname(
    slug: &str,
    server_slug: &str,
    domain: &str,
    web_count: usize,
    container_port: u16,
) -> (r: Result<String, AppError>)
    ensures
        r matches Ok(h) ==> app_hostname_spec(
            slug@,
            server_slug@,
            domain@,
            web_count as nat,
            container_port,
        ) == Ok::<Seq<char>, Seq<char>>(h@),
        r matches Err(e) ==> e matches AppError::BadRequest(m) && app_hostname_spec(
            slug@,
            server_slug@,
            domain@,
            web_count as nat,
            container_port,
        ) == Err::<Seq<char>, Seq<char>>(m@),
{
    let mut label = string_from(slug);
    if web_count != 1 {
        push_str(&mut label, "-");
        let d = decimal_string(container_port as u64);
        push_str(&mut label, d.as_str());
    }
    let lv = chars_of(label.as_str());
    if utf8_length(lv.as_slice()) > 63 {
        let mut m = string_from("app hostname label ");
        let q = debug_str(label.as_str());
        push_str(&mut m, q.as_str());
        push_str(&mut m, " exceeds 63 characters — pick a shorter name");
        return Err(AppError::BadRequest(m));
    }
    push_str(&mut label, ".");
    push_str(&mut label, server_slug);
    push_str(&mut label, ".");
    push_str(&mut label, domain);
    Ok(label)
}

// ---------------------------------------------------------------- mounts

/// One persistent mount of a deployment request.
pub struct VolumeSpec {
    /// An existing volume to reuse (the 128-bit value of its id).
    pub volume_id: Option<u128>,
    pub volume_name: String,
    pub container_path: String,
    pub read_only: bool,
    pub placement: VolumePlacement,
    pub purge_on_redeploy: bool,
}

pub open spec fn too_many_mounts_message() -> Seq<char> {
    "too many persistent mounts (max 16)"@
}

/// The destinations of the first `n` mounts, or the first mount's error.
pub open spec fn volume_paths_upto(vs: Seq<VolumeSpec>, n: nat) -> Result<Seq<Seq<char>>, Seq<char>>
    decreases n,
{
    if n == 0 {
        Ok(Seq::empty())
    } else {
        match volume_paths_upto(vs, (n - 1) as nat) {
            Err(e) => Err(e),
            Ok(ps) => {
                let v = vs[n - 1];
                if !valid_volume_name(v.volume_name@) {
                    Err(crate::controller::volumes::invalid_volume_name_message(v.volume_name@))
                } else {
                    match normalized_container_path(v.container_path@) {
                        Err(m) => Err(m),
                        Ok(p) => if ps.contains(p) {
                            Err("duplicate mount path "@ + p)
                        } else {
                            Ok(ps.push(p))
                        },
                    }
                }
            },
        }
    }
}

/// Every mount checked and its destination normalized; at most 16 mounts
/// and no destination twice.
pub open spec fn volume_paths(vs: Seq<VolumeSpec>) -> Result<Seq<Seq<char>>, Seq<char>> {
    if vs.len() > MAX_DEPLOYMENT_VOLUMES {
        Err(too_many_mounts_message())
    } else {
        volume_paths_upto(vs, vs.len())
    }
}

pub open spec fn string_views(v: Seq<String>) -> Seq<Seq<char>> {
    v.map_values(|s: String| s@)
}

proof fn lemma_volume_error_persists(vs: Seq<VolumeSpec>, m: nat, n: nat)
    requires
        m <= n,
        volume_paths_upto(vs, m) is Err,
    ensures
        volume_paths_upto(vs, n) == volume_paths_upto(vs, m),
    decreases n - m,
{
    if m < n {
        lemma_volume_error_persists(vs, m, (n - 1) as nat);
    }
}

fn contains_string(v: &Vec<String>, x: &String) -> (b: bool)
    ensures
        b == string_views(v@).contains(x@),
{
    let n = v.len();
    for k in 0..n
        invariant
            n == v@.len(),
            forall|j: int| 0 <= j < k ==> (#[trigger] v@[j])@ != x@,
    {
        if v[k] == *x {
            assert(string_views(v@)[k as int] == x@);
            return true;
        }
    }
    assert(!string_views(v@).contains(x@)) by {
        if string_views(v@).contains(x@) {
            let j = choose|j: int| 0 <= j < v@.len() && string_views(v@)[j] == x@;
            assert(v@[j]@ == x@);
        }
    }
    false
}

/// Checks every requested mount and returns the normalized destinations.
pub fn normalized_volume_paths(volumes: &[VolumeSpec]) -> (r: Result<Vec<String>, AppError>)
    ensures
        r matches Ok(ps) ==> volume_paths(volumes@) == Ok::<Seq<Seq<char>>, Seq<char>>(
            string_views(ps@),
        ),
        r matches Err(e) ==> e matches AppError::BadRequest(m) && volume_paths(volumes@) == Err::<
            Seq<Seq<char>>,
            Seq<char>,
        >(m@),
{
    if volumes.len() > MAX_DEPLOYMENT_VOLUMES {
        return Err(AppError::BadRequest(string_from("too many persistent mounts (max 16)")));
    }
    let n = volumes.len();
    let mut out: Vec<String> = Vec::new();
    assert(string_views(out@) =~= Seq::<Seq<char>>::empty());
    for i in 0..n
        invariant
            n == volumes@.len(),
            n <= MAX_DEPLOYMENT_VOLUMES,
            volume_paths_upto(volumes@, i as nat) == Ok::<Seq<Seq<char>>, Seq<char>>(
                string_views(out@),
            ),
    {
        let v = &volumes[i];
        if let Err(e) = validate_volume_name(v.volume_name.as_str()) {
            proof {
                lemma_volume_error_persists(volumes@, (i + 1) as nat, n as nat);
            }
            return Err(e);
        }
        let p = match normalize_container_path(v.container_path.as_str()) {
            Ok(p) => p,
            Err(e) => {
                proof {
                    lemma_volume_error_persists(volumes@, (i + 1) as nat, n as nat);
                }
                return Err(e);
            },
        };
        if contains_string(&out, &p) {
            proof {
                lemma_volume_error_persists(volumes@, (i + 1) as nat, n as nat);
            }
            let mut m = string_from("duplicate mount path ");
            push_str(&mut m, p.as_str());
            return Err(AppError::BadRequest(m));
        }
        let ghost prev = out@;
        assert(volume_paths_upto(volumes@, (i + 1) as nat) == Ok::<Seq<Seq<char>>, Seq<char>>(
            string_views(prev).push(p@),
        ));
        out.push(p);
        assert(string_views(out@) =~= string_views(prev).push(out@.last()@));
    }
    Ok(out)
}

/// Normalized destinations are pairwise distinct, one per mount.
pub proof fn lemma_mount_destinations_unique(vs: Seq<VolumeSpec>)
    requires
        volume_paths(vs) is Ok,
    ensures
        volume_paths(vs)->Ok_0.len() == vs.len(),
        volume_paths(vs)->Ok_0.no_duplicates(),
{
    lemma_paths_upto_unique(vs, vs.len());
}

proof fn lemma_paths_upto_unique(vs: Seq<VolumeSpec>, n: nat)
    requires
        n <= vs.len(),
        volume_paths_upto(vs, n) is Ok,
    ensures
        volume_paths_upto(vs, n)->Ok_0.len() == n,
        volume_paths_upto(vs, n)->Ok_0.no_duplicates(),
    decreases n,
{
    if n > 0 {
        lemma_paths_upto_unique(vs, (n - 1) as nat);
        let ps = volume_paths_upto(vs, (n - 1) as nat)->Ok_0;
        let qs = volume_paths_upto(vs, n)->Ok_0;
        let p = qs.last();
        assert(qs =~= ps.push(p));
        assert(!ps.contains(p));
        assert forall|i: int, j: int| 0 <= i < qs.len() && 0 <= j < qs.len() && i != j implies qs[i]
            != qs[j] by {
            if i == qs.len() - 1 {
                assert(ps[j] == qs[j]);
            } else if j == qs.len() - 1 {
                assert(ps[i] == qs[i]);
            }
        }
    }
}

// ---------------------------------------------------------------- creation

/// The memory cap's slider bounds, in MB: 32 GB to 256 GB.
pub const MEM_LIMIT_MIN_MB: u32 = 32768;

pub const MEM_LIMIT_MAX_MB: u32 = 262144;

/// A requested memory cap, clamped to the slider's bounds so a hand-made
/// request cannot escape them; none means no cap.
pub fn clamp_mem_limit(requested: Option<u32>) -> (r: Option<u32>)
    ensures
        r == match requested {
            Some(v) => Some(
                if v < MEM_LIMIT_MIN_MB {
                    MEM_LIMIT_MIN_MB
                } else if v > MEM_LIMIT_MAX_MB {
                    MEM_LIMIT_MAX_MB
                } else {
                    v
                },
            ),
            None => None,
        },
{
    match requested {
        Some(v) => Some(
            if v < MEM_LIMIT_MIN_MB {
                MEM_LIMIT_MIN_MB
            } else if v > MEM_LIMIT_MAX_MB {
                MEM_LIMIT_MAX_MB
            } else {
                v
            },
        ),
        None => None,
    }
}

/// The digest part of a pinned image reference: the text after its first
/// `@` (up to a second one).
pub open spec fn image_digest_spec(image_ref: Seq<char>) -> Option<Seq<char>> {
    if split(image_ref, '@').len() > 1 {
        Some(split(image_ref, '@')[1])
    } else {
        None
    }
}

pub fn image_digest(image_ref: &str) -> (r: Option<String>)
    ensures
        match r {
            Some(d) => image_digest_spec(image_ref@) == Some(d@),
            None => image_digest_spec(image_ref@) is None,
        },
{
    let parts = split_chars(chars_of(image_ref).as_slice(), '@');
    assert(views(parts@) == split(image_ref@, '@'));
    if parts.len() > 1 {
        assert(views(parts@)[1] == parts@[1]@);
        Some(string_of(parts[1].as_slice()))
    } else {
        None
    }
}

/// The container name of a new deployment: a replacement keeps its
/// predecessor's name; otherwise the requested name, trimmed, must pass the
/// name rule; with no name given, one is generated from the image and the
/// primary slot.
pub fn deployment_container_name(
    replacement: Option<String>,
    requested: Option<&str>,
    image_ref: &str,
    primary_slot_name: &str,
) -> (r: Result<String, AppError>)
    ensures
        match replacement {
            Some(n) => r matches Ok(s) && s@ == n@,
            None => match requested {
                Some(q) if trim(q@).len() > 0 => if valid_volume_name(trim(q@)) {
                    r matches Ok(s) && s@ == trim(q@)
                } else {
                    r matches Err(AppError::BadRequest(m)) && m@ == name_rule_message()
                },
                _ => r matches Ok(s) && exists|suffix: Seq<char>|
                    suffix.len() == 5 && (forall|i: int| 0 <= i < 5 ==> is_lower_hex(#[trigger] suffix[i]))
                        && s@ == generated_name(image_ref@, primary_slot_name@, suffix),
            },
        },
{
    if let Some(n) = replacement {
        return Ok(n);
    }
    if let Some(q) = requested {
        let tv = trim_chars(chars_of(q).as_slice());
        if tv.len() > 0 {
            let t = string_of(tv.as_slice());
            return sanitize_name(t.as_str());
        }
    }
    Ok(generate_name(image_ref, primary_slot_name))
}

pub open spec fn replacement_agent_message(server_name: Seq<char>, agent_version: Option<Seq<char>>) -> Seq<char> {
    server_name + " reports foundry-agent "@ + match agent_version {
        Some(v) => v,
        None => "unknown"@,
    } + "; install 0.64.0 or newer before replacing so the retained container can release and restore its stable name"@
}

/// A replacement needs an agent that can hand the stable name over
/// (0.64.0 or newer).
pub fn check_replacement_agent(server_name: &str, agent_version: Option<&str>) -> (r: Result<(), AppError>)
    ensures
        supports_spec(opt_view(agent_version), REPLACEMENT_MIN_AGENT_VERSION) ==> r is Ok,
        !supports_spec(opt_view(agent_version), REPLACEMENT_MIN_AGENT_VERSION) ==> (r matches Err(
            AppError::BadRequest(m),
        ) && m@ == replacement_agent_message(server_name@, opt_view(agent_version))),
{
    if supports(agent_version, REPLACEMENT_MIN_AGENT_VERSION) {
        return Ok(());
    }
    let mut m = string_from(server_name);
    push_str(&mut m, " reports foundry-agent ");
    match agent_version {
        Some(v) => push_str(&mut m, v),
        None => push_str(&mut m, "unknown"),
    }
    push_str(
        &mut m,
        "; install 0.64.0 or newer before replacing so the retained container can release and restore its stable name",
    );
    Err(AppError::BadRequest(m))
}

/// Only a running, stopped or failed deployment can be replaced.
pub fn check_replaceable(state: DeploymentState) -> (r: Result<(), AppError>)
    ensures
        (state is Running || state is Stopped || state is Failed) ==> r is Ok,
        !(state is Running || state is Stopped || state is Failed) ==> (r matches Err(AppError::BadRequest(m))
            && m@ == "deployment is "@ + state.name_spec() + ", not replaceable"@),
{
    match state {
        DeploymentState::Running | DeploymentState::Stopped | DeploymentState::Failed => Ok(()),
        _ => {
            let mut m = string_from("deployment is ");
            push_str(&mut m, state.as_str());
            push_str(&mut m, ", not replaceable");
            Err(AppError::BadRequest(m))
        },
    }
}

} // verus!
