//! nginx app publishing: the publishing status shown to operators, the
//! nginx version rule, the names a vhost may carry and the vhost file's
//! text. Writing the file and reloading nginx are the caller's I/O.

use crate::shared::PortKind;
use crate::text::{
    matches_at,
    all_digits, chars_of, contains, contains_seq, debug_quoted, debug_str, decimal_string,
    decimal_text, first_match, find_seq, is_ascii_alnum, is_ascii_digit, is_ascii_lower,
    lemma_split_nonempty, parse_unsigned, parse_unsigned_chars, push_str, slice_chars, split,
    split_chars, string_from, string_of, trim, trim_chars, utf8_len, utf8_length, views,
    ascii_alnum, ascii_digit, ascii_lowercase_letter, equals_str,
};
use vstd::prelude::*;

verus! {

pub const VHOST_DIR: &'static str = "/etc/nginx/foundry-apps";

pub const TLS_CERT: &'static str = "/etc/foundry-agent/tls/fullchain.pem";

pub const TLS_KEY: &'static str = "/etc/foundry-agent/tls/privkey.pem";

pub const NGINX_BIN: &'static str = "/usr/sbin/nginx";

/// The first nginx with the standalone `http2` directive.
pub const MIN_NGINX_VERSION: (u64, u64, u64) = (1, 25, 1);

pub open spec fn version_lt(a: (u64, u64, u64), b: (u64, u64, u64)) -> bool {
    a.0 < b.0 || (a.0 == b.0 && (a.1 < b.1 || (a.1 == b.1 && a.2 < b.2)))
}

pub fn version_less(a: (u64, u64, u64), b: (u64, u64, u64)) -> (r: bool)
    ensures
        r == version_lt(a, b),
{
    a.0 < b.0 || (a.0 == b.0 && (a.1 < b.1 || (a.1 == b.1 && a.2 < b.2)))
}

/// What the agent found out about the host's nginx.
pub struct PublishingProbe {
    pub nginx_installed: bool,
    /// The installed version, when `nginx -v` was understood.
    pub nginx_version: Option<(u64, u64, u64)>,
    /// Whether the service is active, when systemd could be asked.
    pub nginx_active: Option<bool>,
    pub foundry_include_present: bool,
    pub tls_installed: bool,
}

/// The publishing status: the first problem found, or `READY`. An unknown
/// version or service state does not count as a problem.
pub open spec fn publishing_status_spec(p: PublishingProbe) -> Seq<char> {
    if !p.nginx_installed {
        "NGINX_MISSING"@
    } else if p.nginx_version is Some && version_lt(p.nginx_version->0, MIN_NGINX_VERSION) {
        "NGINX_OUTDATED"@
    } else if p.nginx_active == Some(false) {
        "NGINX_INACTIVE"@
    } else if !p.foundry_include_present {
        "NOT_CONFIGURED"@
    } else if !p.tls_installed {
        "TLS_MISSING"@
    } else {
        "READY"@
    }
}

pub fn app_publishing_status(p: &PublishingProbe) -> (r: &'static str)
    ensures
        r@ == publishing_status_spec(*p),
{
    if !p.nginx_installed {
        return "NGINX_MISSING";
    }
    if let Some(v) = p.nginx_version {
        if version_less(v, MIN_NGINX_VERSION) {
            return "NGINX_OUTDATED";
        }
    }
    if p.nginx_active == Some(false) {
        return "NGINX_INACTIVE";
    }
    if !p.foundry_include_present {
        return "NOT_CONFIGURED";
    }
    if !p.tls_installed {
        return "TLS_MISSING";
    }
    "READY"
}

/// Where nginx may be installed, in the order they are tried.
pub open spec fn nginx_candidates() -> Seq<Seq<char>> {
    seq![NGINX_BIN@, "/usr/bin/nginx"@, "/usr/local/sbin/nginx"@, "/usr/local/bin/nginx"@]
}

/// The first candidate that exists, given which of them exist.
pub fn nginx_bin_path(exists: &[bool; 4]) -> (r: Option<&'static str>)
    ensures
        exists[0] ==> r == Some(NGINX_BIN),
        !exists[0] && exists[1] ==> (r matches Some(p) && p@ == "/usr/bin/nginx"@),
        !exists[0] && !exists[1] && exists[2] ==> (r matches Some(p) && p@
            == "/usr/local/sbin/nginx"@),
        !exists[0] && !exists[1] && !exists[2] && exists[3] ==> (r matches Some(p) && p@
            == "/usr/local/bin/nginx"@),
        !exists[0] && !exists[1] && !exists[2] && !exists[3] ==> r is None,
{
    if exists[0] {
        Some(NGINX_BIN)
    } else if exists[1] {
        Some("/usr/bin/nginx")
    } else if exists[2] {
        Some("/usr/local/sbin/nginx")
    } else if exists[3] {
        Some("/usr/local/bin/nginx")
    } else {
        None
    }
}

pub fn nginx_installed(exists: &[bool; 4]) -> (r: bool)
    ensures
        r == (exists[0] || exists[1] || exists[2] || exists[3]),
{
    nginx_bin_path(exists).is_some()
}

/// The wildcard certificate is installed when both its files exist.
pub fn tls_installed(cert_exists: bool, key_exists: bool) -> (r: bool)
    ensures
        r == (cert_exists && key_exists),
{
    cert_exists && key_exists
}

/// The longest prefix of digits and dots.
pub open spec fn version_prefix(s: Seq<char>) -> Seq<char>
    decreases s.len(),
{
    if s.len() > 0 && (is_ascii_digit(s[0]) || s[0] == '.') {
        seq![s[0]] + version_prefix(s.drop_first())
    } else {
        Seq::empty()
    }
}

pub open spec fn u64_of(part: Seq<char>) -> Option<u64> {
    match parse_unsigned(part, u64::MAX as nat) {
        Some(v) => Some(v as u64),
        None => None,
    }
}

/// The version `nginx -v` reports: the digits and dots right after the
/// first `nginx/`; major and minor are required, a missing or unreadable
/// patch counts as 0.
pub open spec fn nginx_version_spec(text: Seq<char>) -> Option<(u64, u64, u64)> {
    match first_match(text, "nginx/"@) {
        None => None,
        Some(i) => {
            let parts = split(version_prefix(text.skip(i + 6)), '.');
            if u64_of(parts[0]) is Some && parts.len() >= 2 && u64_of(parts[1]) is Some {
                Some(
                    (
                        u64_of(parts[0])->0,
                        u64_of(parts[1])->0,
                        if parts.len() >= 3 && u64_of(parts[2]) is Some {
                            u64_of(parts[2])->0
                        } else {
                            0
                        },
                    ),
                )
            } else {
                None
            }
        },
    }
}

fn parse_u64(part: &[char]) -> (r: Option<u64>)
    ensures
        r == u64_of(part@),
{
    parse_unsigned_chars(part, u64::MAX)
}

pub fn parse_nginx_version(text: &str) -> (r: Option<(u64, u64, u64)>)
    ensures
        r == nginx_version_spec(text@),
{
    let v = chars_of(text);
    let marker = chars_of("nginx/");
    proof {
        reveal_strlit("nginx/");
    }
    assert(marker@.len() == 6);
    let n = v.len();
    let start = match find_seq(v.as_slice(), marker.as_slice()) {
        Some(i) => {
            assert(crate::text::matches_at(v@, marker@, i as int));
            i + 6
        },
        None => {
            return None;
        },
    };
    let mut end = start;
    assert(v@.skip(start as int) =~= v@.subrange(start as int, n as int));
    assert(v@.subrange(start as int, start as int) =~= Seq::<char>::empty());
    while end < n && (ascii_digit(v[end]) || v[end] == '.')
        invariant
            start <= end <= n == v@.len(),
            version_prefix(v@.skip(start as int)) == v@.subrange(start as int, end as int)
                + version_prefix(v@.subrange(end as int, n as int)),
        decreases n - end,
    {
        assert(v@.subrange(end as int, n as int).drop_first() =~= v@.subrange(end + 1, n as int));
        assert(v@.subrange(start as int, end as int) + seq![v@[end as int]] =~= v@.subrange(
            start as int,
            end + 1,
        ));
        end = end + 1;
    }
    assert(version_prefix(v@.subrange(end as int, n as int)) =~= Seq::<char>::empty());
    assert(v@.subrange(start as int, end as int) + Seq::<char>::empty() =~= v@.subrange(
        start as int,
        end as int,
    ));
    let digits = slice_chars(v.as_slice(), start, end);
    let parts = split_chars(digits.as_slice(), '.');
    proof {
        lemma_split_nonempty(digits@, '.');
    }
    assert(parts@[0]@ == views(parts@)[0]);
    let major = match parse_u64(parts[0].as_slice()) {
        Some(m) => m,
        None => {
            return None;
        },
    };
    if parts.len() < 2 {
        return None;
    }
    assert(parts@[1]@ == views(parts@)[1]);
    let minor = match parse_u64(parts[1].as_slice()) {
        Some(m) => m,
        None => {
            return None;
        },
    };
    let patch = if parts.len() >= 3 {
        assert(parts@[2]@ == views(parts@)[2]);
        match parse_u64(parts[2].as_slice()) {
            Some(p) => p,
            None => 0,
        }
    } else {
        0
    };
    Some((major, minor, patch))
}

pub open spec fn id_char(c: char) -> bool {
    is_ascii_alnum(c) || c == '-'
}

/// A deployment id names a file: 1 to 64 bytes of ASCII letters, digits
/// and `-`.
pub open spec fn valid_id(id: Seq<char>) -> bool {
    id.len() > 0 && utf8_len(id) <= 64 && forall|i: int| 0 <= i < id.len() ==> id_char(#[trigger] id[i])
}

pub fn validate_id(deployment_id: &str) -> (r: Result<(), String>)
    ensures
        r is Ok <==> valid_id(deployment_id@),
        r matches Err(m) ==> m@ == "invalid deployment id "@ + debug_quoted(deployment_id@),
{
    let v = chars_of(deployment_id);
    let n = v.len();
    let mut ok = n > 0 && utf8_length(v.as_slice()) <= 64;
    let mut i: usize = 0;
    while ok && i < n
        invariant
            n == v@.len(),
            v@ == deployment_id@,
            i <= n,
            ok ==> n > 0 && utf8_len(v@) <= 64,
            ok ==> forall|k: int| 0 <= k < i ==> id_char(#[trigger] v@[k]),
            !ok ==> !valid_id(deployment_id@),
        decreases n - i,
    {
        if !(ascii_alnum(v[i]) || v[i] == '-') {
            ok = false;
        }
        i = i + 1;
    }
    if ok {
        Ok(())
    } else {
        let mut m = string_from("invalid deployment id ");
        push_str(&mut m, debug_str(deployment_id).as_str());
        Err(m)
    }
}

pub open spec fn hostname_char(c: char) -> bool {
    is_ascii_lower(c) || is_ascii_digit(c) || c == '.' || c == '-'
}

/// A vhost hostname: 1 to 253 bytes of lowercase letters, digits, `.` and
/// `-`.
pub open spec fn valid_hostname_spec(h: Seq<char>) -> bool {
    h.len() > 0 && utf8_len(h) <= 253 && forall|i: int|
        0 <= i < h.len() ==> hostname_char(#[trigger] h[i])
}

pub fn valid_hostname(hostname: &str) -> (r: bool)
    ensures
        r == valid_hostname_spec(hostname@),
{
    let v = chars_of(hostname);
    let n = v.len();
    if n == 0 || utf8_length(v.as_slice()) > 253 {
        return false;
    }
    for i in 0..n
        invariant
            n == v@.len(),
            v@ == hostname@,
            n > 0 && utf8_len(v@) <= 253,
            forall|k: int| 0 <= k < i ==> hostname_char(#[trigger] v@[k]),
    {
        let c = v[i];
        if !(ascii_lowercase_letter(c) || ascii_digit(c) || c == '.' || c == '-') {
            return false;
        }
    }
    true
}

/// A port of a deploy payload as the vhost sees it.
pub struct PortBinding {
    pub container_port: u16,
    pub host_port: u16,
    pub protocol: String,
    pub kind: PortKind,
    pub hostname: Option<String>,
}

pub open spec fn is_web_port(p: PortBinding) -> bool {
    p.hostname is Some && p.kind.web()
}

/// The positions of the ports that publish a vhost, in order.
pub open spec fn web_positions(ports: Seq<PortBinding>) -> Seq<int>
    decreases ports.len(),
{
    if ports.len() == 0 {
        Seq::empty()
    } else {
        let r = web_positions(ports.drop_last());
        if is_web_port(ports.last()) {
            r.push(ports.len() - 1)
        } else {
            r
        }
    }
}

/// The ports that publish a vhost: HTTP/HTTPS ports with a hostname, as
/// positions into `ports`.
pub fn web_ports(ports: &[PortBinding]) -> (r: Vec<usize>)
    ensures
        r@.map_values(|i: usize| i as int) == web_positions(ports@),
{
    let mut r: Vec<usize> = Vec::new();
    let n = ports.len();
    assert(ports@.take(0) =~= Seq::<PortBinding>::empty());
    for i in 0..n
        invariant
            n == ports@.len(),
            r@.map_values(|k: usize| k as int) == web_positions(ports@.take(i as int)),
    {
        assert(ports@.take(i + 1).drop_last() =~= ports@.take(i as int));
        assert(ports@.take(i + 1).last() == ports@[i as int]);
        let p = &ports[i];
        if p.hostname.is_some() && p.kind.is_web() {
            let ghost prev = r@.map_values(|k: usize| k as int);
            r.push(i);
            assert(r@.map_values(|k: usize| k as int) =~= prev.push(i as int));
        }
    }
    assert(ports@.take(n as int) =~= ports@);
    r
}

/// The head of every vhost file.
pub open spec fn vhost_header(deployment_id: Seq<char>) -> Seq<char> {
    "# Managed by foundry-agent — deployment "@ + deployment_id
        + ".\n# Do not edit: rewritten on deploy, removed with the container.\n"@
}

/// The redirect and TLS-proxy server pair of one web port.
pub open spec fn vhost_block(hostname: Seq<char>, https: bool, host_port: u16) -> Seq<char> {
    "\nserver {\n    listen 80;\n    listen [::]:80;\n    server_name "@ + hostname
        + ";\n    return 301 https://$host$request_uri;\n}\n\nserver {\n    listen 443 ssl;\n    listen [::]:443 ssl;\n    http2 on;\n    server_name "@
        + hostname + ";\n\n    ssl_certificate     "@ + TLS_CERT@ + ";\n    ssl_certificate_key "@
        + TLS_KEY@ + ";\n\n    client_max_body_size 100m;\n\n    location / {\n        proxy_pass "@ + (
    if https {
        "https"@
    } else {
        "http"@
    }) + "://127.0.0.1:"@ + decimal_text(host_port as nat) + ";\n"@ + (if https {
        "        proxy_ssl_verify off;\n"@
    } else {
        Seq::empty()
    })
        + "        proxy_http_version 1.1;\n        proxy_set_header Host $host;\n        proxy_set_header X-Real-IP $remote_addr;\n        proxy_set_header X-Forwarded-For $proxy_add_x_forwarded_for;\n        proxy_set_header X-Forwarded-Proto https;\n        proxy_set_header Upgrade $http_upgrade;\n        proxy_set_header Connection $foundry_connection_upgrade;\n        proxy_read_timeout 300s;\n        proxy_send_timeout 300s;\n        proxy_buffering off;\n    }\n}\n"@
}

pub open spec fn hostname_or_empty(p: PortBinding) -> Seq<char> {
    match p.hostname {
        Some(h) => h@,
        None => Seq::empty(),
    }
}

pub open spec fn vhost_blocks(ports: Seq<PortBinding>) -> Seq<char>
    decreases ports.len(),
{
    if ports.len() == 0 {
        Seq::empty()
    } else {
        vhost_blocks(ports.drop_last()) + vhost_block(
            hostname_or_empty(ports.last()),
            ports.last().kind is Https,
            ports.last().host_port,
        )
    }
}

/// The vhost file of a deployment.
pub open spec fn vhost_text(deployment_id: Seq<char>, ports: Seq<PortBinding>) -> Seq<char> {
    vhost_header(deployment_id) + vhost_blocks(ports)
}

fn push_block(out: &mut String, hostname: &str, https: bool, host_port: u16)
    ensures
        final(out)@ == old(out)@ + vhost_block(hostname@, https, host_port),
{
    push_str(out, "\nserver {\n    listen 80;\n    listen [::]:80;\n    server_name ");
    push_str(out, hostname);
    push_str(
        out,
        ";\n    return 301 https://$host$request_uri;\n}\n\nserver {\n    listen 443 ssl;\n    listen [::]:443 ssl;\n    http2 on;\n    server_name ",
    );
    push_str(out, hostname);
    push_str(out, ";\n\n    ssl_certificate     ");
    push_str(out, TLS_CERT);
    push_str(out, ";\n    ssl_certificate_key ");
    push_str(out, TLS_KEY);
    push_str(out, ";\n\n    client_max_body_size 100m;\n\n    location / {\n        proxy_pass ");
    if https {
        push_str(out, "https");
    } else {
        push_str(out, "http");
    }
    push_str(out, "://127.0.0.1:");
    push_str(out, decimal_string(host_port as u64).as_str());
    push_str(out, ";\n");
    if https {
        push_str(out, "        proxy_ssl_verify off;\n");
    }
    push_str(
        out,
        "        proxy_http_version 1.1;\n        proxy_set_header Host $host;\n        proxy_set_header X-Real-IP $remote_addr;\n        proxy_set_header X-Forwarded-For $proxy_add_x_forwarded_for;\n        proxy_set_header X-Forwarded-Proto https;\n        proxy_set_header Upgrade $http_upgrade;\n        proxy_set_header Connection $foundry_connection_upgrade;\n        proxy_read_timeout 300s;\n        proxy_send_timeout 300s;\n        proxy_buffering off;\n    }\n}\n",
    );
    proof {
        let t = old(out)@;
        let pieces = vhost_block(hostname@, https, host_port);
        assert(final(out)@ =~= t + pieces);
    }
}

/// The hostname a port is published on; a port without one gets an empty
/// `server_name`.
pub open spec fn published_hostname(p: PortBinding) -> Seq<char> {
    match p.hostname {
        Some(h) => h@,
        None => Seq::empty(),
    }
}

/// What the file must say for one web port: a plain-HTTP server on its
/// hostname that redirects to HTTPS, then a TLS server on the same
/// hostname whose `location /` proxies to that port's own host port on the
/// loopback, over https for an HTTPS port and http otherwise.
pub open spec fn proxied_server_pair(hostname: Seq<char>, https: bool, host_port: u16) -> Seq<char> {
    "\nserver {\n    listen 80;\n    listen [::]:80;\n    server_name "@ + hostname
        + ";\n    return 301 https://$host$request_uri;\n}\n\nserver {\n    listen 443 ssl;\n    listen [::]:443 ssl;\n    http2 on;\n    server_name "@
        + hostname + ";\n\n    ssl_certificate     "@ + TLS_CERT@ + ";\n    ssl_certificate_key "@
        + TLS_KEY@ + ";\n\n    client_max_body_size 100m;\n\n    location / {\n        proxy_pass "@ + (
    if https {
        "https"@
    } else {
        "http"@
    }) + "://127.0.0.1:"@ + decimal_text(host_port as nat) + ";\n"@
}

proof fn lemma_blocks_prefix(ports: Seq<PortBinding>, m: int)
    requires
        0 <= m <= ports.len(),
    ensures
        vhost_blocks(ports.take(m)).len() <= vhost_blocks(ports).len(),
        vhost_blocks(ports).subrange(0, vhost_blocks(ports.take(m)).len() as int) == vhost_blocks(ports.take(m)),
    decreases ports.len(),
{
    if m == ports.len() {
        assert(ports.take(m) =~= ports);
        assert(vhost_blocks(ports).subrange(0, vhost_blocks(ports).len() as int) =~= vhost_blocks(ports));
    } else {
        assert(ports.drop_last().take(m) =~= ports.take(m));
        lemma_blocks_prefix(ports.drop_last(), m);
        let a = vhost_blocks(ports.drop_last());
        let b = vhost_block(hostname_or_empty(ports.last()), ports.last().kind is Https, ports.last().host_port);
        let l = vhost_blocks(ports.take(m)).len() as int;
        assert((a + b).subrange(0, l) =~= a.subrange(0, l));
    }
}

/// For every port, the rendered file holds that port's server pair: its
/// hostname in both servers and a proxy to its own host port.
pub proof fn lemma_render_proxies_each_port(deployment_id: Seq<char>, ports: Seq<PortBinding>, k: int)
    requires
        0 <= k < ports.len(),
    ensures
        exists|i: int| #[trigger] matches_at(
            vhost_text(deployment_id, ports),
            proxied_server_pair(published_hostname(ports[k]), ports[k].kind is Https, ports[k].host_port),
            i,
        ),
{
    let p = ports[k];
    let h = hostname_or_empty(p);
    assert(h == published_hostname(p));
    let https = p.kind is Https;
    let w = proxied_server_pair(h, https, p.host_port);
    let blk = vhost_block(h, https, p.host_port);
    let rest = (if https {
        "        proxy_ssl_verify off;\n"@
    } else {
        Seq::<char>::empty()
    })
        + "        proxy_http_version 1.1;\n        proxy_set_header Host $host;\n        proxy_set_header X-Real-IP $remote_addr;\n        proxy_set_header X-Forwarded-For $proxy_add_x_forwarded_for;\n        proxy_set_header X-Forwarded-Proto https;\n        proxy_set_header Upgrade $http_upgrade;\n        proxy_set_header Connection $foundry_connection_upgrade;\n        proxy_read_timeout 300s;\n        proxy_send_timeout 300s;\n        proxy_buffering off;\n    }\n}\n"@;
    assert(blk =~= w + rest);
    lemma_blocks_prefix(ports, k + 1);
    let before = vhost_blocks(ports.take(k));
    assert(ports.take(k + 1).drop_last() =~= ports.take(k));
    assert(ports.take(k + 1).last() == p);
    assert(vhost_blocks(ports.take(k + 1)) == before + blk);
    let head = vhost_header(deployment_id);
    let all = vhost_blocks(ports);
    let text = vhost_text(deployment_id, ports);
    let i: int = head.len() + before.len() as int;
    assert(all.subrange(0, (before + blk).len() as int) == before + blk);
    assert(text.subrange(i, i + w.len() as int) =~= w) by {
        assert forall|j: int| 0 <= j < w.len() implies text.subrange(i, i + w.len() as int)[j] == w[j] by {
            assert(text[i + j] == all[before.len() + j]);
            assert(all[before.len() + j] == (before + blk)[before.len() + j]);
            assert(blk[j] == w[j]);
        }
    }
    assert(matches_at(text, w, i));
}

/// Renders the vhost file: one redirect/proxy server pair per port.
pub fn render(deployment_id: &str, ports: &[PortBinding]) -> (r: String)
    ensures
        r@ == vhost_text(deployment_id@, ports@),
        forall|k: int|
            0 <= k < ports@.len() ==> exists|i: int| #[trigger] matches_at(
                r@,
                proxied_server_pair(
                    published_hostname(#[trigger] ports@[k]),
                    ports@[k].kind is Https,
                    ports@[k].host_port,
                ),
                i,
            ),
{
    proof {
        assert forall|k: int| 0 <= k < ports@.len() implies exists|i: int| #[trigger] matches_at(
            vhost_text(deployment_id@, ports@),
            proxied_server_pair(published_hostname(#[trigger] ports@[k]), ports@[k].kind is Https, ports@[k].host_port),
            i,
        ) by {
            lemma_render_proxies_each_port(deployment_id@, ports@, k);
        }
    }
    let mut out = string_from("# Managed by foundry-agent — deployment ");
    push_str(&mut out, deployment_id);
    push_str(&mut out, ".\n# Do not edit: rewritten on deploy, removed with the container.\n");
    let ghost head = out@;
    assert(head == vhost_header(deployment_id@));
    let n = ports.len();
    assert(ports@.take(0) =~= Seq::<PortBinding>::empty());
    assert(head + Seq::<char>::empty() =~= head);
    for i in 0..n
        invariant
            n == ports@.len(),
            head == vhost_header(deployment_id@),
            out@ == head + vhost_blocks(ports@.take(i as int)),
    {
        let p = &ports[i];
        assert(ports@.take(i + 1).drop_last() =~= ports@.take(i as int));
        assert(ports@.take(i + 1).last() == ports@[i as int]);
        let https = match p.kind {
            PortKind::Https => true,
            _ => false,
        };
        let ghost before = out@;
        proof {
            reveal_strlit("");
        }
        match &p.hostname {
            Some(h) => push_block(&mut out, h.as_str(), https, p.host_port),
            None => push_block(&mut out, "", https, p.host_port),
        }
        assert(""@ =~= Seq::<char>::empty());
        assert(out@ == before + vhost_block(hostname_or_empty(*p), p.kind is Https, p.host_port));
        assert(vhost_blocks(ports@.take(i + 1)) == vhost_blocks(ports@.take(i as int)) + vhost_block(
            hostname_or_empty(*p),
            p.kind is Https,
            p.host_port,
        ));
        assert(out@ =~= head + vhost_blocks(ports@.take(i + 1)));
    }
    assert(ports@.take(n as int) =~= ports@);
    out
}

/// The excerpt of nginx's complaint an error carries: its first 400
/// characters, trimmed.
pub open spec fn nginx_excerpt(stderr: Seq<char>) -> Seq<char> {
    trim(if stderr.len() <= 400 {
        stderr
    } else {
        stderr.take(400)
    })
}

/// A failed `sudo -n nginx <args>`: sudo refusals get the setup hint, real
/// nginx errors speak for themselves.
pub open spec fn nginx_failure_text(args: Seq<char>, stderr: Seq<char>) -> Seq<char> {
    let e = nginx_excerpt(stderr);
    "nginx "@ + args + " failed: "@ + e + if contains(e, "password is required"@) || contains(
        e,
        "not allowed"@,
    ) {
        " — sudo rule missing: run `sudo foundry-agent --setup-apps`"@
    } else {
        Seq::empty()
    }
}

pub fn nginx_failure(args: &str, stderr: &str) -> (r: String)
    ensures
        r@ == nginx_failure_text(args@, stderr@),
{
    let v = chars_of(stderr);
    let cut = if v.len() <= 400 {
        slice_chars(v.as_slice(), 0, v.len())
    } else {
        slice_chars(v.as_slice(), 0, 400)
    };
    assert(v@.len() <= 400 ==> v@.subrange(0, v@.len() as int) =~= v@);
    let e = trim_chars(cut.as_slice());
    let p1 = chars_of("password is required");
    let p2 = chars_of("not allowed");
    let hint = contains_seq(e.as_slice(), p1.as_slice()) || contains_seq(e.as_slice(), p2.as_slice());
    let mut m = string_from("nginx ");
    push_str(&mut m, args);
    push_str(&mut m, " failed: ");
    push_str(&mut m, string_of(e.as_slice()).as_str());
    if hint {
        push_str(&mut m, " — sudo rule missing: run `sudo foundry-agent --setup-apps`");
    } else {
        assert(m@ + Seq::<char>::empty() =~= m@);
    }
    m
}

/// The refusal of a hostname that may not name a vhost.
pub fn invalid_hostname_error(hostname: &str) -> (r: String)
    ensures
        r@ == "refusing invalid vhost hostname "@ + debug_quoted(hostname@),
{
    let mut m = string_from("refusing invalid vhost hostname ");
    push_str(&mut m, debug_str(hostname).as_str());
    m
}

/// The refusal to publish on an nginx without the `http2` directive.
pub fn outdated_nginx_error(v: (u64, u64, u64)) -> (r: String)
    ensures
        r@ == "nginx "@ + decimal_text(v.0 as nat) + "."@ + decimal_text(v.1 as nat) + "."@
            + decimal_text(v.2 as nat)
            + " is too old for HTTP/S publishing — Foundry needs ≥ 1.25.1 (the `http2` directive); upgrade nginx on this server"@,
{
    let mut m = string_from("nginx ");
    push_str(&mut m, decimal_string(v.0).as_str());
    push_str(&mut m, ".");
    push_str(&mut m, decimal_string(v.1).as_str());
    push_str(&mut m, ".");
    push_str(&mut m, decimal_string(v.2).as_str());
    push_str(
        &mut m,
        " is too old for HTTP/S publishing — Foundry needs ≥ 1.25.1 (the `http2` directive); upgrade nginx on this server",
    );
    m
}

// ------------------------------------------------------------ apply

/// The vhost file of a deployment.
pub open spec fn vhost_path_spec(deployment_id: Seq<char>) -> Seq<char> {
    VHOST_DIR@ + "/"@ + deployment_id + ".conf"@
}

pub fn vhost_path(deployment_id: &str) -> (r: String)
    ensures
        r@ == vhost_path_spec(deployment_id@),
{
    let mut p = string_from(VHOST_DIR);
    push_str(&mut p, "/");
    push_str(&mut p, deployment_id);
    push_str(&mut p, ".conf");
    p
}

/// What applying vhosts checks before it writes: the deployment id, every
/// hostname, and (when nginx is really driven) that nginx is new enough
/// and the wildcard certificate and key exist. `ports` are the web ports.
pub open spec fn apply_refusal(
    deployment_id: Seq<char>,
    ports: Seq<PortBinding>,
    checks_host: bool,
    nginx_version: Option<(u64, u64, u64)>,
    cert_exists: bool,
    key_exists: bool,
) -> Option<Seq<char>> {
    if !valid_id(deployment_id) {
        Some("invalid deployment id "@ + debug_quoted(deployment_id))
    } else if exists|i: int| 0 <= i < ports.len() && !valid_hostname_spec(hostname_text(#[trigger] ports[i])) {
        let i = choose|i: int|
            0 <= i < ports.len() && !valid_hostname_spec(hostname_text(#[trigger] ports[i])) && forall|k: int|
                0 <= k < i ==> valid_hostname_spec(hostname_text(#[trigger] ports[k]));
        Some("refusing invalid vhost hostname "@ + debug_quoted(hostname_text(ports[i])))
    } else if checks_host && nginx_version is Some && version_lt(nginx_version->0, MIN_NGINX_VERSION) {
        let v = nginx_version->0;
        Some("nginx "@ + decimal_text(v.0 as nat) + "."@ + decimal_text(v.1 as nat) + "."@ + decimal_text(v.2 as nat)
            + " is too old for HTTP/S publishing — Foundry needs ≥ 1.25.1 (the `http2` directive); upgrade nginx on this server"@)
    } else if checks_host && !cert_exists {
        Some(tls_missing_text(TLS_CERT@))
    } else if checks_host && !key_exists {
        Some(tls_missing_text(TLS_KEY@))
    } else {
        None
    }
}

pub open spec fn hostname_text(p: PortBinding) -> Seq<char> {
    match p.hostname {
        Some(h) => h@,
        None => Seq::empty(),
    }
}

pub open spec fn tls_missing_text(file: Seq<char>) -> Seq<char> {
    "TLS certificate missing: "@ + file
        + " — install this server's wildcard cert (fullchain.pem + privkey.pem) under /etc/foundry-agent/tls/"@
}

fn tls_missing(file: &str) -> (r: String)
    ensures
        r@ == tls_missing_text(file@),
{
    let mut m = string_from("TLS certificate missing: ");
    push_str(&mut m, file);
    push_str(
        &mut m,
        " — install this server's wildcard cert (fullchain.pem + privkey.pem) under /etc/foundry-agent/tls/",
    );
    m
}

pub fn apply_checks(
    deployment_id: &str,
    ports: &[PortBinding],
    checks_host: bool,
    nginx_version: Option<(u64, u64, u64)>,
    cert_exists: bool,
    key_exists: bool,
) -> (r: Result<(), String>)
    ensures
        match apply_refusal(deployment_id@, ports@, checks_host, nginx_version, cert_exists, key_exists) {
            None => r is Ok,
            Some(m) => r matches Err(e) && e@ == m,
        },
{
    validate_id(deployment_id)?;
    let n = ports.len();
    for i in 0..n
        invariant
            n == ports@.len(),
            valid_id(deployment_id@),
            forall|k: int| 0 <= k < i ==> valid_hostname_spec(hostname_text(#[trigger] ports@[k])),
    {
        let h = match &ports[i].hostname {
            Some(h) => string_from(h.as_str()),
            None => String::new(),
        };
        assert(h@ == hostname_text(ports@[i as int]));
        if !valid_hostname(h.as_str()) {
            assert(exists|j: int| 0 <= j < ports@.len() && !valid_hostname_spec(hostname_text(#[trigger] ports@[j])));
            return Err(invalid_hostname_error(h.as_str()));
        }
    }
    if checks_host {
        if let Some(v) = nginx_version {
            if version_less(v, MIN_NGINX_VERSION) {
                return Err(outdated_nginx_error(v));
            }
        }
        if !cert_exists {
            return Err(tls_missing(TLS_CERT));
        }
        if !key_exists {
            return Err(tls_missing(TLS_KEY));
        }
    }
    Ok(())
}

/// Rendered content equal to what the file holds already needs no write
/// and no reload: re-delivery is cheap.
pub fn vhost_unchanged(previous: Option<&str>, content: &str) -> (r: bool)
    ensures
        r == (previous matches Some(p) && p@ == content@),
{
    match previous {
        Some(p) => equals_str(chars_of(p).as_slice(), content),
        None => false,
    }
}

/// A vhost that `nginx -t` rejects is rolled back: the previous file is
/// restored, or the new one removed when there was none.
pub enum Rollback {
    Restore(String),
    Delete,
}

pub fn rollback_for(previous: Option<String>) -> (r: Rollback)
    ensures
        match previous {
            Some(p) => r == Rollback::Restore(p),
            None => r is Delete,
        },
{
    match previous {
        Some(p) => Rollback::Restore(p),
        None => Rollback::Delete,
    }
}

pub fn rejected_by_test(test_error: &str) -> (r: String)
    ensures
        r@ == "vhost rejected by nginx -t (rolled back): "@ + test_error@,
{
    let mut m = string_from("vhost rejected by nginx -t (rolled back): ");
    push_str(&mut m, test_error);
    m
}

pub fn vhost_write_failure(path: &str, display: &str) -> (r: String)
    ensures
        r@ == "writing vhost "@ + path@ + " failed: "@ + display@ + " — run `sudo foundry-agent --setup-apps` on this server"@,
{
    let mut m = string_from("writing vhost ");
    push_str(&mut m, path);
    push_str(&mut m, " failed: ");
    push_str(&mut m, display);
    push_str(&mut m, " — run `sudo foundry-agent --setup-apps` on this server");
    m
}

pub fn vhost_removal_failure(path: &str, display: &str) -> (r: String)
    ensures
        r@ == "removing vhost "@ + path@ + " failed: "@ + display@,
{
    let mut m = string_from("removing vhost ");
    push_str(&mut m, path);
    push_str(&mut m, " failed: ");
    push_str(&mut m, display);
    m
}

} // verus!
