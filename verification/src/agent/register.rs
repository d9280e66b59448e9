//! Enrollment: the arguments of `--register` and the systemd unit the
//! agent installs for itself.

use crate::text::{
    chars_of, push_str, slice_chars, split, split_chars, starts_with, starts_with_seq, string_from,
    string_of, strip_both, strip_both_chars, trim, trim_chars, views,
};
use vstd::prelude::*;

verus! {

pub const INSTALL_PATH: &'static str = "/usr/local/bin/foundry-agent";

pub const SERVICE_USER: &'static str = "foundry-agent";

/// Capabilities the setuid sudo child may still gain: the agent's own
/// plus what sudo needs to run the two permitted nginx commands.
pub const CAPABILITY_BOUNDING_SET: &'static str =
    "CAP_DAC_OVERRIDE CAP_SETUID CAP_SETGID CAP_AUDIT_WRITE";

/// The only capability the agent holds itself.
pub const AMBIENT_CAPABILITIES: &'static str = "CAP_DAC_OVERRIDE";

pub struct RegisterArgs {
    pub url: String,
    pub token: String,
    /// The token is a reusable fleet key rather than a server-bound one.
    pub fleet: bool,
    pub force: bool,
}

pub open spec fn unit_head() -> Seq<char> {
    "# Written by `foundry-agent --register` / `--setup-apps` (source of truth:\n# deployment/systemd/foundry-agent.service in the foundry repo).\n[Unit]\nDescription=Foundry GPU server agent\nAfter=network-online.target docker.service\nWants=network-online.target\n\n[Service]\nType=simple\nUser=foundry-agent\nGroup=foundry-agent\n"@
}

pub open spec fn unit_tail() -> Seq<char> {
    "ExecStart=/usr/local/bin/foundry-agent\nEnvironment=FOUNDRY_LOG_FORMAT=json\nRestart=on-failure\nRestartSec=5\nTimeoutStopSec=45\nCapabilityBoundingSet="@
        + CAPABILITY_BOUNDING_SET@ + "\nAmbientCapabilities="@ + AMBIENT_CAPABILITIES@
        + "\nProtectSystem=full\nProtectHome=yes\nPrivateTmp=yes\nReadWritePaths=/etc/foundry-agent /etc/nginx/foundry-apps /storage/containers\n\n[Install]\nWantedBy=multi-user.target\n"@
}

/// The unit file; `supplementary` is the `SupplementaryGroups=` line for
/// the groups that exist on the host (or nothing).
pub fn render_unit(supplementary: &str) -> (r: String)
    ensures
        r@ == unit_head() + supplementary@ + unit_tail(),
{
    let mut out = string_from(
        "# Written by `foundry-agent --register` / `--setup-apps` (source of truth:\n# deployment/systemd/foundry-agent.service in the foundry repo).\n[Unit]\nDescription=Foundry GPU server agent\nAfter=network-online.target docker.service\nWants=network-online.target\n\n[Service]\nType=simple\nUser=foundry-agent\nGroup=foundry-agent\n",
    );
    push_str(&mut out, supplementary);
    push_str(
        &mut out,
        "ExecStart=/usr/local/bin/foundry-agent\nEnvironment=FOUNDRY_LOG_FORMAT=json\nRestart=on-failure\nRestartSec=5\nTimeoutStopSec=45\nCapabilityBoundingSet=",
    );
    push_str(&mut out, CAPABILITY_BOUNDING_SET);
    push_str(&mut out, "\nAmbientCapabilities=");
    push_str(&mut out, AMBIENT_CAPABILITIES);
    push_str(
        &mut out,
        "\nProtectSystem=full\nProtectHome=yes\nPrivateTmp=yes\nReadWritePaths=/etc/foundry-agent /etc/nginx/foundry-apps /storage/containers\n\n[Install]\nWantedBy=multi-user.target\n",
    );
    out
}

/// The `SupplementaryGroups=` line for the host groups that exist, in the
/// order given; empty when none does.
pub open spec fn supplementary_line(groups: Seq<Seq<char>>) -> Seq<char> {
    if groups.len() == 0 {
        Seq::empty()
    } else {
        "SupplementaryGroups="@ + crate::text::join(groups, " "@) + "\n"@
    }
}

pub fn supplementary_groups(groups: &Vec<Vec<char>>) -> (r: String)
    ensures
        r@ == supplementary_line(crate::text::views(groups@)),
{
    if groups.len() == 0 {
        return String::new();
    }
    let mut out = string_from("SupplementaryGroups=");
    let sep = [' '];
    let joined = crate::text::join_chars(groups, sep.as_slice());
    proof {
        reveal_strlit(" ");
    }
    assert(sep@ =~= " "@);
    push_str(&mut out, crate::text::string_of(joined.as_slice()).as_str());
    push_str(&mut out, "\n");
    out
}

/// Where the enrollment request goes: the fleet endpoint for a fleet key,
/// otherwise the single-use token endpoint, below the controller's URL
/// without trailing `/`.
pub open spec fn enroll_url_spec(controller_url: Seq<char>, fleet: bool) -> Seq<char> {
    crate::text::strip_trailing(controller_url, '/') + if fleet {
        "/agent/enroll/fleet"@
    } else {
        "/agent/enroll"@
    }
}

pub fn enroll_url(controller_url: &str, fleet: bool) -> (r: String)
    ensures
        r@ == enroll_url_spec(controller_url@, fleet),
{
    let base = crate::text::strip_trailing_chars(chars_of(controller_url).as_slice(), '/');
    let mut out = string_of(base.as_slice());
    if fleet {
        push_str(&mut out, "/agent/enroll/fleet");
    } else {
        push_str(&mut out, "/agent/enroll");
    }
    out
}

/// Why an enrollment was refused, with what the operator should do next.
pub open spec fn rejection_text(status: Seq<char>, body: Seq<char>, fleet: bool) -> Seq<char> {
    "enrollment rejected ("@ + status + "): "@ + body + " — "@ + if fleet {
        "fleet keys expire and have a use budget — mint a fresh one in the Foundry UI"@
    } else {
        "tokens are single-use; generate a fresh one in the Foundry UI"@
    }
}

pub fn enrollment_rejection(status: &str, body: &str, fleet: bool) -> (r: String)
    ensures
        r@ == rejection_text(status@, body@, fleet),
{
    let mut m = string_from("enrollment rejected (");
    push_str(&mut m, status);
    push_str(&mut m, "): ");
    push_str(&mut m, body);
    push_str(&mut m, " — ");
    if fleet {
        push_str(&mut m, "fleet keys expire and have a use budget — mint a fresh one in the Foundry UI");
    } else {
        push_str(&mut m, "tokens are single-use; generate a fresh one in the Foundry UI");
    }
    m
}

/// A server is enrolled once: re-enrolling over an existing config needs
/// `--force`.
pub fn check_not_enrolled(config_exists: bool, force: bool, config_path: &str) -> (r: Result<(), String>)
    ensures
        r is Ok <==> (!config_exists || force),
        r matches Err(m) ==> m@ == "already enrolled ("@ + config_path@
            + " exists) — pass --force to re-enroll with a new token"@,
{
    if config_exists && !force {
        let mut m = string_from("already enrolled (");
        push_str(&mut m, config_path);
        push_str(&mut m, " exists) — pass --force to re-enroll with a new token");
        return Err(m);
    }
    Ok(())
}

/// The host name as the kernel reports it, trimmed; `unknown` when it
/// could not be read.
pub fn hostname_from(kernel_hostname: Option<&str>) -> (r: String)
    ensures
        r@ == match kernel_hostname {
            Some(h) => trim(h@),
            None => "unknown"@,
        },
{
    match kernel_hostname {
        Some(h) => string_of(trim_chars(chars_of(h).as_slice()).as_slice()),
        None => string_from("unknown"),
    }
}

/// The value of the first `PRETTY_NAME=` line of `/etc/os-release`,
/// without surrounding quotes.
pub open spec fn pretty_name_from(lines: Seq<Seq<char>>, i: int) -> Option<Seq<char>>
    decreases lines.len() - i,
{
    if i < 0 || i >= lines.len() {
        None
    } else if starts_with(lines[i], "PRETTY_NAME="@) {
        Some(strip_both(lines[i].skip(12), '"'))
    } else {
        pretty_name_from(lines, i + 1)
    }
}

/// The lines of a text as `str::lines` gives them: split at `\n`, a final
/// empty piece dropped, a `\r` before each `\n` removed.
pub open spec fn text_lines(text: Seq<char>) -> Seq<Seq<char>> {
    let parts = split(text, '\n');
    let kept = if parts.len() > 0 && parts.last().len() == 0 {
        parts.drop_last()
    } else {
        parts
    };
    kept.map_values(|l: Seq<char>| strip_cr(l))
}

/// A line without the `\r` of a `\r\n` ending.
pub open spec fn strip_cr(l: Seq<char>) -> Seq<char> {
    if l.len() > 0 && l.last() == '\r' {
        l.drop_last()
    } else {
        l
    }
}

fn strip_cr_exec(l: &[char]) -> (r: Vec<char>)
    ensures
        r@ == strip_cr(l@),
{
    if l.len() > 0 && l[l.len() - 1] == '\r' {
        let r = slice_chars(l, 0, l.len() - 1);
        assert(r@ =~= l@.drop_last());
        r
    } else {
        let r = slice_chars(l, 0, l.len());
        assert(r@ =~= l@);
        r
    }
}

pub fn os_pretty_name(os_release: &str) -> (r: Option<String>)
    ensures
        match r {
            Some(s) => pretty_name_from(text_lines(os_release@), 0) == Some(s@),
            None => pretty_name_from(text_lines(os_release@), 0) is None,
        },
{
    let parts = split_chars(chars_of(os_release).as_slice(), '\n');
    let ghost lines = text_lines(os_release@);
    let n_parts = parts.len();
    let n = if n_parts > 0 && parts[n_parts - 1].len() == 0 {
        n_parts - 1
    } else {
        n_parts
    };
    assert(lines.len() == n);
    let prefix = chars_of("PRETTY_NAME=");
    proof {
        reveal_strlit("PRETTY_NAME=");
    }
    assert(prefix@.len() == 12);
    let mut i: usize = 0;
    while i < n
        invariant
            i <= n <= parts@.len(),
            lines.len() == n,
            lines == text_lines(os_release@),
            views(parts@) == split(os_release@, '\n'),
            forall|k: int| 0 <= k < n ==> lines[k] == strip_cr(#[trigger] views(parts@)[k]),
            prefix@ == "PRETTY_NAME="@,
            prefix@.len() == 12,
            pretty_name_from(lines, 0) == pretty_name_from(lines, i as int),
        decreases n - i,
    {
        let line = strip_cr_exec(parts[i].as_slice());
        assert(line@ == lines[i as int]) by {
            assert(views(parts@)[i as int] == parts@[i as int]@);
        }
        if starts_with_seq(line.as_slice(), prefix.as_slice()) {
            let rest = slice_chars(line.as_slice(), 12, line.len());
            assert(rest@ =~= line@.skip(12));
            return Some(string_of(strip_both_chars(rest.as_slice(), '"').as_slice()));
        }
        i = i + 1;
    }
    None
}

} // verus!
