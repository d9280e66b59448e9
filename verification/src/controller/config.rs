//! The controller's configuration, from the values of its environment
//! variables (`None` for an unset variable): defaults, required values and
//! the normal forms of the apps domain and the admin emails. The listen
//! address is a socket address, parsed (and checked first) by the caller.

use crate::text::{
    chars_of, debug_quoted, debug_str, parse_unsigned, parse_unsigned_chars, push_str, split,
    split_chars, strip_both, strip_both_chars, strip_trailing, strip_trailing_chars, string_from,
    string_of, to_lowercase, trim, trim_chars, unicode_lowercase, views,
};
use vstd::prelude::*;

verus! {

pub const DEFAULT_PUBLIC_URL: &'static str = "https://foundry.cloudcraft.ro";

pub const DEFAULT_DB_MAX_CONNECTIONS: u32 = 10;

/// The environment variables the controller reads.
pub struct ConfigSource {
    pub database_url: Option<String>,
    pub db_max_connections: Option<String>,
    pub public_url: Option<String>,
    pub encryption_key: Option<String>,
    pub apps_domain: Option<String>,
    pub admin_emails: Option<String>,
}

pub struct ControllerConfig {
    pub database_url: String,
    pub db_max_connections: u32,
    /// The browser-facing origin, without trailing `/`.
    pub public_url: String,
    pub encryption_key: String,
    /// The admin emails, lowercased.
    pub admin_emails: Vec<String>,
    /// The wildcard apps domain; none disables HTTP/S publishing.
    pub apps_domain: Option<String>,
}

pub enum ConfigError {
    /// A required variable is not set.
    Missing(String),
    /// A variable's value does not parse.
    Invalid { name: String, value: String },
}

impl ConfigError {
    pub open spec fn message_spec(&self) -> Seq<char> {
        match self {
            ConfigError::Missing(n) => n@ + " is not set"@,
            ConfigError::Invalid { name, value } => "invalid "@ + name@ + ": "@ + debug_quoted(value@),
        }
    }

    pub fn message(&self) -> (r: String)
        ensures
            r@ == self.message_spec(),
    {
        match self {
            ConfigError::Missing(n) => {
                let mut m = string_from(n.as_str());
                push_str(&mut m, " is not set");
                m
            },
            ConfigError::Invalid { name, value } => {
                let mut m = string_from("invalid ");
                push_str(&mut m, name.as_str());
                push_str(&mut m, ": ");
                push_str(&mut m, debug_str(value.as_str()).as_str());
                m
            },
        }
    }
}

pub open spec fn opt_text(t: Option<String>) -> Option<Seq<char>> {
    match t {
        Some(s) => Some(s@),
        None => None,
    }
}

/// The apps domain: trimmed, without leading or trailing dots, lowercased;
/// none when nothing is left.
pub open spec fn apps_domain_of(raw: Option<Seq<char>>) -> Option<Seq<char>> {
    match raw {
        None => None,
        Some(r) => {
            let d = unicode_lowercase(strip_both(trim(r), '.'));
            if d.len() == 0 {
                None
            } else {
                Some(d)
            }
        },
    }
}

/// The admin emails of a comma-separated list: each trimmed and
/// lowercased, empty ones dropped.
pub open spec fn emails_of(parts: Seq<Seq<char>>) -> Seq<Seq<char>>
    decreases parts.len(),
{
    if parts.len() == 0 {
        Seq::empty()
    } else {
        let r = emails_of(parts.drop_last());
        let e = unicode_lowercase(trim(parts.last()));
        if e.len() == 0 {
            r
        } else {
            r.push(e)
        }
    }
}

pub open spec fn admin_emails_of(raw: Option<Seq<char>>) -> Seq<Seq<char>> {
    emails_of(
        split(
            match raw {
                Some(r) => r,
                None => Seq::empty(),
            },
            ',',
        ),
    )
}

/// The first problem of the environment, in the order the controller
/// reads it.
pub open spec fn config_refusal(src: ConfigSource) -> Option<Seq<char>> {
    if src.database_url is None {
        Some("DATABASE_URL"@ + " is not set"@)
    } else if src.db_max_connections matches Some(v) && parse_unsigned(v@, u32::MAX as nat) is None {
        Some("invalid "@ + "FOUNDRY_DB_MAX_CONNECTIONS"@ + ": "@ + debug_quoted(src.db_max_connections->0@))
    } else if src.encryption_key is None {
        Some("FOUNDRY_ENCRYPTION_KEY"@ + " is not set"@)
    } else {
        None
    }
}

fn apps_domain(raw: &Option<String>) -> (r: Option<String>)
    ensures
        opt_text(r) == apps_domain_of(opt_text(*raw)),
{
    match raw {
        None => None,
        Some(s) => {
            let t = trim_chars(chars_of(s.as_str()).as_slice());
            let stripped = string_of(strip_both_chars(t.as_slice(), '.').as_slice());
            let lower = to_lowercase(stripped.as_str());
            let lv = chars_of(lower.as_str());
            if lv.len() == 0 {
                None
            } else {
                Some(lower)
            }
        },
    }
}

fn admin_emails(raw: &Option<String>) -> (r: Vec<String>)
    ensures
        crate::encoding::string_seq(r@) == admin_emails_of(opt_text(*raw)),
{
    let text = match raw {
        Some(s) => chars_of(s.as_str()),
        None => Vec::new(),
    };
    assert(text@ == match opt_text(*raw) {
        Some(r) => r,
        None => Seq::<char>::empty(),
    });
    let parts = split_chars(text.as_slice(), ',');
    let ghost ps = views(parts@);
    let mut out: Vec<String> = Vec::new();
    let n = parts.len();
    for i in 0..n
        invariant
            n == parts@.len(),
            ps == views(parts@),
            ps == split(text@, ','),
            crate::encoding::string_seq(out@) == emails_of(ps.take(i as int)),
    {
        assert(ps.take(i + 1).drop_last() =~= ps.take(i as int));
        assert(ps.take(i + 1).last() == parts@[i as int]@);
        let t = string_of(trim_chars(parts[i].as_slice()).as_slice());
        let lower = to_lowercase(t.as_str());
        let lv = chars_of(lower.as_str());
        let ghost before = out@;
        if lv.len() > 0 {
            out.push(lower);
            assert(crate::encoding::string_seq(out@) =~= crate::encoding::string_seq(before).push(lv@));
        }
    }
    assert(ps.take(n as int) =~= ps);
    out
}

/// The configuration from the environment's values: the pool defaults to
/// 10 connections, the public URL
/// to the production origin (without trailing `/`); the database URL and
/// the encryption key are required.
pub fn config_from(src: &ConfigSource) -> (r: Result<ControllerConfig, ConfigError>)
    ensures
        match config_refusal(*src) {
            Some(m) => r matches Err(e) && e.message_spec() == m,
            None => r matches Ok(c) && {
                &&& c.database_url@ == src.database_url->0@
                &&& c.db_max_connections == match src.db_max_connections {
                    Some(v) => parse_unsigned(v@, u32::MAX as nat)->0 as u32,
                    None => DEFAULT_DB_MAX_CONNECTIONS,
                }
                &&& c.public_url@ == strip_trailing(
                    match src.public_url {
                        Some(u) => u@,
                        None => DEFAULT_PUBLIC_URL@,
                    },
                    '/',
                )
                &&& c.encryption_key@ == src.encryption_key->0@
                &&& opt_text(c.apps_domain) == apps_domain_of(opt_text(src.apps_domain))
                &&& crate::encoding::string_seq(c.admin_emails@) == admin_emails_of(opt_text(src.admin_emails))
            },
        },
{
    let database_url = match &src.database_url {
        Some(u) => string_from(u.as_str()),
        None => {
            return Err(ConfigError::Missing(string_from("DATABASE_URL")));
        },
    };
    let db_max_connections: u32 = match &src.db_max_connections {
        Some(v) => match parse_unsigned_chars(chars_of(v.as_str()).as_slice(), 0xffff_ffff) {
            Some(n) => n as u32,
            None => {
                return Err(
                    ConfigError::Invalid {
                        name: string_from("FOUNDRY_DB_MAX_CONNECTIONS"),
                        value: string_from(v.as_str()),
                    },
                );
            },
        },
        None => DEFAULT_DB_MAX_CONNECTIONS,
    };
    let public_raw = match &src.public_url {
        Some(u) => chars_of(u.as_str()),
        None => chars_of(DEFAULT_PUBLIC_URL),
    };
    let public_url = string_of(strip_trailing_chars(public_raw.as_slice(), '/').as_slice());
    let encryption_key = match &src.encryption_key {
        Some(k) => string_from(k.as_str()),
        None => {
            return Err(ConfigError::Missing(string_from("FOUNDRY_ENCRYPTION_KEY")));
        },
    };
    Ok(
        ControllerConfig {
            database_url,
            db_max_connections,
            public_url,
            encryption_key,
            admin_emails: admin_emails(&src.admin_emails),
            apps_domain: apps_domain(&src.apps_domain),
        },
    )
}

} // verus!
