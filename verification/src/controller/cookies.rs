//! The portal's two cookies: `foundry_session`, an opaque random token whose
//! state lives on the server, and `foundry_oauth`, the sealed pending
//! sign-in that only lives across the GitLab redirect. Each is built here
//! with every attribute it is sent with.

use crate::controller::crypto::{SecretBox, MAX_PLAINTEXT};
use crate::controller::login::{login_state_opened, seal_login_state, LOGIN_TTL_SECS, SESSION_TTL_DAYS};
use crate::text::string_from;
use vstd::prelude::*;

verus! {

pub const SESSION_COOKIE: &'static str = "foundry_session";

pub const OAUTH_COOKIE: &'static str = "foundry_oauth";

/// Seconds in a day.
pub const DAY_SECS: i64 = 86400;

/// The `SameSite` policy a cookie is sent with.
#[derive(Debug, Clone, Copy, PartialEq, Eq, Structural)]
pub enum SameSite {
    Strict,
    Lax,
}

/// A cookie to set: its name and value and the attributes it carries.
/// `max_age_secs` of 0 tells the browser to drop it.
pub struct Cookie {
    pub name: String,
    pub value: String,
    pub path: String,
    pub http_only: bool,
    pub secure: bool,
    pub same_site: SameSite,
    pub max_age_secs: i64,
}

/// Every cookie of the portal is HTTP-only, sent over TLS only, `Lax`, and
/// scoped to `path`.
pub open spec fn cookie_is(
    c: Cookie,
    name: Seq<char>,
    value: Seq<char>,
    path: Seq<char>,
    max_age_secs: int,
) -> bool {
    &&& c.name@ == name
    &&& c.value@ == value
    &&& c.path@ == path
    &&& c.http_only
    &&& c.secure
    &&& c.same_site == SameSite::Lax
    &&& c.max_age_secs == max_age_secs
}

fn base(name: &str, value: String, path: &str, max_age_secs: i64) -> (c: Cookie)
    ensures
        cookie_is(c, name@, value@, path@, max_age_secs as int),
{
    Cookie {
        name: string_from(name),
        value,
        path: string_from(path),
        http_only: true,
        secure: true,
        same_site: SameSite::Lax,
        max_age_secs,
    }
}

/// The session cookie: the token, for the whole site, for a week.
pub fn session_cookie(token: String) -> (c: Cookie)
    ensures
        cookie_is(c, SESSION_COOKIE@, token@, "/"@, SESSION_TTL_DAYS * DAY_SECS),
{
    base(SESSION_COOKIE, token, "/", SESSION_TTL_DAYS * DAY_SECS)
}

/// Signing out: an empty session cookie that expires at once.
pub fn clear_session_cookie() -> (c: Cookie)
    ensures
        cookie_is(c, SESSION_COOKIE@, Seq::empty(), "/"@, 0),
{
    base(SESSION_COOKIE, String::new(), "/", 0)
}

/// The pending sign-in, serialized by the caller, sealed into the value of
/// a cookie scoped to `/auth` that lives as long as the sign-in may take:
/// `read_oauth_cookie` opens the value to the same bytes.
pub fn oauth_cookie(secrets: &SecretBox, pending: &[u8]) -> (c: Cookie)
    requires
        secrets.wf(),
        pending@.len() <= MAX_PLAINTEXT,
        pending@.len() + 28 <= usize::MAX / 4,
    ensures
        c.name@ == OAUTH_COOKIE@,
        login_state_opened(*secrets, c.value@) == Some(pending@),
        cookie_is(c, OAUTH_COOKIE@, c.value@, "/auth"@, LOGIN_TTL_SECS as int),
{
    let value = seal_login_state(secrets, pending);
    base(OAUTH_COOKIE, value, "/auth", LOGIN_TTL_SECS)
}

/// Dropping the sign-in state once the redirect came back.
pub fn clear_oauth_cookie() -> (c: Cookie)
    ensures
        cookie_is(c, OAUTH_COOKIE@, Seq::empty(), "/auth"@, 0),
{
    base(OAUTH_COOKIE, String::new(), "/auth", 0)
}

} // verus!
