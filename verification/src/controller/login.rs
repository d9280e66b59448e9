//! GitLab sign-in: the encrypted state that crosses the OAuth redirect, the
//! checks on the callback, and when an access token must be refreshed.

use crate::controller::crypto::{SecretBox, MAX_PLAINTEXT};
use crate::controller::error::AppError;
use crate::encoding::{base64_url_decode, base64_url_decoded, base64_url_encode, base64_url_encoded};
use crate::shared::{truncate, truncated};
use crate::text::{chars_of, concat3, push_str, string_from};
use vstd::prelude::*;

verus! {

/// The scopes every sign-in asks for.
pub const SCOPES: [&'static str; 5] = ["openid", "profile", "email", "read_api", "read_registry"];

/// Seconds a pending sign-in stays valid.
pub const LOGIN_TTL_SECS: i64 = 600;

/// What a login-state cookie value opens to.
pub open spec fn login_state_opened(secrets: SecretBox, value: Seq<char>) -> Option<Seq<u8>> {
    match base64_url_decoded(value) {
        Some(raw) => secrets.opened(raw),
        None => None,
    }
}

/// Seals the serialized pending sign-in for its cookie: encrypted, then
/// URL-safe base64.
pub fn seal_login_state(secrets: &SecretBox, state: &[u8]) -> (r: String)
    requires
        secrets.wf(),
        state@.len() <= MAX_PLAINTEXT,
        state@.len() + 28 <= usize::MAX / 4,
    ensures
        login_state_opened(*secrets, r@) == Some(state@),
{
    let sealed = secrets.encrypt(state);
    assert(sealed@.len() <= usize::MAX / 4);
    base64_url_encode(sealed.as_slice())
}

/// Opens a login-state cookie; anything that does not decode and decrypt
/// is `malformed login state`.
pub fn read_oauth_cookie(secrets: &SecretBox, value: &str) -> (r: Result<Vec<u8>, AppError>)
    requires
        secrets.wf(),
    ensures
        match login_state_opened(*secrets, value@) {
            Some(p) => r matches Ok(b) && b@ == p,
            None => r matches Err(e) && e matches AppError::BadRequest(m) && m@ == "malformed login state"@,
        },
{
    let raw = match base64_url_decode(value) {
        Some(raw) => raw,
        None => return Err(AppError::BadRequest(string_from("malformed login state"))),
    };
    match secrets.decrypt(raw.as_slice()) {
        Ok(p) => Ok(p),
        Err(_) => Err(AppError::BadRequest(string_from("malformed login state"))),
    }
}

/// A pending sign-in older than ten minutes has expired.
pub fn login_expired(started_at: i64, now: i64) -> (r: bool)
    ensures
        r == (now - started_at > LOGIN_TTL_SECS),
{
    (now as i128) - (started_at as i128) > (LOGIN_TTL_SECS as i128)
}

/// What GitLab hands back on the callback URL.
pub struct CallbackQuery {
    pub code: Option<String>,
    pub state: Option<String>,
    pub error: Option<String>,
    pub error_description: Option<String>,
}

pub open spec fn refusal_message(error: Seq<char>, description: Option<String>) -> Seq<char> {
    "GitLab refused the authorization: "@ + error + " "@ + match description {
        Some(d) => d@,
        None => Seq::empty(),
    }
}

/// The callback's checks before the pending sign-in is read: GitLab's own
/// refusal, then a missing code, a missing state, a missing login cookie.
/// Returns the code and the state GitLab returned.
pub fn check_callback(q: &CallbackQuery, has_login_cookie: bool) -> (r: Result<(String, String), AppError>)
    ensures
        q.error matches Some(e) ==> (r matches Err(x) && x matches AppError::BadRequest(m) && m@
            == refusal_message(e@, q.error_description)),
        q.error is None && q.code is None ==> (r matches Err(x) && x matches AppError::BadRequest(m) && m@
            == "missing authorization code"@),
        q.error is None && q.code is Some && q.state is None ==> (r matches Err(x) && x matches AppError::BadRequest(
            m,
        ) && m@ == "missing state"@),
        q.error is None && q.code is Some && q.state is Some && !has_login_cookie ==> (r matches Err(x)
            && x matches AppError::BadRequest(m) && m@ == "no pending login"@),
        r is Ok <==> (q.error is None && q.code is Some && q.state is Some && has_login_cookie),
        r matches Ok(p) ==> p.0@ == q.code->0@ && p.1@ == q.state->0@,
{
    if let Some(e) = &q.error {
        let mut m = concat3("GitLab refused the authorization: ", e.as_str(), " ");
        match &q.error_description {
            Some(d) => push_str(&mut m, d.as_str()),
            None => {},
        }
        assert(m@ =~= refusal_message(e@, q.error_description));
        return Err(AppError::BadRequest(m));
    }
    let code = match &q.code {
        Some(c) => c,
        None => return Err(AppError::BadRequest(string_from("missing authorization code"))),
    };
    let state = match &q.state {
        Some(s) => s,
        None => return Err(AppError::BadRequest(string_from("missing state"))),
    };
    if !has_login_cookie {
        return Err(AppError::BadRequest(string_from("no pending login")));
    }
    Ok((string_from(code.as_str()), string_from(state.as_str())))
}

/// The checks on the pending sign-in read from the cookie: it must not have
/// expired, and the state GitLab returned must be the one it carries.
pub fn check_pending_login(started_at: i64, now: i64, csrf: &str, returned_state: &str) -> (r: Result<(), AppError>)
    ensures
        now - started_at > LOGIN_TTL_SECS ==> (r matches Err(x) && x matches AppError::BadRequest(m) && m@
            == "login attempt expired, retry"@),
        now - started_at <= LOGIN_TTL_SECS && csrf@ != returned_state@ ==> (r matches Err(x)
            && x matches AppError::BadRequest(m) && m@ == "state mismatch"@),
        r is Ok <==> (now - started_at <= LOGIN_TTL_SECS && csrf@ == returned_state@),
{
    if login_expired(started_at, now) {
        return Err(AppError::BadRequest(string_from("login attempt expired, retry")));
    }
    if !crate::text::equals_str(chars_of(csrf).as_slice(), returned_state) {
        return Err(AppError::BadRequest(string_from("state mismatch")));
    }
    Ok(())
}

/// Whether a stored access token is refreshed before use: only when it
/// expires within the next minute and a refresh token exists.
pub open spec fn needs_refresh_spec(expires_at: Option<i64>, now: i64, has_refresh_token: bool) -> bool {
    has_refresh_token && match expires_at {
        Some(t) => t - now < 60,
        None => false,
    }
}

pub fn needs_refresh(expires_at: Option<i64>, now: i64, has_refresh_token: bool) -> (r: bool)
    ensures
        r == needs_refresh_spec(expires_at, now, has_refresh_token),
{
    if !has_refresh_token {
        return false;
    }
    match expires_at {
        Some(t) => (t as i128) - (now as i128) < 60,
        None => false,
    }
}

/// The URL that mints a registry pull token for a repository.
pub fn registry_token_url(base_url: &str, repo_path: &str) -> (r: String)
    ensures
        r@ == base_url@ + "/jwt/auth?service=container_registry&scope=repository:"@ + repo_path@ + ":pull"@,
{
    let mut s = string_from(base_url);
    push_str(&mut s, "/jwt/auth?service=container_registry&scope=repository:");
    push_str(&mut s, repo_path);
    push_str(&mut s, ":pull");
    s
}

/// Days a portal session lives.
pub const SESSION_TTL_DAYS: i64 = 7;

/// The user agent a session records: at most 255 characters.
pub fn session_user_agent(user_agent: Option<&str>) -> (r: Option<String>)
    ensures
        match user_agent {
            Some(u) => r matches Some(s) && s@ == truncated(u@, 255),
            None => r is None,
        },
{
    match user_agent {
        Some(u) => Some(truncate(u, 255)),
        None => None,
    }
}

/// Operator-only endpoints refuse a signed-in user who is not an admin.
pub fn require_admin(is_admin: bool) -> (r: Result<(), AppError>)
    ensures
        r is Ok <==> is_admin,
        r matches Err(e) ==> e is Forbidden,
{
    if is_admin {
        Ok(())
    } else {
        Err(AppError::Forbidden)
    }
}

} // verus!