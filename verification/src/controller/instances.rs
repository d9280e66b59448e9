//! GitLab instance records: URL normalization and the request shapes.

use crate::controller::error::AppError;
use crate::text::{
    chars_of, push_str, starts_with, starts_with_seq, strip_trailing, strip_trailing_chars,
    string_from, string_of, trim, trim_chars, utf8_len, utf8_length,
};
use vstd::prelude::*;

verus! {

/// A new GitLab instance, as an operator registers it.
pub struct NewInstance<'a> {
    pub name: &'a str,
    pub base_url: &'a str,
    pub registry_url: &'a str,
    pub oauth_client_id: &'a str,
    pub oauth_client_secret: &'a str,
}

/// An edit of an instance; `oauth_client_secret: None` keeps the stored
/// secret.
pub struct InstanceUpdate<'a> {
    pub name: &'a str,
    pub base_url: &'a str,
    pub registry_url: &'a str,
    pub oauth_client_id: &'a str,
    pub oauth_client_secret: Option<&'a str>,
    pub enabled: bool,
}

/// The URL with white space and trailing `/`s removed.
pub open spec fn url_core(raw: Seq<char>) -> Seq<char> {
    strip_trailing(trim(raw), '/')
}

/// An instance URL is https and at least 12 bytes long.
pub open spec fn acceptable_url(u: Seq<char>) -> bool {
    starts_with(u, "https://"@) && utf8_len(u) >= 12
}

/// Normalizes and checks an instance URL (https, no trailing `/`); `field`
/// names it in the error.
pub fn normalize_url(raw: &str, field: &str) -> (r: Result<String, AppError>)
    ensures
        r is Ok <==> acceptable_url(url_core(raw@)),
        r matches Ok(u) ==> u@ == url_core(raw@),
        r matches Err(e) ==> e matches AppError::BadRequest(m) && m@ == field@
            + " must be an https:// URL"@,
{
    let rv = chars_of(raw);
    let t = trim_chars(rv.as_slice());
    let u = strip_trailing_chars(t.as_slice(), '/');
    let https = chars_of("https://");
    if !starts_with_seq(u.as_slice(), https.as_slice()) || utf8_length(u.as_slice()) < 12 {
        let mut m = string_from(field);
        push_str(&mut m, " must be an https:// URL");
        return Err(AppError::BadRequest(m));
    }
    Ok(string_of(u.as_slice()))
}

} // verus!
