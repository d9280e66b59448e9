//! GitLab accounts of portal users: who is made an admin at login, and how
//! account tokens are sealed for storage and opened for use.

use crate::controller::crypto::{SecretBox, MAX_PLAINTEXT};
use crate::controller::error::AppError;
use crate::encoding::{string_seq, utf8_decoded};
use crate::seqs::lemma_filter_step;
use crate::text::{chars_of, to_lowercase, unicode_lowercase};
use vstd::prelude::*;
use vstd::string::StringSliceAdditionalSpecFns;

verus! {

/// A login makes the user an admin when the email GitLab reports is, in
/// lowercase, one of the configured admin emails.
pub fn email_is_admin(email: Option<&str>, admin_emails: &Vec<String>) -> (r: bool)
    ensures
        r == (email matches Some(e) && string_seq(admin_emails@).contains(unicode_lowercase(e@))),
{
    let e = match email {
        Some(e) => e,
        None => return false,
    };
    let lower = to_lowercase(e);
    let lv = chars_of(lower.as_str());
    let n = admin_emails.len();
    let mut i: usize = 0;
    while i < n
        invariant
            i <= n == admin_emails@.len(),
            lv@ == unicode_lowercase(e@),
            email == Some(e),
            forall|k: int| 0 <= k < i ==> (#[trigger] admin_emails@[k])@ != unicode_lowercase(e@),
        decreases n - i,
    {
        let a = admin_emails[i].as_str();
        assert(a@ == admin_emails@[i as int]@);
        if crate::text::equals_str(lv.as_slice(), a) {
            assert(string_seq(admin_emails@)[i as int] == admin_emails@[i as int]@);
            assert(string_seq(admin_emails@)[i as int] == unicode_lowercase(e@));
            assert(string_seq(admin_emails@).contains(unicode_lowercase(e@)));
            return true;
        }
        i = i + 1;
    }
    assert forall|k: int| 0 <= k < string_seq(admin_emails@).len() implies string_seq(admin_emails@)[k]
        != unicode_lowercase(e@) by {
        assert(string_seq(admin_emails@)[k] == admin_emails@[k]@);
    }
    false
}

/// A user's admin flag after a login: admin status is granted when the
/// email GitLab reports is an admin email, and never revoked. `previous`
/// is the flag of an existing user (none for a new one).
pub fn admin_after_login(previous: Option<bool>, email: Option<&str>, admin_emails: &Vec<String>) -> (r: bool)
    ensures
        r == (previous == Some(true) || (email matches Some(e) && string_seq(admin_emails@).contains(
            unicode_lowercase(e@),
        ))),
        previous == Some(true) ==> r,
{
    let granted = email_is_admin(email, admin_emails);
    match previous {
        Some(true) => true,
        _ => granted,
    }
}

/// The tokens of an account as stored: each sealed by the secret box.
pub fn seal_tokens(secrets: &SecretBox, access_token: &str, refresh_token: Option<&str>) -> (r: (
    Vec<u8>,
    Option<Vec<u8>>,
))
    requires
        secrets.wf(),
        access_token.spec_bytes().len() <= MAX_PLAINTEXT,
        refresh_token matches Some(t) ==> t.spec_bytes().len() <= MAX_PLAINTEXT,
    ensures
        secrets.opened(r.0@) == Some(access_token.spec_bytes()),
        match refresh_token {
            Some(t) => r.1 matches Some(c) && secrets.opened(c@) == Some(t.spec_bytes()),
            None => r.1 is None,
        },
{
    let access = secrets.encrypt_str(access_token);
    let refresh = match refresh_token {
        Some(t) => Some(secrets.encrypt_str(t)),
        None => None,
    };
    (access, refresh)
}

/// A stored account row of an enabled instance.
pub struct AccountRow {
    pub account_id: u128,
    pub instance_id: u128,
    pub access_token: Option<Vec<u8>>,
    pub refresh_token: Option<Vec<u8>>,
    pub expires_at: Option<i64>,
}

/// An account's tokens, opened for use.
pub struct AccountTokens {
    pub account_id: u128,
    pub instance_id: u128,
    pub access_token: String,
    pub refresh_token: Option<String>,
    pub expires_at: Option<i64>,
}

/// The text a sealed token opens to, if it opens and is UTF-8.
pub open spec fn text_opened(secrets: SecretBox, sealed: Seq<u8>) -> Option<Seq<char>> {
    match secrets.opened(sealed) {
        Some(p) => utf8_decoded(p),
        None => None,
    }
}

pub open spec fn has_access(r: AccountRow) -> bool {
    r.access_token is Some
}

pub open spec fn access_pred() -> spec_fn(AccountRow) -> bool {
    |r: AccountRow| has_access(r)
}

/// Whether every token of an account row opens.
pub open spec fn row_opens(secrets: SecretBox, r: AccountRow) -> bool {
    &&& text_opened(secrets, r.access_token->0@) is Some
    &&& r.refresh_token matches Some(c) ==> text_opened(secrets, c@) is Some
}

/// `t` is row `r` with its tokens opened.
pub open spec fn opened_row(secrets: SecretBox, t: AccountTokens, r: AccountRow) -> bool {
    &&& t.account_id == r.account_id
    &&& t.instance_id == r.instance_id
    &&& Some(t.access_token@) == text_opened(secrets, r.access_token->0@)
    &&& match r.refresh_token {
        Some(c) => t.refresh_token matches Some(s) && Some(s@) == text_opened(secrets, c@),
        None => t.refresh_token is None,
    }
    &&& t.expires_at == r.expires_at
}

/// The tokens of a user's accounts, opened: accounts without a stored
/// access token are skipped; a token that does not open is an internal
/// error.
pub fn open_account_tokens(secrets: &SecretBox, rows: &Vec<AccountRow>) -> (r: Result<Vec<AccountTokens>, AppError>)
    requires
        secrets.wf(),
    ensures
        r is Ok <==> forall|k: int| 0 <= k < rows@.len() && has_access(#[trigger] rows@[k]) ==> row_opens(*secrets, rows@[k]),
        r matches Ok(v) ==> v@.len() == rows@.filter(access_pred()).len() && forall|t: int|
            0 <= t < v@.len() ==> opened_row(*secrets, #[trigger] v@[t], rows@.filter(access_pred())[t]),
        r matches Err(e) ==> e is Internal,
{
    let ghost pred = access_pred();
    let mut out: Vec<AccountTokens> = Vec::new();
    let n = rows.len();
    let mut i: usize = 0;
    assert(rows@.take(0).filter(pred) =~= Seq::<AccountRow>::empty()) by {
        reveal(Seq::filter);
    }
    while i < n
        invariant
            i <= n == rows@.len(),
            secrets.wf(),
            pred == access_pred(),
            forall|k: int| 0 <= k < i && has_access(#[trigger] rows@[k]) ==> row_opens(*secrets, rows@[k]),
            out@.len() == rows@.take(i as int).filter(pred).len(),
            forall|t: int| 0 <= t < out@.len() ==> opened_row(*secrets, #[trigger] out@[t], rows@.take(i as int).filter(pred)[t]),
        decreases n - i,
    {
        proof {
            lemma_filter_step(rows@, pred, i as int);
        }
        let row = &rows[i];
        if let Some(access_ct) = &row.access_token {
            let access = match secrets.decrypt_str(access_ct.as_slice()) {
                Ok(s) => s,
                Err(e) => return Err(AppError::Internal(e.message())),
            };
            let refresh = match &row.refresh_token {
                Some(c) => match secrets.decrypt_str(c.as_slice()) {
                    Ok(s) => Some(s),
                    Err(e) => return Err(AppError::Internal(e.message())),
                },
                None => None,
            };
            let t = AccountTokens {
                account_id: row.account_id,
                instance_id: row.instance_id,
                access_token: access,
                refresh_token: refresh,
                expires_at: row.expires_at,
            };
            let ghost prev = out@;
            out.push(t);
            proof {
                let f = rows@.take(i + 1).filter(pred);
                let f0 = rows@.take(i as int).filter(pred);
                assert(f == f0.push(rows@[i as int]));
                assert forall|q: int| 0 <= q < out@.len() implies opened_row(*secrets, #[trigger] out@[q], f[q]) by {
                    if q < out@.len() - 1 {
                        assert(out@[q] == prev[q]);
                        assert(f[q] == f0[q]);
                    }
                }
            }
        } else {
            assert(!pred(rows@[i as int]));
        }
        i = i + 1;
    }
    assert(rows@.take(n as int) =~= rows@);
    Ok(out)
}

/// The account a user holds on an instance (the first listed); a user
/// without one may not act on that instance's projects.
pub fn account_for_instance(accounts: &Vec<AccountTokens>, instance_id: u128) -> (r: Result<usize, AppError>)
    ensures
        match r {
            Ok(i) => i < accounts@.len() && accounts@[i as int].instance_id == instance_id && forall|k: int|
                0 <= k < i ==> (#[trigger] accounts@[k]).instance_id != instance_id,
            Err(e) => e is Forbidden && forall|k: int| 0 <= k < accounts@.len() ==> (#[trigger] accounts@[k]).instance_id != instance_id,
        },
{
    let n = accounts.len();
    let mut i: usize = 0;
    while i < n
        invariant
            i <= n == accounts@.len(),
            forall|k: int| 0 <= k < i ==> (#[trigger] accounts@[k]).instance_id != instance_id,
        decreases n - i,
    {
        if accounts[i].instance_id == instance_id {
            return Ok(i);
        }
        i = i + 1;
    }
    Err(AppError::Forbidden)
}

} // verus!