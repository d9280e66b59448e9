//! Local operator accounts: the password policy, argon2id hashing of
//! credentials and the sign-in decision.

use crate::controller::error::AppError;
use crate::text::{chars_of, string_from, utf8_len, utf8_length};
use argon2::password_hash::rand_core::OsRng;
use argon2::password_hash::{PasswordHash, PasswordHasher, PasswordVerifier, SaltString};
use argon2::Argon2;
use vstd::prelude::*;

verus! {

pub const MIN_PASSWORD_LEN: usize = 12;

/// Longest password, in bytes, that argon2 hashes (its `MAX_PWD_LEN`).
pub const ARGON2_MAX_PASSWORD_LEN: u64 = 4294967295;

/// Whether `password` matches the PHC-format argon2 hash `hash`, as
/// `argon2::Argon2::verify_password` decides after `PasswordHash::new`
/// has parsed the hash (false where it does not parse).
pub uninterp spec fn argon2_verifies(hash: Seq<char>, password: Seq<char>) -> bool;

/// A password must be at least 12 bytes long.
pub fn validate_password(password: &str) -> (r: Result<(), AppError>)
    ensures
        r is Ok <==> utf8_len(password@) >= MIN_PASSWORD_LEN,
        r matches Err(e) ==> e matches AppError::BadRequest(m) && m@
            == "password must be at least 12 characters"@,
{
    let v = chars_of(password);
    if utf8_length(v.as_slice()) < MIN_PASSWORD_LEN {
        return Err(AppError::BadRequest(string_from("password must be at least 12 characters")));
    }
    Ok(())
}

/// Calls `Argon2::default().hash_password` (argon2id, default cost) on the
/// password's bytes with a salt that `SaltString::generate` draws from the
/// operating system, and renders the PHC string. Claimed: a hash that comes
/// back verifies against the same password (what `verify_password` is
/// documented to check), and with the default parameters and a generated
/// 16-byte salt it fails exactly on a password longer than `MAX_PWD_LEN`
/// bytes (`PwdTooLong`), so a shorter one always hashes. The salt, and so the
/// string itself, is random and left unsaid; an error comes back as its text.
#[verifier::external_body]
fn argon2_hash(password: &str) -> (r: Result<String, String>)
    ensures
        r matches Ok(h) ==> argon2_verifies(h@, password@),
        r is Ok <==> utf8_len(password@) <= ARGON2_MAX_PASSWORD_LEN,
{
    let salt = SaltString::generate(&mut OsRng);
    match Argon2::default().hash_password(password.as_bytes(), &salt) {
        Ok(h) => Ok(h.to_string()),
        Err(e) => Err(e.to_string()),
    }
}

/// Calls `PasswordHash::new` on `hash` and, where it parses,
/// `Argon2::default().verify_password` with the password's bytes.
/// Claimed: the answer is `argon2_verifies` of the two texts.
#[verifier::external_body]
fn argon2_verify(hash: &str, password: &str) -> (r: bool)
    ensures
        r == argon2_verifies(hash@, password@),
{
    match PasswordHash::new(hash) {
        Ok(parsed) => Argon2::default().verify_password(password.as_bytes(), &parsed).is_ok(),
        Err(_) => false,
    }
}

/// Hashes a password for storage. A hash that comes back verifies against
/// the password it was made from; any password that argon2 accepts hashes,
/// and only an over-long one is an internal error.
pub fn hash_password(password: &str) -> (r: Result<String, AppError>)
    ensures
        r matches Ok(h) ==> argon2_verifies(h@, password@),
        r is Ok <==> utf8_len(password@) <= ARGON2_MAX_PASSWORD_LEN,
        r matches Err(e) ==> e is Internal,
{
    match argon2_hash(password) {
        Ok(h) => Ok(h),
        Err(e) => Err(AppError::Internal(e)),
    }
}

/// Whether `password` matches the stored hash; a hash that does not parse
/// matches nothing.
pub fn verify_password(hash: &str, password: &str) -> (r: bool)
    ensures
        r == argon2_verifies(hash@, password@),
{
    argon2_verify(hash, password)
}

/// What creating an account or setting a password stores: the policy is
/// checked first, then the password is hashed.
pub fn credential_for(password: &str) -> (r: Result<String, AppError>)
    ensures
        utf8_len(password@) < MIN_PASSWORD_LEN ==> (r matches Err(e) && e matches AppError::BadRequest(m)
            && m@ == "password must be at least 12 characters"@),
        r matches Ok(h) ==> utf8_len(password@) >= MIN_PASSWORD_LEN && argon2_verifies(h@, password@),
        r is Ok <==> MIN_PASSWORD_LEN <= utf8_len(password@) <= ARGON2_MAX_PASSWORD_LEN,
        r matches Err(e) ==> (e is BadRequest && utf8_len(password@) < MIN_PASSWORD_LEN) || e is Internal,
{
    validate_password(password)?;
    hash_password(password)
}

/// The local sign-in decision on the account found under the username (its
/// stored hash, if any): success only where an account exists and the
/// password verifies against it. Every failure is the same `Unauthorized`,
/// so an unknown user cannot be told from a wrong password.
pub fn local_login(stored_hash: Option<&str>, password: &str) -> (r: Result<(), AppError>)
    ensures
        r is Ok <==> (stored_hash matches Some(h) && argon2_verifies(h@, password@)),
        r matches Err(e) ==> e is Unauthorized,
{
    match stored_hash {
        Some(h) => {
            if verify_password(h, password) {
                Ok(())
            } else {
                Err(AppError::Unauthorized)
            }
        },
        None => Err(AppError::Unauthorized),
    }
}

} // verus!
