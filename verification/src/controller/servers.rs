//! Agent authentication: the bearer secret an agent presents is checked
//! against the SHA-256 stored at enrolment, in constant time.

use crate::controller::crypto::{random_token, sha256_digest, token_hash};
use crate::controller::error::AppError;
use crate::text::{chars_of, starts_with, starts_with_seq, string_from, string_of};
use subtle::ConstantTimeEq;
use vstd::prelude::*;
use vstd::string::StringSliceAdditionalSpecFns;
use vstd::utf8::encode_utf8;

verus! {

/// Calls `subtle`'s `ConstantTimeEq::ct_eq` on two byte slices and reads
/// the `Choice` as a `bool`. Claimed, as the source shows: equal lengths
/// and equal bytes give true, anything else false.
#[verifier::external_body]
fn constant_time_eq(a: &[u8], b: &[u8]) -> (r: bool)
    ensures
        r == (a@ == b@),
{
    bool::from(a.ct_eq(b))
}

/// The secret of an `Authorization` header value: what follows
/// `Bearer `; a missing header or another scheme is `Unauthorized`.
pub fn bearer_secret(header: Option<&str>) -> (r: Result<String, AppError>)
    ensures
        r is Ok <==> (header matches Some(h) && starts_with(h@, "Bearer "@)),
        r matches Ok(s) ==> (header matches Some(h) && s@ == h@.skip(7)),
        r matches Err(e) ==> e is Unauthorized,
{
    proof {
        reveal_strlit("Bearer ");
    }
    match header {
        None => Err(AppError::Unauthorized),
        Some(h) => {
            let v = chars_of(h);
            let p = chars_of("Bearer ");
            assert("Bearer "@.len() == 7);
            if !starts_with_seq(v.as_slice(), p.as_slice()) {
                return Err(AppError::Unauthorized);
            }
            assert(v@.take(7) =~= "Bearer "@);
            let mut rest: Vec<char> = Vec::new();
            let mut j: usize = 7;
            while j < v.len()
                invariant
                    7 <= j <= v.len(),
                    rest@ =~= v@.subrange(7, j as int),
                decreases v.len() - j,
            {
                rest.push(v[j]);
                j = j + 1;
            }
            Ok(string_of(rest.as_slice()))
        },
    }
}

/// Checks a presented agent secret against the token hash stored for the
/// agent (none where the agent id is unknown). Success exactly where a hash
/// is stored and it is the SHA-256 of the secret; every failure is
/// `Unauthorized`.
pub fn authenticate_agent(stored_hash: Option<&[u8]>, secret: &str) -> (r: Result<(), AppError>)
    ensures
        r is Ok <==> (stored_hash matches Some(h) && secret_matches(h@, encode_utf8(secret@))),
        r matches Err(e) ==> e is Unauthorized,
{
    match stored_hash {
        None => Err(AppError::Unauthorized),
        Some(h) => {
            let presented = token_hash(secret);
            if constant_time_eq(presented.as_slice(), h) {
                Ok(())
            } else {
                Err(AppError::Unauthorized)
            }
        },
    }
}

/// Whether a stored token hash admits a presented secret (its bytes).
pub open spec fn secret_matches(stored: Seq<u8>, secret: Seq<u8>) -> bool {
    stored == sha256_digest(secret)
}

/// A fresh agent credential: the secret handed to the agent once, and the
/// hash stored in its place (the SHA-256 of the secret).
pub fn issue_agent_credential() -> (r: (String, Vec<u8>))
    ensures
        r.1@ == sha256_digest(encode_utf8(r.0@)),
        r.1@.len() == 32,
{
    let secret = random_token();
    let text = secret.as_str();
    let hash = token_hash(text);
    assert(text@ == secret@);
    (secret, hash)
}

/// The credential an enrollment issues is the one authentication accepts:
/// the secret handed out passes against the hash stored for it.
pub proof fn lemma_issued_credential_authenticates(secret: Seq<u8>)
    ensures
        secret_matches(sha256_digest(secret), secret),
{
}

/// A fleet key may enrol another host while its use budget (if any) is
/// not spent; a spent key is refused like an unknown one.
pub fn check_fleet_budget(max_uses: Option<u32>, uses: u32) -> (r: Result<(), AppError>)
    ensures
        r is Ok <==> (max_uses matches Some(m) ==> uses < m),
        r matches Err(e) ==> e is Unauthorized,
{
    match max_uses {
        Some(m) => if uses >= m {
            Err(AppError::Unauthorized)
        } else {
            Ok(())
        },
        None => Ok(()),
    }
}

/// Seconds without a heartbeat after which a server counts as offline.
pub const HEARTBEAT_STALE_SECS: i64 = 90;

/// Whether a server is up, as the `status` column says.
#[derive(Clone, Copy, Debug, PartialEq, Eq, Structural)]
pub enum ServerStatus {
    Online,
    Offline,
}

impl ServerStatus {
    pub open spec fn name_spec(self) -> Seq<char> {
        match self {
            ServerStatus::Online => "ONLINE"@,
            ServerStatus::Offline => "OFFLINE"@,
        }
    }

    pub fn as_str(self) -> (r: &'static str)
        ensures
            r@ == self.name_spec(),
    {
        match self {
            ServerStatus::Online => "ONLINE",
            ServerStatus::Offline => "OFFLINE",
        }
    }

    /// Reads a stored status; any other text is an internal error.
    pub fn parse(s: &str) -> (r: Result<ServerStatus, AppError>)
        ensures
            s@ == "ONLINE"@ ==> r == Ok::<ServerStatus, AppError>(ServerStatus::Online),
            s@ == "OFFLINE"@ ==> r == Ok::<ServerStatus, AppError>(ServerStatus::Offline),
            s@ != "ONLINE"@ && s@ != "OFFLINE"@ ==> (r matches Err(e) && e is Internal),
    {
        proof {
            reveal_strlit("ONLINE");
            reveal_strlit("OFFLINE");
            assert("ONLINE"@.len() == 6);
            assert("OFFLINE"@.len() == 7);
        }
        let v = chars_of(s);
        if crate::text::equals_str(v.as_slice(), "ONLINE") {
            Ok(ServerStatus::Online)
        } else if crate::text::equals_str(v.as_slice(), "OFFLINE") {
            Ok(ServerStatus::Offline)
        } else {
            Err(AppError::Internal(crate::text::concat3("unknown server status: ", s, "")))
        }
    }
}

/// What the offline sweep leaves a server at: an ONLINE server whose last
/// heartbeat (seconds since the epoch) is missing or older than 90 seconds
/// before `now` goes OFFLINE; anything else keeps its status.
pub open spec fn swept_status_spec(status: ServerStatus, last_heartbeat: Option<i64>, now: i64) -> ServerStatus {
    if status == ServerStatus::Online && match last_heartbeat {
        None => true,
        Some(t) => t < now - HEARTBEAT_STALE_SECS,
    } {
        ServerStatus::Offline
    } else {
        status
    }
}

pub fn swept_status(status: ServerStatus, last_heartbeat: Option<i64>, now: i64) -> (r: ServerStatus)
    requires
        now >= i64::MIN + HEARTBEAT_STALE_SECS,
    ensures
        r == swept_status_spec(status, last_heartbeat, now),
{
    let stale = match last_heartbeat {
        None => true,
        Some(t) => t < now - HEARTBEAT_STALE_SECS,
    };
    if status == ServerStatus::Online && stale {
        ServerStatus::Offline
    } else {
        status
    }
}

/// The hostname a server shows: none when it is empty.
pub fn shown_hostname(hostname: Option<String>) -> (r: Option<String>)
    ensures
        match hostname {
            Some(h) => if h@.len() == 0 {
                r is None
            } else {
                r matches Some(x) && x@ == h@
            },
            None => r is None,
        },
{
    match hostname {
        Some(h) => if h.as_str().is_empty() {
            None
        } else {
            Some(h)
        },
        None => None,
    }
}

} // verus!