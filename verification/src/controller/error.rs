//! Controller-wide error type and the HTTP envelope derived from it. The
//! envelope never echoes the details of a server-side failure.

use crate::text::string_from;
use vstd::prelude::*;

verus! {

#[derive(Debug)]
pub enum AppError {
    Unauthorized,
    Forbidden,
    NotFound(String),
    BadRequest(String),
    /// The GitLab instance is unreachable or answered with an error; the
    /// field keeps the upstream description for the log.
    GitlabUpstream(String),
    /// A database failure; the field keeps the driver's description.
    Db(String),
    /// Any other internal failure; the field keeps its description.
    Internal(String),
}

impl AppError {
    /// HTTP status and machine-readable code of each variant.
    pub open spec fn status_spec(&self) -> u16 {
        match self {
            AppError::Unauthorized => 401,
            AppError::Forbidden => 403,
            AppError::NotFound(_) => 404,
            AppError::BadRequest(_) => 400,
            AppError::GitlabUpstream(_) => 502,
            AppError::Db(_) => 500,
            AppError::Internal(_) => 500,
        }
    }

    pub open spec fn code_spec(&self) -> Seq<char> {
        match self {
            AppError::Unauthorized => "unauthorized"@,
            AppError::Forbidden => "forbidden"@,
            AppError::NotFound(_) => "not_found"@,
            AppError::BadRequest(_) => "validation"@,
            AppError::GitlabUpstream(_) => "gitlab_upstream"@,
            AppError::Db(_) => "internal"@,
            AppError::Internal(_) => "internal"@,
        }
    }

    /// The human-readable text of the error (its `Display` form).
    pub open spec fn message_spec(&self) -> Seq<char> {
        match self {
            AppError::Unauthorized => "authentication required"@,
            AppError::Forbidden => "forbidden"@,
            AppError::NotFound(m) => m@,
            AppError::BadRequest(m) => m@,
            AppError::GitlabUpstream(_) => "GitLab instance is unreachable or returned an error"@,
            AppError::Db(_) => "database error"@,
            AppError::Internal(_) => "internal error"@,
        }
    }

    /// What the response envelope tells the client: server errors are
    /// reduced to a fixed text.
    pub open spec fn public_message_spec(&self) -> Seq<char> {
        if self.status_spec() >= 500 {
            "internal error"@
        } else {
            self.message_spec()
        }
    }

    pub fn status_and_code(&self) -> (r: (u16, &'static str))
        ensures
            r.0 == self.status_spec(),
            r.1@ == self.code_spec(),
    {
        match self {
            AppError::Unauthorized => (401, "unauthorized"),
            AppError::Forbidden => (403, "forbidden"),
            AppError::NotFound(_) => (404, "not_found"),
            AppError::BadRequest(_) => (400, "validation"),
            AppError::GitlabUpstream(_) => (502, "gitlab_upstream"),
            AppError::Db(_) => (500, "internal"),
            AppError::Internal(_) => (500, "internal"),
        }
    }

    /// The error's text, as `to_string()` renders it.
    pub fn message(&self) -> (r: String)
        ensures
            r@ == self.message_spec(),
    {
        match self {
            AppError::Unauthorized => string_from("authentication required"),
            AppError::Forbidden => string_from("forbidden"),
            AppError::NotFound(m) => m.clone(),
            AppError::BadRequest(m) => m.clone(),
            AppError::GitlabUpstream(_) => string_from(
                "GitLab instance is unreachable or returned an error",
            ),
            AppError::Db(_) => string_from("database error"),
            AppError::Internal(_) => string_from("internal error"),
        }
    }

    /// Status, code and message of the JSON error envelope.
    pub fn envelope(&self) -> (r: (u16, &'static str, String))
        ensures
            r.0 == self.status_spec(),
            r.1@ == self.code_spec(),
            r.2@ == self.public_message_spec(),
    {
        let (status, code) = self.status_and_code();
        let message = if status >= 500 {
            string_from("internal error")
        } else {
            self.message()
        };
        (status, code, message)
    }
}

/// A server-side failure never reaches the client with its details: every
/// 5xx envelope carries the same fixed text.
pub proof fn lemma_server_errors_are_opaque(e: AppError)
    requires
        e.status_spec() >= 500,
    ensures
        e.public_message_spec() == "internal error"@,
{
}

/// A client error is echoed verbatim.
pub proof fn lemma_client_errors_are_echoed(e: AppError)
    requires
        e.status_spec() < 500,
    ensures
        e.public_message_spec() == e.message_spec(),
{
}

} // verus!
