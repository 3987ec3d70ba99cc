//! The failures the service can report, and the HTTP status each maps to.

use vstd::prelude::*;

verus! {

/// Why a bearer token was not accepted.
#[derive(Clone, Copy, Debug, PartialEq, Eq, Structural)]
pub enum AuthError {
    /// The token is malformed, carries a bad signature, or names no user.
    Invalid,
    /// The token is well formed but its expiry is not in the future.
    Expired,
    /// No token was presented.
    Missing,
}

/// Every failure a repository or a route can report.
#[derive(Clone, Copy, Debug, PartialEq, Eq, Structural)]
pub enum ApiError {
    /// No row with that id is owned by the caller. A row owned by somebody
    /// else and a row that does not exist are deliberately indistinguishable.
    NotFound,
    /// The request is malformed.
    Validation,
    /// The bearer token was rejected.
    Auth(AuthError),
    /// The request would duplicate a unique resource.
    Conflict,
    /// Required configuration is missing or unusable.
    Config,
}

impl ApiError {
    /// The HTTP status that reports this failure.
    pub open spec fn spec_status(self) -> u16 {
        match self {
            ApiError::NotFound => 404,
            ApiError::Validation => 400,
            ApiError::Auth(_) => 401,
            ApiError::Conflict => 409,
            ApiError::Config => 500,
        }
    }

    /// The HTTP status that reports this failure. Every token failure is a
    /// plain 401: the status does not tell the three reasons apart.
    pub fn status(&self) -> (r: u16)
        ensures
            r == self.spec_status(),
    {
        match self {
            ApiError::NotFound => 404,
            ApiError::Validation => 400,
            ApiError::Auth(_) => 401,
            ApiError::Conflict => 409,
            ApiError::Config => 500,
        }
    }

    /// The words that report this failure to the client. They name the kind
    /// of failure and nothing else; every token failure reads the same.
    pub open spec fn spec_message(self) -> Seq<char> {
        match self {
            ApiError::NotFound => "Not found"@,
            ApiError::Validation => "Bad request"@,
            ApiError::Auth(_) => "Unauthorized"@,
            ApiError::Conflict => "Conflict"@,
            ApiError::Config => "Internal server error"@,
        }
    }

    /// The words that report this failure to the client.
    pub fn message(&self) -> (r: &'static str)
        ensures
            r@ == self.spec_message(),
    {
        match self {
            ApiError::NotFound => "Not found",
            ApiError::Validation => "Bad request",
            ApiError::Auth(_) => "Unauthorized",
            ApiError::Conflict => "Conflict",
            ApiError::Config => "Internal server error",
        }
    }
}

} // verus!
