//! The error taxonomy. Token-level failures are separated from the
//! lifecycle and authorization failures so that contracts can say exactly
//! which condition produced which error.

use vstd::prelude::*;

verus! {

/// Why a token failed verification.
#[derive(Clone, Copy, Debug, PartialEq, Eq, Structural)]
pub enum TokenError {
    /// The token does not consist of exactly two parts joined by one dot.
    InvalidFormat,
    /// The signature part is not valid unpadded URL-safe base64.
    InvalidEncoding,
    /// The signature does not match the identifier part.
    SignatureMismatch,
    /// The signature matches, but the identifier part is not a canonical
    /// 16-byte identifier; treated as an integrity violation.
    InvalidIdentifier,
}

/// What went wrong with an operation.
#[derive(Clone, Debug, PartialEq, Eq)]
pub enum ErrorKind {
    /// No session cookie, or one that does not resolve to a session.
    Unauthenticated,
    /// A valid session that lacks the required group membership.
    Forbidden,
    /// The provisioning link does not exist (or was revoked).
    NotFound,
    /// The provisioning link's expiry time has passed.
    Expired,
    /// The provisioning link's uses are spent.
    Exhausted,
    /// The token failed signature verification.
    InvalidToken(TokenError),
    /// A record with the same identifier already exists.
    Conflict,
    /// The identity provider reported a failure; the payload carries the
    /// operator-facing detail.
    UpstreamError(String),
    /// The account was created but a later group assignment failed; the
    /// payload names the group. Reported distinctly so an operator can
    /// finish the assignment by hand.
    PartialFailure(String),
    /// The outcome of the upstream call is unknown (for instance a
    /// timeout); never rolled back automatically.
    Uncertain,
    /// The login callback's state parameter matched no pending login.
    InvalidState,
}

/// The error value operations return.
#[derive(Clone, Debug, PartialEq, Eq)]
pub struct Error {
    pub kind: ErrorKind,
}

impl Error {
    /// Wraps an error kind.
    pub fn new(kind: ErrorKind) -> (r: Self)
        ensures
            r.kind == kind,
    {
        Self { kind }
    }
}

} // verus!
