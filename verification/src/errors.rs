//! The error taxonomy of the credential-and-token lifecycle.  User-facing
//! rejections carry no detail beyond their kind; the boundary maps each kind
//! to a stable, minimal outward response.

use vstd::prelude::*;

verus! {

/// Why a presented session token was rejected.
#[derive(Clone, Copy, Debug, PartialEq, Eq, Structural)]
pub enum RejectReason {
    /// No token was present in the request carrier.
    NoToken,
    /// The token is not a well-formed signed envelope.
    Malformed,
    /// The signature does not match the configured secret.
    BadSignature,
    /// The token is past its expiry instant.
    Expired,
}

/// Why a registration attempt failed.
#[derive(Clone, Copy, Debug, PartialEq, Eq, Structural)]
pub enum RegisterError {
    /// A credential record with this username already exists.
    UsernameTaken,
    /// The credential store could not complete the operation.
    StoreUnavailable,
}

/// Why a login attempt failed.
#[derive(Clone, Copy, Debug, PartialEq, Eq, Structural)]
pub enum AuthError {
    /// Unknown username or wrong password; the two are indistinguishable.
    InvalidCredentials,
    /// The credential store could not complete the operation.
    StoreUnavailable,
    /// The issuing path could not complete — a clock reading outside the
    /// range a token can express; never a normal outcome.
    InternalCodecFault,
}

} // verus!
