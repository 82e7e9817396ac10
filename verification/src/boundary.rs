//! The outward boundary: each error kind maps to a stable status class and
//! a generic reason string.  No internal detail crosses here — in
//! particular, every token rejection reads the same from outside, and both
//! credential failures already arrive as one value.

use vstd::prelude::*;
use crate::errors::{AuthError, RegisterError, RejectReason};

verus! {

/// Outward response for a registration outcome: created, conflict on a
/// duplicate username, or a server fault.
pub fn register_response(r: &Result<u64, RegisterError>) -> (resp: (u16, &'static str))
    ensures
        r is Ok ==> resp.0 == 201 && resp.1@ == "created"@,
        *r == Err::<u64, RegisterError>(RegisterError::UsernameTaken) ==> resp.0 == 409 && resp.1@
            == "exists"@,
        *r == Err::<u64, RegisterError>(RegisterError::StoreUnavailable) ==> resp.0 == 500
            && resp.1@ == "fault"@,
{
    match r {
        Ok(_) => (201, "created"),
        Err(RegisterError::UsernameTaken) => (409, "exists"),
        Err(RegisterError::StoreUnavailable) => (500, "fault"),
    }
}

/// Outward response for a login outcome.  Both halves of a bad pair arrive
/// as the one `InvalidCredentials` value, so they map to the identical
/// status and message.
pub fn login_response(r: &Result<Vec<u8>, AuthError>) -> (resp: (u16, &'static str))
    ensures
        r is Ok ==> resp.0 == 200 && resp.1@ == "ok"@,
        *r is Err && r->Err_0 == AuthError::InvalidCredentials ==> resp.0 == 401 && resp.1@
            == "unauthorized"@,
        *r is Err && r->Err_0 != AuthError::InvalidCredentials ==> resp.0 == 500 && resp.1@
            == "fault"@,
{
    match r {
        Ok(_) => (200, "ok"),
        Err(AuthError::InvalidCredentials) => (401, "unauthorized"),
        Err(AuthError::StoreUnavailable) => (500, "fault"),
        Err(AuthError::InternalCodecFault) => (500, "fault"),
    }
}

/// Outward response for a rejected request: one and the same unauthorized
/// response whatever the internal reason, so nothing leaks about why.
pub fn reject_response(reason: &RejectReason) -> (resp: (u16, &'static str))
    ensures
        resp.0 == 401,
        resp.1@ == "unauthorized"@,
{
    match reason {
        RejectReason::NoToken => (401, "unauthorized"),
        RejectReason::Malformed => (401, "unauthorized"),
        RejectReason::BadSignature => (401, "unauthorized"),
        RejectReason::Expired => (401, "unauthorized"),
    }
}

} // verus!
