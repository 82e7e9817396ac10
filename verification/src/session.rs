//! The session verifier: extract the token from the request carrier and
//! decide, statelessly, whether the request is authenticated.  The canonical
//! transport is the cookie named `token`; the carrier holds that cookie's
//! value when the cookie is present.  Each request is evaluated
//! independently: a valid, unexpired, correctly signed token yields the
//! subject id, anything else a terminal rejection.

use vstd::prelude::*;
use crate::errors::RejectReason;
use crate::token::{verify_spec, verify_token};

verus! {

/// Where the token travels on a request: the value of the `token` cookie,
/// if the cookie was present.
pub struct Carrier {
    /// The carried token bytes, if any.
    pub token: Option<Vec<u8>>,
}

/// Functional specification of request verification: `NoToken` when the
/// carrier is empty, and otherwise the codec's verdict with the claims
/// reduced to their subject id.
pub open spec fn verify_request_spec(car: Carrier, key: Seq<u8>, now: u64) -> Result<
    u64,
    RejectReason,
> {
    match car.token {
        None => Err(RejectReason::NoToken),
        Some(t) => match verify_spec(t@, key, now) {
            Ok(c) => Ok(c.uid),
            Err(e) => Err(e),
        },
    }
}

/// Verify the request carried by `car` against `key` at instant `now`.
pub fn verify_request(car: &Carrier, key: &Vec<u8>, now: u64) -> (r: Result<u64, RejectReason>)
    ensures
        r == verify_request_spec(*car, key@, now),
{
    match &car.token {
        None => Err(RejectReason::NoToken),
        Some(t) => match verify_token(t, key, now) {
            Ok(c) => Ok(c.uid),
            Err(e) => Err(e),
        },
    }
}

} // verus!
