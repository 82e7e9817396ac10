//! The current time, and the convenience entry points that read it.  The
//! clock is outside the verified core: its reading is taken as an arbitrary
//! value, and everything proved here holds whatever it returns.  Callers
//! that need exact time semantics use `authenticate` and `verify_request`
//! with an explicit instant.

use vstd::prelude::*;
use crate::auth::{auth_claims, authenticate, check_credentials, credentials_ok};
use crate::errors::{AuthError, RejectReason};
use crate::session::{Carrier, verify_request, verify_request_spec};
use crate::store::CredentialStore;
use crate::token::token_spec;

verus! {

#[verifier::external_type_specification]
#[verifier::external_body]
/// A reading of the system clock, opaque to the verifier.
pub struct ExSystemTime(std::time::SystemTime);

/// Relies on `std::time::SystemTime::now`: a reading of the system clock.
/// The call cannot fail or panic; nothing is promised of the value.
#[verifier::external_body]
fn system_now() -> (t: std::time::SystemTime) {
    std::time::SystemTime::now()
}

/// Relies on `SystemTime::duration_since` against `UNIX_EPOCH`: whole
/// seconds since the epoch, or `None` for a clock reading before the epoch
/// (the `Err` arm, whose carried duration is discarded).  Nothing can be
/// promised of a clock value.
#[verifier::external_body]
fn seconds_since_epoch(t: std::time::SystemTime) -> (r: Option<u64>) {
    match t.duration_since(std::time::UNIX_EPOCH) {
        Ok(d) => Some(d.as_secs()),
        Err(_) => None,
    }
}

/// Authenticate at the current instant.  Whatever the clock returned:
/// `InvalidCredentials` comes back exactly for a mismatched pair, a token
/// only for a matching one, and with a matching pair the only other outcome
/// is the fault for a clock reading outside the range a token can express.
pub fn authenticate_now(
    store: &CredentialStore,
    username: &Vec<u8>,
    password: &Vec<u8>,
    lifetime: u64,
    key: &Vec<u8>,
) -> (r: Result<Vec<u8>, AuthError>)
    requires
        store.wf(),
        lifetime >= 1,
    ensures
        r == Err::<Vec<u8>, AuthError>(AuthError::InvalidCredentials) <==> !credentials_ok(
            *store,
            username@,
            password@,
        ),
        r is Ok ==> exists|now: u64|
            now + lifetime <= u64::MAX && r->Ok_0@ == #[trigger] token_spec(
                auth_claims(*store, username@, now, lifetime),
                key@,
            ),
        r is Err ==> r->Err_0 == AuthError::InvalidCredentials || r->Err_0
            == AuthError::InternalCodecFault,
        credentials_ok(*store, username@, password@) ==> (r is Ok || r == Err::<Vec<u8>, AuthError>(
            AuthError::InternalCodecFault,
        )),
{
    let mut usable: Option<u64> = None;
    if let Some(n) = seconds_since_epoch(system_now()) {
        if n <= u64::MAX - lifetime {
            usable = Some(n);
        }
    }
    match usable {
        Some(now) => {
            let r = authenticate(store, username, password, now, lifetime, key);
            proof {
                if r is Ok {
                    assert(now + lifetime <= u64::MAX && r->Ok_0@ == token_spec(
                        auth_claims(*store, username@, now, lifetime),
                        key@,
                    ));
                }
            }
            r
        },
        None => {
            // The clock cannot express a token lifetime; the pair is still
            // checked so that a mismatch reads the same as it always does.
            match check_credentials(store, username, password) {
                Some(_) => Err(AuthError::InternalCodecFault),
                None => Err(AuthError::InvalidCredentials),
            }
        },
    }
}

/// Verify a request at the current instant.  The verdict is the verifier's
/// verdict at some instant: the reading of the clock, or, for a pre-epoch
/// reading, the latest expressible instant — failing closed, since no token
/// can be shown unexpired by such a clock.
pub fn verify_request_now(car: &Carrier, key: &Vec<u8>) -> (r: Result<u64, RejectReason>)
    ensures
        r is Ok ==> exists|now: u64|
            #[trigger] verify_request_spec(*car, key@, now) == Ok::<u64, RejectReason>(r->Ok_0),
        r is Err ==> exists|now: u64|
            #[trigger] verify_request_spec(*car, key@, now) == Err::<u64, RejectReason>(r->Err_0),
        car.token is None ==> r == Err::<u64, RejectReason>(RejectReason::NoToken),
{
    let now = match seconds_since_epoch(system_now()) {
        Some(n) => n,
        None => u64::MAX,
    };
    let r = verify_request(car, key, now);
    proof {
        if r is Ok {
            assert(verify_request_spec(*car, key@, now) == Ok::<u64, RejectReason>(r->Ok_0));
        } else {
            assert(verify_request_spec(*car, key@, now) == Err::<u64, RejectReason>(r->Err_0));
        }
    }
    r
}

} // verus!
