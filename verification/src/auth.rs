//! The authentication service: verify supplied credentials against the
//! store and issue a signed session token.  The two failure cases — unknown
//! username and wrong password — yield one and the same error value, so a
//! caller learns nothing about which half of the pair was wrong, and the
//! password comparison runs in constant time over the whole secret.

use vstd::prelude::*;
use crate::claims::{Claims, valid_claims};
use crate::errors::AuthError;
use crate::store::CredentialStore;
use crate::token::{token_spec, issue};

verus! {

/// Constant-time byte comparison: folds the difference of every position
/// into one mask instead of returning at the first mismatch, so the running
/// time does not depend on where the inputs diverge (only on their length).
pub fn ct_eq(a: &Vec<u8>, b: &Vec<u8>) -> (r: bool)
    ensures
        r == (a@ == b@),
{
    if a.len() != b.len() {
        proof {
            if a@ == b@ {
                assert(a@.len() == b@.len());
            }
        }
        return false;
    }
    let n = a.len();
    let mut acc: u8 = 0;
    let mut i: usize = 0;
    while i < n
        invariant
            n == a@.len() && n == b@.len(),
            0 <= i <= n,
            (acc == 0) <==> (forall|j: int| 0 <= j < i ==> a@[j] == b@[j]),
        decreases n - i,
    {
        let x = a[i];
        let y = b[i];
        let d = x ^ y;
        proof {
            assert((d == 0) <==> (x == y)) by (bit_vector)
                requires
                    d == (x ^ y),
            ;
            assert(((acc | d) == 0) <==> (acc == 0 && d == 0)) by (bit_vector);
        }
        acc = acc | d;
        i = i + 1;
    }
    proof {
        if acc == 0 {
            assert(a@ =~= b@);
        } else {
            if a@ == b@ {
                assert(forall|j: int| 0 <= j < n ==> a@[j] == b@[j]);
            }
        }
    }
    acc == 0
}

/// Whether the pair (`u`, `p`) matches a stored credential record.
pub open spec fn credentials_ok(s: CredentialStore, u: Seq<u8>, p: Seq<u8>) -> bool {
    s.has_user(u) && s.secret_of(u) == p
}

/// The claims a successful login at instant `now` embeds: the record's
/// subject id, issued now, expiring after the configured lifetime.
pub open spec fn auth_claims(s: CredentialStore, u: Seq<u8>, now: u64, lifetime: u64) -> Claims {
    Claims { uid: s.id_of(u), iat: now, exp: (now + lifetime) as u64 }
}

/// What one authentication attempt returns: success if and only if the pair
/// matches a record — the unknown-username and wrong-password cases are one
/// and the same `InvalidCredentials` value — and on success exactly the
/// signed token for the record's subject id.
pub open spec fn auth_post(
    s: CredentialStore,
    u: Seq<u8>,
    p: Seq<u8>,
    now: u64,
    lifetime: u64,
    key: Seq<u8>,
    r: Result<Vec<u8>, AuthError>,
) -> bool {
    &&& (r is Ok <==> credentials_ok(s, u, p))
    &&& (r is Ok ==> r->Ok_0@ == token_spec(auth_claims(s, u, now, lifetime), key))
    &&& (r is Err ==> r->Err_0 == AuthError::InvalidCredentials)
}

/// Decide whether the pair matches a stored record, comparing the secret in
/// constant time; a match yields the record's subject id.
pub fn check_credentials(store: &CredentialStore, username: &Vec<u8>, password: &Vec<u8>) -> (r:
    Option<u64>)
    requires
        store.wf(),
    ensures
        match r {
            Some(id) => credentials_ok(*store, username@, password@) && id == store.id_of(
                username@,
            ),
            None => !credentials_ok(*store, username@, password@),
        },
{
    match store.find_by_username(username) {
        None => None,
        Some(rec) => {
            if ct_eq(&rec.secret, password) {
                Some(rec.id)
            } else {
                None
            }
        },
    }
}

/// Authenticate the pair (`username`, `password`) against the store at
/// instant `now` and issue a session token valid for `lifetime` seconds
/// under `key`.  A matching pair always gets a token: serialization and
/// signing are total.
pub fn authenticate(
    store: &CredentialStore,
    username: &Vec<u8>,
    password: &Vec<u8>,
    now: u64,
    lifetime: u64,
    key: &Vec<u8>,
) -> (r: Result<Vec<u8>, AuthError>)
    requires
        store.wf(),
        lifetime >= 1,
        now + lifetime <= u64::MAX,
    ensures
        auth_post(*store, username@, password@, now, lifetime, key@, r),
{
    let id = match check_credentials(store, username, password) {
        None => {
            return Err(AuthError::InvalidCredentials);
        },
        Some(id) => id,
    };
    let c = Claims { uid: id, iat: now, exp: now + lifetime };
    proof {
        assert(valid_claims(c));
        assert(c == auth_claims(*store, username@, now, lifetime));
    }
    Ok(issue(&c, key))
}

/// Credential opacity law: two failed authentication attempts — whether the
/// username was unknown or the password wrong, for the same or different
/// inputs — return exactly the same error value, `InvalidCredentials`.
pub proof fn lemma_credential_opacity(
    s: CredentialStore,
    u1: Seq<u8>,
    p1: Seq<u8>,
    u2: Seq<u8>,
    p2: Seq<u8>,
    now: u64,
    lifetime: u64,
    key: Seq<u8>,
    r1: Result<Vec<u8>, AuthError>,
    r2: Result<Vec<u8>, AuthError>,
)
    requires
        !credentials_ok(s, u1, p1),
        !credentials_ok(s, u2, p2),
        auth_post(s, u1, p1, now, lifetime, key, r1),
        auth_post(s, u2, p2, now, lifetime, key, r2),
    ensures
        r1 == r2,
        r1 == Err::<Vec<u8>, AuthError>(AuthError::InvalidCredentials),
{
}

} // verus!
