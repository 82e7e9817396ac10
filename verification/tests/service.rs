//! Tests for the account lifecycle end to end: registration uniqueness,
//! credential opacity, the login/verification scenario, and the outward
//! boundary mapping.

use authcore::auth::{authenticate, check_credentials, ct_eq};
use authcore::boundary::{login_response, register_response, reject_response};
use authcore::clock::{authenticate_now, verify_request_now};
use authcore::errors::{AuthError, RegisterError, RejectReason};
use authcore::session::{verify_request, Carrier};
use authcore::store::CredentialStore;

const LIFETIME: u64 = 60;

fn key() -> Vec<u8> {
    b"a-shared-symmetric-secret".to_vec()
}

#[test]
fn registration_unique() {
    let mut store = CredentialStore::new();
    let mut outcomes = Vec::new();
    for _ in 0..3 {
        outcomes.push(store.register(b"alice".to_vec(), b"p1".to_vec()));
    }
    let successes = outcomes.iter().filter(|r| r.is_ok()).count();
    assert_eq!(successes, 1);
    assert_eq!(outcomes[0], Ok(1));
    assert_eq!(outcomes[1], Err(RegisterError::UsernameTaken));
    assert_eq!(outcomes[2], Err(RegisterError::UsernameTaken));
}

#[test]
fn distinct_usernames_get_distinct_ids() {
    let mut store = CredentialStore::new();
    assert_eq!(store.register(b"alice".to_vec(), b"p1".to_vec()), Ok(1));
    assert_eq!(store.register(b"bob".to_vec(), b"p2".to_vec()), Ok(2));
    assert_eq!(store.register(b"carol".to_vec(), b"p3".to_vec()), Ok(3));
}

#[test]
fn insert_is_the_atomic_uniqueness_point() {
    // Even bypassing the lookup, the insert itself refuses a duplicate.
    let mut store = CredentialStore::new();
    assert_eq!(store.insert_if_absent(b"alice".to_vec(), b"p1".to_vec()), Ok(1));
    assert_eq!(
        store.insert_if_absent(b"alice".to_vec(), b"p2".to_vec()),
        Err(RegisterError::UsernameTaken)
    );
    // The losing insert changed nothing: the stored secret is still the first.
    let rec = store.find_by_username(&b"alice".to_vec()).unwrap();
    assert_eq!(rec.id, 1);
    assert_eq!(rec.secret, b"p1".to_vec());
}

#[test]
fn lookup_by_username() {
    let mut store = CredentialStore::new();
    assert!(!store.contains_user(&b"alice".to_vec()));
    assert!(store.find_by_username(&b"alice".to_vec()).is_none());
    store.register(b"alice".to_vec(), b"p1".to_vec()).unwrap();
    assert!(store.contains_user(&b"alice".to_vec()));
    let rec = store.find_by_username(&b"alice".to_vec()).unwrap();
    assert_eq!(rec.username, b"alice".to_vec());
    assert!(store.find_by_username(&b"bob".to_vec()).is_none());
}

#[test]
fn credential_opacity() {
    let mut store = CredentialStore::new();
    store.register(b"alice".to_vec(), b"p1".to_vec()).unwrap();
    let k = key();
    let wrong_password =
        authenticate(&store, &b"alice".to_vec(), &b"wrong".to_vec(), 1000, LIFETIME, &k);
    let no_such_user =
        authenticate(&store, &b"nosuchuser".to_vec(), &b"anything".to_vec(), 1000, LIFETIME, &k);
    assert_eq!(wrong_password, Err(AuthError::InvalidCredentials));
    assert_eq!(wrong_password, no_such_user);
    let r1 = login_response(&wrong_password);
    let r2 = login_response(&no_such_user);
    assert_eq!(r1, r2);
    assert_eq!(r1, (401, "unauthorized"));
}

#[test]
fn check_credentials_yields_subject_id() {
    let mut store = CredentialStore::new();
    store.register(b"alice".to_vec(), b"p1".to_vec()).unwrap();
    assert_eq!(check_credentials(&store, &b"alice".to_vec(), &b"p1".to_vec()), Some(1));
    assert_eq!(check_credentials(&store, &b"alice".to_vec(), &b"p2".to_vec()), None);
    assert_eq!(check_credentials(&store, &b"bob".to_vec(), &b"p1".to_vec()), None);
}

#[test]
fn constant_time_compare() {
    assert!(ct_eq(&b"p1".to_vec(), &b"p1".to_vec()));
    assert!(!ct_eq(&b"p1".to_vec(), &b"p2".to_vec()));
    assert!(!ct_eq(&b"p1".to_vec(), &b"p11".to_vec()));
    assert!(!ct_eq(&b"x1".to_vec(), &b"p1".to_vec()));
    assert!(ct_eq(&Vec::new(), &Vec::new()));
}

#[test]
fn lifecycle_scenario() {
    let mut store = CredentialStore::new();
    let k = key();

    // Register alice: success, created-class response.
    let created = store.register(b"alice".to_vec(), b"p1".to_vec());
    assert!(created.is_ok());
    assert_eq!(register_response(&created), (201, "created"));

    // Register alice again: conflict with the stable reason "exists".
    let conflict = store.register(b"alice".to_vec(), b"p2".to_vec());
    assert_eq!(conflict, Err(RegisterError::UsernameTaken));
    assert_eq!(register_response(&conflict), (409, "exists"));

    // Login with the right pair: a token comes back.
    let now = 1_000_000u64;
    let login = authenticate(&store, &b"alice".to_vec(), &b"p1".to_vec(), now, LIFETIME, &k);
    let token = login.unwrap();

    // Login with the wrong password: unauthorized.
    let bad = authenticate(&store, &b"alice".to_vec(), &b"wrong".to_vec(), now, LIFETIME, &k);
    assert_eq!(login_response(&bad), (401, "unauthorized"));

    // Present the token: alice's subject id comes back.
    let carrier = Carrier { token: Some(token.clone()) };
    assert_eq!(verify_request(&carrier, &k, now + 1), Ok(1));
    assert_eq!(verify_request(&carrier, &k, now + LIFETIME - 1), Ok(1));

    // Past the configured lifetime: the same token is Expired.
    let late = verify_request(&carrier, &k, now + LIFETIME);
    assert_eq!(late, Err(RejectReason::Expired));
    assert_eq!(reject_response(&late.unwrap_err()), (401, "unauthorized"));

    // No cookie at all: NoToken, same outward response.
    let empty = Carrier { token: None };
    let missing = verify_request(&empty, &k, now);
    assert_eq!(missing, Err(RejectReason::NoToken));
    assert_eq!(reject_response(&missing.unwrap_err()), (401, "unauthorized"));
}

#[test]
fn wall_clock_entry_points() {
    let mut store = CredentialStore::new();
    store.register(b"alice".to_vec(), b"p1".to_vec()).unwrap();
    let k = key();
    let token =
        authenticate_now(&store, &b"alice".to_vec(), &b"p1".to_vec(), LIFETIME, &k).unwrap();
    let carrier = Carrier { token: Some(token) };
    assert_eq!(verify_request_now(&carrier, &k), Ok(1));
    assert_eq!(
        authenticate_now(&store, &b"alice".to_vec(), &b"no".to_vec(), LIFETIME, &k),
        Err(AuthError::InvalidCredentials)
    );
    assert_eq!(
        verify_request_now(&Carrier { token: None }, &k),
        Err(RejectReason::NoToken)
    );
}

#[test]
fn token_bound_to_its_store_entry() {
    let mut store = CredentialStore::new();
    store.register(b"alice".to_vec(), b"p1".to_vec()).unwrap();
    store.register(b"bob".to_vec(), b"p2".to_vec()).unwrap();
    let k = key();
    let now = 5000u64;
    let t_bob = authenticate(&store, &b"bob".to_vec(), &b"p2".to_vec(), now, LIFETIME, &k).unwrap();
    let carrier = Carrier { token: Some(t_bob) };
    assert_eq!(verify_request(&carrier, &k, now + 1), Ok(2));
}
