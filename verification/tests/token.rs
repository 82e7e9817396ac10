//! Tests for the token codec: round trip, expiry boundary, tamper
//! rejection, and agreement of the trusted signing wrappers with the
//! signing primitive called directly.

use authcore::claims::{encode_claims, Claims};
use authcore::errors::RejectReason;
use authcore::token::{issue, verify_token};

fn key() -> Vec<u8> {
    b"a-shared-symmetric-secret".to_vec()
}

fn claims() -> Claims {
    Claims { uid: 7, iat: 1000, exp: 1060 }
}

#[test]
fn round_trip_before_expiry() {
    let k = key();
    let c = claims();
    let t = issue(&c, &k);
    assert_eq!(verify_token(&t, &k, 1000), Ok(c));
    assert_eq!(verify_token(&t, &k, 1059), Ok(c));
}

#[test]
fn expiry_boundary() {
    let k = key();
    let c = claims();
    let t = issue(&c, &k);
    assert_eq!(verify_token(&t, &k, c.exp - 1), Ok(c));
    assert_eq!(verify_token(&t, &k, c.exp), Err(RejectReason::Expired));
    assert_eq!(verify_token(&t, &k, c.exp + 100_000), Err(RejectReason::Expired));
}

#[test]
fn issue_is_deterministic() {
    let k = key();
    let c = claims();
    assert_eq!(issue(&c, &k), issue(&c, &k));
}

#[test]
fn tamper_any_byte_rejected() {
    let k = key();
    let c = claims();
    let t = issue(&c, &k);
    for i in 0..t.len() {
        for flip in [0x01u8, 0x80u8] {
            let mut bad = t.clone();
            bad[i] ^= flip;
            let r = verify_token(&bad, &k, 1000);
            assert!(r.is_err(), "accepted token tampered at byte {}", i);
        }
    }
}

#[test]
fn truncation_and_garbage_rejected() {
    let k = key();
    let c = claims();
    let t = issue(&c, &k);
    assert_eq!(verify_token(&Vec::new(), &k, 1000), Err(RejectReason::Malformed));
    assert_eq!(verify_token(&b"no dot here".to_vec(), &k, 1000), Err(RejectReason::Malformed));
    let mut truncated = t.clone();
    truncated.pop();
    assert_eq!(verify_token(&truncated, &k, 1000), Err(RejectReason::BadSignature));
    let undotted: Vec<u8> = t.iter().copied().filter(|&b| b != b'.').collect();
    assert_eq!(verify_token(&undotted, &k, 1000), Err(RejectReason::Malformed));
}

#[test]
fn wrong_key_rejected() {
    let k = key();
    let c = claims();
    let t = issue(&c, &k);
    let other = b"a-different-secret".to_vec();
    assert_eq!(verify_token(&t, &other, 1000), Err(RejectReason::BadSignature));
}

#[test]
fn signature_part_matches_primitive() {
    // The issued signature must be exactly what the signing primitive
    // produces for the payload; a wrapper that altered or fabricated it
    // would fail here.
    let k = key();
    let c = claims();
    let t = issue(&c, &k);
    let payload = encode_claims(&c);
    let dot = t.iter().position(|&b| b == b'.').unwrap();
    assert_eq!(&t[..dot], payload.as_slice());
    let sig = String::from_utf8(t[dot + 1..].to_vec()).unwrap();
    let ek = jsonwebtoken::EncodingKey::from_secret(&k);
    let expect =
        jsonwebtoken::crypto::sign(&payload, &ek, jsonwebtoken::Algorithm::HS256).unwrap();
    assert_eq!(sig, expect);
    assert!(!sig.is_empty());
    assert_ne!(sig.as_bytes(), payload.as_slice());
    let dk = jsonwebtoken::DecodingKey::from_secret(&k);
    assert!(jsonwebtoken::crypto::verify(&sig, &payload, &dk, jsonwebtoken::Algorithm::HS256)
        .unwrap());
}

#[test]
fn structural_check_precedes_signature() {
    // A correctly signed but non-canonical payload is Malformed, not
    // BadSignature: structure is checked first.
    let k = key();
    let payload = b"{\"exp\":0123,\"iat\":45,\"uid\":6}".to_vec();
    let ek = jsonwebtoken::EncodingKey::from_secret(&k);
    let sig = jsonwebtoken::crypto::sign(&payload, &ek, jsonwebtoken::Algorithm::HS256).unwrap();
    let mut t = payload.clone();
    t.push(b'.');
    t.extend_from_slice(sig.as_bytes());
    assert_eq!(verify_token(&t, &k, 10), Err(RejectReason::Malformed));
}
