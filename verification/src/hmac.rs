//! The signing primitive behind the token codec: HMAC-SHA256 through the
//! `jsonwebtoken` crate, held behind two trusted wrappers.  The signature
//! value itself is opaque to the rest of the library; all that is stated is
//! that it is a function of message and key alone, and that verification
//! decides exactly whether a presented signature equals it.

use vstd::prelude::*;

verus! {

/// The signature that HMAC-SHA256 signing produces for `msg` under `key`,
/// in the base64url encoding that `jsonwebtoken::crypto::sign` returns.
/// The value is a function of message and key alone.  Both wrappers rely on
/// `jsonwebtoken`'s default crypto provider (the pure-Rust one selected by
/// crate feature); a process that installed a custom provider through
/// `CryptoProvider::install_default` would compute something else, and no
/// such installation exists in this crate, its tests, or its binary.
pub uninterp spec fn sig_of(msg: Seq<u8>, key: Seq<u8>) -> Seq<u8>;

/// Relies on `jsonwebtoken::crypto::sign` with `Algorithm::HS256` and a key
/// from `EncodingKey::from_secret`: HMAC-SHA256 is deterministic in message
/// and key, and the returned string is its base64url (no padding) encoding,
/// so the result is a function of `msg` and `key` alone.  The call is
/// infallible here: the key is of the HMAC family by construction, HMAC key
/// setup accepts any key length, and the HS256 signer has no failure path.
#[verifier::external_body]
pub(crate) fn sign_bytes(msg: &Vec<u8>, key: &Vec<u8>) -> (r: Vec<u8>)
    ensures
        r@ == sig_of(msg@, key@),
{
    let k = jsonwebtoken::EncodingKey::from_secret(key.as_slice());
    jsonwebtoken::crypto::sign(msg.as_slice(), &k, jsonwebtoken::Algorithm::HS256)
        .expect("HS256 signing has no failure path")
        .into_bytes()
}

/// Relies on `jsonwebtoken::crypto::verify` with `Algorithm::HS256` and a key
/// from `DecodingKey::from_secret`: it base64url-decodes `sig` strictly (no
/// padding, no trailing bits, so the accepted encoding of any signature is
/// unique), recomputes the HMAC of `msg` under `key`, and compares in
/// constant time.  It therefore returns true exactly when `sig` is the
/// encoded recomputed signature; a non-UTF-8 or undecodable `sig` differs
/// from that encoding, and the call reports it as a mismatch.
#[verifier::external_body]
pub(crate) fn verify_sig(sig: &Vec<u8>, msg: &Vec<u8>, key: &Vec<u8>) -> (r: bool)
    ensures
        r == (sig@ == sig_of(msg@, key@)),
{
    let k = jsonwebtoken::DecodingKey::from_secret(key.as_slice());
    match std::str::from_utf8(sig.as_slice()) {
        Ok(s) => {
            jsonwebtoken::crypto::verify(s, msg.as_slice(), &k, jsonwebtoken::Algorithm::HS256)
                .unwrap_or(false)
        },
        Err(_) => false,
    }
}

} // verus!
