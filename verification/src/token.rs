//! The token codec: a signed envelope `payload.signature`, where the payload
//! is the canonical claims serialization and the signature is the HMAC of the
//! payload under the shared secret.  Verification checks structure, then
//! signature, then expiry, and accepts only byte-for-byte what issuance
//! produces.

use vstd::prelude::*;
use crate::claims::{
    Claims, valid_claims, claims_json_spec, encode_claims, parse_claims, lemma_json_no_dot,
    lemma_claims_json_injective,
};
use crate::errors::RejectReason;
use crate::hmac::{sig_of, sign_bytes, verify_sig};

verus! {

/// The token issued for claims `c` under `key`: payload, dot, signature.
pub open spec fn token_spec(c: Claims, key: Seq<u8>) -> Seq<u8> {
    claims_json_spec(c) + seq![46u8] + sig_of(claims_json_spec(c), key)
}

/// `i` is the position of the first dot of `t`.
pub open spec fn is_first_dot(t: Seq<u8>, i: int) -> bool {
    &&& 0 <= i < t.len()
    &&& t[i] == 46u8
    &&& forall|j: int| 0 <= j < i ==> t[j] != 46u8
}

/// Whether `t` contains a dot at all.
pub open spec fn has_dot(t: Seq<u8>) -> bool {
    exists|i: int| is_first_dot(t, i)
}

/// The position of the first dot of `t`.
pub open spec fn first_dot(t: Seq<u8>) -> int {
    choose|i: int| is_first_dot(t, i)
}

/// What stands before the first dot.
pub open spec fn payload_of(t: Seq<u8>) -> Seq<u8> {
    t.subrange(0, first_dot(t))
}

/// What stands after the first dot.
pub open spec fn sig_part_of(t: Seq<u8>) -> Seq<u8> {
    t.subrange(first_dot(t) + 1, t.len() as int)
}

/// Whether `p` is the canonical serialization of some valid claims value.
pub open spec fn is_canon_payload(p: Seq<u8>) -> bool {
    exists|c: Claims| valid_claims(c) && p == claims_json_spec(c)
}

/// The claims value a canonical payload serializes.
pub open spec fn payload_claims(p: Seq<u8>) -> Claims {
    choose|c: Claims| valid_claims(c) && p == claims_json_spec(c)
}

/// Functional specification of token verification at instant `now`:
/// reject `Malformed` unless the envelope splits at a dot into a canonical
/// payload and a signature part; then reject `BadSignature` unless the
/// signature part is the HMAC of the payload under `key`; then reject
/// `Expired` unless `now` lies strictly before the embedded expiry; and
/// otherwise yield the embedded claims unchanged.
pub open spec fn verify_spec(t: Seq<u8>, key: Seq<u8>, now: u64) -> Result<Claims, RejectReason> {
    if !has_dot(t) {
        Err(RejectReason::Malformed)
    } else if !is_canon_payload(payload_of(t)) {
        Err(RejectReason::Malformed)
    } else if sig_part_of(t) != sig_of(payload_of(t), key) {
        Err(RejectReason::BadSignature)
    } else if now >= payload_claims(payload_of(t)).exp {
        Err(RejectReason::Expired)
    } else {
        Ok(payload_claims(payload_of(t)))
    }
}

/// Issue a signed token for `c` under `key`: serialization is total and the
/// signing primitive is infallible, so issuance always succeeds.
pub fn issue(c: &Claims, key: &Vec<u8>) -> (r: Vec<u8>)
    requires
        valid_claims(*c),
    ensures
        r@ == token_spec(*c, key@),
{
    let payload = encode_claims(c);
    let mut sig = sign_bytes(&payload, key);
    let mut t = payload;
    t.push(46);
    t.append(&mut sig);
    proof {
        assert(t@ =~= token_spec(*c, key@));
    }
    t
}

/// Position of the first dot, if any.
fn find_dot(t: &Vec<u8>) -> (r: Option<usize>)
    ensures
        match r {
            Some(i) => is_first_dot(t@, i as int),
            None => !has_dot(t@),
        },
{
    let n = t.len();
    let mut k: usize = 0;
    while k < n
        invariant
            0 <= k <= n == t@.len(),
            forall|j: int| 0 <= j < k ==> t@[j] != 46u8,
        decreases n - k,
    {
        if t[k] == 46 {
            return Some(k);
        }
        k = k + 1;
    }
    proof {
        if has_dot(t@) {
            let i = first_dot(t@);
            assert(is_first_dot(t@, i));
            assert(t@[i] != 46u8);
        }
    }
    None
}

/// Verify a presented token against `key` at instant `now`.
pub fn verify_token(t: &Vec<u8>, key: &Vec<u8>, now: u64) -> (r: Result<Claims, RejectReason>)
    ensures
        r == verify_spec(t@, key@, now),
{
    let dot = match find_dot(t) {
        None => {
            return Err(RejectReason::Malformed);
        },
        Some(i) => i,
    };
    proof {
        assert(has_dot(t@));
        let fd = first_dot(t@);
        assert(is_first_dot(t@, fd));
        if fd < dot as int {
            assert(t@[fd] != 46u8);
        }
        if (dot as int) < fd {
            assert(t@[dot as int] != 46u8);
        }
        assert(fd == dot as int);
    }
    let mut payload: Vec<u8> = Vec::new();
    let mut k: usize = 0;
    while k < dot
        invariant
            0 <= k <= dot < t@.len(),
            payload@ == t@.subrange(0, k as int),
        decreases dot - k,
    {
        payload.push(t[k]);
        proof {
            assert(payload@ =~= t@.subrange(0, k + 1));
        }
        k = k + 1;
    }
    proof {
        assert(payload@ == payload_of(t@));
    }
    let n = t.len();
    let mut sig: Vec<u8> = Vec::new();
    let mut k2: usize = dot + 1;
    while k2 < n
        invariant
            dot + 1 <= k2 <= n == t@.len(),
            sig@ == t@.subrange(dot + 1, k2 as int),
        decreases n - k2,
    {
        sig.push(t[k2]);
        proof {
            assert(sig@ =~= t@.subrange(dot + 1, k2 + 1));
        }
        k2 = k2 + 1;
    }
    proof {
        assert(sig@ == sig_part_of(t@));
    }
    let c = match parse_claims(&payload) {
        None => {
            proof {
                if is_canon_payload(payload@) {
                    let cc = payload_claims(payload@);
                    assert(valid_claims(cc) && payload@ == claims_json_spec(cc));
                }
            }
            return Err(RejectReason::Malformed);
        },
        Some(c) => c,
    };
    proof {
        assert(valid_claims(c) && payload@ == claims_json_spec(c));
        assert(is_canon_payload(payload@));
        let cc = payload_claims(payload@);
        assert(valid_claims(cc) && payload@ == claims_json_spec(cc));
        lemma_claims_json_injective(cc, c);
        assert(payload_claims(payload_of(t@)) == c);
    }
    if !verify_sig(&sig, &payload, key) {
        return Err(RejectReason::BadSignature);
    }
    if now >= c.exp {
        return Err(RejectReason::Expired);
    }
    Ok(c)
}

/// Common shape facts about an issued token: where it splits, and that its
/// payload is canonical for exactly the issued claims.
proof fn lemma_token_parts(c: Claims, key: Seq<u8>)
    requires
        valid_claims(c),
    ensures
        has_dot(token_spec(c, key)),
        payload_of(token_spec(c, key)) == claims_json_spec(c),
        sig_part_of(token_spec(c, key)) == sig_of(claims_json_spec(c), key),
        is_canon_payload(claims_json_spec(c)),
        payload_claims(claims_json_spec(c)) == c,
{
    let t = token_spec(c, key);
    let j = claims_json_spec(c);
    let lj = j.len() as int;
    lemma_json_no_dot(c);
    assert(t[lj] == 46u8);
    assert forall|i: int| 0 <= i < lj implies t[i] != 46u8 by {
        assert(t[i] == j[i]);
    }
    assert(is_first_dot(t, lj));
    assert(has_dot(t));
    let fd = first_dot(t);
    assert(is_first_dot(t, fd));
    if fd < lj {
        assert(t[fd] != 46u8);
    }
    if lj < fd {
        assert(t[lj] != 46u8);
    }
    assert(fd == lj);
    assert(payload_of(t) =~= j);
    assert(sig_part_of(t) =~= sig_of(j, key));
    assert(is_canon_payload(j));
    let cc = payload_claims(j);
    assert(valid_claims(cc) && j == claims_json_spec(cc));
    lemma_claims_json_injective(cc, c);
}

/// Round trip: a token issued for valid claims under a key verifies, under
/// the same key, to exactly those claims at every instant strictly before
/// their expiry.
pub proof fn lemma_round_trip(c: Claims, key: Seq<u8>, now: u64)
    requires
        valid_claims(c),
        now < c.exp,
    ensures
        verify_spec(token_spec(c, key), key, now) == Ok::<Claims, RejectReason>(c),
{
    lemma_token_parts(c, key);
}

/// Expiry boundary: a token whose claims expire at `exp` verifies one second
/// before `exp`, and is rejected as `Expired` at `exp` and at every later
/// instant.
pub proof fn lemma_expiry_boundary(c: Claims, key: Seq<u8>)
    requires
        valid_claims(c),
    ensures
        verify_spec(token_spec(c, key), key, (c.exp - 1) as u64) == Ok::<Claims, RejectReason>(c),
        forall|now: u64| now >= c.exp ==> verify_spec(token_spec(c, key), key, now) == Err::<
            Claims,
            RejectReason,
        >(RejectReason::Expired),
{
    lemma_round_trip(c, key, (c.exp - 1) as u64);
    lemma_token_parts(c, key);
}

/// Tamper evidence, the non-cryptographic half: verification accepts only
/// byte-for-byte the token issued for the claims it returns.  Any accepted
/// token under `key` is `token_spec` of its own claims, so a tampered token
/// can only be accepted by forging a signature for its altered payload.
pub proof fn lemma_accepts_only_issued(t: Seq<u8>, key: Seq<u8>, now: u64, c: Claims)
    requires
        verify_spec(t, key, now) == Ok::<Claims, RejectReason>(c),
    ensures
        valid_claims(c),
        now < c.exp,
        t == token_spec(c, key),
{
    let fd = first_dot(t);
    assert(is_first_dot(t, fd));
    let p = payload_of(t);
    assert(is_canon_payload(p));
    let cc = payload_claims(p);
    assert(valid_claims(cc) && p == claims_json_spec(cc));
    assert(cc == c);
    assert(sig_part_of(t) == sig_of(p, key));
    assert(t =~= p + seq![46u8] + sig_part_of(t)) by {
        assert(p.len() == fd);
        assert(sig_part_of(t).len() == t.len() - fd - 1);
        assert forall|i: int| 0 <= i < t.len() implies (p + seq![46u8] + sig_part_of(t))[i] == t[i]
            by {
            if i < fd {
                assert((p + seq![46u8] + sig_part_of(t))[i] == p[i]);
            } else if i == fd {
                assert((p + seq![46u8] + sig_part_of(t))[i] == 46u8);
            } else {
                assert((p + seq![46u8] + sig_part_of(t))[i] == sig_part_of(t)[i - fd - 1]);
                assert(sig_part_of(t)[i - fd - 1] == t[i]);
            }
        }
    }
}

} // verus!
