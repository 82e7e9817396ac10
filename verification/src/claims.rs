//! Session claims and their canonical serialized form.
//!
//! A claims value is serialized as `{"exp":E,"iat":I,"uid":U}` with the three
//! numbers in canonical decimal.  The parser accepts exactly that form, so
//! every payload that parses is byte-for-byte the serialization of the claims
//! it yields.

use vstd::prelude::*;
use crate::digits::{is_digit, dec_spec, enc_dec, parse_dec_range, lemma_dec_shape};

verus! {

/// The payload embedded in a session token: subject id, issue instant and
/// expiry instant (seconds since the Unix epoch).
#[derive(Clone, Copy, Debug, PartialEq, Eq, Structural)]
pub struct Claims {
    /// Subject identifier of the authenticated credential record.
    pub uid: u64,
    /// Issue time.
    pub iat: u64,
    /// Expiry time; the token is rejected once `now >= exp`.
    pub exp: u64,
}

/// Structural claims invariant: expiry strictly after issue.
pub open spec fn valid_claims(c: Claims) -> bool {
    c.exp > c.iat
}

/// The seven bytes of `{"exp":`.
pub open spec fn exp_key() -> Seq<u8> {
    seq![123u8, 34u8, 101u8, 120u8, 112u8, 34u8, 58u8]
}

/// The seven bytes of `,"iat":`.
pub open spec fn iat_key() -> Seq<u8> {
    seq![44u8, 34u8, 105u8, 97u8, 116u8, 34u8, 58u8]
}

/// The seven bytes of `,"uid":`.
pub open spec fn uid_key() -> Seq<u8> {
    seq![44u8, 34u8, 117u8, 105u8, 100u8, 34u8, 58u8]
}

/// Canonical serialization of a claims value.
pub open spec fn claims_json_spec(c: Claims) -> Seq<u8> {
    exp_key() + dec_spec(c.exp as nat) + iat_key() + dec_spec(c.iat as nat) + uid_key()
        + dec_spec(c.uid as nat) + seq![125u8]
}

/// How a serialized claims value splits into its seven segments.
pub proof fn lemma_json_decompose(c: Claims)
    ensures
        ({
            let j = claims_json_spec(c);
            let le = dec_spec(c.exp as nat).len() as int;
            let li = dec_spec(c.iat as nat).len() as int;
            let lu = dec_spec(c.uid as nat).len() as int;
            &&& j.len() == 22 + le + li + lu
            &&& j.subrange(0, 7) == exp_key()
            &&& j.subrange(7, 7 + le) == dec_spec(c.exp as nat)
            &&& j.subrange(7 + le, 14 + le) == iat_key()
            &&& j.subrange(14 + le, 14 + le + li) == dec_spec(c.iat as nat)
            &&& j.subrange(14 + le + li, 21 + le + li) == uid_key()
            &&& j.subrange(21 + le + li, 21 + le + li + lu) == dec_spec(c.uid as nat)
            &&& j[21 + le + li + lu] == 125u8
        }),
{
    let j = claims_json_spec(c);
    let le = dec_spec(c.exp as nat).len() as int;
    let li = dec_spec(c.iat as nat).len() as int;
    let lu = dec_spec(c.uid as nat).len() as int;
    assert(j.len() == 22 + le + li + lu);
    assert(j.subrange(0, 7) =~= exp_key());
    assert(j.subrange(7, 7 + le) =~= dec_spec(c.exp as nat));
    assert(j.subrange(7 + le, 14 + le) =~= iat_key());
    assert(j.subrange(14 + le, 14 + le + li) =~= dec_spec(c.iat as nat));
    assert(j.subrange(14 + le + li, 21 + le + li) =~= uid_key());
    assert(j.subrange(21 + le + li, 21 + le + li + lu) =~= dec_spec(c.uid as nat));
}

/// No byte of a serialized claims value is a dot, so the serialization can
/// stand before the first dot of a token.
pub proof fn lemma_json_no_dot(c: Claims)
    ensures
        forall|i: int| 0 <= i < claims_json_spec(c).len() ==> claims_json_spec(c)[i] != 46u8,
{
    let j = claims_json_spec(c);
    let le = dec_spec(c.exp as nat).len() as int;
    let li = dec_spec(c.iat as nat).len() as int;
    let lu = dec_spec(c.uid as nat).len() as int;
    lemma_json_decompose(c);
    lemma_dec_shape(c.exp as nat);
    lemma_dec_shape(c.iat as nat);
    lemma_dec_shape(c.uid as nat);
    assert forall|i: int| 0 <= i < j.len() implies j[i] != 46u8 by {
        if i < 7 {
            assert(j[i] == j.subrange(0, 7)[i]);
        } else if i < 7 + le {
            assert(j[i] == j.subrange(7, 7 + le)[i - 7]);
            assert(is_digit(j[i]));
        } else if i < 14 + le {
            assert(j[i] == j.subrange(7 + le, 14 + le)[i - 7 - le]);
        } else if i < 14 + le + li {
            assert(j[i] == j.subrange(14 + le, 14 + le + li)[i - 14 - le]);
            assert(is_digit(j[i]));
        } else if i < 21 + le + li {
            assert(j[i] == j.subrange(14 + le + li, 21 + le + li)[i - 14 - le - li]);
        } else if i < 21 + le + li + lu {
            assert(j[i] == j.subrange(21 + le + li, 21 + le + li + lu)[i - 21 - le - li]);
            assert(is_digit(j[i]));
        } else {
            assert(j[i] == 125u8);
        }
    }
}

/// Append the canonical serialization of `c` to `out`.
fn push_json(out: &mut Vec<u8>, c: &Claims)
    ensures
        final(out)@ == old(out)@ + claims_json_spec(*c),
{
    let ghost base = out@;
    out.push(123);
    out.push(34);
    out.push(101);
    out.push(120);
    out.push(112);
    out.push(34);
    out.push(58);
    proof {
        assert(out@ =~= base + exp_key());
    }
    let mut d = enc_dec(c.exp);
    out.append(&mut d);
    out.push(44);
    out.push(34);
    out.push(105);
    out.push(97);
    out.push(116);
    out.push(34);
    out.push(58);
    proof {
        assert(out@ =~= base + exp_key() + dec_spec(c.exp as nat) + iat_key());
    }
    let mut d = enc_dec(c.iat);
    out.append(&mut d);
    out.push(44);
    out.push(34);
    out.push(117);
    out.push(105);
    out.push(100);
    out.push(34);
    out.push(58);
    proof {
        assert(out@ =~= base + exp_key() + dec_spec(c.exp as nat) + iat_key()
            + dec_spec(c.iat as nat) + uid_key());
    }
    let mut d = enc_dec(c.uid);
    out.append(&mut d);
    out.push(125);
    proof {
        assert(out@ =~= base + claims_json_spec(*c));
    }
}

/// Serialize `c` in its canonical form.
pub fn encode_claims(c: &Claims) -> (r: Vec<u8>)
    ensures
        r@ == claims_json_spec(*c),
{
    let mut out: Vec<u8> = Vec::new();
    push_json(&mut out, c);
    proof {
        assert(out@ =~= claims_json_spec(*c));
    }
    out
}

/// Whether the seven bytes at `i` are `k0..k6`.
fn match_key(s: &Vec<u8>, i: usize, k0: u8, k1: u8, k2: u8, k3: u8, k4: u8, k5: u8, k6: u8) -> (r:
    bool)
    requires
        i + 7 <= s@.len(),
    ensures
        r == (s@.subrange(i as int, i as int + 7) == seq![k0, k1, k2, k3, k4, k5, k6]),
{
    let l = s.len();
    let r = s[i] == k0 && s[i + 1] == k1 && s[i + 2] == k2 && s[i + 3] == k3 && s[i + 4] == k4
        && s[i + 5] == k5 && s[i + 6] == k6;
    proof {
        let sub = s@.subrange(i as int, i as int + 7);
        let pat = seq![k0, k1, k2, k3, k4, k5, k6];
        assert(sub.len() == 7);
        assert(sub[0] == s@[i as int] && sub[1] == s@[i as int + 1] && sub[2] == s@[i as int + 2]
            && sub[3] == s@[i as int + 3] && sub[4] == s@[i as int + 4] && sub[5] == s@[
            i as int + 5] && sub[6] == s@[i as int + 6]);
        if r {
            assert(sub =~= pat);
        } else {
            if sub == pat {
                assert(false);
            }
        }
    }
    r
}

/// First index at or after `i` (up to `end`) that holds a non-digit.
fn digit_run_end(s: &Vec<u8>, i: usize, end: usize) -> (r: usize)
    requires
        i <= end <= s@.len(),
    ensures
        i <= r <= end,
        forall|j: int| i <= j < r ==> is_digit(#[trigger] s@[j]),
        r < end ==> !is_digit(s@[r as int]),
{
    let mut k = i;
    while k < end
        invariant
            i <= k <= end <= s@.len(),
            forall|j: int| i <= j < k ==> is_digit(#[trigger] s@[j]),
        decreases end - k,
    {
        let b = s[k];
        if b < 48 || b > 57 {
            return k;
        }
        k = k + 1;
    }
    k
}

/// Parse a payload as the canonical serialization of a claims value.
/// Accepts exactly the output of `encode_claims` on claims that satisfy
/// `valid_claims`, and reconstructs that value.
#[verifier::rlimit(100)]
pub fn parse_claims(p: &Vec<u8>) -> (r: Option<Claims>)
    ensures
        r is Some ==> p@ == claims_json_spec(r->0) && valid_claims(r->0),
        forall|c: Claims| valid_claims(c) && p@ == #[trigger] claims_json_spec(c) ==> r == Some(c),
{
    let n = p.len();
    if n < 7 {
        proof {
            assert forall|c: Claims| valid_claims(c) && p@ == #[trigger] claims_json_spec(c)
                implies false by {
                lemma_json_decompose(c);
                lemma_dec_shape(c.exp as nat);
                lemma_dec_shape(c.iat as nat);
                lemma_dec_shape(c.uid as nat);
            }
        }
        return None;
    }
    if !match_key(p, 0, 123, 34, 101, 120, 112, 34, 58) {
        proof {
            assert forall|c: Claims| valid_claims(c) && p@ == #[trigger] claims_json_spec(c)
                implies false by {
                lemma_json_decompose(c);
            }
        }
        return None;
    }
    let e1 = digit_run_end(p, 7, n);
    proof {
        assert forall|c: Claims| valid_claims(c) && p@ == #[trigger] claims_json_spec(c)
            implies e1 == 7 + dec_spec(c.exp as nat).len() by {
            lemma_json_decompose(c);
            lemma_dec_shape(c.exp as nat);
            lemma_dec_shape(c.iat as nat);
            lemma_dec_shape(c.uid as nat);
            let le = dec_spec(c.exp as nat).len() as int;
            assert(forall|j: int| 7 <= j < 7 + le ==> is_digit(#[trigger] p@[j]));
            assert(p@[7 + le] == iat_key()[0]);
            assert(!is_digit(p@[7 + le]));
            if e1 < 7 + le {
                assert(is_digit(p@[e1 as int]));
                assert(!is_digit(p@[e1 as int]));
            }
            if e1 > 7 + le {
                assert(is_digit(p@[7 + le]));
            }
        }
    }
    let v_exp = match parse_dec_range(p, 7, e1) {
        Some(v) => v,
        None => {
            proof {
                assert forall|c: Claims| valid_claims(c) && p@ == #[trigger] claims_json_spec(c)
                    implies false by {
                    lemma_json_decompose(c);
                    assert(p@.subrange(7, e1 as int) == dec_spec(c.exp as nat));
                }
            }
            return None;
        },
    };
    if n - e1 < 7 || !match_key(p, e1, 44, 34, 105, 97, 116, 34, 58) {
        proof {
            assert forall|c: Claims| valid_claims(c) && p@ == #[trigger] claims_json_spec(c)
                implies false by {
                lemma_json_decompose(c);
                lemma_dec_shape(c.exp as nat);
                lemma_dec_shape(c.iat as nat);
                lemma_dec_shape(c.uid as nat);
            }
        }
        return None;
    }
    let e2 = digit_run_end(p, e1 + 7, n);
    proof {
        assert forall|c: Claims| valid_claims(c) && p@ == #[trigger] claims_json_spec(c)
            implies e2 == e1 + 7 + dec_spec(c.iat as nat).len() by {
            lemma_json_decompose(c);
            lemma_dec_shape(c.exp as nat);
            lemma_dec_shape(c.iat as nat);
            lemma_dec_shape(c.uid as nat);
            let le = dec_spec(c.exp as nat).len() as int;
            let li = dec_spec(c.iat as nat).len() as int;
            assert(forall|j: int| 14 + le <= j < 14 + le + li ==> is_digit(#[trigger] p@[j]));
            assert(p@[14 + le + li] == uid_key()[0]);
            assert(!is_digit(p@[14 + le + li]));
            if e2 < 14 + le + li {
                assert(is_digit(p@[e2 as int]));
            }
            if e2 > 14 + le + li {
                assert(is_digit(p@[14 + le + li]));
            }
        }
    }
    let v_iat = match parse_dec_range(p, e1 + 7, e2) {
        Some(v) => v,
        None => {
            proof {
                assert forall|c: Claims| valid_claims(c) && p@ == #[trigger] claims_json_spec(c)
                    implies false by {
                    lemma_json_decompose(c);
                    assert(p@.subrange(e1 + 7, e2 as int) == dec_spec(c.iat as nat));
                }
            }
            return None;
        },
    };
    if n - e2 < 7 || !match_key(p, e2, 44, 34, 117, 105, 100, 34, 58) {
        proof {
            assert forall|c: Claims| valid_claims(c) && p@ == #[trigger] claims_json_spec(c)
                implies false by {
                lemma_json_decompose(c);
                lemma_dec_shape(c.exp as nat);
                lemma_dec_shape(c.iat as nat);
                lemma_dec_shape(c.uid as nat);
            }
        }
        return None;
    }
    let e3 = digit_run_end(p, e2 + 7, n);
    proof {
        assert forall|c: Claims| valid_claims(c) && p@ == #[trigger] claims_json_spec(c)
            implies e3 == e2 + 7 + dec_spec(c.uid as nat).len() by {
            lemma_json_decompose(c);
            lemma_dec_shape(c.exp as nat);
            lemma_dec_shape(c.iat as nat);
            lemma_dec_shape(c.uid as nat);
            let le = dec_spec(c.exp as nat).len() as int;
            let li = dec_spec(c.iat as nat).len() as int;
            let lu = dec_spec(c.uid as nat).len() as int;
            assert(forall|j: int| 21 + le + li <= j < 21 + le + li + lu ==> is_digit(
                #[trigger] p@[j]));
            assert(p@[21 + le + li + lu] == 125u8);
            assert(!is_digit(p@[21 + le + li + lu]));
            if e3 < 21 + le + li + lu {
                assert(is_digit(p@[e3 as int]));
            }
            if e3 > 21 + le + li + lu {
                assert(is_digit(p@[21 + le + li + lu]));
            }
        }
    }
    let v_uid = match parse_dec_range(p, e2 + 7, e3) {
        Some(v) => v,
        None => {
            proof {
                assert forall|c: Claims| valid_claims(c) && p@ == #[trigger] claims_json_spec(c)
                    implies false by {
                    lemma_json_decompose(c);
                    assert(p@.subrange(e2 + 7, e3 as int) == dec_spec(c.uid as nat));
                }
            }
            return None;
        },
    };
    if !(e3 < n && n - e3 == 1 && p[e3] == 125) {
        proof {
            assert forall|c: Claims| valid_claims(c) && p@ == #[trigger] claims_json_spec(c)
                implies false by {
                lemma_json_decompose(c);
            }
        }
        return None;
    }
    if v_exp <= v_iat {
        proof {
            assert forall|c: Claims| valid_claims(c) && p@ == #[trigger] claims_json_spec(c)
                implies false by {
                lemma_json_decompose(c);
                crate::digits::lemma_dec_injective(c.exp as nat, v_exp as nat);
                crate::digits::lemma_dec_injective(c.iat as nat, v_iat as nat);
            }
        }
        return None;
    }
    let out = Claims { uid: v_uid, iat: v_iat, exp: v_exp };
    proof {
        let le = dec_spec(v_exp as nat).len() as int;
        let li = dec_spec(v_iat as nat).len() as int;
        let lu = dec_spec(v_uid as nat).len() as int;
        assert(p@.subrange(7, e1 as int) == dec_spec(v_exp as nat));
        assert(e1 == 7 + le);
        assert(p@.subrange(e1 + 7, e2 as int) == dec_spec(v_iat as nat));
        assert(e2 == e1 + 7 + li);
        assert(p@.subrange(e2 + 7, e3 as int) == dec_spec(v_uid as nat));
        assert(e3 == e2 + 7 + lu);
        lemma_json_decompose(out);
        let j = claims_json_spec(out);
        assert(p@.len() == j.len());
        assert forall|i: int| 0 <= i < p@.len() implies p@[i] == j[i] by {
            if i < 7 {
                assert(p@[i] == p@.subrange(0, 7)[i]);
                assert(j[i] == j.subrange(0, 7)[i]);
            } else if i < 7 + le {
                assert(p@[i] == p@.subrange(7, 7 + le)[i - 7]);
                assert(j[i] == j.subrange(7, 7 + le)[i - 7]);
            } else if i < 14 + le {
                assert(p@[i] == p@.subrange(e1 as int, e1 as int + 7)[i - 7 - le]);
                assert(j[i] == j.subrange(7 + le, 14 + le)[i - 7 - le]);
            } else if i < 14 + le + li {
                assert(p@[i] == p@.subrange(14 + le, 14 + le + li)[i - 14 - le]);
                assert(j[i] == j.subrange(14 + le, 14 + le + li)[i - 14 - le]);
            } else if i < 21 + le + li {
                assert(p@[i] == p@.subrange(e2 as int, e2 as int + 7)[i - 14 - le - li]);
                assert(j[i] == j.subrange(14 + le + li, 21 + le + li)[i - 14 - le - li]);
            } else if i < 21 + le + li + lu {
                assert(p@[i] == p@.subrange(21 + le + li, 21 + le + li + lu)[i - 21 - le - li]);
                assert(j[i] == j.subrange(21 + le + li, 21 + le + li + lu)[i - 21 - le - li]);
            } else {
                assert(j[i] == 125u8);
            }
        }
        assert(p@ =~= j);
        assert forall|c: Claims| valid_claims(c) && p@ == #[trigger] claims_json_spec(c)
            implies Some(out) == Some(c) by {
            lemma_json_decompose(c);
            lemma_claims_json_injective(out, c);
        }
    }
    Some(out)
}

/// Canonical serializations are injective: equal payloads mean equal claims.
#[verifier::rlimit(100)]
pub proof fn lemma_claims_json_injective(c1: Claims, c2: Claims)
    requires
        claims_json_spec(c1) == claims_json_spec(c2),
    ensures
        c1 == c2,
{
    let j1 = claims_json_spec(c1);
    let j2 = claims_json_spec(c2);
    lemma_json_decompose(c1);
    lemma_json_decompose(c2);
    lemma_dec_shape(c1.exp as nat);
    lemma_dec_shape(c2.exp as nat);
    let le1 = dec_spec(c1.exp as nat).len() as int;
    let le2 = dec_spec(c2.exp as nat).len() as int;
    let r1 = j1.subrange(7, j1.len() as int);
    let r2 = j2.subrange(7, j2.len() as int);
    assert(r1 == r2);
    assert(r1 =~= dec_spec(c1.exp as nat) + j1.subrange(7 + le1, j1.len() as int));
    assert(r2 =~= dec_spec(c2.exp as nat) + j2.subrange(7 + le2, j2.len() as int));
    let t1 = j1.subrange(7 + le1, j1.len() as int);
    let t2 = j2.subrange(7 + le2, j2.len() as int);
    assert(t1[0] == iat_key()[0] && !is_digit(t1[0])) by {
        assert(t1[0] == j1.subrange(7 + le1, 14 + le1)[0]);
    }
    assert(t2[0] == iat_key()[0] && !is_digit(t2[0])) by {
        assert(t2[0] == j2.subrange(7 + le2, 14 + le2)[0]);
    }
    crate::digits::lemma_digit_run_unique(c1.exp as nat, c2.exp as nat, t1, t2);
    assert(c1.exp == c2.exp);
    lemma_dec_shape(c1.iat as nat);
    lemma_dec_shape(c2.iat as nat);
    let li1 = dec_spec(c1.iat as nat).len() as int;
    let li2 = dec_spec(c2.iat as nat).len() as int;
    let m1 = t1.subrange(7, t1.len() as int);
    let m2 = t2.subrange(7, t2.len() as int);
    assert(m1 == m2);
    assert(m1 =~= dec_spec(c1.iat as nat) + j1.subrange(14 + le1 + li1, j1.len() as int));
    assert(m2 =~= dec_spec(c2.iat as nat) + j2.subrange(14 + le2 + li2, j2.len() as int));
    let w1 = j1.subrange(14 + le1 + li1, j1.len() as int);
    let w2 = j2.subrange(14 + le2 + li2, j2.len() as int);
    assert(w1[0] == uid_key()[0] && !is_digit(w1[0])) by {
        assert(w1[0] == j1.subrange(14 + le1 + li1, 21 + le1 + li1)[0]);
    }
    assert(w2[0] == uid_key()[0] && !is_digit(w2[0])) by {
        assert(w2[0] == j2.subrange(14 + le2 + li2, 21 + le2 + li2)[0]);
    }
    crate::digits::lemma_digit_run_unique(c1.iat as nat, c2.iat as nat, w1, w2);
    assert(c1.iat == c2.iat);
    lemma_dec_shape(c1.uid as nat);
    lemma_dec_shape(c2.uid as nat);
    let lu1 = dec_spec(c1.uid as nat).len() as int;
    let lu2 = dec_spec(c2.uid as nat).len() as int;
    let x1 = w1.subrange(7, w1.len() as int);
    let x2 = w2.subrange(7, w2.len() as int);
    assert(x1 == x2);
    assert(x1 =~= dec_spec(c1.uid as nat) + seq![125u8]);
    assert(x2 =~= dec_spec(c2.uid as nat) + seq![125u8]);
    crate::digits::lemma_digit_run_unique(c1.uid as nat, c2.uid as nat, seq![125u8], seq![125u8]);
    assert(c1.uid == c2.uid);
}

} // verus!
