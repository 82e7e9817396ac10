//! Tests for the decimal and claims codecs: exact encodings, round trips,
//! and strictness of the parser.

use authcore::claims::{encode_claims, parse_claims, Claims};
use authcore::digits::{enc_dec, parse_dec_range};

#[test]
fn enc_dec_exact_values() {
    assert_eq!(enc_dec(0), b"0".to_vec());
    assert_eq!(enc_dec(7), b"7".to_vec());
    assert_eq!(enc_dec(10), b"10".to_vec());
    assert_eq!(enc_dec(409), b"409".to_vec());
    assert_eq!(enc_dec(u64::MAX), b"18446744073709551615".to_vec());
}

#[test]
fn parse_dec_round_trip() {
    for n in [0u64, 1, 9, 10, 99, 100, 123456789, u64::MAX] {
        let v = enc_dec(n);
        assert_eq!(parse_dec_range(&v, 0, v.len()), Some(n));
    }
}

#[test]
fn parse_dec_rejects_noncanonical() {
    let cases: &[&[u8]] = &[
        b"",
        b"01",
        b"007",
        b"1a",
        b" 1",
        b"-1",
        b"18446744073709551616",     // u64::MAX + 1
        b"99999999999999999999999",  // far too large
    ];
    for case in cases {
        let v = case.to_vec();
        assert_eq!(parse_dec_range(&v, 0, v.len()), None, "accepted {:?}", case);
    }
}

#[test]
fn encode_claims_exact_bytes() {
    let c = Claims { uid: 6, iat: 45, exp: 123 };
    assert_eq!(encode_claims(&c), b"{\"exp\":123,\"iat\":45,\"uid\":6}".to_vec());
}

#[test]
fn claims_round_trip() {
    let cases = [
        Claims { uid: 1, iat: 0, exp: 1 },
        Claims { uid: 42, iat: 1000, exp: 1060 },
        Claims { uid: u64::MAX, iat: u64::MAX - 1, exp: u64::MAX },
    ];
    for c in cases {
        let p = encode_claims(&c);
        assert_eq!(parse_claims(&p), Some(c));
    }
}

#[test]
fn parse_claims_rejects_noncanonical() {
    let cases: &[&[u8]] = &[
        b"",
        b"{}",
        b"{\"exp\":123,\"iat\":45,\"uid\":6",    // missing brace
        b"{\"exp\":123,\"iat\":45,\"uid\":6} ",  // trailing byte
        b"{\"exp\":0123,\"iat\":45,\"uid\":6}",  // leading zero
        b"{\"iat\":45,\"exp\":123,\"uid\":6}",   // wrong key order
        b"{\"exp\":123,\"iat\":45,\"uid\":}",    // empty digits
        b"{\"exp\": 123,\"iat\":45,\"uid\":6}",  // whitespace
        b"{\"exp\":45,\"iat\":123,\"uid\":6}",   // expiry not after issue
        b"{\"exp\":45,\"iat\":45,\"uid\":6}",    // expiry equal to issue
        b"{\"exp\":18446744073709551616,\"iat\":45,\"uid\":6}",  // overflow
    ];
    for case in cases {
        let v = case.to_vec();
        assert_eq!(parse_claims(&v), None, "accepted {:?}", case);
    }
}
