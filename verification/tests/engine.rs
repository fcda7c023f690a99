use zkp_auth::bignat::BigNat;
use zkp_auth::engine::ProofEngine;
use zkp_auth::error::{AuthError, StatusCode};
use zkp_auth::group::GroupParameters;
use zkp_auth::random::{random_exponent, random_token, TOKEN_LENGTH};

fn n(v: u64) -> BigNat {
    BigNat::from_u64(v)
}

fn small_group() -> GroupParameters {
    GroupParameters::new(n(23), n(11), n(4), n(9)).expect("consistent parameters")
}

fn small_engine() -> ProofEngine {
    ProofEngine::new(small_group())
}

#[test]
fn decoding_refuses_empty_bytes() {
    assert_eq!(BigNat::from_bytes_be(Vec::new()).err(), Some(AuthError::MalformedInput));
    assert!(BigNat::from_bytes_be(vec![0]).is_ok());
}

#[test]
fn encoding_is_shortest_big_endian() {
    let v = BigNat::from_bytes_be(vec![0, 0, 5]).unwrap();
    assert_eq!(v.to_bytes_be(), vec![5]);
    assert_eq!(n(0).to_bytes_be(), vec![0]);
    assert_eq!(n(1125).to_bytes_be(), vec![4, 101]);
    assert_eq!(n(256).to_bytes_be(), vec![1, 0]);
    let w = BigNat::from_bytes_be(vec![1, 2, 3]).unwrap();
    assert!(w.equals(&n(66051)));
    assert_eq!(w.duplicate().to_bytes_be(), vec![1, 2, 3]);
}

#[test]
fn comparisons_go_by_value() {
    let padded = BigNat::from_bytes_be(vec![0, 7]).unwrap();
    assert!(padded.equals(&n(7)));
    assert!(!padded.equals(&n(8)));
    assert!(n(7).below(&n(8)));
    assert!(!n(8).below(&n(8)));
    assert!(!n(9).below(&n(8)));
    assert!(n(0).is_zero());
    assert!(BigNat::from_bytes_be(vec![0, 0]).unwrap().is_zero());
    assert!(!n(1).is_zero());
}

#[test]
fn consistent_parameters_are_accepted() {
    let g = small_group();
    assert_eq!(g.modulus().to_bytes_be(), vec![23]);
    assert_eq!(g.order().to_bytes_be(), vec![11]);
    assert_eq!(g.generator_a().to_bytes_be(), vec![4]);
    assert_eq!(g.generator_b().to_bytes_be(), vec![9]);
}

#[test]
fn inconsistent_parameters_are_refused() {
    // the order does not divide modulus - 1
    assert!(GroupParameters::new(n(23), n(7), n(4), n(9)).is_none());
    // 5 has order 22 modulo 23, not 11
    assert!(GroupParameters::new(n(23), n(11), n(5), n(9)).is_none());
    assert!(GroupParameters::new(n(23), n(11), n(4), n(5)).is_none());
    // a generator of order 1 where the order is 11
    assert!(GroupParameters::new(n(23), n(11), n(1), n(9)).is_none());
    assert!(GroupParameters::new(n(23), n(11), n(4), n(24)).is_none());
    // degenerate modulus and order
    assert!(GroupParameters::new(n(1), n(1), n(1), n(1)).is_none());
    assert!(GroupParameters::new(n(0), n(11), n(4), n(9)).is_none());
    assert!(GroupParameters::new(n(23), n(0), n(4), n(9)).is_none());
}

#[test]
fn commit_raises_both_generators() {
    let e = small_engine();
    let (y1, y2) = e.commit(&n(6));
    assert_eq!(y1.to_bytes_be(), vec![2]);
    assert_eq!(y2.to_bytes_be(), vec![3]);
    let (r1, r2) = e.commit(&n(3));
    assert_eq!(r1.to_bytes_be(), vec![18]);
    assert_eq!(r2.to_bytes_be(), vec![16]);
    let (o1, o2) = e.commit(&n(0));
    assert_eq!(o1.to_bytes_be(), vec![1]);
    assert_eq!(o2.to_bytes_be(), vec![1]);
}

#[test]
fn respond_gives_non_negative_representative() {
    let e = small_engine();
    // (3 - 5 * 6) mod 11 = 6
    assert_eq!(e.respond(&n(3), &n(5), &n(6)).to_bytes_be(), vec![6]);
    // (10 - 2 * 3) mod 11 = 4
    assert_eq!(e.respond(&n(10), &n(2), &n(3)).to_bytes_be(), vec![4]);
    // (0 - 1 * 11) mod 11 = 0, not 11
    assert_eq!(e.respond(&n(0), &n(1), &n(11)).to_bytes_be(), vec![0]);
    // (40 - 1 * 7) mod 11 = 0
    assert_eq!(e.respond(&n(40), &n(1), &n(7)).to_bytes_be(), vec![0]);
    // (2 - 1 * 3) mod 11 = 10
    assert_eq!(e.respond(&n(2), &n(1), &n(3)).to_bytes_be(), vec![10]);
}

#[test]
fn concrete_scenario() {
    let e = small_engine();
    let secret = n(6);
    let nonce = n(3);
    let challenge = n(5);
    let (y1, y2) = e.commit(&secret);
    let (r1, r2) = e.commit(&nonce);
    let response = e.respond(&nonce, &challenge, &secret);
    assert_eq!(response.to_bytes_be(), vec![6]);
    assert!(e.verify(&r1, &r2, &y1, &y2, &challenge, &response));
    assert!(!e.verify(&r1, &r2, &y1, &y2, &challenge, &n(7)));
}

#[test]
fn verify_needs_both_equations() {
    let e = small_engine();
    // only the first equation holds
    assert!(!e.verify(&n(18), &n(17), &n(2), &n(3), &n(5), &n(6)));
    // only the second equation holds
    assert!(!e.verify(&n(19), &n(16), &n(2), &n(3), &n(5), &n(6)));
    // the commitment is compared as given, not reduced
    assert!(!e.verify(&n(18 + 23), &n(16), &n(2), &n(3), &n(5), &n(6)));
}

#[test]
fn honest_proofs_verify_for_all_small_exponents() {
    let e = small_engine();
    for x in 0..11u64 {
        let (y1, y2) = e.commit(&n(x));
        for k in 0..11u64 {
            let (r1, r2) = e.commit(&n(k));
            for c in 0..11u64 {
                let s = e.respond(&n(k), &n(c), &n(x));
                assert!(s.below(&n(11)));
                assert!(e.verify(&r1, &r2, &y1, &y2, &n(c), &s));
            }
        }
    }
}

#[test]
fn proof_binds_registered_secret() {
    let e = small_engine();
    for x in 0..11u64 {
        for other in 0..11u64 {
            if x == other {
                continue;
            }
            let (y1, y2) = e.commit(&n(other));
            for c in 1..11u64 {
                let k = 3u64;
                let (r1, r2) = e.commit(&n(k));
                let s = e.respond(&n(k), &n(c), &n(x));
                assert!(!e.verify(&r1, &r2, &y1, &y2, &n(c), &s));
            }
        }
    }
}

#[test]
fn zero_challenge_does_not_bind() {
    let e = small_engine();
    let (y1, y2) = e.commit(&n(7));
    let (r1, r2) = e.commit(&n(3));
    let s = e.respond(&n(3), &n(0), &n(6));
    assert!(e.verify(&r1, &r2, &y1, &y2, &n(0), &s));
}

#[test]
fn status_codes() {
    assert_eq!(AuthError::UnknownIdentity.status_code(), StatusCode::NotFound);
    assert_eq!(AuthError::UnknownChallenge.status_code(), StatusCode::InvalidArgument);
    assert_eq!(AuthError::ProofRejected.status_code(), StatusCode::PermissionDenied);
    assert_eq!(AuthError::MalformedInput.status_code(), StatusCode::InvalidArgument);
    assert_eq!(AuthError::InternalInconsistency.status_code(), StatusCode::Internal);
}

#[test]
fn random_exponents_are_below_the_order() {
    let g = small_group();
    for _ in 0..200 {
        assert!(random_exponent(&g).below(&n(11)));
    }
    let tiny = GroupParameters::new(n(2), n(1), n(1), n(1)).unwrap();
    assert!(random_exponent(&tiny).is_zero());
}

#[test]
fn random_tokens_have_the_fixed_shape() {
    assert_eq!(TOKEN_LENGTH, 12);
    let a = random_token();
    let b = random_token();
    assert_eq!(a.chars().count(), 12);
    assert!(a.chars().all(|c| c.is_ascii_alphanumeric()));
    assert_ne!(a, b);
}

const MODULUS: [u8; 128] = [
    0xB1, 0x0B, 0x8F, 0x96, 0xA0, 0x80, 0xE0, 0x1D, 0xDE, 0x92, 0xDE, 0x5E,
    0xAE, 0x5D, 0x54, 0xEC, 0x52, 0xC9, 0x9F, 0xBC, 0xFB, 0x06, 0xA3, 0xC6,
    0x9A, 0x6A, 0x9D, 0xCA, 0x52, 0xD2, 0x3B, 0x61, 0x60, 0x73, 0xE2, 0x86,
    0x75, 0xA2, 0x3D, 0x18, 0x98, 0x38, 0xEF, 0x1E, 0x2E, 0xE6, 0x52, 0xC0,
    0x13, 0xEC, 0xB4, 0xAE, 0xA9, 0x06, 0x11, 0x23, 0x24, 0x97, 0x5C, 0x3C,
    0xD4, 0x9B, 0x83, 0xBF, 0xAC, 0xCB, 0xDD, 0x7D, 0x90, 0xC4, 0xBD, 0x70,
    0x98, 0x48, 0x8E, 0x9C, 0x21, 0x9A, 0x73, 0x72, 0x4E, 0xFF, 0xD6, 0xFA,
    0xE5, 0x64, 0x47, 0x38, 0xFA, 0xA3, 0x1A, 0x4F, 0xF5, 0x5B, 0xCC, 0xC0,
    0xA1, 0x51, 0xAF, 0x5F, 0x0D, 0xC8, 0xB4, 0xBD, 0x45, 0xBF, 0x37, 0xDF,
    0x36, 0x5C, 0x1A, 0x65, 0xE6, 0x8C, 0xFD, 0xA7, 0x6D, 0x4D, 0xA7, 0x08,
    0xDF, 0x1F, 0xB2, 0xBC, 0x2E, 0x4A, 0x43, 0x71,
];

const ORDER: [u8; 20] = [
    0xF5, 0x18, 0xAA, 0x87, 0x81, 0xA8, 0xDF, 0x27, 0x8A, 0xBA, 0x4E, 0x7D,
    0x64, 0xB7, 0xCB, 0x9D, 0x49, 0x46, 0x23, 0x53,
];

const GENERATOR: [u8; 128] = [
    0xA4, 0xD1, 0xCB, 0xD5, 0xC3, 0xFD, 0x34, 0x12, 0x67, 0x65, 0xA4, 0x42,
    0xEF, 0xB9, 0x99, 0x05, 0xF8, 0x10, 0x4D, 0xD2, 0x58, 0xAC, 0x50, 0x7F,
    0xD6, 0x40, 0x6C, 0xFF, 0x14, 0x26, 0x6D, 0x31, 0x26, 0x6F, 0xEA, 0x1E,
    0x5C, 0x41, 0x56, 0x4B, 0x77, 0x7E, 0x69, 0x0F, 0x55, 0x04, 0xF2, 0x13,
    0x16, 0x02, 0x17, 0xB4, 0xB0, 0x1B, 0x88, 0x6A, 0x5E, 0x91, 0x54, 0x7F,
    0x9E, 0x27, 0x49, 0xF4, 0xD7, 0xFB, 0xD7, 0xD3, 0xB9, 0xA9, 0x2E, 0xE1,
    0x90, 0x9D, 0x0D, 0x22, 0x63, 0xF8, 0x0A, 0x76, 0xA6, 0xA2, 0x4C, 0x08,
    0x7A, 0x09, 0x1F, 0x53, 0x1D, 0xBF, 0x0A, 0x01, 0x69, 0xB6, 0xA2, 0x8A,
    0xD6, 0x62, 0xA4, 0xD1, 0x8E, 0x73, 0xAF, 0xA3, 0x2D, 0x77, 0x9D, 0x59,
    0x18, 0xD0, 0x8B, 0xC8, 0x85, 0x8F, 0x4D, 0xCE, 0xF9, 0x7C, 0x2A, 0x24,
    0x85, 0x5E, 0x6E, 0xEB, 0x22, 0xB3, 0xB2, 0xE5,
];

#[test]
fn standard_group_is_consistent() {
    let exponent = BigNat::from_bytes_be(vec![0x26, 0x6F, 0xEA, 0x1E, 0x5C, 0x41, 0x56, 0x4B, 0x77, 0x7E, 0x69]).unwrap();
    let g = GroupParameters::with_derived_generator(
        BigNat::from_bytes_be(MODULUS.to_vec()).unwrap(),
        BigNat::from_bytes_be(ORDER.to_vec()).unwrap(),
        BigNat::from_bytes_be(GENERATOR.to_vec()).unwrap(),
        &exponent,
    )
    .expect("consistent parameters");
    assert_eq!(g.order().to_bytes_be(), ORDER.to_vec());
    let e = ProofEngine::new(g);
    let secret = BigNat::from_bytes_be(b"correct horse".to_vec()).unwrap();
    let nonce = random_exponent(e.params());
    let challenge = random_exponent(e.params());
    let (y1, y2) = e.commit(&secret);
    let (r1, r2) = e.commit(&nonce);
    let s = e.respond(&nonce, &challenge, &secret);
    assert!(e.verify(&r1, &r2, &y1, &y2, &challenge, &s));
    let wrong = e.respond(&nonce, &challenge, &n(12345));
    assert!(!e.verify(&r1, &r2, &y1, &y2, &challenge, &wrong) || challenge.is_zero());
}

#[test]
fn derived_generator_is_a_power_of_the_first() {
    let g = GroupParameters::with_derived_generator(n(23), n(11), n(4), &n(2)).unwrap();
    assert_eq!(g.generator_b().to_bytes_be(), vec![16]);
    assert!(GroupParameters::with_derived_generator(n(0), n(11), n(4), &n(2)).is_none());
    assert!(GroupParameters::with_derived_generator(n(23), n(7), n(4), &n(2)).is_none());
}

#[test]
fn verify_accepts_exactly_the_congruent_responses() {
    let e = small_engine();
    for x in [0u64, 4, 10] {
        let (y1, y2) = e.commit(&n(x));
        for k in [0u64, 3, 9] {
            let (r1, r2) = e.commit(&n(k));
            for c in 0..11u64 {
                for s in 0..30u64 {
                    let expected = (s + c * x) % 11 == k % 11;
                    assert_eq!(e.verify(&r1, &r2, &y1, &y2, &n(c), &n(s)), expected);
                }
            }
        }
    }
}
