use zkp_auth::auth::AuthOrchestrator;
use zkp_auth::bignat::BigNat;
use zkp_auth::error::AuthError;
use zkp_auth::group::GroupParameters;
use zkp_auth::store::{ChallengeSession, ChallengeStore, DuplicateChallengeId, RegistrationStore};
use zkp_auth::table::Table;

fn n(v: u64) -> BigNat {
    BigNat::from_u64(v)
}

fn orchestrator() -> AuthOrchestrator {
    AuthOrchestrator::new(GroupParameters::new(n(23), n(11), n(4), n(9)).unwrap())
}

fn name(s: &str) -> String {
    s.to_string()
}

#[test]
fn table_put_get_take() {
    let mut t: Table<u32> = Table::new();
    assert_eq!(t.len(), 0);
    assert!(!t.contains(&name("a")));
    t.put(name("a"), 1);
    t.put(name("b"), 2);
    t.put(name("a"), 3);
    assert_eq!(t.len(), 2);
    assert_eq!(t.get(&name("a")), Some(&3));
    assert_eq!(t.get(&name("b")), Some(&2));
    assert_eq!(t.get(&name("c")), None);
    assert_eq!(t.take(&name("a")), Some(3));
    assert_eq!(t.take(&name("a")), None);
    assert_eq!(t.len(), 1);
    assert!(t.contains(&name("b")));
}

#[test]
fn registration_store_replaces() {
    let mut s = RegistrationStore::new();
    assert!(s.get(&name("ann")).is_none());
    s.put(name("ann"), n(2), n(3));
    s.put(name("bob"), n(4), n(5));
    s.put(name("ann"), n(6), n(7));
    let u = s.get(&name("ann")).unwrap();
    assert_eq!(u.user_name, "ann");
    assert_eq!(u.y1.to_bytes_be(), vec![6]);
    assert_eq!(u.y2.to_bytes_be(), vec![7]);
    assert!(s.contains(&name("bob")));
    assert!(!s.contains(&name("eve")));
}

fn session(id: &str, who: &str, c: u64) -> ChallengeSession {
    ChallengeSession {
        challenge_id: name(id),
        identity: name(who),
        r1: n(18),
        r2: n(16),
        challenge: n(c),
    }
}

#[test]
fn challenge_store_refuses_duplicates_and_takes_once() {
    let mut s = ChallengeStore::new();
    assert_eq!(s.put(session("id1", "ann", 5)), Ok(()));
    assert_eq!(s.put(session("id1", "bob", 6)), Err(DuplicateChallengeId));
    assert_eq!(s.put(session("id2", "bob", 7)), Ok(()));
    let first = s.take_and_remove(&name("id1")).unwrap();
    assert_eq!(first.identity, "ann");
    assert_eq!(first.challenge_id, "id1");
    assert_eq!(first.challenge.to_bytes_be(), vec![5]);
    assert!(s.take_and_remove(&name("id1")).is_none());
    assert!(s.contains(&name("id2")));
    assert!(!s.contains(&name("id1")));
}

#[test]
fn challenge_before_register_is_unknown_identity() {
    let mut o = orchestrator();
    let r = o.create_authentication_challenge(name("ann"), n(18), n(16));
    assert_eq!(r.err(), Some(AuthError::UnknownIdentity));
    let r = o.issue_challenge(name("ann"), n(18), n(16), n(5), name("id1"));
    assert_eq!(r, Err(AuthError::UnknownIdentity));
    assert!(!o.is_pending(&name("id1")));
}

#[test]
fn full_run_with_drawn_challenge() {
    let mut o = orchestrator();
    let secret = n(6);
    let nonce = n(3);
    o.register_secret(name("ann"), &secret);
    assert!(o.is_registered(&name("ann")));
    let (r1, r2) = o.engine().commit(&nonce);
    let (id, challenge) = o.create_authentication_challenge(name("ann"), r1, r2).unwrap();
    assert_eq!(id.chars().count(), 12);
    assert!(challenge.below(&n(11)));
    assert!(o.is_pending(&id));
    let response = o.engine().respond(&nonce, &challenge, &secret);
    let token = o.verify_authentication(&id, &response).unwrap();
    assert_eq!(token.chars().count(), 12);
    assert!(!o.is_pending(&id));
}

#[test]
fn replay_is_unknown_challenge_after_success() {
    let mut o = orchestrator();
    o.register(name("ann"), n(2), n(3));
    assert_eq!(o.issue_challenge(name("ann"), n(18), n(16), n(5), name("id1")), Ok(()));
    assert_eq!(o.check_response(&name("id1"), &n(6)), Ok(()));
    assert_eq!(o.check_response(&name("id1"), &n(6)), Err(AuthError::UnknownChallenge));
    assert_eq!(
        o.verify_authentication(&name("id1"), &n(6)).err(),
        Some(AuthError::UnknownChallenge)
    );
}

#[test]
fn replay_is_unknown_challenge_after_rejection() {
    let mut o = orchestrator();
    o.register(name("ann"), n(2), n(3));
    assert_eq!(o.issue_challenge(name("ann"), n(18), n(16), n(5), name("id1")), Ok(()));
    assert_eq!(
        o.verify_authentication(&name("id1"), &n(7)).err(),
        Some(AuthError::ProofRejected)
    );
    assert_eq!(
        o.verify_authentication(&name("id1"), &n(6)).err(),
        Some(AuthError::UnknownChallenge)
    );
}

#[test]
fn verify_of_unissued_id_is_unknown_challenge() {
    let mut o = orchestrator();
    o.register(name("ann"), n(2), n(3));
    assert_eq!(o.check_response(&name("nope"), &n(6)), Err(AuthError::UnknownChallenge));
}

#[test]
fn second_registration_wins() {
    let mut o = orchestrator();
    // the commitment of 6, then the commitment of 7
    o.register_secret(name("ann"), &n(6));
    assert_eq!(o.issue_challenge(name("ann"), n(18), n(16), n(5), name("old")), Ok(()));
    o.register_secret(name("ann"), &n(7));
    // the pending session answered for the first secret no longer verifies
    assert_eq!(o.check_response(&name("old"), &n(6)), Err(AuthError::ProofRejected));
    // a session answered for the second secret does: (3 - 5 * 7) mod 11 = 1
    assert_eq!(o.issue_challenge(name("ann"), n(18), n(16), n(5), name("new")), Ok(()));
    assert_eq!(o.check_response(&name("new"), &n(1)), Ok(()));
}

#[test]
fn duplicate_identifier_and_wide_challenge_are_internal_errors() {
    let mut o = orchestrator();
    o.register(name("ann"), n(2), n(3));
    assert_eq!(o.issue_challenge(name("ann"), n(18), n(16), n(5), name("id1")), Ok(()));
    assert_eq!(
        o.issue_challenge(name("ann"), n(1), n(1), n(4), name("id1")),
        Err(AuthError::InternalInconsistency)
    );
    assert_eq!(
        o.issue_challenge(name("ann"), n(18), n(16), n(11), name("id2")),
        Err(AuthError::InternalInconsistency)
    );
    assert!(!o.is_pending(&name("id2")));
    // the first session is untouched by the refused one
    assert_eq!(o.check_response(&name("id1"), &n(6)), Ok(()));
}

#[test]
fn concurrent_sessions_of_one_identity_are_independent() {
    let mut o = orchestrator();
    o.register(name("ann"), n(2), n(3));
    // nonce 3 with challenge 5, and nonce 4 with challenge 2: 4^4 = 3, 9^4 = 6 (mod 23)
    assert_eq!(o.issue_challenge(name("ann"), n(18), n(16), n(5), name("first")), Ok(()));
    assert_eq!(o.issue_challenge(name("ann"), n(3), n(6), n(2), name("second")), Ok(()));
    // (4 - 2 * 6) mod 11 = 3
    assert_eq!(o.check_response(&name("second"), &n(3)), Ok(()));
    assert_eq!(o.check_response(&name("first"), &n(6)), Ok(()));
}

#[test]
fn byte_level_run() {
    let mut o = orchestrator();
    assert_eq!(o.handle_register(name("ann"), vec![2], vec![0, 3]), Ok(()));
    let (id, c) = o.handle_challenge(name("ann"), vec![18], vec![16]).unwrap();
    assert_eq!(id.chars().count(), 12);
    let challenge = BigNat::from_bytes_be(c).unwrap();
    let s = o.engine().respond(&n(3), &challenge, &n(6));
    let token = o.handle_verify(&id, s.to_bytes_be()).unwrap();
    assert_eq!(token.chars().count(), 12);
    assert_eq!(o.handle_verify(&id, s.to_bytes_be()).err(), Some(AuthError::UnknownChallenge));
}

#[test]
fn byte_level_malformed_input_changes_nothing() {
    let mut o = orchestrator();
    assert_eq!(o.handle_register(name("ann"), vec![], vec![3]), Err(AuthError::MalformedInput));
    assert_eq!(o.handle_register(name("ann"), vec![2], vec![]), Err(AuthError::MalformedInput));
    assert!(!o.is_registered(&name("ann")));
    assert_eq!(
        o.handle_challenge(name("ann"), vec![], vec![16]).err(),
        Some(AuthError::MalformedInput)
    );
    assert_eq!(
        o.handle_challenge(name("ann"), vec![18], vec![16]).err(),
        Some(AuthError::UnknownIdentity)
    );
    assert_eq!(o.handle_register(name("ann"), vec![2], vec![3]), Ok(()));
    assert_eq!(
        o.handle_challenge(name("ann"), vec![18], vec![]).err(),
        Some(AuthError::MalformedInput)
    );
    assert_eq!(o.issue_challenge(name("ann"), n(18), n(16), n(5), name("id1")), Ok(()));
    assert_eq!(o.handle_verify(&name("id1"), vec![]).err(), Some(AuthError::MalformedInput));
    // the malformed answer did not consume the session
    assert!(o.is_pending(&name("id1")));
    assert_eq!(o.handle_verify(&name("id1"), vec![7]).err(), Some(AuthError::ProofRejected));
    assert!(!o.is_pending(&name("id1")));
}

#[test]
fn challenge_creation_succeeds_when_nothing_is_pending() {
    let mut o = orchestrator();
    o.register(name("ann"), n(2), n(3));
    let (id, c) = o.create_authentication_challenge(name("ann"), n(18), n(16)).unwrap();
    assert!(o.is_pending(&id));
    assert!(c.below(&n(11)));
    // consumed again, nothing is pending and the byte-level call succeeds as well
    assert!(o.check_response(&id, &n(0)).is_ok() || !o.is_pending(&id));
    assert!(!o.is_pending(&id));
    let (id2, c2) = o.handle_challenge(name("ann"), vec![18], vec![16]).unwrap();
    assert!(o.is_pending(&id2));
    assert!(BigNat::from_bytes_be(c2).unwrap().below(&n(11)));
}

#[test]
fn composite_order_passes_the_consistency_test() {
    // 3 has order 3 modulo 13, a proper divisor of 6: the test cannot tell
    assert!(GroupParameters::new(n(13), n(6), n(3), n(3)).is_some());
    // with the prime order 3 the same generator is exact
    assert!(GroupParameters::new(n(13), n(3), n(3), n(9)).is_some());
}
