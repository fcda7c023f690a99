//! The session state machine: register, challenge, verify.

use vstd::prelude::*;
use crate::bignat::BigNat;
use crate::engine::{
    commit_spec, lemma_honest_proof_verifies, lemma_proof_binds_secret, respond_spec, verify_spec,
    ProofEngine,
};
use crate::error::AuthError;
use crate::group::{GroupParameters, GroupView};
use crate::random::{is_token, random_exponent, random_token};
use crate::store::{ChallengeSession, ChallengeStore, RegistrationStore, SessionView};

verus! {

/// The state of the protocol, as mathematical values: the group, the
/// registered commitment pairs by identity, and the pending sessions by
/// challenge identifier.
pub struct AuthState {
    pub params: GroupView,
    pub registrations: Map<Seq<char>, (nat, nat)>,
    pub challenges: Map<Seq<char>, SessionView>,
}

impl AuthState {
    /// The state before any operation.
    pub open spec fn initial(params: GroupView) -> AuthState {
        AuthState { params, registrations: Map::empty(), challenges: Map::empty() }
    }

    /// The parameters are consistent, and every pending session belongs to
    /// a registered identity.
    pub open spec fn wf(self) -> bool {
        &&& self.params.consistent()
        &&& forall|id: Seq<char>| #[trigger]
            self.challenges.contains_key(id) ==> self.registrations.contains_key(
                self.challenges[id].identity,
            )
    }

    /// Registration: the pair is filed under the identity, replacing an earlier one.
    pub open spec fn register(self, identity: Seq<char>, y1: nat, y2: nat) -> AuthState {
        AuthState { registrations: self.registrations.insert(identity, (y1, y2)), ..self }
    }

    /// Challenge creation with the drawn values given: the next state and the outcome.
    pub open spec fn challenge(
        self,
        identity: Seq<char>,
        r1: nat,
        r2: nat,
        challenge: nat,
        challenge_id: Seq<char>,
    ) -> (AuthState, Result<(), AuthError>) {
        if !self.registrations.contains_key(identity) {
            (self, Err(AuthError::UnknownIdentity))
        } else if challenge >= self.params.order || self.challenges.contains_key(challenge_id) {
            (self, Err(AuthError::InternalInconsistency))
        } else {
            (
                AuthState {
                    challenges: self.challenges.insert(
                        challenge_id,
                        SessionView { identity, r1, r2, challenge },
                    ),
                    ..self
                },
                Ok(()),
            )
        }
    }

    /// Verification: the next state and the outcome. A pending session is
    /// consumed whatever the outcome.
    pub open spec fn verify(self, challenge_id: Seq<char>, response: nat) -> (
        AuthState,
        Result<(), AuthError>,
    ) {
        if !self.challenges.contains_key(challenge_id) {
            (self, Err(AuthError::UnknownChallenge))
        } else {
            let session = self.challenges[challenge_id];
            let next = AuthState { challenges: self.challenges.remove(challenge_id), ..self };
            if !self.registrations.contains_key(session.identity) {
                (next, Err(AuthError::InternalInconsistency))
            } else {
                let y = self.registrations[session.identity];
                if verify_spec(
                    self.params,
                    session.r1,
                    session.r2,
                    y.0,
                    y.1,
                    session.challenge,
                    response,
                ) {
                    (next, Ok(()))
                } else {
                    (next, Err(AuthError::ProofRejected))
                }
            }
        }
    }
}

/// The three protocol operations over the two stores and the proof engine.
#[derive(Debug)]
pub struct AuthOrchestrator {
    engine: ProofEngine,
    registrations: RegistrationStore,
    challenges: ChallengeStore,
}

impl View for AuthOrchestrator {
    type V = AuthState;

    closed spec fn view(&self) -> AuthState {
        AuthState {
            params: self.engine@,
            registrations: self.registrations@,
            challenges: self.challenges@,
        }
    }
}

impl AuthOrchestrator {
    /// The stores are well formed, and so is the state they stand for.
    pub closed spec fn wf(&self) -> bool {
        &&& self.registrations.wf()
        &&& self.challenges.wf()
        &&& self@.wf()
    }

    /// A well-formed orchestrator stands for a well-formed state: the
    /// parameters are consistent and every pending session belongs to a
    /// registered identity.
    pub proof fn lemma_wf_state(&self)
        requires
            self.wf(),
        ensures
            self@.wf(),
    {
    }

    /// An orchestrator with nothing registered and nothing pending.
    pub fn new(params: GroupParameters) -> (orchestrator: AuthOrchestrator)
        ensures
            orchestrator.wf(),
            orchestrator@.wf(),
            orchestrator@ == AuthState::initial(params@),
    {
        AuthOrchestrator {
            engine: ProofEngine::new(params),
            registrations: RegistrationStore::new(),
            challenges: ChallengeStore::new(),
        }
    }

    /// The proof engine that the orchestrator verifies with.
    pub fn engine(&self) -> (engine: &ProofEngine)
        ensures
            engine@ == self@.params,
    {
        &self.engine
    }

    /// Whether the identity is registered.
    pub fn is_registered(&self, identity: &String) -> (present: bool)
        ensures
            present == self@.registrations.contains_key(identity@),
    {
        self.registrations.contains(identity)
    }

    /// Whether the challenge identifier is pending.
    pub fn is_pending(&self, challenge_id: &String) -> (present: bool)
        ensures
            present == self@.challenges.contains_key(challenge_id@),
    {
        self.challenges.contains(challenge_id)
    }

    /// Registers the commitment pair under the identity. Always succeeds;
    /// an earlier registration of the identity is replaced.
    pub fn register(&mut self, identity: String, y1: BigNat, y2: BigNat)
        requires
            old(self).wf(),
        ensures
            final(self).wf(),
            final(self)@.wf(),
            final(self)@ == old(self)@.register(identity@, y1@, y2@),
    {
        proof {
            lemma_operations_preserve_wf(self@, identity@, y1@, y2@, 0, identity@);
        }
        self.registrations.put(identity, y1, y2);
    }

    /// Registers the commitment of a password-derived secret under the identity.
    pub fn register_secret(&mut self, identity: String, secret: &BigNat)
        requires
            old(self).wf(),
        ensures
            final(self).wf(),
            final(self)@.wf(),
            final(self)@ == old(self)@.register(
                identity@,
                commit_spec(old(self)@.params, secret@).0,
                commit_spec(old(self)@.params, secret@).1,
            ),
    {
        let pair = self.engine.commit(secret);
        self.register(identity, pair.0, pair.1);
    }

    /// Creates a challenge session from values already drawn. Fails with
    /// `UnknownIdentity` for an identity that is not registered, and with
    /// `InternalInconsistency` for a challenge outside `[0, order)` or an
    /// identifier that is already pending; a failure stores nothing.
    pub fn issue_challenge(
        &mut self,
        identity: String,
        r1: BigNat,
        r2: BigNat,
        challenge: BigNat,
        challenge_id: String,
    ) -> (r: Result<(), AuthError>)
        requires
            old(self).wf(),
        ensures
            final(self).wf(),
            final(self)@.wf(),
            (final(self)@, r) == old(self)@.challenge(
                identity@,
                r1@,
                r2@,
                challenge@,
                challenge_id@,
            ),
    {
        proof {
            lemma_operations_preserve_wf(self@, identity@, r1@, r2@, challenge@, challenge_id@);
        }
        if !self.registrations.contains(&identity) {
            return Err(AuthError::UnknownIdentity);
        }
        if !challenge.below(self.engine.params().order()) {
            return Err(AuthError::InternalInconsistency);
        }
        let session = ChallengeSession { challenge_id, identity, r1, r2, challenge };
        match self.challenges.put(session) {
            Ok(()) => Ok(()),
            Err(_) => Err(AuthError::InternalInconsistency),
        }
    }

    /// Creates a challenge session for the identity and the prover's
    /// ephemeral commitment: draws a challenge below the order and a fresh
    /// identifier, stores the session and returns both. Fails with
    /// `UnknownIdentity` exactly when the identity is not registered. For a
    /// registered identity it can only fail, with `InternalInconsistency`,
    /// when the drawn identifier is already pending: it succeeds whenever
    /// no identifier of the drawn shape is pending, and so always when
    /// nothing is.
    pub fn create_authentication_challenge(&mut self, identity: String, r1: BigNat, r2: BigNat) -> (r:
        Result<(String, BigNat), AuthError>)
        requires
            old(self).wf(),
        ensures
            final(self).wf(),
            final(self)@.wf(),
            !old(self)@.registrations.contains_key(identity@) <==> r == Err::<
                (String, BigNat),
                AuthError,
            >(AuthError::UnknownIdentity),
            match r {
                Ok(issued) => is_token(issued.0@) && (final(self)@, Ok::<(), AuthError>(()))
                    == old(self)@.challenge(identity@, r1@, r2@, issued.1@, issued.0@),
                Err(e) => final(self)@ == old(self)@ && (e == AuthError::UnknownIdentity || e
                    == AuthError::InternalInconsistency),
            },
            (old(self)@.registrations.contains_key(identity@) && forall|k: Seq<char>|
                is_token(k) ==> !#[trigger] old(self)@.challenges.contains_key(k)) ==> r is Ok,
            r == Err::<(String, BigNat), AuthError>(AuthError::InternalInconsistency)
                ==> exists|k: Seq<char>|
                is_token(k) && #[trigger] old(self)@.challenges.contains_key(k),
    {
        if !self.registrations.contains(&identity) {
            return Err(AuthError::UnknownIdentity);
        }
        let challenge = random_exponent(self.engine.params());
        let challenge_id = random_token();
        let issued_challenge = challenge.duplicate();
        let issued_id = challenge_id.clone();
        match self.issue_challenge(identity, r1, r2, challenge, challenge_id) {
            Ok(()) => Ok((issued_id, issued_challenge)),
            Err(e) => Err(e),
        }
    }

    /// Consumes the challenge session and checks the response against it.
    /// Fails with `UnknownChallenge` when the identifier is not pending, and
    /// with `ProofRejected` when the proof equations do not hold; the
    /// session is gone after the call in every case.
    pub fn check_response(&mut self, challenge_id: &String, response: &BigNat) -> (r: Result<
        (),
        AuthError,
    >)
        requires
            old(self).wf(),
        ensures
            final(self).wf(),
            final(self)@.wf(),
            (final(self)@, r) == old(self)@.verify(challenge_id@, response@),
            !final(self)@.challenges.contains_key(challenge_id@),
            r != Err::<(), AuthError>(AuthError::InternalInconsistency),
    {
        let ghost before = self@;
        proof {
            lemma_operations_preserve_wf(before, challenge_id@, response@, 0, 0, challenge_id@);
        }
        let session = match self.challenges.take_and_remove(challenge_id) {
            Some(s) => s,
            None => {
                proof {
                    assert(self@.challenges =~= before.challenges);
                }
                return Err(AuthError::UnknownChallenge);
            },
        };
        let user = match self.registrations.get(&session.identity) {
            Some(u) => u,
            None => {
                return Err(AuthError::InternalInconsistency);
            },
        };
        if self.engine.verify(
            &session.r1,
            &session.r2,
            &user.y1,
            &user.y2,
            &session.challenge,
            response,
        ) {
            Ok(())
        } else {
            Err(AuthError::ProofRejected)
        }
    }

    /// Verifies the response to a pending challenge and, when the proof
    /// holds, issues a fresh session token. The errors are those of
    /// [`AuthOrchestrator::check_response`].
    pub fn verify_authentication(&mut self, challenge_id: &String, response: &BigNat) -> (r: Result<
        String,
        AuthError,
    >)
        requires
            old(self).wf(),
        ensures
            final(self).wf(),
            final(self)@.wf(),
            final(self)@ == old(self)@.verify(challenge_id@, response@).0,
            !final(self)@.challenges.contains_key(challenge_id@),
            match r {
                Ok(token) => old(self)@.verify(challenge_id@, response@).1 is Ok && is_token(
                    token@,
                ),
                Err(e) => old(self)@.verify(challenge_id@, response@).1 == Err::<(), AuthError>(e),
            },
    {
        match self.check_response(challenge_id, response) {
            Ok(()) => Ok(random_token()),
            Err(e) => Err(e),
        }
    }
}

/// Every operation keeps the state well formed: no pending session is
/// ever without its registration.
pub proof fn lemma_operations_preserve_wf(
    st: AuthState,
    identity: Seq<char>,
    a: nat,
    b: nat,
    challenge: nat,
    challenge_id: Seq<char>,
)
    requires
        st.wf(),
    ensures
        AuthState::initial(st.params).wf(),
        st.register(identity, a, b).wf(),
        st.challenge(identity, a, b, challenge, challenge_id).0.wf(),
        st.verify(challenge_id, a).0.wf(),
{
}

/// One-time use. Whatever the first verification of a challenge
/// identifier returned, a second one with the same identifier fails with
/// `UnknownChallenge` and changes nothing.
pub proof fn lemma_challenge_is_consumed(
    st: AuthState,
    challenge_id: Seq<char>,
    first: nat,
    second: nat,
)
    ensures
        !st.verify(challenge_id, first).0.challenges.contains_key(challenge_id),
        st.verify(challenge_id, first).0.verify(challenge_id, second) == (
            st.verify(challenge_id, first).0,
            Err::<(), AuthError>(AuthError::UnknownChallenge),
        ),
{
}

/// Registration comes first. Challenge creation for an identity that is
/// not registered fails with `UnknownIdentity` and stores nothing; in the
/// initial state that is every identity.
pub proof fn lemma_challenge_needs_registration(
    st: AuthState,
    identity: Seq<char>,
    r1: nat,
    r2: nat,
    challenge: nat,
    challenge_id: Seq<char>,
)
    ensures
        !st.registrations.contains_key(identity) ==> st.challenge(
            identity,
            r1,
            r2,
            challenge,
            challenge_id,
        ) == (st, Err::<(), AuthError>(AuthError::UnknownIdentity)),
        AuthState::initial(st.params).challenge(identity, r1, r2, challenge, challenge_id).1 == Err::<
            (),
            AuthError,
        >(AuthError::UnknownIdentity),
{
}

/// The second registration wins. Two registrations of one identity in a
/// row leave the state that the second alone would have left, with the
/// second pair on record.
pub proof fn lemma_second_registration_wins(
    st: AuthState,
    identity: Seq<char>,
    first: (nat, nat),
    second: (nat, nat),
)
    ensures
        st.register(identity, first.0, first.1).register(identity, second.0, second.1)
            == st.register(identity, second.0, second.1),
        st.register(identity, first.0, first.1).register(
            identity,
            second.0,
            second.1,
        ).registrations[identity] == second,
{
    assert(st.registrations.insert(identity, first).insert(identity, second)
        =~= st.registrations.insert(identity, second));
}

/// An honest run succeeds. After registering the commitment of `secret`,
/// a challenge session opened with the commitment of `nonce` and any
/// challenge below the order, under an identifier that is not pending, is
/// verified by the response computed from the three.
pub proof fn lemma_honest_session_verifies(
    st: AuthState,
    identity: Seq<char>,
    secret: nat,
    nonce: nat,
    challenge: nat,
    challenge_id: Seq<char>,
)
    requires
        st.wf(),
        challenge < st.params.order,
        !st.challenges.contains_key(challenge_id),
    ensures
        ({
            let g = st.params;
            let y = commit_spec(g, secret);
            let r = commit_spec(g, nonce);
            let registered = st.register(identity, y.0, y.1);
            let challenged = registered.challenge(identity, r.0, r.1, challenge, challenge_id);
            &&& challenged.1 is Ok
            &&& challenged.0.verify(challenge_id, respond_spec(g, nonce, challenge, secret)).1 is Ok
        }),
{
    lemma_honest_proof_verifies(st.params, nonce, challenge, secret);
}

/// A new registration strands the pending sessions of the old one. With
/// generators of exact order: a session opened under the commitment of
/// `secret` is rejected after the identity registered the commitment of
/// `replacement`, when it is answered from `secret` and the challenge tells
/// the two secrets apart modulo the order.
pub proof fn lemma_reregistration_strands_pending(
    st: AuthState,
    identity: Seq<char>,
    secret: nat,
    replacement: nat,
    nonce: nat,
    challenge: nat,
    challenge_id: Seq<char>,
)
    requires
        st.wf(),
        st.params.exact_order(),
        challenge < st.params.order,
        !st.challenges.contains_key(challenge_id),
        (challenge * secret) % st.params.order != (challenge * replacement) % st.params.order,
    ensures
        ({
            let g = st.params;
            let y = commit_spec(g, secret);
            let z = commit_spec(g, replacement);
            let r = commit_spec(g, nonce);
            let challenged = st.register(identity, y.0, y.1).challenge(
                identity,
                r.0,
                r.1,
                challenge,
                challenge_id,
            ).0;
            let replaced = challenged.register(identity, z.0, z.1);
            replaced.verify(challenge_id, respond_spec(g, nonce, challenge, secret)).1 == Err::<
                (),
                AuthError,
            >(AuthError::ProofRejected)
        }),
{
    lemma_proof_binds_secret(st.params, nonce, challenge, secret, replacement);
}

} // verus!
