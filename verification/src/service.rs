//! The protocol operations on byte-encoded requests.

use vstd::prelude::*;
use crate::auth::AuthOrchestrator;
use crate::bignat::{be_value, BigNat};
use crate::error::AuthError;
use crate::random::is_token;

verus! {

/// The three operations as a request/response transport carries them:
/// every integer travels as its big-endian bytes, and an empty byte field
/// is answered with `MalformedInput` before the state is looked at.
impl AuthOrchestrator {
    /// Register: files the pair that the two byte fields encode.
    pub fn handle_register(&mut self, name: String, y1: Vec<u8>, y2: Vec<u8>) -> (r: Result<
        (),
        AuthError,
    >)
        requires
            old(self).wf(),
        ensures
            final(self).wf(),
            final(self)@.wf(),
            (y1@.len() == 0 || y2@.len() == 0) <==> r == Err::<(), AuthError>(
                AuthError::MalformedInput,
            ),
            r is Err ==> final(self)@ == old(self)@ && r == Err::<(), AuthError>(
                AuthError::MalformedInput,
            ),
            r is Ok ==> final(self)@ == old(self)@.register(name@, be_value(y1@), be_value(y2@)),
    {
        proof {
            self.lemma_wf_state();
        }
        let first = match BigNat::from_bytes_be(y1) {
            Ok(v) => v,
            Err(e) => {
                return Err(e);
            },
        };
        let second = match BigNat::from_bytes_be(y2) {
            Ok(v) => v,
            Err(e) => {
                return Err(e);
            },
        };
        self.register(name, first, second);
        Ok(())
    }

    /// CreateChallenge: opens a session for the ephemeral commitment that
    /// the two byte fields encode, and returns the identifier with the
    /// challenge as bytes. With well-formed fields and a registered
    /// identity it succeeds whenever no identifier of the drawn shape is
    /// pending.
    pub fn handle_challenge(&mut self, name: String, r1: Vec<u8>, r2: Vec<u8>) -> (r: Result<
        (String, Vec<u8>),
        AuthError,
    >)
        requires
            old(self).wf(),
        ensures
            final(self).wf(),
            final(self)@.wf(),
            (r1@.len() == 0 || r2@.len() == 0) <==> r == Err::<(String, Vec<u8>), AuthError>(
                AuthError::MalformedInput,
            ),
            (r1@.len() > 0 && r2@.len() > 0 && !old(self)@.registrations.contains_key(name@)) <==> r
                == Err::<(String, Vec<u8>), AuthError>(AuthError::UnknownIdentity),
            match r {
                Ok(issued) => is_token(issued.0@) && (final(self)@, Ok::<(), AuthError>(()))
                    == old(self)@.challenge(
                    name@,
                    be_value(r1@),
                    be_value(r2@),
                    be_value(issued.1@),
                    issued.0@,
                ),
                Err(e) => final(self)@ == old(self)@ && (e == AuthError::MalformedInput || e
                    == AuthError::UnknownIdentity || e == AuthError::InternalInconsistency),
            },
            (r1@.len() > 0 && r2@.len() > 0 && old(self)@.registrations.contains_key(name@)
                && forall|k: Seq<char>|
                is_token(k) ==> !#[trigger] old(self)@.challenges.contains_key(k)) ==> r is Ok,
            r == Err::<(String, Vec<u8>), AuthError>(AuthError::InternalInconsistency)
                ==> exists|k: Seq<char>|
                is_token(k) && #[trigger] old(self)@.challenges.contains_key(k),
    {
        proof {
            self.lemma_wf_state();
        }
        let first = match BigNat::from_bytes_be(r1) {
            Ok(v) => v,
            Err(e) => {
                return Err(e);
            },
        };
        let second = match BigNat::from_bytes_be(r2) {
            Ok(v) => v,
            Err(e) => {
                return Err(e);
            },
        };
        match self.create_authentication_challenge(name, first, second) {
            Ok(issued) => Ok((issued.0, issued.1.to_bytes_be())),
            Err(e) => Err(e),
        }
    }

    /// VerifyResponse: checks the response that the byte field encodes
    /// against the pending session, consumes the session, and returns a
    /// session token when the proof holds. A malformed response consumes
    /// nothing.
    pub fn handle_verify(&mut self, auth_id: &String, s: Vec<u8>) -> (r: Result<String, AuthError>)
        requires
            old(self).wf(),
        ensures
            final(self).wf(),
            final(self)@.wf(),
            s@.len() == 0 <==> r == Err::<String, AuthError>(AuthError::MalformedInput),
            s@.len() == 0 ==> final(self)@ == old(self)@,
            s@.len() > 0 ==> final(self)@ == old(self)@.verify(auth_id@, be_value(s@)).0
                && !final(self)@.challenges.contains_key(auth_id@) && match r {
                Ok(token) => old(self)@.verify(auth_id@, be_value(s@)).1 is Ok && is_token(token@),
                Err(e) => old(self)@.verify(auth_id@, be_value(s@)).1 == Err::<(), AuthError>(e),
            },
    {
        proof {
            self.lemma_wf_state();
        }
        let response = match BigNat::from_bytes_be(s) {
            Ok(v) => v,
            Err(e) => {
                return Err(e);
            },
        };
        self.verify_authentication(auth_id, &response)
    }
}

} // verus!
