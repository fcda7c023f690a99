//! The registration store and the challenge store.

use vstd::prelude::*;
use crate::bignat::BigNat;
use crate::table::Table;

verus! {

/// A registration record: the public commitment pair bound to an identity.
#[derive(Debug)]
pub struct UserInfo {
    pub user_name: String,
    pub y1: BigNat,
    pub y2: BigNat,
}

/// An in-flight authentication attempt: the prover's ephemeral commitment
/// and the challenge issued for it, under a one-time identifier.
#[derive(Debug)]
pub struct ChallengeSession {
    pub challenge_id: String,
    pub identity: String,
    pub r1: BigNat,
    pub r2: BigNat,
    pub challenge: BigNat,
}

/// What a challenge session says, as mathematical values.
pub struct SessionView {
    pub identity: Seq<char>,
    pub r1: nat,
    pub r2: nat,
    pub challenge: nat,
}

impl View for ChallengeSession {
    type V = SessionView;

    open spec fn view(&self) -> SessionView {
        SessionView {
            identity: self.identity@,
            r1: self.r1@,
            r2: self.r2@,
            challenge: self.challenge@,
        }
    }
}

/// The error of [`ChallengeStore::put`]: the identifier is already pending.
#[derive(Clone, Copy, Debug, PartialEq, Eq, Structural)]
pub struct DuplicateChallengeId;

/// The registrations, by identity.
#[derive(Debug)]
pub struct RegistrationStore {
    table: Table<UserInfo>,
}

impl View for RegistrationStore {
    type V = Map<Seq<char>, (nat, nat)>;

    closed spec fn view(&self) -> Map<Seq<char>, (nat, nat)> {
        Map::new(
            |k: Seq<char>| self.table@.contains_key(k),
            |k: Seq<char>| (self.table@[k].y1@, self.table@[k].y2@),
        )
    }
}

impl RegistrationStore {
    /// Every record is filed under its own identity, once.
    pub closed spec fn wf(&self) -> bool {
        &&& self.table.wf()
        &&& forall|k: Seq<char>| #[trigger]
            self.table@.contains_key(k) ==> self.table@[k].user_name@ == k
    }

    /// The empty store.
    pub fn new() -> (s: RegistrationStore)
        ensures
            s.wf(),
            s@ == Map::<Seq<char>, (nat, nat)>::empty(),
    {
        let s = RegistrationStore { table: Table::new() };
        proof {
            assert(s@ =~= Map::<Seq<char>, (nat, nat)>::empty());
        }
        s
    }

    /// Files the commitment pair under the identity, replacing an earlier one.
    pub fn put(&mut self, identity: String, y1: BigNat, y2: BigNat)
        requires
            old(self).wf(),
        ensures
            final(self).wf(),
            final(self)@ == old(self)@.insert(identity@, (y1@, y2@)),
    {
        let ghost before = self@;
        let user_name = identity.clone();
        self.table.put(identity, UserInfo { user_name, y1, y2 });
        proof {
            assert(self@ =~= before.insert(identity@, (y1@, y2@)));
        }
    }

    /// The record of the identity, if it registered.
    pub fn get(&self, identity: &String) -> (r: Option<&UserInfo>)
        requires
            self.wf(),
        ensures
            match r {
                Some(u) => self@.contains_key(identity@) && self@[identity@] == (u.y1@, u.y2@)
                    && u.user_name@ == identity@,
                None => !self@.contains_key(identity@),
            },
    {
        self.table.get(identity)
    }

    /// Whether the identity registered.
    pub fn contains(&self, identity: &String) -> (present: bool)
        ensures
            present == self@.contains_key(identity@),
    {
        self.table.contains(identity)
    }
}

/// The pending challenge sessions, by challenge identifier.
#[derive(Debug)]
pub struct ChallengeStore {
    table: Table<ChallengeSession>,
}

impl View for ChallengeStore {
    type V = Map<Seq<char>, SessionView>;

    closed spec fn view(&self) -> Map<Seq<char>, SessionView> {
        Map::new(|k: Seq<char>| self.table@.contains_key(k), |k: Seq<char>| self.table@[k]@)
    }
}

impl ChallengeStore {
    /// Every session is filed under its own identifier, once.
    pub closed spec fn wf(&self) -> bool {
        &&& self.table.wf()
        &&& forall|k: Seq<char>| #[trigger]
            self.table@.contains_key(k) ==> self.table@[k].challenge_id@ == k
    }

    /// The empty store.
    pub fn new() -> (s: ChallengeStore)
        ensures
            s.wf(),
            s@ == Map::<Seq<char>, SessionView>::empty(),
    {
        let s = ChallengeStore { table: Table::new() };
        proof {
            assert(s@ =~= Map::<Seq<char>, SessionView>::empty());
        }
        s
    }

    /// Files a new session under its identifier. An identifier that is
    /// already pending is refused, and the store is left as it was.
    pub fn put(&mut self, session: ChallengeSession) -> (r: Result<(), DuplicateChallengeId>)
        requires
            old(self).wf(),
        ensures
            final(self).wf(),
            r is Err <==> old(self)@.contains_key(session.challenge_id@),
            r is Err ==> final(self)@ == old(self)@,
            r is Ok ==> final(self)@ == old(self)@.insert(session.challenge_id@, session@),
    {
        let ghost before = self@;
        if self.table.contains(&session.challenge_id) {
            return Err(DuplicateChallengeId);
        }
        let key = session.challenge_id.clone();
        self.table.put(key, session);
        proof {
            assert(self@ =~= before.insert(session.challenge_id@, session@));
        }
        Ok(())
    }

    /// Reads and deletes in one step: the session leaves the store with the
    /// call that observes it.
    pub fn take_and_remove(&mut self, challenge_id: &String) -> (r: Option<ChallengeSession>)
        requires
            old(self).wf(),
        ensures
            final(self).wf(),
            final(self)@ == old(self)@.remove(challenge_id@),
            match r {
                Some(s) => old(self)@.contains_key(challenge_id@) && s@ == old(self)@[challenge_id@]
                    && s.challenge_id@ == challenge_id@,
                None => !old(self)@.contains_key(challenge_id@),
            },
    {
        let ghost before = self@;
        let r = self.table.take(challenge_id);
        proof {
            assert(self@ =~= before.remove(challenge_id@));
        }
        r
    }

    /// Whether the identifier is pending.
    pub fn contains(&self, challenge_id: &String) -> (present: bool)
        ensures
            present == self@.contains_key(challenge_id@),
    {
        self.table.contains(challenge_id)
    }
}

} // verus!
