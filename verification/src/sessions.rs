//! User sessions and their lifecycle.
//!
//! Sessions are handled mostly server-side. Users hold an opaque token which
//! identifies their session and carries no other information. This module
//! resolves tokens to session rows, issues new sessions, keeps sessions
//! alive, elevates sessions to administrator status, and removes stale
//! sessions (together with their room attempts and room checkpoints).
//!
//! It also contributes to the incremental-updates mechanism: the timestamp
//! of the last time a session received a room's messages is stored per
//! session and room.

use vstd::prelude::*;

use rand::distr::SampleString;

use crate::db;
use crate::db::AttemptRecord;
use crate::db::CheckpointRecord;
use crate::db::SessionRecord;
use crate::db::Store;
use crate::db::attempt_at;
use crate::db::attempt_key;
use crate::db::checkpoint_at;
use crate::db::checkpoint_key;
use crate::db::find_attempt_index;
use crate::db::find_checkpoint_index;
use crate::db::find_room_index;
use crate::db::find_session_index;
use crate::db::has_attempt;
use crate::db::has_checkpoint;
use crate::db::has_room;
use crate::db::has_row;
use crate::db::has_session;
use crate::db::lemma_filter_members;
use crate::db::lemma_row_at;
use crate::db::lemma_row_filter;
use crate::db::lemma_row_push;
use crate::db::lemma_row_update;
use crate::db::row_at;
use crate::db::MessageTable;
use crate::db::session_at;
use crate::db::session_key;
use crate::messages::Message;
use crate::messages::forget_authors;

verus! {

/// How long (in seconds) a session may stay idle before the cleaner removes
/// it.
pub const TIMEOUT_SECS: i64 = 1200;

/// How long (in seconds) the cleaner sleeps between sweeps.
pub const PERIOD_SECS: i64 = 300;

/// The length of a session id, in characters.
pub const SESSION_ID_LEN: usize = 64;

/// A character that may appear in a session id.
pub open spec fn alphanumeric_char(c: char) -> bool {
    ('a' <= c && c <= 'z') || ('A' <= c && c <= 'Z') || ('0' <= c && c <= '9')
}

/// Relies on rand's `Alphanumeric` distribution: `sample_string` returns a
/// string of exactly `len` characters, each drawn from a-z, A-Z and 0-9.
#[verifier::external_body]
fn random_alphanumeric(len: usize) -> (r: String)
    ensures
        r@.len() == len,
        forall|i: int| 0 <= i < r@.len() ==> alphanumeric_char(#[trigger] r@[i]),
{
    rand::distr::Alphanumeric.sample_string(&mut rand::rng(), len)
}

/// Holds relevant information about a session.
///
/// It's closely tied to a row in the sessions table.
pub struct Session {
    pub id: String,
    pub last_update: i64,
    pub is_admin: bool,
}

impl Session {
    /// Counts the number of sessions in the store.
    pub fn count_sessions(store: &Store) -> (r: usize)
        ensures
            r == store.sessions@.len(),
    {
        store.sessions.len()
    }

    /// Checks if the session belongs to an administrator.
    pub fn is_admin(&self) -> (r: bool)
        ensures
            r == self.is_admin,
    {
        self.is_admin
    }

    /// Returns the session id.
    pub fn id(&self) -> (r: String)
        ensures
            r@ == self.id@,
    {
        self.id.clone()
    }

    /// Tries to retrieve the session associated with an id from the store.
    ///
    /// An id no row holds — because it never existed or because the cleaner
    /// removed it — yields `Error::NoData`: to callers, such a session has
    /// expired.
    pub fn from_db(store: &Store, id: &str) -> (r: Result<Session, db::Error>)
        requires
            store.wf(),
        ensures
            r is Ok <==> has_session(store.sessions@, id@),
            r matches Ok(s) ==> s.id@ == id@ && s.last_update == session_at(
                store.sessions@,
                id@,
            ).last_update && s.is_admin == session_at(store.sessions@, id@).is_admin,
            r matches Err(e) ==> e == db::Error::NoData,
    {
        match find_session_index(&store.sessions, id) {
            Some(i) => {
                proof {
                    lemma_row_at(store.sessions@, session_key(), i as int);
                }
                Ok(
                    Session {
                        id: id.to_owned(),
                        last_update: store.sessions[i].last_update,
                        is_admin: store.sessions[i].is_admin,
                    },
                )
            },
            None => Err(db::Error::NoData),
        }
    }

    /// Retrieves the last password associated with a login attempt for a
    /// given room, if it exists.
    pub fn get_room_attempt(&self, store: &Store, name: &str) -> (r: Result<String, db::Error>)
        requires
            store.wf(),
        ensures
            r is Ok <==> has_attempt(store.attempts@, self.id@, name@),
            r matches Ok(p) ==> p@ == attempt_at(store.attempts@, self.id@, name@).password@,
            r matches Err(e) ==> e == db::Error::NoData,
    {
        match find_attempt_index(&store.attempts, self.id.as_str(), name) {
            Some(i) => {
                proof {
                    lemma_row_at(store.attempts@, attempt_key(), i as int);
                }
                Ok(store.attempts[i].password.clone())
            },
            None => Err(db::Error::NoData),
        }
    }

    /// Retrieves the timestamp of the last time a user got updates for a
    /// given room.
    pub fn get_room_update(&self, store: &Store, name: &str) -> (r: Result<i64, db::Error>)
        requires
            store.wf(),
        ensures
            r is Ok <==> has_checkpoint(store.checkpoints@, self.id@, name@),
            r matches Ok(t) ==> t == checkpoint_at(store.checkpoints@, self.id@, name@).timestamp,
            r matches Err(e) ==> e == db::Error::NoData,
    {
        match find_checkpoint_index(&store.checkpoints, self.id.as_str(), name) {
            Some(i) => {
                proof {
                    lemma_row_at(store.checkpoints@, checkpoint_key(), i as int);
                }
                Ok(store.checkpoints[i].timestamp)
            },
            None => Err(db::Error::NoData),
        }
    }

    /// Sets the session to belong to an administrator.
    ///
    /// It makes the necessary updates to the store, and returns true if the
    /// operation succeeds. It returns false, without raising, if the session
    /// row vanished concurrently, so callers can report "could not log you
    /// in".
    pub fn make_admin(&mut self, store: &mut Store) -> (r: bool)
        requires
            old(store).wf(),
        ensures
            final(store).wf(),
            final(store).same_except_sessions(*old(store)),
            r == has_session(old(store).sessions@, old(self).id@),
            final(self).id@ == old(self).id@,
            final(self).last_update == old(self).last_update,
            r ==> final(self).is_admin,
            !r ==> *final(self) == *old(self) && *final(store) == *old(store),
            r ==> has_session(final(store).sessions@, old(self).id@) && session_at(
                final(store).sessions@,
                old(self).id@,
            ).is_admin && session_at(final(store).sessions@, old(self).id@).last_update
                == session_at(old(store).sessions@, old(self).id@).last_update && session_at(
                final(store).sessions@,
                old(self).id@,
            ).id@ == old(self).id@,
            r ==> forall|q: Seq<char>|
                q != old(self).id@ ==> has_session(final(store).sessions@, q) == has_session(
                    old(store).sessions@,
                    q,
                ) && (has_session(old(store).sessions@, q) ==> session_at(
                    final(store).sessions@,
                    q,
                ) == session_at(old(store).sessions@, q)),
    {
        match find_session_index(&store.sessions, self.id.as_str()) {
            Some(j) => {
                proof {
                    lemma_row_at(old(store).sessions@, session_key(), j as int);
                }
                let rec = SessionRecord {
                    id: self.id.clone(),
                    last_update: store.sessions[j].last_update,
                    is_admin: true,
                };
                store.sessions[j] = rec;
                proof {
                    let s0 = old(store).sessions@;
                    let s1 = store.sessions@;
                    let recg = s1[j as int];
                    assert(s1 == s0.update(j as int, recg));
                    lemma_row_update(s0, session_key(), j as int, recg, old(self).id@);
                    assert forall|q: Seq<char>| q != old(self).id@ implies has_session(s1, q)
                        == has_session(s0, q) && (has_session(s0, q) ==> session_at(s1, q)
                        == session_at(s0, q)) by {
                        lemma_row_update(s0, session_key(), j as int, recg, q);
                    }
                    assert forall|i: int| 0 <= i < store.attempts@.len() implies has_session(
                        s1,
                        (#[trigger] store.attempts@[i]).session_id@,
                    ) by {
                        lemma_row_update(
                            s0,
                            session_key(),
                            j as int,
                            recg,
                            store.attempts@[i].session_id@,
                        );
                    }
                    assert forall|i: int| 0 <= i < store.checkpoints@.len() implies has_session(
                        s1,
                        (#[trigger] store.checkpoints@[i]).session_id@,
                    ) by {
                        lemma_row_update(
                            s0,
                            session_key(),
                            j as int,
                            recg,
                            store.checkpoints@[i].session_id@,
                        );
                    }
                }
                self.is_admin = true;
                true
            },
            None => false,
        }
    }

    /// Keeps a session "alive" by updating its timestamp.
    ///
    /// The write is idempotent; a session row that vanished concurrently
    /// leaves the store unchanged, and the call still reports success, as
    /// the failure is non-fatal to the request.
    pub fn keep_alive(&mut self, store: &mut Store, now: i64) -> (r: Result<(), db::Error>)
        requires
            old(store).wf(),
        ensures
            r is Ok,
            final(store).wf(),
            final(store).same_except_sessions(*old(store)),
            final(self).id@ == old(self).id@,
            final(self).is_admin == old(self).is_admin,
            final(self).last_update == now,
            !has_session(old(store).sessions@, old(self).id@) ==> *final(store) == *old(store),
            has_session(old(store).sessions@, old(self).id@) ==> has_session(
                final(store).sessions@,
                old(self).id@,
            ) && session_at(final(store).sessions@, old(self).id@).last_update == now
                && session_at(final(store).sessions@, old(self).id@).is_admin == session_at(
                old(store).sessions@,
                old(self).id@,
            ).is_admin && session_at(final(store).sessions@, old(self).id@).id@ == old(self).id@,
            forall|q: Seq<char>|
                q != old(self).id@ ==> has_session(final(store).sessions@, q) == has_session(
                    old(store).sessions@,
                    q,
                ) && (has_session(old(store).sessions@, q) ==> session_at(
                    final(store).sessions@,
                    q,
                ) == session_at(old(store).sessions@, q)),
    {
        self.last_update = now;
        match find_session_index(&store.sessions, self.id.as_str()) {
            Some(j) => {
                proof {
                    lemma_row_at(old(store).sessions@, session_key(), j as int);
                }
                let rec = SessionRecord {
                    id: self.id.clone(),
                    last_update: now,
                    is_admin: store.sessions[j].is_admin,
                };
                store.sessions[j] = rec;
                proof {
                    let s0 = old(store).sessions@;
                    let s1 = store.sessions@;
                    let recg = s1[j as int];
                    assert(s1 == s0.update(j as int, recg));
                    lemma_row_update(s0, session_key(), j as int, recg, old(self).id@);
                    assert forall|q: Seq<char>| q != old(self).id@ implies has_session(s1, q)
                        == has_session(s0, q) && (has_session(s0, q) ==> session_at(s1, q)
                        == session_at(s0, q)) by {
                        lemma_row_update(s0, session_key(), j as int, recg, q);
                    }
                    assert forall|i: int| 0 <= i < store.attempts@.len() implies has_session(
                        s1,
                        (#[trigger] store.attempts@[i]).session_id@,
                    ) by {
                        lemma_row_update(
                            s0,
                            session_key(),
                            j as int,
                            recg,
                            store.attempts@[i].session_id@,
                        );
                    }
                    assert forall|i: int| 0 <= i < store.checkpoints@.len() implies has_session(
                        s1,
                        (#[trigger] store.checkpoints@[i]).session_id@,
                    ) by {
                        lemma_row_update(
                            s0,
                            session_key(),
                            j as int,
                            recg,
                            store.checkpoints@[i].session_id@,
                        );
                    }
                }
                Ok(())
            },
            None => Ok(()),
        }
    }

    /// Saves a room-login attempt for the user with the associated session.
    ///
    /// At most one attempt row exists per session and room: a new submission
    /// overwrites the stored one. The write fails when the session or the
    /// room it references no longer exists.
    pub fn save_room_attempt(
        &self,
        store: &mut Store,
        name: &str,
        hashed_password: &str,
    ) -> (r: Result<(), db::Error>)
        requires
            old(store).wf(),
        ensures
            final(store).wf(),
            final(store).same_except_attempts(*old(store)),
            r is Ok <==> has_session(old(store).sessions@, self.id@) && has_room(
                old(store).rooms@,
                name@,
            ),
            r matches Err(e) ==> e == db::Error::ForeignKey && *final(store) == *old(store),
            r is Ok ==> has_attempt(final(store).attempts@, self.id@, name@) && attempt_at(
                final(store).attempts@,
                self.id@,
                name@,
            ).password@ == hashed_password@ && attempt_at(
                final(store).attempts@,
                self.id@,
                name@,
            ).session_id@ == self.id@ && attempt_at(
                final(store).attempts@,
                self.id@,
                name@,
            ).room_name@ == name@,
            r is Ok ==> forall|k: (Seq<char>, Seq<char>)|
                k != (self.id@, name@) ==> has_row(final(store).attempts@, attempt_key(), k)
                    == has_row(old(store).attempts@, attempt_key(), k) && (has_row(
                    old(store).attempts@,
                    attempt_key(),
                    k,
                ) ==> row_at(final(store).attempts@, attempt_key(), k) == row_at(
                    old(store).attempts@,
                    attempt_key(),
                    k,
                )),
    {
        if find_session_index(&store.sessions, self.id.as_str()).is_none() {
            return Err(db::Error::ForeignKey);
        }
        if find_room_index(&store.rooms, name).is_none() {
            return Err(db::Error::ForeignKey);
        }
        let rec = AttemptRecord {
            session_id: self.id.clone(),
            room_name: name.to_owned(),
            password: hashed_password.to_owned(),
        };
        match find_attempt_index(&store.attempts, self.id.as_str(), name) {
            Some(j) => {
                store.attempts[j] = rec;
                proof {
                    let s0 = old(store).attempts@;
                    let s1 = store.attempts@;
                    let recg = s1[j as int];
                    assert(s1 == s0.update(j as int, recg));
                    lemma_row_update(s0, attempt_key(), j as int, recg, (self.id@, name@));
                    assert forall|k: (Seq<char>, Seq<char>)| k != (self.id@, name@) implies has_row(
                        s1,
                        attempt_key(),
                        k,
                    ) == has_row(s0, attempt_key(), k) && (has_row(s0, attempt_key(), k)
                        ==> row_at(s1, attempt_key(), k) == row_at(s0, attempt_key(), k)) by {
                        lemma_row_update(s0, attempt_key(), j as int, recg, k);
                    }
                    assert forall|i: int| 0 <= i < s1.len() implies has_session(
                        store.sessions@,
                        (#[trigger] s1[i]).session_id@,
                    ) && has_room(store.rooms@, s1[i].room_name@) by {
                        if i != j {
                            assert(s1[i] == s0[i]);
                        }
                    }
                }
                Ok(())
            },
            None => {
                store.attempts.push(rec);
                proof {
                    let s0 = old(store).attempts@;
                    let s1 = store.attempts@;
                    let recg = s1[s1.len() - 1];
                    assert(s1 == s0.push(recg));
                    lemma_row_push(s0, attempt_key(), recg, (self.id@, name@));
                    assert forall|k: (Seq<char>, Seq<char>)| k != (self.id@, name@) implies has_row(
                        s1,
                        attempt_key(),
                        k,
                    ) == has_row(s0, attempt_key(), k) && (has_row(s0, attempt_key(), k)
                        ==> row_at(s1, attempt_key(), k) == row_at(s0, attempt_key(), k)) by {
                        lemma_row_push(s0, attempt_key(), recg, k);
                    }
                    assert forall|i: int| 0 <= i < s1.len() implies has_session(
                        store.sessions@,
                        (#[trigger] s1[i]).session_id@,
                    ) && has_room(store.rooms@, s1[i].room_name@) by {
                        if i != s1.len() - 1 {
                            assert(s1[i] == s0[i]);
                        }
                    }
                }
                Ok(())
            },
        }
    }

    /// Sets the given timestamp as the user's last-update time for the given
    /// room.
    ///
    /// At most one checkpoint row exists per session and room: each write
    /// overwrites the stored one. The write fails when the session or the
    /// room it references no longer exists.
    pub fn save_room_update(
        &self,
        store: &mut Store,
        name: &str,
        timestamp: i64,
    ) -> (r: Result<(), db::Error>)
        requires
            old(store).wf(),
        ensures
            final(store).wf(),
            final(store).same_except_checkpoints(*old(store)),
            r is Ok <==> has_session(old(store).sessions@, self.id@) && has_room(
                old(store).rooms@,
                name@,
            ),
            r matches Err(e) ==> e == db::Error::ForeignKey && *final(store) == *old(store),
            r is Ok ==> has_checkpoint(final(store).checkpoints@, self.id@, name@)
                && checkpoint_at(final(store).checkpoints@, self.id@, name@).timestamp == timestamp
                && checkpoint_at(final(store).checkpoints@, self.id@, name@).session_id@
                == self.id@ && checkpoint_at(final(store).checkpoints@, self.id@, name@).room_name@
                == name@,
            r is Ok ==> forall|k: (Seq<char>, Seq<char>)|
                k != (self.id@, name@) ==> has_row(final(store).checkpoints@, checkpoint_key(), k)
                    == has_row(old(store).checkpoints@, checkpoint_key(), k) && (has_row(
                    old(store).checkpoints@,
                    checkpoint_key(),
                    k,
                ) ==> row_at(final(store).checkpoints@, checkpoint_key(), k) == row_at(
                    old(store).checkpoints@,
                    checkpoint_key(),
                    k,
                )),
    {
        if find_session_index(&store.sessions, self.id.as_str()).is_none() {
            return Err(db::Error::ForeignKey);
        }
        if find_room_index(&store.rooms, name).is_none() {
            return Err(db::Error::ForeignKey);
        }
        let rec = CheckpointRecord {
            session_id: self.id.clone(),
            room_name: name.to_owned(),
            timestamp,
        };
        match find_checkpoint_index(&store.checkpoints, self.id.as_str(), name) {
            Some(j) => {
                store.checkpoints[j] = rec;
                proof {
                    let s0 = old(store).checkpoints@;
                    let s1 = store.checkpoints@;
                    let recg = s1[j as int];
                    assert(s1 == s0.update(j as int, recg));
                    lemma_row_update(s0, checkpoint_key(), j as int, recg, (self.id@, name@));
                    assert forall|k: (Seq<char>, Seq<char>)| k != (self.id@, name@) implies has_row(
                        s1,
                        checkpoint_key(),
                        k,
                    ) == has_row(s0, checkpoint_key(), k) && (has_row(s0, checkpoint_key(), k)
                        ==> row_at(s1, checkpoint_key(), k) == row_at(s0, checkpoint_key(), k)) by {
                        lemma_row_update(s0, checkpoint_key(), j as int, recg, k);
                    }
                    assert forall|i: int| 0 <= i < s1.len() implies has_session(
                        store.sessions@,
                        (#[trigger] s1[i]).session_id@,
                    ) && has_room(store.rooms@, s1[i].room_name@) by {
                        if i != j {
                            assert(s1[i] == s0[i]);
                        }
                    }
                }
                Ok(())
            },
            None => {
                store.checkpoints.push(rec);
                proof {
                    let s0 = old(store).checkpoints@;
                    let s1 = store.checkpoints@;
                    let recg = s1[s1.len() - 1];
                    assert(s1 == s0.push(recg));
                    lemma_row_push(s0, checkpoint_key(), recg, (self.id@, name@));
                    assert forall|k: (Seq<char>, Seq<char>)| k != (self.id@, name@) implies has_row(
                        s1,
                        checkpoint_key(),
                        k,
                    ) == has_row(s0, checkpoint_key(), k) && (has_row(s0, checkpoint_key(), k)
                        ==> row_at(s1, checkpoint_key(), k) == row_at(s0, checkpoint_key(), k)) by {
                        lemma_row_push(s0, checkpoint_key(), recg, k);
                    }
                    assert forall|i: int| 0 <= i < s1.len() implies has_session(
                        store.sessions@,
                        (#[trigger] s1[i]).session_id@,
                    ) && has_room(store.rooms@, s1[i].room_name@) by {
                        if i != s1.len() - 1 {
                            assert(s1[i] == s0[i]);
                        }
                    }
                }
                Ok(())
            },
        }
    }

    /// Inserts a session row with the given id, not yet an administrator
    /// and last active at `now`.
    ///
    /// The store's primary key decides the outcome: the insert succeeds
    /// exactly when no session already holds the id, and a collision
    /// rejects the insert instead of overwriting the existing row.
    pub fn insert_new(store: &mut Store, id: String, now: i64) -> (r: Result<(), db::Error>)
        requires
            old(store).wf(),
        ensures
            final(store).wf(),
            final(store).same_except_sessions(*old(store)),
            r is Ok <==> !has_session(old(store).sessions@, id@),
            r matches Err(e) ==> e == db::Error::Duplicate && *final(store) == *old(store),
            r is Ok ==> has_session(final(store).sessions@, id@) && session_at(
                final(store).sessions@,
                id@,
            ).last_update == now && !session_at(final(store).sessions@, id@).is_admin
                && session_at(final(store).sessions@, id@).id@ == id@,
            r is Ok ==> forall|q: Seq<char>|
                q != id@ ==> has_session(final(store).sessions@, q) == has_session(
                    old(store).sessions@,
                    q,
                ) && (has_session(old(store).sessions@, q) ==> session_at(
                    final(store).sessions@,
                    q,
                ) == session_at(old(store).sessions@, q)),
    {
        if find_session_index(&store.sessions, id.as_str()).is_some() {
            return Err(db::Error::Duplicate);
        }
        let rec = SessionRecord { id, last_update: now, is_admin: false };
        store.sessions.push(rec);
        proof {
            let s0 = old(store).sessions@;
            let s1 = store.sessions@;
            let recg = s1[s1.len() - 1];
            assert(s1 == s0.push(recg));
            lemma_row_push(s0, session_key(), recg, recg.id@);
            assert forall|q: Seq<char>| q != recg.id@ implies has_session(s1, q) == has_session(
                s0,
                q,
            ) && (has_session(s0, q) ==> session_at(s1, q) == session_at(s0, q)) by {
                lemma_row_push(s0, session_key(), recg, q);
            }
            assert forall|i: int| 0 <= i < store.attempts@.len() implies has_session(
                s1,
                (#[trigger] store.attempts@[i]).session_id@,
            ) by {
                lemma_row_push(s0, session_key(), recg, store.attempts@[i].session_id@);
            }
            assert forall|i: int| 0 <= i < store.checkpoints@.len() implies has_session(
                s1,
                (#[trigger] store.checkpoints@[i]).session_id@,
            ) by {
                lemma_row_push(s0, session_key(), recg, store.checkpoints@[i].session_id@);
            }
        }
        Ok(())
    }

    /// Tries to start a new session and inserts it into the store.
    ///
    /// The fresh id is drawn at random from a space large enough that a
    /// collision with an existing id is negligible; `insert_new` decides
    /// the outcome of the draw, so a failure can only mean the drawn id
    /// collided with a stored session — on an empty store the call always
    /// succeeds.
    pub fn start_new(store: &mut Store, now: i64) -> (r: Result<String, db::Error>)
        requires
            old(store).wf(),
        ensures
            final(store).wf(),
            final(store).same_except_sessions(*old(store)),
            r matches Err(e) ==> e == db::Error::Duplicate && *final(store) == *old(store)
                && old(store).sessions@.len() > 0,
            r matches Ok(id) ==> id@.len() == SESSION_ID_LEN && (forall|i: int|
                0 <= i < id@.len() ==> alphanumeric_char(#[trigger] id@[i])) && !has_session(
                old(store).sessions@,
                id@,
            ) && has_session(final(store).sessions@, id@) && session_at(
                final(store).sessions@,
                id@,
            ).last_update == now && !session_at(final(store).sessions@, id@).is_admin
                && session_at(final(store).sessions@, id@).id@ == id@,
            r matches Ok(id) ==> forall|q: Seq<char>|
                q != id@ ==> has_session(final(store).sessions@, q) == has_session(
                    old(store).sessions@,
                    q,
                ) && (has_session(old(store).sessions@, q) ==> session_at(
                    final(store).sessions@,
                    q,
                ) == session_at(old(store).sessions@, q)),
    {
        let id = Session::new_session_id();
        let stored = id.clone();
        match Session::insert_new(store, stored, now) {
            Ok(()) => Ok(id),
            Err(e) => {
                proof {
                    assert(has_session(old(store).sessions@, id@));
                    let i = crate::db::row_idx(old(store).sessions@, session_key(), id@);
                    assert(0 <= i < old(store).sessions@.len());
                }
                Err(e)
            },
        }
    }

    /// Returns a (probably) new, valid session id.
    fn new_session_id() -> (r: String)
        ensures
            r@.len() == SESSION_ID_LEN,
            forall|i: int| 0 <= i < r@.len() ==> alphanumeric_char(#[trigger] r@[i]),
    {
        random_alphanumeric(SESSION_ID_LEN)
    }
}

/// A session row survives a sweep at cutoff time `cutoff` exactly when it
/// was active at or after the cutoff.
pub open spec fn live_pred(cutoff: int) -> spec_fn(SessionRecord) -> bool {
    |r: SessionRecord| cutoff <= r.last_update
}

/// An attempt row survives exactly when its owning session survives.
pub open spec fn attempt_live_pred(sessions: Seq<SessionRecord>) -> spec_fn(AttemptRecord) -> bool {
    |a: AttemptRecord| has_session(sessions, a.session_id@)
}

/// A checkpoint row survives exactly when its owning session survives.
pub open spec fn checkpoint_live_pred(sessions: Seq<SessionRecord>) -> spec_fn(
    CheckpointRecord,
) -> bool {
    |c: CheckpointRecord| has_session(sessions, c.session_id@)
}

/// The fairing responsible for assigning sessions to new users and keeping
/// existing sessions alive. It also removes stale sessions from the store.
pub struct SessionFairing;

impl SessionFairing {
    /// Deletes "old" sessions from the store, together with their room
    /// attempts and room checkpoints.
    ///
    /// A session is considered old if its last update happened more than
    /// `timeout` seconds before `now`. Deleting a session cascades: no
    /// attempt or checkpoint row may outlive its session.
    pub fn delete_old(store: &mut Store, now: i64, timeout: i64)
        requires
            old(store).wf(),
            0 <= timeout,
            i64::MIN + timeout <= now,
        ensures
            final(store).wf(),
            final(store).rooms == old(store).rooms,
            final(store).admins == old(store).admins,
            final(store).next_table_id == old(store).next_table_id,
            final(store).welcome_message == old(store).welcome_message,
            final(store).sessions@ == old(store).sessions@.filter(live_pred(now - timeout)),
            final(store).attempts@ == old(store).attempts@.filter(
                attempt_live_pred(final(store).sessions@),
            ),
            final(store).checkpoints@ == old(store).checkpoints@.filter(
                checkpoint_live_pred(final(store).sessions@),
            ),
            final(store).tables@.len() == old(store).tables@.len(),
            forall|i: int|
                0 <= i < old(store).tables@.len() ==> (#[trigger] final(store).tables@[i]).table_id
                    == old(store).tables@[i].table_id && final(store).tables@[i].next_message_id
                    == old(store).tables@[i].next_message_id
                    && final(store).tables@[i].messages@ == forget_authors(
                    old(store).tables@[i].messages@,
                    final(store).sessions@,
                ),
            forall|q: Seq<char>|
                has_session(final(store).sessions@, q) == (has_session(old(store).sessions@, q)
                    && now - timeout <= session_at(old(store).sessions@, q).last_update),
            forall|q: Seq<char>|
                has_session(final(store).sessions@, q) ==> session_at(final(store).sessions@, q)
                    == session_at(old(store).sessions@, q),
            forall|k: (Seq<char>, Seq<char>)|
                has_row(final(store).attempts@, attempt_key(), k) == (has_row(
                    old(store).attempts@,
                    attempt_key(),
                    k,
                ) && has_session(final(store).sessions@, k.0)),
            forall|k: (Seq<char>, Seq<char>)|
                has_row(final(store).attempts@, attempt_key(), k) ==> row_at(
                    final(store).attempts@,
                    attempt_key(),
                    k,
                ) == row_at(old(store).attempts@, attempt_key(), k),
            forall|k: (Seq<char>, Seq<char>)|
                has_row(final(store).checkpoints@, checkpoint_key(), k) == (has_row(
                    old(store).checkpoints@,
                    checkpoint_key(),
                    k,
                ) && has_session(final(store).sessions@, k.0)),
            forall|k: (Seq<char>, Seq<char>)|
                has_row(final(store).checkpoints@, checkpoint_key(), k) ==> row_at(
                    final(store).checkpoints@,
                    checkpoint_key(),
                    k,
                ) == row_at(old(store).checkpoints@, checkpoint_key(), k),
    {
        let cutoff = now - timeout;
        let ghost cpred = live_pred(cutoff as int);

        let mut pending: Vec<SessionRecord> = Vec::new();
        core::mem::swap(&mut store.sessions, &mut pending);
        let ghost orig = pending@;
        let total = pending.len();
        proof {
            assert(orig.len() == total);
            reveal(Seq::filter);
            assert(orig.subrange(0, 0).filter(cpred) =~= Seq::<SessionRecord>::empty());
        }
        let mut k: usize = 0;
        while pending.len() > 0
            invariant
                orig.len() <= usize::MAX,
                k <= orig.len(),
                k as int == orig.len() - pending@.len(),
                pending@ == orig.subrange(k as int, orig.len() as int),
                store.sessions@ == orig.subrange(0, k as int).filter(cpred),
                cpred == live_pred(cutoff as int),
                store.attempts == old(store).attempts,
                store.checkpoints == old(store).checkpoints,
                store.rooms == old(store).rooms,
                store.tables == old(store).tables,
                store.admins == old(store).admins,
                store.next_table_id == old(store).next_table_id,
                store.welcome_message == old(store).welcome_message,
            decreases pending@.len(),
        {
            let rec = pending.remove(0);
            proof {
                assert(rec == orig[k as int]);
                assert(pending@ =~= orig.subrange(k as int + 1, orig.len() as int));
            }
            if rec.last_update >= cutoff {
                store.sessions.push(rec);
            }
            proof {
                reveal(Seq::filter);
                assert(orig.subrange(0, k as int + 1).drop_last() =~= orig.subrange(0, k as int));
                assert(orig.subrange(0, k as int + 1).last() == orig[k as int]);
                assert(store.sessions@ == orig.subrange(0, k as int + 1).filter(cpred));
            }
            k += 1;
        }
        proof {
            assert(orig.subrange(0, orig.len() as int) =~= orig);
        }

        let ghost live_sessions = store.sessions@;
        let ghost apred = attempt_live_pred(live_sessions);
        let mut apending: Vec<AttemptRecord> = Vec::new();
        core::mem::swap(&mut store.attempts, &mut apending);
        let ghost aorig = apending@;
        let atotal = apending.len();
        proof {
            assert(aorig.len() == atotal);
            reveal(Seq::filter);
            assert(aorig.subrange(0, 0).filter(apred) =~= Seq::<AttemptRecord>::empty());
        }
        let mut ka: usize = 0;
        while apending.len() > 0
            invariant
                aorig.len() <= usize::MAX,
                ka <= aorig.len(),
                ka as int == aorig.len() - apending@.len(),
                apending@ == aorig.subrange(ka as int, aorig.len() as int),
                store.attempts@ == aorig.subrange(0, ka as int).filter(apred),
                store.sessions@ == live_sessions,
                apred == attempt_live_pred(live_sessions),
                store.checkpoints == old(store).checkpoints,
                store.rooms == old(store).rooms,
                store.tables == old(store).tables,
                store.admins == old(store).admins,
                store.next_table_id == old(store).next_table_id,
                store.welcome_message == old(store).welcome_message,
            decreases apending@.len(),
        {
            let rec = apending.remove(0);
            proof {
                assert(rec == aorig[ka as int]);
                assert(apending@ =~= aorig.subrange(ka as int + 1, aorig.len() as int));
            }
            if find_session_index(&store.sessions, rec.session_id.as_str()).is_some() {
                store.attempts.push(rec);
            }
            proof {
                reveal(Seq::filter);
                assert(aorig.subrange(0, ka as int + 1).drop_last() =~= aorig.subrange(
                    0,
                    ka as int,
                ));
                assert(aorig.subrange(0, ka as int + 1).last() == aorig[ka as int]);
                assert(store.attempts@ == aorig.subrange(0, ka as int + 1).filter(apred));
            }
            ka += 1;
        }
        proof {
            assert(aorig.subrange(0, aorig.len() as int) =~= aorig);
            assert(store.attempts@ == aorig.filter(apred));
        }

        let ghost upred = checkpoint_live_pred(live_sessions);
        let mut upending: Vec<CheckpointRecord> = Vec::new();
        core::mem::swap(&mut store.checkpoints, &mut upending);
        let ghost uorig = upending@;
        let utotal = upending.len();
        proof {
            assert(uorig.len() == utotal);
            reveal(Seq::filter);
            assert(uorig.subrange(0, 0).filter(upred) =~= Seq::<CheckpointRecord>::empty());
        }
        let mut ku: usize = 0;
        while upending.len() > 0
            invariant
                uorig.len() <= usize::MAX,
                ku <= uorig.len(),
                ku as int == uorig.len() - upending@.len(),
                upending@ == uorig.subrange(ku as int, uorig.len() as int),
                store.checkpoints@ == uorig.subrange(0, ku as int).filter(upred),
                store.sessions@ == live_sessions,
                store.attempts@ == aorig.filter(apred),
                upred == checkpoint_live_pred(live_sessions),
                store.rooms == old(store).rooms,
                store.tables == old(store).tables,
                store.admins == old(store).admins,
                store.next_table_id == old(store).next_table_id,
                store.welcome_message == old(store).welcome_message,
            decreases upending@.len(),
        {
            let rec = upending.remove(0);
            proof {
                assert(rec == uorig[ku as int]);
                assert(upending@ =~= uorig.subrange(ku as int + 1, uorig.len() as int));
            }
            if find_session_index(&store.sessions, rec.session_id.as_str()).is_some() {
                store.checkpoints.push(rec);
            }
            proof {
                reveal(Seq::filter);
                assert(uorig.subrange(0, ku as int + 1).drop_last() =~= uorig.subrange(
                    0,
                    ku as int,
                ));
                assert(uorig.subrange(0, ku as int + 1).last() == uorig[ku as int]);
                assert(store.checkpoints@ == uorig.subrange(0, ku as int + 1).filter(upred));
            }
            ku += 1;
        }
        proof {
            assert(uorig.subrange(0, uorig.len() as int) =~= uorig);
        }

        // Messages whose authoring session was reclaimed forget their
        // author, matching the schema's set-null rule for message authors.
        let ghost attempts_done = store.attempts@;
        let ghost checkpoints_done = store.checkpoints@;
        let mut tpend: Vec<MessageTable> = Vec::new();
        core::mem::swap(&mut store.tables, &mut tpend);
        let ghost torig = tpend@;
        let ttotal = tpend.len();
        proof {
            assert(torig.len() == ttotal);
        }
        let mut kt: usize = 0;
        while tpend.len() > 0
            invariant
                torig.len() <= usize::MAX,
                kt <= torig.len(),
                kt as int == torig.len() - tpend@.len(),
                tpend@ == torig.subrange(kt as int, torig.len() as int),
                store.tables@.len() == kt,
                forall|i: int|
                    0 <= i < kt ==> (#[trigger] store.tables@[i]).table_id == torig[i].table_id
                        && store.tables@[i].next_message_id == torig[i].next_message_id
                        && store.tables@[i].messages@ == forget_authors(
                        torig[i].messages@,
                        live_sessions,
                    ),
                store.sessions@ == live_sessions,
                store.attempts@ == attempts_done,
                store.checkpoints@ == checkpoints_done,
                store.rooms == old(store).rooms,
                store.admins == old(store).admins,
                store.next_table_id == old(store).next_table_id,
                store.welcome_message == old(store).welcome_message,
            decreases tpend@.len(),
        {
            let t = tpend.remove(0);
            proof {
                assert(t == torig[kt as int]);
                assert(tpend@ =~= torig.subrange(kt as int + 1, torig.len() as int));
            }
            let table_id = t.table_id;
            let next_message_id = t.next_message_id;
            let mut msgs = t.messages;
            let ghost morig = msgs@;
            let mtotal = msgs.len();
            proof {
                assert(morig.len() == mtotal);
            }
            let mut rebuilt: Vec<Message> = Vec::new();
            let mut km: usize = 0;
            while msgs.len() > 0
                invariant
                    morig.len() <= usize::MAX,
                    km <= morig.len(),
                    km as int == morig.len() - msgs@.len(),
                    msgs@ == morig.subrange(km as int, morig.len() as int),
                    rebuilt@ == forget_authors(morig.subrange(0, km as int), live_sessions),
                    store.sessions@ == live_sessions,
                    store.attempts@ == attempts_done,
                    store.checkpoints@ == checkpoints_done,
                    store.rooms == old(store).rooms,
                    store.admins == old(store).admins,
                    store.next_table_id == old(store).next_table_id,
                    store.welcome_message == old(store).welcome_message,
                    store.tables@.len() == kt,
                    forall|i: int|
                        0 <= i < kt ==> (#[trigger] store.tables@[i]).table_id
                            == torig[i].table_id && store.tables@[i].next_message_id
                            == torig[i].next_message_id && store.tables@[i].messages@
                            == forget_authors(torig[i].messages@, live_sessions),
                decreases msgs@.len(),
            {
                let m = msgs.remove(0);
                proof {
                    assert(m == morig[km as int]);
                    assert(msgs@ =~= morig.subrange(km as int + 1, morig.len() as int));
                }
                let author_gone = match &m.author {
                    Some(a) => find_session_index(&store.sessions, a.as_str()).is_none(),
                    None => false,
                };
                if author_gone {
                    rebuilt.push(
                        Message {
                            id: m.id,
                            content: m.content,
                            timestamp: m.timestamp,
                            author: None,
                            reply_to: m.reply_to,
                        },
                    );
                } else {
                    rebuilt.push(m);
                }
                proof {
                    assert(rebuilt@ =~= forget_authors(
                        morig.subrange(0, km as int + 1),
                        live_sessions,
                    ));
                }
                km += 1;
            }
            proof {
                assert(morig.subrange(0, morig.len() as int) =~= morig);
            }
            store.tables.push(MessageTable { table_id, next_message_id, messages: rebuilt });
            kt += 1;
        }
        proof {
            assert(torig.subrange(0, torig.len() as int) =~= torig);
            // The rebuilt tables keep their ids, so uniqueness, the serial
            // bound, the rooms' references and the inner id discipline all
            // carry over from the original tables.
            let t1 = store.tables@;
            assert forall|i1: int, i2: int|
                0 <= i1 < t1.len() && 0 <= i2 < t1.len() && i1 != i2 implies crate::db::table_key()(
                #[trigger] t1[i1]) != crate::db::table_key()(#[trigger] t1[i2]) by {
                assert(t1[i1].table_id == torig[i1].table_id);
                assert(t1[i2].table_id == torig[i2].table_id);
                assert(crate::db::table_key()(torig[i1]) != crate::db::table_key()(torig[i2]));
            }
            assert forall|i: int| 0 <= i < store.rooms@.len() implies crate::db::has_table(
                t1,
                (#[trigger] store.rooms@[i]).table_id as int,
            ) by {
                let ti = crate::db::row_idx(
                    torig,
                    crate::db::table_key(),
                    store.rooms@[i].table_id as int,
                );
                assert(0 <= ti < torig.len() && crate::db::table_key()(torig[ti])
                    == store.rooms@[i].table_id as int);
                assert(t1[ti].table_id == torig[ti].table_id);
            }
            assert forall|i: int| 0 <= i < t1.len() implies (#[trigger] t1[i]).table_id
                < store.next_table_id && crate::db::table_wf(t1[i]) by {
                assert(t1[i].table_id == torig[i].table_id);
                assert(crate::db::table_wf(torig[i]));
                assert forall|k: int| 0 <= k < t1[i].messages@.len() implies (
                #[trigger] t1[i].messages@[k]).id < t1[i].next_message_id by {
                    assert(t1[i].messages@[k] == forget_authors(
                        torig[i].messages@,
                        live_sessions,
                    )[k]);
                }
                assert forall|k1: int, k2: int|
                    0 <= k1 < t1[i].messages@.len() && 0 <= k2 < t1[i].messages@.len() && k1
                        != k2 implies (#[trigger] t1[i].messages@[k1]).id != (
                #[trigger] t1[i].messages@[k2]).id by {
                    assert(t1[i].messages@[k1] == forget_authors(
                        torig[i].messages@,
                        live_sessions,
                    )[k1]);
                    assert(t1[i].messages@[k2] == forget_authors(
                        torig[i].messages@,
                        live_sessions,
                    )[k2]);
                }
            }
        }

        proof {
            let s0 = old(store).sessions@;
            let a0 = old(store).attempts@;
            let u0 = old(store).checkpoints@;
            let s1 = store.sessions@;
            let a1 = store.attempts@;
            let u1 = store.checkpoints@;
            lemma_row_filter(s0, session_key(), cpred, Seq::<char>::empty());
            lemma_row_filter(a0, attempt_key(), apred, (Seq::<char>::empty(), Seq::<char>::empty()));
            lemma_row_filter(u0, checkpoint_key(), upred, (Seq::<char>::empty(), Seq::<char>::empty()));
            assert forall|q: Seq<char>| has_session(s1, q) == (has_session(s0, q) && now - timeout
                <= session_at(s0, q).last_update) && (has_session(s1, q) ==> session_at(s1, q)
                == session_at(s0, q)) by {
                lemma_row_filter(s0, session_key(), cpred, q);
            }
            assert forall|k2: (Seq<char>, Seq<char>)| has_row(a1, attempt_key(), k2) == (has_row(
                a0,
                attempt_key(),
                k2,
            ) && has_session(s1, k2.0)) && (has_row(a1, attempt_key(), k2) ==> row_at(
                a1,
                attempt_key(),
                k2,
            ) == row_at(a0, attempt_key(), k2)) by {
                lemma_row_filter(a0, attempt_key(), apred, k2);
                if has_row(a0, attempt_key(), k2) {
                    let i = crate::db::row_idx(a0, attempt_key(), k2);
                    assert(0 <= i < a0.len() && attempt_key()(a0[i]) == k2);
                    assert(row_at(a0, attempt_key(), k2).session_id@ == k2.0);
                }
            }
            assert forall|k2: (Seq<char>, Seq<char>)| has_row(u1, checkpoint_key(), k2) == (
            has_row(u0, checkpoint_key(), k2) && has_session(s1, k2.0)) && (has_row(
                u1,
                checkpoint_key(),
                k2,
            ) ==> row_at(u1, checkpoint_key(), k2) == row_at(u0, checkpoint_key(), k2)) by {
                lemma_row_filter(u0, checkpoint_key(), upred, k2);
                if has_row(u0, checkpoint_key(), k2) {
                    let i = crate::db::row_idx(u0, checkpoint_key(), k2);
                    assert(0 <= i < u0.len() && checkpoint_key()(u0[i]) == k2);
                    assert(row_at(u0, checkpoint_key(), k2).session_id@ == k2.0);
                }
            }
            // Referential integrity of the new state.
            lemma_filter_members(a0, apred);
            lemma_filter_members(u0, upred);
            assert forall|i: int| 0 <= i < a1.len() implies has_session(
                s1,
                (#[trigger] a1[i]).session_id@,
            ) && has_room(store.rooms@, a1[i].room_name@) by {
                a0.lemma_filter_pred(apred, i);
                assert(a0.contains(a1[i]));
                let j = choose|j: int| 0 <= j < a0.len() && a0[j] == a1[i];
                assert(has_room(old(store).rooms@, a0[j].room_name@));
            }
            assert forall|i: int| 0 <= i < u1.len() implies has_session(
                s1,
                (#[trigger] u1[i]).session_id@,
            ) && has_room(store.rooms@, u1[i].room_name@) by {
                u0.lemma_filter_pred(upred, i);
                assert(u0.contains(u1[i]));
                let j = choose|j: int| 0 <= j < u0.len() && u0[j] == u1[i];
                assert(has_room(old(store).rooms@, u0[j].room_name@));
            }
        }
    }

    /// How long the cleaner should sleep after a sweep that took `elapsed`
    /// seconds, so that sweeps start `period` seconds apart: the period is
    /// self-correcting, and a sweep that overran its period is followed at
    /// once.
    pub fn sweep_sleep_secs(period: i64, elapsed: i64) -> (r: i64)
        requires
            0 <= period,
            0 <= elapsed,
        ensures
            r == if elapsed < period { (period - elapsed) as int } else { 0int },
    {
        if elapsed < period {
            period - elapsed
        } else {
            0
        }
    }
}

/// Session expiry cascade: in any well-formed store, a session that is
/// gone — because the cleaner reclaimed it, or because it never existed —
/// owns no attempt and no checkpoint rows; resolving its token finds
/// nothing. Deleting a session therefore removes all of its dependent rows.
pub proof fn lemma_expiry_cascade(store: Store, sid: Seq<char>)
    requires
        store.wf(),
        !has_session(store.sessions@, sid),
    ensures
        forall|room: Seq<char>| !has_attempt(store.attempts@, sid, room),
        forall|room: Seq<char>| !has_checkpoint(store.checkpoints@, sid, room),
{
    assert forall|room: Seq<char>| !has_attempt(store.attempts@, sid, room) by {
        if has_attempt(store.attempts@, sid, room) {
            let i = crate::db::row_idx(store.attempts@, attempt_key(), (sid, room));
            assert(0 <= i < store.attempts@.len() && attempt_key()(store.attempts@[i]) == (
            sid,
            room,
            ));
            assert(has_session(store.sessions@, store.attempts@[i].session_id@));
        }
    }
    assert forall|room: Seq<char>| !has_checkpoint(store.checkpoints@, sid, room) by {
        if has_checkpoint(store.checkpoints@, sid, room) {
            let i = crate::db::row_idx(store.checkpoints@, checkpoint_key(), (sid, room));
            assert(0 <= i < store.checkpoints@.len() && checkpoint_key()(store.checkpoints@[i])
                == (sid, room));
            assert(has_session(store.sessions@, store.checkpoints@[i].session_id@));
        }
    }
}

/// The outcome of the per-request session step.
pub enum SessionOutcome {
    /// The token referenced a live session; its activity time was refreshed.
    Resolved(Session),
    /// No token was presented; a fresh session with this id was issued.
    Issued(String),
    /// A token was presented but references no session: it expired, and the
    /// caller must surface an explicit session-expired signal instead of
    /// silently issuing a new session.
    Expired,
    /// No token was presented and a fresh session could not be inserted.
    Failed,
}

/// The session step that runs before any room-specific logic: resolve the
/// presented token to a session and keep it alive, or issue a new session
/// when no token was presented. A token that no longer resolves yields
/// `Expired`, never a silent replacement session.
pub fn resolve_or_issue(store: &mut Store, token: Option<&str>, now: i64) -> (r: SessionOutcome)
    requires
        old(store).wf(),
    ensures
        final(store).wf(),
        final(store).same_except_sessions(*old(store)),
        token is None ==> (r is Issued || r is Failed),
        token matches Some(t) ==> (has_session(old(store).sessions@, t@) ==> (r matches
        SessionOutcome::Resolved(s) && s.id@ == t@ && s.last_update == now && s.is_admin
            == session_at(old(store).sessions@, t@).is_admin && has_session(
            final(store).sessions@,
            t@,
        ) && session_at(final(store).sessions@, t@).last_update == now)),
        token matches Some(t) ==> (!has_session(old(store).sessions@, t@) ==> (r is Expired
            && *final(store) == *old(store))),
        r matches SessionOutcome::Issued(id) ==> token is None && !has_session(
            old(store).sessions@,
            id@,
        ) && has_session(final(store).sessions@, id@) && session_at(
            final(store).sessions@,
            id@,
        ).last_update == now && !session_at(final(store).sessions@, id@).is_admin && id@.len()
            == SESSION_ID_LEN,
        r is Failed ==> token is None && *final(store) == *old(store)
            && old(store).sessions@.len() > 0,
{
    match token {
        Some(t) => {
            match Session::from_db(store, t) {
                Ok(session) => {
                    let mut session = session;
                    let _keep = session.keep_alive(store, now);
                    SessionOutcome::Resolved(session)
                },
                Err(_) => SessionOutcome::Expired,
            }
        },
        None => {
            match Session::start_new(store, now) {
                Ok(id) => SessionOutcome::Issued(id),
                Err(_) => SessionOutcome::Failed,
            }
        },
    }
}

} // verus!
