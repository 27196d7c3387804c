//! Rooms and the access guard protecting them.
//!
//! Rooms are password protected, and contain threads of messages. Each room
//! has a unique name which cannot be changed after its creation; passwords
//! are changeable to allow for easier management. Apart from the central
//! rooms table, each room keeps its messages in a separate table, which is
//! created and deleted with the room.
//!
//! The rooms module contributes to the incremental-updates mechanism, which
//! decreases network traffic by avoiding resending the entire message table
//! repeatedly: a room serves updates for a given time interval only.

use vstd::prelude::*;
use vstd::string::StringSliceAdditionalSpecFns;

use sha2::Digest;

use crate::db;
use crate::db::RoomRecord;
use crate::db::Store;
use crate::db::attempt_at;
use crate::db::find_attempt_index;
use crate::db::find_room_index;
use crate::db::has_attempt;
use crate::db::has_room;
use crate::db::has_row;
use crate::db::lemma_row_at;
use crate::db::lemma_row_update;
use crate::db::room_at;
use crate::db::room_key;
use crate::db::row_at;
use crate::db::AttemptRecord;
use crate::db::CheckpointRecord;
use crate::db::MessageTable;
use crate::db::attempt_key;
use crate::db::checkpoint_key;
use crate::db::has_session;
use crate::db::has_table;
use crate::db::lemma_filter_members;
use crate::db::lemma_row_filter;
use crate::db::lemma_row_push;
use crate::db::row_idx;
use crate::db::table_at;
use crate::db::table_key;
use crate::messages::Message;
use crate::messages::Updates;
use crate::messages::between_pred;
use crate::messages::markdown_html_of;
use crate::messages::prepare_for_storage;
use crate::messages::sanitized_of;

verus! {

/// What SHA-256 produces for a byte sequence. The digest depends on the
/// input bytes alone.
pub uninterp spec fn sha256_of(data: Seq<u8>) -> Seq<u8>;

/// Relies on sha2's `Sha256::digest`: the digest of a byte slice is exactly
/// 32 bytes and is a function of the input alone.
#[verifier::external_body]
fn sha256_digest(data: &[u8]) -> (r: Vec<u8>)
    ensures
        r@ == sha256_of(data@),
        r@.len() == 32,
{
    sha2::Sha256::digest(data).to_vec()
}

/// Relies on std's `String::from_utf8`: a buffer of ASCII bytes is valid
/// UTF-8 and decodes to the character of each byte.
#[verifier::external_body]
fn ascii_string(bytes: Vec<u8>) -> (r: String)
    requires
        forall|i: int| 0 <= i < bytes@.len() ==> bytes@[i] < 128,
    ensures
        r@.len() == bytes@.len(),
        forall|i: int| 0 <= i < r@.len() ==> r@[i] == bytes@[i] as char,
{
    String::from_utf8(bytes).unwrap_or_default()
}

/// The lowercase hexadecimal digit for a value below 16.
pub open spec fn hex_digit(n: u8) -> char {
    if n < 10 {
        ((n + 48) as u8) as char
    } else {
        ((n + 87) as u8) as char
    }
}

/// The lowercase hexadecimal rendering of a byte sequence: two digits per
/// byte, high nibble first.
pub open spec fn hex_of(bytes: Seq<u8>) -> Seq<char> {
    Seq::new(
        bytes.len() * 2,
        |i: int|
            if i % 2 == 0 {
                hex_digit(bytes[i / 2] / 16)
            } else {
                hex_digit(bytes[i / 2] % 16)
            },
    )
}

fn hex_digit_byte(n: u8) -> (r: u8)
    requires
        n < 16,
    ensures
        r as char == hex_digit(n),
        r < 128,
{
    if n < 10 {
        n + 48
    } else {
        n + 87
    }
}

fn bytes_to_hex(bytes: &Vec<u8>) -> (r: String)
    requires
        bytes@.len() * 2 <= usize::MAX,
    ensures
        r@ == hex_of(bytes@),
{
    let n = bytes.len();
    let mut out: Vec<u8> = Vec::new();
    let mut i: usize = 0;
    while i < n
        invariant
            n == bytes@.len(),
            n * 2 <= usize::MAX,
            i <= n,
            out@.len() == 2 * i,
            forall|j: int| 0 <= j < out@.len() ==> (#[trigger] out@[j]) < 128,
            forall|j: int| 0 <= j < out@.len() ==> (#[trigger] out@[j]) as char == hex_of(bytes@)[j],
        decreases n - i,
    {
        let b = bytes[i];
        out.push(hex_digit_byte(b / 16));
        out.push(hex_digit_byte(b % 16));
        i += 1;
    }
    let r = ascii_string(out);
    proof {
        assert(r@ =~= hex_of(bytes@));
    }
    r
}

/// Returns the hash of a password, as it should be stored in the store.
///
/// Passwords are stored as SHA-256 hashes, rendered in lowercase
/// hexadecimal.
pub fn hash_password(password: &str) -> (r: String)
    ensures
        r@ == hex_of(sha256_of(password.spec_bytes())),
        r@.len() == 64,
{
    let digest = sha256_digest(password.as_bytes());
    bytes_to_hex(&digest)
}

/// Holds relevant information about a room.
///
/// It's tied to a row in the rooms table.
pub struct Room {
    /// The hashed password used to log into the room.
    pub password: String,
    /// A number used to identify the table which holds the room's messages.
    pub table_id: i32,
    pub creation: i64,
}

impl Room {
    /// Returns a list with the names of all the rooms stored in the store.
    pub fn active_rooms(store: &Store) -> (r: Vec<String>)
        ensures
            r@.len() == store.rooms@.len(),
            forall|i: int| 0 <= i < r@.len() ==> (#[trigger] r@[i])@ == store.rooms@[i].name@,
    {
        let n = store.rooms.len();
        let mut out: Vec<String> = Vec::new();
        let mut i: usize = 0;
        while i < n
            invariant
                n == store.rooms@.len(),
                i <= n,
                out@.len() == i,
                forall|j: int| 0 <= j < i ==> (#[trigger] out@[j])@ == store.rooms@[j].name@,
            decreases n - i,
        {
            out.push(store.rooms[i].name.clone());
            i += 1;
        }
        out
    }

    /// Changes the password of the given room. A name no room holds leaves
    /// the store unchanged; the call still reports success, matching the
    /// store's update semantics.
    pub fn change_password(store: &mut Store, name: &str, hashed_password: &str) -> (r: Result<
        (),
        db::Error,
    >)
        requires
            old(store).wf(),
        ensures
            r is Ok,
            final(store).wf(),
            final(store).same_except_rooms(*old(store)),
            final(store).tables == old(store).tables,
            final(store).next_table_id == old(store).next_table_id,
            !has_room(old(store).rooms@, name@) ==> *final(store) == *old(store),
            has_room(old(store).rooms@, name@) ==> has_room(final(store).rooms@, name@)
                && room_at(final(store).rooms@, name@).password@ == hashed_password@ && room_at(
                final(store).rooms@,
                name@,
            ).name@ == name@ && room_at(final(store).rooms@, name@).table_id == room_at(
                old(store).rooms@,
                name@,
            ).table_id && room_at(final(store).rooms@, name@).creation == room_at(
                old(store).rooms@,
                name@,
            ).creation,
            forall|q: Seq<char>|
                q != name@ ==> has_room(final(store).rooms@, q) == has_room(old(store).rooms@, q)
                    && (has_room(old(store).rooms@, q) ==> room_at(final(store).rooms@, q)
                    == room_at(old(store).rooms@, q)),
    {
        match find_room_index(&store.rooms, name) {
            Some(j) => {
                proof {
                    lemma_row_at(old(store).rooms@, room_key(), j as int);
                }
                let rec = RoomRecord {
                    name: name.to_owned(),
                    password: hashed_password.to_owned(),
                    table_id: store.rooms[j].table_id,
                    creation: store.rooms[j].creation,
                };
                store.rooms[j] = rec;
                proof {
                    let s0 = old(store).rooms@;
                    let s1 = store.rooms@;
                    let recg = s1[j as int];
                    assert(s1 == s0.update(j as int, recg));
                    lemma_row_update(s0, room_key(), j as int, recg, name@);
                    assert forall|q: Seq<char>| q != name@ implies has_room(s1, q) == has_room(
                        s0,
                        q,
                    ) && (has_room(s0, q) ==> room_at(s1, q) == room_at(s0, q)) by {
                        lemma_row_update(s0, room_key(), j as int, recg, q);
                    }
                    assert forall|i: int| 0 <= i < store.attempts@.len() implies has_room(
                        s1,
                        (#[trigger] store.attempts@[i]).room_name@,
                    ) by {
                        lemma_row_update(s0, room_key(), j as int, recg, store.attempts@[i].room_name@);
                    }
                    assert forall|i: int| 0 <= i < store.checkpoints@.len() implies has_room(
                        s1,
                        (#[trigger] store.checkpoints@[i]).room_name@,
                    ) by {
                        lemma_row_update(
                            s0,
                            room_key(),
                            j as int,
                            recg,
                            store.checkpoints@[i].room_name@,
                        );
                    }
                    assert forall|i: int| 0 <= i < s1.len() implies crate::db::has_table(
                        store.tables@,
                        (#[trigger] s1[i]).table_id as int,
                    ) by {
                        if i != j {
                            assert(s1[i] == s0[i]);
                        }
                    }
                    assert forall|i1: int, i2: int|
                        0 <= i1 < s1.len() && 0 <= i2 < s1.len() && i1 != i2 implies (
                    #[trigger] s1[i1]).table_id != (#[trigger] s1[i2]).table_id by {
                        assert(s1[i1].table_id == s0[i1].table_id);
                        assert(s1[i2].table_id == s0[i2].table_id);
                    }
                }
                Ok(())
            },
            None => Ok(()),
        }
    }

    /// Tries to retrieve the store entry associated with a room, given its
    /// name.
    pub fn from_db(store: &Store, name: &str) -> (r: Result<Room, db::Error>)
        requires
            store.wf(),
        ensures
            r is Ok <==> has_room(store.rooms@, name@),
            r matches Ok(room) ==> room.password@ == room_at(store.rooms@, name@).password@
                && room.table_id == room_at(store.rooms@, name@).table_id && room.creation
                == room_at(store.rooms@, name@).creation,
            r matches Err(e) ==> e == db::Error::NoData,
    {
        match find_room_index(&store.rooms, name) {
            Some(i) => {
                proof {
                    lemma_row_at(store.rooms@, room_key(), i as int);
                }
                Ok(
                    Room {
                        password: store.rooms[i].password.clone(),
                        table_id: store.rooms[i].table_id,
                        creation: store.rooms[i].creation,
                    },
                )
            },
            None => Err(db::Error::NoData),
        }
    }

    /// Checks if the given password allows access to the room.
    pub fn valid_password(&self, hashed_password: &str) -> (r: bool)
        ensures
            r == (self.password@ == hashed_password@),
    {
        self.password.as_str().eq(hashed_password)
    }
}

/// The content of a form used to hold login credentials for a room.
pub struct RoomLogin {
    pub name: String,
    /// The plaintext password of the room.
    pub password: String,
}

impl RoomLogin {
    /// Checks if the form contains the correct credentials to log into a
    /// room.
    pub fn can_log_in(&self, store: &Store) -> (r: Result<bool, db::Error>)
        requires
            store.wf(),
        ensures
            r is Ok <==> has_room(store.rooms@, self.name@),
            r matches Ok(b) ==> b == (room_at(store.rooms@, self.name@).password@ == hex_of(
                sha256_of(vstd::utf8::encode_utf8(self.password@)),
            )),
            r matches Err(e) ==> e == db::Error::NoData,
    {
        let hashed_password = hash_password(self.password.as_str());
        let room = Room::from_db(store, self.name.as_str())?;
        Ok(room.valid_password(hashed_password.as_str()))
    }
}

/// A session is authorized for a room exactly when the room exists, the
/// session has a stored password attempt for it, and that attempt carries
/// the room's current password hash.
pub open spec fn authorized_spec(store: Store, sid: Seq<char>, room: Seq<char>) -> bool {
    &&& has_room(store.rooms@, room)
    &&& has_attempt(store.attempts@, sid, room)
    &&& attempt_at(store.attempts@, sid, room).password@ == room_at(store.rooms@, room).password@
}

/// The decision of the room access guard.
pub enum RoomAccess {
    /// The session's stored attempt matches the room's password.
    Authorized(Room),
    /// The session has no stored attempt for the room, or its attempt does
    /// not match the room's current password.
    Unauthorized,
    /// No room with the given name exists. Callers typically collapse this
    /// with `Unauthorized` into one denial message, to avoid leaking which
    /// rooms exist.
    NotFound,
}

/// Decides whether a session may enter a room, using its stored password
/// attempt.
///
/// This check runs on every room-scoped request — it is never cached across
/// requests — because the room's password can change between requests,
/// immediately invalidating stale attempts.
pub fn authorize(store: &Store, session_id: &str, room_name: &str) -> (r: RoomAccess)
    requires
        store.wf(),
    ensures
        r is Authorized <==> authorized_spec(*store, session_id@, room_name@),
        r is NotFound <==> !has_room(store.rooms@, room_name@),
        has_room(store.rooms@, room_name@) ==> (r is Authorized <==> (has_attempt(
            store.attempts@,
            session_id@,
            room_name@,
        ) && attempt_at(store.attempts@, session_id@, room_name@).password@ == room_at(
            store.rooms@,
            room_name@,
        ).password@)),
        r matches RoomAccess::Authorized(room) ==> room.password@ == room_at(
            store.rooms@,
            room_name@,
        ).password@ && room.table_id == room_at(store.rooms@, room_name@).table_id
            && room.creation == room_at(store.rooms@, room_name@).creation,
{
    let room = match Room::from_db(store, room_name) {
        Ok(room) => room,
        Err(_) => {
            return RoomAccess::NotFound;
        },
    };
    let attempt = match find_attempt_index(&store.attempts, session_id, room_name) {
        Some(i) => i,
        None => {
            return RoomAccess::Unauthorized;
        },
    };
    proof {
        lemma_row_at(store.attempts@, crate::db::attempt_key(), attempt as int);
    }
    if room.valid_password(store.attempts[attempt].password.as_str()) {
        RoomAccess::Authorized(room)
    } else {
        RoomAccess::Unauthorized
    }
}

/// Authorization requires both a stored attempt and a matching room
/// password: a session with no attempt row for a room is not authorized, a
/// session whose attempt carries a hash other than the room's is not
/// authorized, and a session whose attempt carries the room's hash is
/// authorized.
pub proof fn lemma_authorization(store: Store, sid: Seq<char>, room: Seq<char>)
    requires
        store.wf(),
        has_room(store.rooms@, room),
    ensures
        !has_attempt(store.attempts@, sid, room) ==> !authorized_spec(store, sid, room),
        has_attempt(store.attempts@, sid, room) && attempt_at(store.attempts@, sid, room).password@
            != room_at(store.rooms@, room).password@ ==> !authorized_spec(store, sid, room),
        has_attempt(store.attempts@, sid, room) && attempt_at(store.attempts@, sid, room).password@
            == room_at(store.rooms@, room).password@ ==> authorized_spec(store, sid, room),
{
}

/// Changing a room's password immediately revokes authorization that
/// rested on the old password: no re-check is needed until the session's
/// next request, because the guard runs on every room-scoped request.
///
/// `pre` is the store before the change; `post` the store after, related
/// as `Room::change_password` ensures it.
pub proof fn lemma_password_change_revokes(
    pre: Store,
    post: Store,
    sid: Seq<char>,
    room: Seq<char>,
    new_hash: Seq<char>,
)
    requires
        authorized_spec(pre, sid, room),
        post.attempts == pre.attempts,
        has_room(post.rooms@, room),
        room_at(post.rooms@, room).password@ == new_hash,
        new_hash != room_at(pre.rooms@, room).password@,
    ensures
        !authorized_spec(post, sid, room),
{
}

/// A room row survives the deletion of the room with the given name exactly
/// when it carries another name.
pub open spec fn room_kept(name: Seq<char>) -> spec_fn(RoomRecord) -> bool {
    |r: RoomRecord| r.name@ != name
}

/// A message table survives exactly when it is not the deleted room's table.
pub open spec fn table_kept(tid: int) -> spec_fn(MessageTable) -> bool {
    |t: MessageTable| t.table_id != tid
}

/// An attempt row survives exactly when it concerns another room.
pub open spec fn attempt_kept(name: Seq<char>) -> spec_fn(AttemptRecord) -> bool {
    |a: AttemptRecord| a.room_name@ != name
}

/// A checkpoint row survives exactly when it concerns another room.
pub open spec fn checkpoint_kept(name: Seq<char>) -> spec_fn(CheckpointRecord) -> bool {
    |c: CheckpointRecord| c.room_name@ != name
}

impl Room {
    /// Creates and initializes a room with the given data.
    ///
    /// Each room has a table for its messages. To ensure that these tables
    /// receive unique names, each room has an associated serial `table_id`.
    pub fn create_room(
        store: &mut Store,
        name: String,
        hashed_password: String,
        now: i64,
    ) -> (r: Result<(), db::Error>)
        requires
            old(store).wf(),
        ensures
            final(store).wf(),
            final(store).same_except_rooms(*old(store)),
            r is Ok <==> !has_room(old(store).rooms@, name@) && old(store).next_table_id
                < i32::MAX,
            has_room(old(store).rooms@, name@) ==> r == Err::<(), db::Error>(db::Error::Duplicate),
            r matches Err(e) ==> *final(store) == *old(store),
            r is Ok ==> has_room(final(store).rooms@, name@) && room_at(
                final(store).rooms@,
                name@,
            ).password@ == hashed_password@ && room_at(final(store).rooms@, name@).creation == now
                && room_at(final(store).rooms@, name@).table_id == old(store).next_table_id
                && has_table(final(store).tables@, old(store).next_table_id as int) && table_at(
                final(store).tables@,
                old(store).next_table_id as int,
            ).messages@ == Seq::<Message>::empty() && table_at(
                final(store).tables@,
                old(store).next_table_id as int,
            ).next_message_id == 1 && final(store).next_table_id == old(store).next_table_id + 1,
            r is Ok ==> forall|q: Seq<char>|
                q != name@ ==> has_room(final(store).rooms@, q) == has_room(old(store).rooms@, q)
                    && (has_room(old(store).rooms@, q) ==> room_at(final(store).rooms@, q)
                    == room_at(old(store).rooms@, q)),
            r is Ok ==> forall|t: int|
                t != old(store).next_table_id ==> has_table(final(store).tables@, t) == has_table(
                    old(store).tables@,
                    t,
                ) && (has_table(old(store).tables@, t) ==> table_at(final(store).tables@, t)
                    == table_at(old(store).tables@, t)),
    {
        if find_room_index(&store.rooms, name.as_str()).is_some() {
            return Err(db::Error::Duplicate);
        }
        if store.next_table_id == i32::MAX {
            return Err(db::Error::Full);
        }
        let tid = Message::setup_table(store);
        let rec = RoomRecord { name, password: hashed_password, table_id: tid, creation: now };
        store.rooms.push(rec);
        proof {
            let r0 = old(store).rooms@;
            let r1 = store.rooms@;
            let recg = r1[r1.len() - 1];
            assert(r1 == r0.push(recg));
            lemma_row_push(r0, room_key(), recg, recg.name@);
            assert forall|q: Seq<char>| q != recg.name@ implies has_room(r1, q) == has_room(r0, q)
                && (has_room(r0, q) ==> room_at(r1, q) == room_at(r0, q)) by {
                lemma_row_push(r0, room_key(), recg, q);
            }
            assert forall|i: int| 0 <= i < store.attempts@.len() implies has_room(
                r1,
                (#[trigger] store.attempts@[i]).room_name@,
            ) by {
                lemma_row_push(r0, room_key(), recg, store.attempts@[i].room_name@);
            }
            assert forall|i: int| 0 <= i < store.checkpoints@.len() implies has_room(
                r1,
                (#[trigger] store.checkpoints@[i]).room_name@,
            ) by {
                lemma_row_push(r0, room_key(), recg, store.checkpoints@[i].room_name@);
            }
            // Every room's table exists, and the table ids stay distinct: every
            // earlier room's table id names a table of the earlier state, and
            // those all lie below the new serial id.
            assert forall|i: int| 0 <= i < r1.len() implies has_table(
                store.tables@,
                (#[trigger] r1[i]).table_id as int,
            ) by {
                if i < r0.len() {
                    assert(r1[i] == r0[i]);
                }
            }
            assert forall|i: int|
                0 <= i < r0.len() implies (#[trigger] r0[i]).table_id < tid by {
                let t = row_idx(old(store).tables@, table_key(), r0[i].table_id as int);
                assert(0 <= t < old(store).tables@.len() && old(store).tables@[t].table_id
                    == r0[i].table_id);
            }
            assert forall|i1: int, i2: int|
                0 <= i1 < r1.len() && 0 <= i2 < r1.len() && i1 != i2 implies (
            #[trigger] r1[i1]).table_id != (#[trigger] r1[i2]).table_id by {
                if i1 < r0.len() && i2 < r0.len() {
                    assert(r1[i1] == r0[i1] && r1[i2] == r0[i2]);
                } else if i1 < r0.len() {
                    assert(r1[i1] == r0[i1] && r1[i2] == recg);
                } else if i2 < r0.len() {
                    assert(r1[i1] == recg && r1[i2] == r0[i2]);
                }
            }
        }
        Ok(())
    }

    /// Deletes a room from the store, also removing its message table and —
    /// matching the schema's cascade rules — every attempt and checkpoint
    /// row that references the room.
    ///
    /// If the operation fails, the reason is returned as a readable string.
    pub fn delete_room(store: &mut Store, name: &str) -> (r: Result<(), String>)
        requires
            old(store).wf(),
        ensures
            final(store).wf(),
            final(store).sessions == old(store).sessions,
            final(store).admins == old(store).admins,
            final(store).next_table_id == old(store).next_table_id,
            final(store).welcome_message == old(store).welcome_message,
            r is Ok <==> has_room(old(store).rooms@, name@),
            r is Err ==> *final(store) == *old(store),
            r matches Err(e) ==> e@ == "Error while retrieving table_id."@,
            r is Ok ==> final(store).rooms@ == old(store).rooms@.filter(room_kept(name@))
                && final(store).tables@ == old(store).tables@.filter(
                table_kept(room_at(old(store).rooms@, name@).table_id as int),
            ) && final(store).attempts@ == old(store).attempts@.filter(attempt_kept(name@))
                && final(store).checkpoints@ == old(store).checkpoints@.filter(
                checkpoint_kept(name@),
            ),
            r is Ok ==> !has_room(final(store).rooms@, name@),
            r is Ok ==> forall|q: Seq<char>|
                q != name@ ==> has_room(final(store).rooms@, q) == has_room(old(store).rooms@, q)
                    && (has_room(old(store).rooms@, q) ==> room_at(final(store).rooms@, q)
                    == room_at(old(store).rooms@, q)),
            r is Ok ==> forall|k: (Seq<char>, Seq<char>)|
                has_row(final(store).attempts@, attempt_key(), k) == (has_row(
                    old(store).attempts@,
                    attempt_key(),
                    k,
                ) && k.1 != name@),
            r is Ok ==> forall|k: (Seq<char>, Seq<char>)|
                has_row(final(store).checkpoints@, checkpoint_key(), k) == (has_row(
                    old(store).checkpoints@,
                    checkpoint_key(),
                    k,
                ) && k.1 != name@),
            r is Ok ==> forall|k: (Seq<char>, Seq<char>)|
                has_row(final(store).attempts@, attempt_key(), k) ==> row_at(
                    final(store).attempts@,
                    attempt_key(),
                    k,
                ) == row_at(old(store).attempts@, attempt_key(), k),
            r is Ok ==> forall|k: (Seq<char>, Seq<char>)|
                has_row(final(store).checkpoints@, checkpoint_key(), k) ==> row_at(
                    final(store).checkpoints@,
                    checkpoint_key(),
                    k,
                ) == row_at(old(store).checkpoints@, checkpoint_key(), k),
    {
        let j = match find_room_index(&store.rooms, name) {
            Some(j) => j,
            None => {
                return Err(String::from_str("Error while retrieving table_id."));
            },
        };
        proof {
            lemma_row_at(old(store).rooms@, room_key(), j as int);
        }
        let tid = store.rooms[j].table_id;

        let ghost rpred = room_kept(name@);
        let mut rpending: Vec<RoomRecord> = Vec::new();
        core::mem::swap(&mut store.rooms, &mut rpending);
        let ghost rorig = rpending@;
        let rtotal = rpending.len();
        proof {
            assert(rorig.len() == rtotal);
            reveal(Seq::filter);
            assert(rorig.subrange(0, 0).filter(rpred) =~= Seq::<RoomRecord>::empty());
        }
        let mut kr: usize = 0;
        while rpending.len() > 0
            invariant
                rorig.len() <= usize::MAX,
                kr <= rorig.len(),
                kr as int == rorig.len() - rpending@.len(),
                rpending@ == rorig.subrange(kr as int, rorig.len() as int),
                store.rooms@ == rorig.subrange(0, kr as int).filter(rpred),
                rpred == room_kept(name@),
                store.sessions == old(store).sessions,
                store.attempts == old(store).attempts,
                store.checkpoints == old(store).checkpoints,
                store.tables == old(store).tables,
                store.admins == old(store).admins,
                store.next_table_id == old(store).next_table_id,
                store.welcome_message == old(store).welcome_message,
            decreases rpending@.len(),
        {
            let rec = rpending.remove(0);
            proof {
                assert(rec == rorig[kr as int]);
                assert(rpending@ =~= rorig.subrange(kr as int + 1, rorig.len() as int));
            }
            if !rec.name.as_str().eq(name) {
                store.rooms.push(rec);
            }
            proof {
                reveal(Seq::filter);
                assert(rorig.subrange(0, kr as int + 1).drop_last() =~= rorig.subrange(
                    0,
                    kr as int,
                ));
                assert(rorig.subrange(0, kr as int + 1).last() == rorig[kr as int]);
                assert(store.rooms@ == rorig.subrange(0, kr as int + 1).filter(rpred));
            }
            kr += 1;
        }
        proof {
            assert(rorig.subrange(0, rorig.len() as int) =~= rorig);
            assert(store.rooms@ == rorig.filter(rpred));
        }

        let ghost tpred = table_kept(tid as int);
        let mut tpending: Vec<MessageTable> = Vec::new();
        core::mem::swap(&mut store.tables, &mut tpending);
        let ghost torig = tpending@;
        let ttotal = tpending.len();
        proof {
            assert(torig.len() == ttotal);
            reveal(Seq::filter);
            assert(torig.subrange(0, 0).filter(tpred) =~= Seq::<MessageTable>::empty());
        }
        let mut kt: usize = 0;
        while tpending.len() > 0
            invariant
                torig.len() <= usize::MAX,
                kt <= torig.len(),
                kt as int == torig.len() - tpending@.len(),
                tpending@ == torig.subrange(kt as int, torig.len() as int),
                store.tables@ == torig.subrange(0, kt as int).filter(tpred),
                tpred == table_kept(tid as int),
                store.rooms@ == rorig.filter(rpred),
                store.sessions == old(store).sessions,
                store.attempts == old(store).attempts,
                store.checkpoints == old(store).checkpoints,
                store.admins == old(store).admins,
                store.next_table_id == old(store).next_table_id,
                store.welcome_message == old(store).welcome_message,
            decreases tpending@.len(),
        {
            let rec = tpending.remove(0);
            proof {
                assert(rec == torig[kt as int]);
                assert(tpending@ =~= torig.subrange(kt as int + 1, torig.len() as int));
            }
            if rec.table_id != tid {
                store.tables.push(rec);
            }
            proof {
                reveal(Seq::filter);
                assert(torig.subrange(0, kt as int + 1).drop_last() =~= torig.subrange(
                    0,
                    kt as int,
                ));
                assert(torig.subrange(0, kt as int + 1).last() == torig[kt as int]);
                assert(store.tables@ == torig.subrange(0, kt as int + 1).filter(tpred));
            }
            kt += 1;
        }
        proof {
            assert(torig.subrange(0, torig.len() as int) =~= torig);
            assert(store.tables@ == torig.filter(tpred));
        }

        let ghost apred = attempt_kept(name@);
        let mut apending: Vec<AttemptRecord> = Vec::new();
        core::mem::swap(&mut store.attempts, &mut apending);
        let ghost aorig = apending@;
        let atotal = apending.len();
        proof {
            assert(aorig.len() == atotal);
            reveal(Seq::filter);
            assert(aorig.subrange(0, 0).filter(apred) =~= Seq::<AttemptRecord>::empty());
        }
        let mut ka: usize = 0;
        while apending.len() > 0
            invariant
                aorig.len() <= usize::MAX,
                ka <= aorig.len(),
                ka as int == aorig.len() - apending@.len(),
                apending@ == aorig.subrange(ka as int, aorig.len() as int),
                store.attempts@ == aorig.subrange(0, ka as int).filter(apred),
                apred == attempt_kept(name@),
                store.rooms@ == rorig.filter(rpred),
                store.tables@ == torig.filter(tpred),
                store.sessions == old(store).sessions,
                store.checkpoints == old(store).checkpoints,
                store.admins == old(store).admins,
                store.next_table_id == old(store).next_table_id,
                store.welcome_message == old(store).welcome_message,
            decreases apending@.len(),
        {
            let rec = apending.remove(0);
            proof {
                assert(rec == aorig[ka as int]);
                assert(apending@ =~= aorig.subrange(ka as int + 1, aorig.len() as int));
            }
            if !rec.room_name.as_str().eq(name) {
                store.attempts.push(rec);
            }
            proof {
                reveal(Seq::filter);
                assert(aorig.subrange(0, ka as int + 1).drop_last() =~= aorig.subrange(
                    0,
                    ka as int,
                ));
                assert(aorig.subrange(0, ka as int + 1).last() == aorig[ka as int]);
                assert(store.attempts@ == aorig.subrange(0, ka as int + 1).filter(apred));
            }
            ka += 1;
        }
        proof {
            assert(aorig.subrange(0, aorig.len() as int) =~= aorig);
            assert(store.attempts@ == aorig.filter(apred));
        }

        let ghost upred = checkpoint_kept(name@);
        let mut upending: Vec<CheckpointRecord> = Vec::new();
        core::mem::swap(&mut store.checkpoints, &mut upending);
        let ghost uorig = upending@;
        let utotal = upending.len();
        proof {
            assert(uorig.len() == utotal);
            reveal(Seq::filter);
            assert(uorig.subrange(0, 0).filter(upred) =~= Seq::<CheckpointRecord>::empty());
        }
        let mut ku: usize = 0;
        while upending.len() > 0
            invariant
                uorig.len() <= usize::MAX,
                ku <= uorig.len(),
                ku as int == uorig.len() - upending@.len(),
                upending@ == uorig.subrange(ku as int, uorig.len() as int),
                store.checkpoints@ == uorig.subrange(0, ku as int).filter(upred),
                upred == checkpoint_kept(name@),
                store.rooms@ == rorig.filter(rpred),
                store.tables@ == torig.filter(tpred),
                store.attempts@ == aorig.filter(apred),
                store.sessions == old(store).sessions,
                store.admins == old(store).admins,
                store.next_table_id == old(store).next_table_id,
                store.welcome_message == old(store).welcome_message,
            decreases upending@.len(),
        {
            let rec = upending.remove(0);
            proof {
                assert(rec == uorig[ku as int]);
                assert(upending@ =~= uorig.subrange(ku as int + 1, uorig.len() as int));
            }
            if !rec.room_name.as_str().eq(name) {
                store.checkpoints.push(rec);
            }
            proof {
                reveal(Seq::filter);
                assert(uorig.subrange(0, ku as int + 1).drop_last() =~= uorig.subrange(
                    0,
                    ku as int,
                ));
                assert(uorig.subrange(0, ku as int + 1).last() == uorig[ku as int]);
                assert(store.checkpoints@ == uorig.subrange(0, ku as int + 1).filter(upred));
            }
            ku += 1;
        }
        proof {
            assert(uorig.subrange(0, uorig.len() as int) =~= uorig);
            assert(store.checkpoints@ == uorig.filter(upred));
        }

        proof {
            let r0 = old(store).rooms@;
            let t0 = old(store).tables@;
            let a0 = old(store).attempts@;
            let u0 = old(store).checkpoints@;
            let r1 = store.rooms@;
            let t1 = store.tables@;
            let a1 = store.attempts@;
            let u1 = store.checkpoints@;
            lemma_row_filter(r0, room_key(), rpred, name@);
            lemma_row_filter(a0, attempt_key(), apred, (Seq::<char>::empty(), Seq::<char>::empty()));
            lemma_row_filter(
                u0,
                checkpoint_key(),
                upred,
                (Seq::<char>::empty(), Seq::<char>::empty()),
            );
            assert(!has_room(r1, name@));
            assert forall|q: Seq<char>| q != name@ implies has_room(r1, q) == has_room(r0, q) && (
            has_room(r0, q) ==> room_at(r1, q) == room_at(r0, q)) by {
                lemma_row_filter(r0, room_key(), rpred, q);
                if has_row(r0, room_key(), q) {
                    let i = row_idx(r0, room_key(), q);
                    assert(0 <= i < r0.len() && room_key()(r0[i]) == q);
                }
            }
            assert forall|k: (Seq<char>, Seq<char>)| has_row(a1, attempt_key(), k) == (has_row(
                a0,
                attempt_key(),
                k,
            ) && k.1 != name@) && (has_row(a1, attempt_key(), k) ==> row_at(a1, attempt_key(), k)
                == row_at(a0, attempt_key(), k)) by {
                lemma_row_filter(a0, attempt_key(), apred, k);
                if has_row(a0, attempt_key(), k) {
                    let i = row_idx(a0, attempt_key(), k);
                    assert(0 <= i < a0.len() && attempt_key()(a0[i]) == k);
                    assert(row_at(a0, attempt_key(), k).room_name@ == k.1);
                }
            }
            assert forall|k: (Seq<char>, Seq<char>)| has_row(u1, checkpoint_key(), k) == (has_row(
                u0,
                checkpoint_key(),
                k,
            ) && k.1 != name@) && (has_row(u1, checkpoint_key(), k) ==> row_at(
                u1,
                checkpoint_key(),
                k,
            ) == row_at(u0, checkpoint_key(), k)) by {
                lemma_row_filter(u0, checkpoint_key(), upred, k);
                if has_row(u0, checkpoint_key(), k) {
                    let i = row_idx(u0, checkpoint_key(), k);
                    assert(0 <= i < u0.len() && checkpoint_key()(u0[i]) == k);
                    assert(row_at(u0, checkpoint_key(), k).room_name@ == k.1);
                }
            }
            // Well-formedness of the new state.
            lemma_row_filter(t0, table_key(), tpred, tid as int);
            lemma_filter_members(r0, rpred);
            lemma_filter_members(a0, apred);
            lemma_filter_members(u0, upred);
            assert forall|i: int| 0 <= i < a1.len() implies has_session(
                store.sessions@,
                (#[trigger] a1[i]).session_id@,
            ) && has_room(r1, a1[i].room_name@) by {
                a0.lemma_filter_pred(apred, i);
                assert(a0.contains(a1[i]));
                let m = choose|m: int| 0 <= m < a0.len() && a0[m] == a1[i];
                assert(has_session(old(store).sessions@, a0[m].session_id@));
                assert(has_room(r0, a0[m].room_name@));
                lemma_row_filter(r0, room_key(), rpred, a1[i].room_name@);
                let ri = row_idx(r0, room_key(), a1[i].room_name@);
                assert(0 <= ri < r0.len() && room_key()(r0[ri]) == a1[i].room_name@);
            }
            assert forall|i: int| 0 <= i < u1.len() implies has_session(
                store.sessions@,
                (#[trigger] u1[i]).session_id@,
            ) && has_room(r1, u1[i].room_name@) by {
                u0.lemma_filter_pred(upred, i);
                assert(u0.contains(u1[i]));
                let m = choose|m: int| 0 <= m < u0.len() && u0[m] == u1[i];
                assert(has_session(old(store).sessions@, u0[m].session_id@));
                assert(has_room(r0, u0[m].room_name@));
                lemma_row_filter(r0, room_key(), rpred, u1[i].room_name@);
                let ri = row_idx(r0, room_key(), u1[i].room_name@);
                assert(0 <= ri < r0.len() && room_key()(r0[ri]) == u1[i].room_name@);
            }
            // Each kept room's table is kept, and table ids stay distinct.
            assert forall|i: int| 0 <= i < r1.len() implies has_table(
                t1,
                (#[trigger] r1[i]).table_id as int,
            ) by {
                r0.lemma_filter_pred(rpred, i);
                assert(r0.contains(r1[i]));
                let m = choose|m: int| 0 <= m < r0.len() && r0[m] == r1[i];
                assert(has_table(t0, r0[m].table_id as int));
                assert(m != j as int);
                assert(r0[m].table_id != r0[j as int].table_id);
                lemma_row_filter(t0, table_key(), tpred, r1[i].table_id as int);
                let ti = row_idx(t0, table_key(), r1[i].table_id as int);
                assert(0 <= ti < t0.len() && table_key()(t0[ti]) == r1[i].table_id as int);
            }
            assert forall|i1: int, i2: int|
                0 <= i1 < r1.len() && 0 <= i2 < r1.len() && i1 != i2 implies (
            #[trigger] r1[i1]).table_id != (#[trigger] r1[i2]).table_id by {
                assert(r0.contains(r1[i1]));
                assert(r0.contains(r1[i2]));
                let m1 = choose|m: int| 0 <= m < r0.len() && r0[m] == r1[i1];
                let m2 = choose|m: int| 0 <= m < r0.len() && r0[m] == r1[i2];
                lemma_row_filter(r0, room_key(), rpred, Seq::<char>::empty());
                assert(r1[i1].name@ != r1[i2].name@);
                assert(m1 != m2);
            }
            // Kept tables keep their id bound and inner shape.
            assert forall|i: int| 0 <= i < t1.len() implies (#[trigger] t1[i]).table_id
                < store.next_table_id && crate::db::table_wf(t1[i]) by {
                t0.lemma_filter_pred(tpred, i);
                lemma_filter_members(t0, tpred);
                assert(t0.contains(t1[i]));
                let m = choose|m: int| 0 <= m < t0.len() && t0[m] == t1[i];
            }
        }
        Ok(())
    }

    /// Returns the next incremental updates a user should receive when
    /// requested.
    ///
    /// If this room is a recreation, the client might have messages from the
    /// old room in their caches, so they should remove those first: the
    /// stored-state reset is required exactly when the caller's last update
    /// time does not lie after the room's creation.
    pub fn get_updates_between(&self, store: &Store, last_update: i64, now: i64) -> (r: Result<
        Updates,
        db::Error,
    >)
        requires
            store.wf(),
        ensures
            r is Ok <==> has_table(store.tables@, self.table_id as int),
            r matches Err(e) ==> e == db::Error::NoData,
            r matches Ok(u) ==> u.clean_stored == (last_update <= self.creation) && u.messages@
                == table_at(store.tables@, self.table_id as int).messages@.filter(
                between_pred(last_update, now),
            ),
    {
        let clean_stored = last_update <= self.creation;
        let messages = Message::get_between(store, self.table_id, last_update, now)?;
        Ok(Updates { clean_stored, messages })
    }

    /// Adds a new message to the room, sanitized and converted to HTML
    /// before storage.
    pub fn add_message(
        &self,
        store: &mut Store,
        content: String,
        author: String,
        reply_to: Option<i32>,
        now: i64,
    ) -> (r: Result<(), db::Error>)
        requires
            old(store).wf(),
        ensures
            final(store).wf(),
            final(store).same_except_tables(*old(store)),
            r is Ok <==> has_table(old(store).tables@, self.table_id as int) && table_at(
                old(store).tables@,
                self.table_id as int,
            ).next_message_id < i32::MAX,
            r matches Err(e) ==> *final(store) == *old(store),
            r is Ok ==> has_table(final(store).tables@, self.table_id as int) && table_at(
                final(store).tables@,
                self.table_id as int,
            ).messages@.len() == table_at(
                old(store).tables@,
                self.table_id as int,
            ).messages@.len() + 1 && table_at(
                final(store).tables@,
                self.table_id as int,
            ).messages@.drop_last() == table_at(old(store).tables@, self.table_id as int).messages@
                && table_at(final(store).tables@, self.table_id as int).messages@.last().content@
                == sanitized_of(markdown_html_of(content@)) && table_at(
                final(store).tables@,
                self.table_id as int,
            ).messages@.last().timestamp == now && table_at(
                final(store).tables@,
                self.table_id as int,
            ).messages@.last().author == Some(author) && table_at(
                final(store).tables@,
                self.table_id as int,
            ).messages@.last().reply_to == reply_to && table_at(
                final(store).tables@,
                self.table_id as int,
            ).messages@.last().id == table_at(
                old(store).tables@,
                self.table_id as int,
            ).next_message_id,
            r is Ok ==> forall|t: int|
                t != self.table_id ==> has_table(final(store).tables@, t) == has_table(
                    old(store).tables@,
                    t,
                ) && (has_table(old(store).tables@, t) ==> table_at(final(store).tables@, t)
                    == table_at(old(store).tables@, t)),
    {
        let mut content = content;
        prepare_for_storage(&mut content);
        Message::add(store, self.table_id, content, author, reply_to, now)
    }
}

} // verus!
