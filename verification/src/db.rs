//! The store holding the forum's persistent state.
//!
//! The relational schema of the application — sessions, per-session room
//! password attempts, per-session room update checkpoints, rooms with their
//! message tables, and administrator credentials — is modelled as an
//! in-memory `Store` of keyed rows. `Store::wf` captures the schema's
//! integrity rules: primary-key uniqueness for every table, and the foreign
//! keys tying attempts and checkpoints to live sessions and rooms.

use vstd::prelude::*;

use crate::messages::Message;

verus! {

/// An error which can result from interacting with the store.
#[derive(Clone, Copy, Debug, PartialEq, Eq, Structural)]
pub enum Error {
    /// The requested row does not exist.
    NoData,
    /// An insert collided with an existing primary key.
    Duplicate,
    /// A serial id counter is exhausted.
    Full,
    /// An insert referenced a parent row that does not exist.
    ForeignKey,
}

/// A row of the sessions table.
pub struct SessionRecord {
    pub id: String,
    pub last_update: i64,
    pub is_admin: bool,
}

/// A row of the room_attempts table: the last password hash that a session
/// submitted for a room.
pub struct AttemptRecord {
    pub session_id: String,
    pub room_name: String,
    pub password: String,
}

/// A row of the room_updates table: the instant up to which a session has
/// already received a room's messages.
pub struct CheckpointRecord {
    pub session_id: String,
    pub room_name: String,
    pub timestamp: i64,
}

/// A row of the rooms table.
pub struct RoomRecord {
    pub name: String,
    pub password: String,
    pub table_id: i32,
    pub creation: i64,
}

/// The message table of one room, identified by its serial table id.
pub struct MessageTable {
    pub table_id: i32,
    pub next_message_id: i32,
    pub messages: Vec<Message>,
}

/// A row of the admins table, populated from outside the application.
pub struct AdminRecord {
    pub username: String,
    pub password: String,
}

/// Relies on str's `PartialEq` implementation: two string slices are equal
/// exactly when they consist of the same characters.
pub assume_specification[ <str as PartialEq>::eq ](a: &str, b: &str) -> (r: bool)
    ensures
        r == (a@ == b@),
;

//
// Generic machinery for tables of keyed rows.
//
// Each table of the store is a sequence of rows with a primary key. The
// spec functions below state key uniqueness and describe lookup by key; the
// lemmas relate lookups across the row operations the store performs
// (update in place, append, delete by predicate).
//

/// No two distinct rows share a key.
pub open spec fn rows_unique<T, K>(s: Seq<T>, key: spec_fn(T) -> K) -> bool {
    forall|i: int, j: int|
        0 <= i < s.len() && 0 <= j < s.len() && i != j ==> key(#[trigger] s[i]) != key(
            #[trigger] s[j],
        )
}

/// Some row has the given key.
pub open spec fn has_row<T, K>(s: Seq<T>, key: spec_fn(T) -> K, k: K) -> bool {
    exists|i: int| 0 <= i < s.len() && key(#[trigger] s[i]) == k
}

/// The index of a row with the given key, when one exists.
pub open spec fn row_idx<T, K>(s: Seq<T>, key: spec_fn(T) -> K, k: K) -> int {
    choose|i: int| 0 <= i < s.len() && key(#[trigger] s[i]) == k
}

/// The unique row with the given key, when `has_row` holds.
pub open spec fn row_at<T, K>(s: Seq<T>, key: spec_fn(T) -> K, k: K) -> T {
    s[row_idx(s, key, k)]
}

/// In a table with unique keys, the row found at any matching index is the
/// row that lookup by key returns.
pub proof fn lemma_row_at<T, K>(s: Seq<T>, key: spec_fn(T) -> K, i: int)
    requires
        rows_unique(s, key),
        0 <= i < s.len(),
    ensures
        has_row(s, key, key(s[i])),
        row_idx(s, key, key(s[i])) == i,
        row_at(s, key, key(s[i])) == s[i],
{
    let k = key(s[i]);
    assert(has_row(s, key, k));
    let j = row_idx(s, key, k);
    assert(0 <= j < s.len() && key(s[j]) == k);
    if j != i {
        assert(key(s[i]) != key(s[j]));
    }
}

/// Overwriting a row with one that keeps its key preserves uniqueness,
/// changes lookup only for that key, and leaves all other rows' lookups as
/// they were.
pub proof fn lemma_row_update<T, K>(s: Seq<T>, key: spec_fn(T) -> K, j: int, rec: T, q: K)
    requires
        rows_unique(s, key),
        0 <= j < s.len(),
        key(rec) == key(s[j]),
    ensures
        rows_unique(s.update(j, rec), key),
        q == key(rec) ==> has_row(s.update(j, rec), key, q) && row_at(s.update(j, rec), key, q)
            == rec,
        q != key(rec) ==> has_row(s.update(j, rec), key, q) == has_row(s, key, q),
        q != key(rec) && has_row(s, key, q) ==> row_at(s.update(j, rec), key, q) == row_at(
            s,
            key,
            q,
        ),
{
    let t = s.update(j, rec);
    assert forall|i1: int, i2: int|
        0 <= i1 < t.len() && 0 <= i2 < t.len() && i1 != i2 implies key(t[i1]) != key(t[i2]) by {
        assert(key(t[i1]) == key(s[i1]) && key(t[i2]) == key(s[i2]));
    }
    if q == key(rec) {
        lemma_row_at(t, key, j);
    } else {
        if has_row(s, key, q) {
            let i = row_idx(s, key, q);
            lemma_row_at(s, key, i);
            assert(t[i] == s[i]);
            lemma_row_at(t, key, i);
        }
        if has_row(t, key, q) {
            let i = row_idx(t, key, q);
            assert(0 <= i < t.len() && key(t[i]) == q);
            assert(i != j);
            assert(key(s[i]) == q);
            assert(has_row(s, key, q));
        }
    }
}

/// Appending a row with a fresh key preserves uniqueness, makes lookup of
/// that key find the new row, and leaves all other lookups as they were.
pub proof fn lemma_row_push<T, K>(s: Seq<T>, key: spec_fn(T) -> K, rec: T, q: K)
    requires
        rows_unique(s, key),
        !has_row(s, key, key(rec)),
    ensures
        rows_unique(s.push(rec), key),
        q == key(rec) ==> has_row(s.push(rec), key, q) && row_at(s.push(rec), key, q) == rec,
        q != key(rec) ==> has_row(s.push(rec), key, q) == has_row(s, key, q),
        q != key(rec) && has_row(s, key, q) ==> row_at(s.push(rec), key, q) == row_at(s, key, q),
{
    let t = s.push(rec);
    assert forall|i1: int, i2: int|
        0 <= i1 < t.len() && 0 <= i2 < t.len() && i1 != i2 implies key(t[i1]) != key(t[i2]) by {
        if i1 < s.len() && i2 < s.len() {
            assert(key(t[i1]) == key(s[i1]) && key(t[i2]) == key(s[i2]));
        } else if i1 < s.len() {
            assert(key(t[i1]) == key(s[i1]) && key(t[i2]) == key(rec));
        } else {
            assert(key(t[i1]) == key(rec) && key(t[i2]) == key(s[i2]));
        }
    }
    if q == key(rec) {
        assert(t[s.len() as int] == rec);
        lemma_row_at(t, key, s.len() as int);
    } else {
        if has_row(s, key, q) {
            let i = row_idx(s, key, q);
            lemma_row_at(s, key, i);
            assert(t[i] == s[i]);
            lemma_row_at(t, key, i);
        }
        if has_row(t, key, q) {
            let i = row_idx(t, key, q);
            assert(0 <= i < t.len() && key(t[i]) == q);
            assert(i != s.len());
            assert(key(s[i]) == q);
            assert(has_row(s, key, q));
        }
    }
}

/// Deleting by predicate preserves uniqueness; a key remains found exactly
/// when its row is kept, and the row found is unchanged.
pub proof fn lemma_row_filter<T, K>(s: Seq<T>, key: spec_fn(T) -> K, pred: spec_fn(T) -> bool, q: K)
    requires
        rows_unique(s, key),
    ensures
        rows_unique(s.filter(pred), key),
        has_row(s.filter(pred), key, q) == (has_row(s, key, q) && pred(row_at(s, key, q))),
        has_row(s.filter(pred), key, q) ==> row_at(s.filter(pred), key, q) == row_at(s, key, q),
    decreases s.len(),
{
    reveal(Seq::filter);
    if s.len() == 0 {
        assert(!has_row(s, key, q));
        assert(!has_row(s.filter(pred), key, q));
    } else {
        let d = s.drop_last();
        let last = s.last();
        assert forall|i1: int, i2: int|
            0 <= i1 < d.len() && 0 <= i2 < d.len() && i1 != i2 implies key(d[i1]) != key(
            d[i2]) by {
            assert(key(d[i1]) == key(s[i1]) && key(d[i2]) == key(s[i2]));
        }
        assert(!has_row(d, key, key(last))) by {
            if has_row(d, key, key(last)) {
                let i = row_idx(d, key, key(last));
                assert(0 <= i < d.len() && key(d[i]) == key(last));
                assert(key(s[i]) == key(s[s.len() - 1]));
            }
        }
        lemma_row_filter(d, key, pred, q);
        lemma_row_filter(d, key, pred, key(last));
        lemma_row_push(d, key, last, q);
        assert(d.push(last) =~= s);
        let df = d.filter(pred);
        if pred(last) {
            assert(s.filter(pred) == df.push(last));
            assert(!has_row(df, key, key(last)));
            lemma_row_push(df, key, last, q);
        } else {
            assert(s.filter(pred) == df);
        }
    }
}

//
// The tables of the schema, as instances of the keyed-row machinery.
//

/// The primary key of the sessions table: the session id.
pub open spec fn session_key() -> spec_fn(SessionRecord) -> Seq<char> {
    |r: SessionRecord| r.id@
}

pub open spec fn sessions_unique(s: Seq<SessionRecord>) -> bool {
    rows_unique(s, session_key())
}

pub open spec fn has_session(s: Seq<SessionRecord>, id: Seq<char>) -> bool {
    has_row(s, session_key(), id)
}

/// The unique session row with the given id, when `has_session` holds.
pub open spec fn session_at(s: Seq<SessionRecord>, id: Seq<char>) -> SessionRecord {
    row_at(s, session_key(), id)
}

/// The primary key of the room_attempts table: session id and room name.
pub open spec fn attempt_key() -> spec_fn(AttemptRecord) -> (Seq<char>, Seq<char>) {
    |r: AttemptRecord| (r.session_id@, r.room_name@)
}

pub open spec fn attempts_unique(s: Seq<AttemptRecord>) -> bool {
    rows_unique(s, attempt_key())
}

pub open spec fn has_attempt(s: Seq<AttemptRecord>, sid: Seq<char>, room: Seq<char>) -> bool {
    has_row(s, attempt_key(), (sid, room))
}

/// The unique attempt row for the given session and room, when `has_attempt`
/// holds.
pub open spec fn attempt_at(s: Seq<AttemptRecord>, sid: Seq<char>, room: Seq<char>) -> AttemptRecord {
    row_at(s, attempt_key(), (sid, room))
}

/// The primary key of the room_updates table: session id and room name.
pub open spec fn checkpoint_key() -> spec_fn(CheckpointRecord) -> (Seq<char>, Seq<char>) {
    |r: CheckpointRecord| (r.session_id@, r.room_name@)
}

pub open spec fn checkpoints_unique(s: Seq<CheckpointRecord>) -> bool {
    rows_unique(s, checkpoint_key())
}

pub open spec fn has_checkpoint(s: Seq<CheckpointRecord>, sid: Seq<char>, room: Seq<char>) -> bool {
    has_row(s, checkpoint_key(), (sid, room))
}

/// The unique checkpoint row for the given session and room, when
/// `has_checkpoint` holds.
pub open spec fn checkpoint_at(
    s: Seq<CheckpointRecord>,
    sid: Seq<char>,
    room: Seq<char>,
) -> CheckpointRecord {
    row_at(s, checkpoint_key(), (sid, room))
}

/// The checkpoint a session holds for a room, defaulting to the epoch when
/// no poll happened yet: a session polling for the first time receives the
/// room's entire history.
pub open spec fn checkpoint_or_zero(s: Seq<CheckpointRecord>, sid: Seq<char>, room: Seq<char>) -> i64 {
    if has_checkpoint(s, sid, room) {
        checkpoint_at(s, sid, room).timestamp
    } else {
        0i64
    }
}

/// The primary key of the rooms table: the room name.
pub open spec fn room_key() -> spec_fn(RoomRecord) -> Seq<char> {
    |r: RoomRecord| r.name@
}

pub open spec fn rooms_unique(s: Seq<RoomRecord>) -> bool {
    rows_unique(s, room_key())
}

pub open spec fn has_room(s: Seq<RoomRecord>, name: Seq<char>) -> bool {
    has_row(s, room_key(), name)
}

/// The unique room row with the given name, when `has_room` holds.
pub open spec fn room_at(s: Seq<RoomRecord>, name: Seq<char>) -> RoomRecord {
    row_at(s, room_key(), name)
}

/// The primary key of a message table: its serial id.
pub open spec fn table_key() -> spec_fn(MessageTable) -> int {
    |t: MessageTable| t.table_id as int
}

pub open spec fn tables_unique(s: Seq<MessageTable>) -> bool {
    rows_unique(s, table_key())
}

pub open spec fn has_table(s: Seq<MessageTable>, tid: int) -> bool {
    has_row(s, table_key(), tid)
}

/// The unique message table with the given id, when `has_table` holds.
pub open spec fn table_at(s: Seq<MessageTable>, tid: int) -> MessageTable {
    row_at(s, table_key(), tid)
}

/// The primary key of the admins table: the username.
pub open spec fn admin_key() -> spec_fn(AdminRecord) -> Seq<char> {
    |r: AdminRecord| r.username@
}

pub open spec fn admins_unique(s: Seq<AdminRecord>) -> bool {
    rows_unique(s, admin_key())
}

pub open spec fn has_admin(s: Seq<AdminRecord>, username: Seq<char>) -> bool {
    has_row(s, admin_key(), username)
}

/// The unique admin row with the given username, when `has_admin` holds.
pub open spec fn admin_at(s: Seq<AdminRecord>, username: Seq<char>) -> AdminRecord {
    row_at(s, admin_key(), username)
}

/// Message ids inside one table are serial: all are below the next free id,
/// and no id repeats.
pub open spec fn table_wf(t: MessageTable) -> bool {
    &&& forall|k: int| 0 <= k < t.messages@.len() ==> (#[trigger] t.messages@[k]).id
        < t.next_message_id
    &&& forall|k1: int, k2: int|
        0 <= k1 < t.messages@.len() && 0 <= k2 < t.messages@.len() && k1 != k2 ==> (
        #[trigger] t.messages@[k1]).id != (#[trigger] t.messages@[k2]).id
}

/// Every element of a filtered sequence is an element of the original.
pub proof fn lemma_filter_members<T>(s: Seq<T>, pred: spec_fn(T) -> bool)
    ensures
        forall|i: int| 0 <= i < s.filter(pred).len() ==> s.contains(#[trigger] s.filter(pred)[i]),
    decreases s.len(),
{
    reveal(Seq::filter);
    if s.len() > 0 {
        let d = s.drop_last();
        lemma_filter_members(d, pred);
        let f = s.filter(pred);
        let df = d.filter(pred);
        assert forall|i: int| 0 <= i < f.len() implies s.contains(f[i]) by {
            if i < df.len() {
                assert(d.contains(df[i]));
                let j = choose|j: int| 0 <= j < d.len() && d[j] == df[i];
                assert(s[j] == df[i]);
            } else {
                assert(f[i] == s.last());
                assert(s[s.len() - 1] == s.last());
            }
        }
    }
}

/// The application's whole persistent state.
pub struct Store {
    pub sessions: Vec<SessionRecord>,
    pub attempts: Vec<AttemptRecord>,
    pub checkpoints: Vec<CheckpointRecord>,
    pub rooms: Vec<RoomRecord>,
    pub tables: Vec<MessageTable>,
    pub admins: Vec<AdminRecord>,
    pub next_table_id: i32,
    pub welcome_message: Option<String>,
}

impl Store {
    /// The integrity rules of the schema: primary keys are unique, attempts
    /// and checkpoints reference live sessions and rooms, every room's
    /// message table exists, and table ids stay below the serial counter.
    pub open spec fn wf(self) -> bool {
        &&& sessions_unique(self.sessions@)
        &&& attempts_unique(self.attempts@)
        &&& checkpoints_unique(self.checkpoints@)
        &&& rooms_unique(self.rooms@)
        &&& tables_unique(self.tables@)
        &&& admins_unique(self.admins@)
        &&& forall|i: int|
            0 <= i < self.attempts@.len() ==> has_session(
                self.sessions@,
                (#[trigger] self.attempts@[i]).session_id@,
            ) && has_room(self.rooms@, self.attempts@[i].room_name@)
        &&& forall|i: int|
            0 <= i < self.checkpoints@.len() ==> has_session(
                self.sessions@,
                (#[trigger] self.checkpoints@[i]).session_id@,
            ) && has_room(self.rooms@, self.checkpoints@[i].room_name@)
        &&& forall|i: int|
            0 <= i < self.rooms@.len() ==> has_table(
                self.tables@,
                (#[trigger] self.rooms@[i]).table_id as int,
            )
        &&& forall|i: int, j: int|
            0 <= i < self.rooms@.len() && 0 <= j < self.rooms@.len() && i != j ==> (
            #[trigger] self.rooms@[i]).table_id != (#[trigger] self.rooms@[j]).table_id
        &&& forall|i: int|
            0 <= i < self.tables@.len() ==> (#[trigger] self.tables@[i]).table_id
                < self.next_table_id
        &&& forall|i: int| 0 <= i < self.tables@.len() ==> table_wf(#[trigger] self.tables@[i])
    }

    /// The sessions table, as a sequence of rows.
    pub open spec fn sessions_view(self) -> Seq<SessionRecord> {
        self.sessions@
    }

    /// The room_attempts table, as a sequence of rows.
    pub open spec fn attempts_view(self) -> Seq<AttemptRecord> {
        self.attempts@
    }

    /// The room_updates table, as a sequence of rows.
    pub open spec fn checkpoints_view(self) -> Seq<CheckpointRecord> {
        self.checkpoints@
    }

    /// The rooms table, as a sequence of rows.
    pub open spec fn rooms_view(self) -> Seq<RoomRecord> {
        self.rooms@
    }

    /// The per-room message tables.
    pub open spec fn tables_view(self) -> Seq<MessageTable> {
        self.tables@
    }

    /// The admins table, as a sequence of rows.
    pub open spec fn admins_view(self) -> Seq<AdminRecord> {
        self.admins@
    }
}

impl Store {
    /// Everything except the sessions table agrees between the two states.
    pub open spec fn same_except_sessions(self, other: Store) -> bool {
        &&& self.attempts == other.attempts
        &&& self.checkpoints == other.checkpoints
        &&& self.rooms == other.rooms
        &&& self.tables == other.tables
        &&& self.admins == other.admins
        &&& self.next_table_id == other.next_table_id
        &&& self.welcome_message == other.welcome_message
    }

    /// Everything except the room_attempts table agrees between the two
    /// states.
    pub open spec fn same_except_attempts(self, other: Store) -> bool {
        &&& self.sessions == other.sessions
        &&& self.checkpoints == other.checkpoints
        &&& self.rooms == other.rooms
        &&& self.tables == other.tables
        &&& self.admins == other.admins
        &&& self.next_table_id == other.next_table_id
        &&& self.welcome_message == other.welcome_message
    }

    /// Everything except the room_updates table agrees between the two
    /// states.
    pub open spec fn same_except_checkpoints(self, other: Store) -> bool {
        &&& self.sessions == other.sessions
        &&& self.attempts == other.attempts
        &&& self.rooms == other.rooms
        &&& self.tables == other.tables
        &&& self.admins == other.admins
        &&& self.next_table_id == other.next_table_id
        &&& self.welcome_message == other.welcome_message
    }

    /// Everything except the rooms, their message tables and the table id
    /// counter agrees between the two states.
    pub open spec fn same_except_rooms(self, other: Store) -> bool {
        &&& self.sessions == other.sessions
        &&& self.attempts == other.attempts
        &&& self.checkpoints == other.checkpoints
        &&& self.admins == other.admins
        &&& self.welcome_message == other.welcome_message
    }

    /// Everything except the message tables agrees between the two states.
    pub open spec fn same_except_tables(self, other: Store) -> bool {
        &&& self.sessions == other.sessions
        &&& self.attempts == other.attempts
        &&& self.checkpoints == other.checkpoints
        &&& self.rooms == other.rooms
        &&& self.admins == other.admins
        &&& self.next_table_id == other.next_table_id
        &&& self.welcome_message == other.welcome_message
    }

    /// Everything except the admins table agrees between the two states.
    pub open spec fn same_except_admins(self, other: Store) -> bool {
        &&& self.sessions == other.sessions
        &&& self.attempts == other.attempts
        &&& self.checkpoints == other.checkpoints
        &&& self.rooms == other.rooms
        &&& self.tables == other.tables
        &&& self.next_table_id == other.next_table_id
        &&& self.welcome_message == other.welcome_message
    }

    /// Everything except the welcome message agrees between the two states.
    pub open spec fn same_except_welcome(self, other: Store) -> bool {
        &&& self.sessions == other.sessions
        &&& self.attempts == other.attempts
        &&& self.checkpoints == other.checkpoints
        &&& self.rooms == other.rooms
        &&& self.tables == other.tables
        &&& self.admins == other.admins
        &&& self.next_table_id == other.next_table_id
    }
}

impl Store {
    /// Registers an administrator account. Credentials are provisioned from
    /// outside the application — the server itself only ever reads them.
    pub fn add_admin(&mut self, username: String, password_hash: String) -> (r: Result<(), Error>)
        requires
            old(self).wf(),
        ensures
            final(self).wf(),
            final(self).same_except_admins(*old(self)),
            r is Ok <==> !has_admin(old(self).admins@, username@),
            r matches Err(e) ==> e == Error::Duplicate && *final(self) == *old(self),
            r is Ok ==> has_admin(final(self).admins@, username@) && admin_at(
                final(self).admins@,
                username@,
            ).password@ == password_hash@ && admin_at(final(self).admins@, username@).username@
                == username@,
            r is Ok ==> forall|q: Seq<char>|
                q != username@ ==> has_admin(final(self).admins@, q) == has_admin(
                    old(self).admins@,
                    q,
                ) && (has_admin(old(self).admins@, q) ==> admin_at(final(self).admins@, q)
                    == admin_at(old(self).admins@, q)),
    {
        if find_admin_index(&self.admins, username.as_str()).is_some() {
            return Err(Error::Duplicate);
        }
        let rec = AdminRecord { username, password: password_hash };
        self.admins.push(rec);
        proof {
            let s0 = old(self).admins@;
            let s1 = self.admins@;
            let recg = s1[s1.len() - 1];
            assert(s1 == s0.push(recg));
            lemma_row_push(s0, admin_key(), recg, recg.username@);
            assert forall|q: Seq<char>| q != recg.username@ implies has_admin(s1, q) == has_admin(
                s0,
                q,
            ) && (has_admin(s0, q) ==> admin_at(s1, q) == admin_at(s0, q)) by {
                lemma_row_push(s0, admin_key(), recg, q);
            }
        }
        Ok(())
    }
}

/// A fairing which makes sure we can interact with the store correctly.
pub struct DbInitFairing;

impl DbInitFairing {
    /// Initializes the store, as it should be when starting the server.
    ///
    /// Sessions, attempts and checkpoints are not persistent across restarts;
    /// the store starts with every table empty. Administrator credentials are
    /// loaded separately, since the server only reads them.
    pub fn init_db() -> (r: Store)
        ensures
            r.wf(),
            r.sessions@ =~= Seq::<SessionRecord>::empty(),
            r.attempts@ =~= Seq::<AttemptRecord>::empty(),
            r.checkpoints@ =~= Seq::<CheckpointRecord>::empty(),
            r.rooms@ =~= Seq::<RoomRecord>::empty(),
            r.tables@ =~= Seq::<MessageTable>::empty(),
            r.admins@ =~= Seq::<AdminRecord>::empty(),
            r.welcome_message is None,
    {
        Store {
            sessions: Vec::new(),
            attempts: Vec::new(),
            checkpoints: Vec::new(),
            rooms: Vec::new(),
            tables: Vec::new(),
            admins: Vec::new(),
            next_table_id: 1,
            welcome_message: None,
        }
    }
}

//
// Exec lookups: linear scans over the tables, verified against the spec
// lookups above.
//

pub(crate) fn find_session_index(s: &Vec<SessionRecord>, id: &str) -> (r: Option<usize>)
    ensures
        r matches Some(i) ==> i < s@.len() && s@[i as int].id@ == id@ && has_session(s@, id@),
        r is None ==> !has_session(s@, id@),
{
    let n = s.len();
    let mut i: usize = 0;
    while i < n
        invariant
            n == s@.len(),
            i <= n,
            forall|j: int| 0 <= j < i ==> (#[trigger] s@[j]).id@ != id@,
        decreases n - i,
    {
        if s[i].id.as_str().eq(id) {
            return Some(i);
        }
        i += 1;
    }
    None
}

pub(crate) fn find_attempt_index(s: &Vec<AttemptRecord>, sid: &str, room: &str) -> (r: Option<
    usize,
>)
    ensures
        r matches Some(i) ==> i < s@.len() && s@[i as int].session_id@ == sid@
            && s@[i as int].room_name@ == room@ && has_attempt(s@, sid@, room@),
        r is None ==> !has_attempt(s@, sid@, room@),
{
    let n = s.len();
    let mut i: usize = 0;
    while i < n
        invariant
            n == s@.len(),
            i <= n,
            forall|j: int|
                0 <= j < i ==> !((#[trigger] s@[j]).session_id@ == sid@ && s@[j].room_name@
                    == room@),
        decreases n - i,
    {
        if s[i].session_id.as_str().eq(sid) && s[i].room_name.as_str().eq(room) {
            return Some(i);
        }
        i += 1;
    }
    None
}

pub(crate) fn find_checkpoint_index(s: &Vec<CheckpointRecord>, sid: &str, room: &str) -> (r: Option<
    usize,
>)
    ensures
        r matches Some(i) ==> i < s@.len() && s@[i as int].session_id@ == sid@
            && s@[i as int].room_name@ == room@ && has_checkpoint(s@, sid@, room@),
        r is None ==> !has_checkpoint(s@, sid@, room@),
{
    let n = s.len();
    let mut i: usize = 0;
    while i < n
        invariant
            n == s@.len(),
            i <= n,
            forall|j: int|
                0 <= j < i ==> !((#[trigger] s@[j]).session_id@ == sid@ && s@[j].room_name@
                    == room@),
        decreases n - i,
    {
        if s[i].session_id.as_str().eq(sid) && s[i].room_name.as_str().eq(room) {
            return Some(i);
        }
        i += 1;
    }
    None
}

pub(crate) fn find_room_index(s: &Vec<RoomRecord>, name: &str) -> (r: Option<usize>)
    ensures
        r matches Some(i) ==> i < s@.len() && s@[i as int].name@ == name@ && has_room(s@, name@),
        r is None ==> !has_room(s@, name@),
{
    let n = s.len();
    let mut i: usize = 0;
    while i < n
        invariant
            n == s@.len(),
            i <= n,
            forall|j: int| 0 <= j < i ==> (#[trigger] s@[j]).name@ != name@,
        decreases n - i,
    {
        if s[i].name.as_str().eq(name) {
            return Some(i);
        }
        i += 1;
    }
    None
}

pub(crate) fn find_table_index(s: &Vec<MessageTable>, tid: i32) -> (r: Option<usize>)
    ensures
        r matches Some(i) ==> i < s@.len() && s@[i as int].table_id == tid && has_table(
            s@,
            tid as int,
        ),
        r is None ==> !has_table(s@, tid as int),
{
    let n = s.len();
    let mut i: usize = 0;
    while i < n
        invariant
            n == s@.len(),
            i <= n,
            forall|j: int| 0 <= j < i ==> (#[trigger] s@[j]).table_id != tid,
        decreases n - i,
    {
        if s[i].table_id == tid {
            return Some(i);
        }
        i += 1;
    }
    None
}

pub(crate) fn find_admin_index(s: &Vec<AdminRecord>, username: &str) -> (r: Option<usize>)
    ensures
        r matches Some(i) ==> i < s@.len() && s@[i as int].username@ == username@ && has_admin(
            s@,
            username@,
        ),
        r is None ==> !has_admin(s@, username@),
{
    let n = s.len();
    let mut i: usize = 0;
    while i < n
        invariant
            n == s@.len(),
            i <= n,
            forall|j: int| 0 <= j < i ==> (#[trigger] s@[j]).username@ != username@,
        decreases n - i,
    {
        if s[i].username.as_str().eq(username) {
            return Some(i);
        }
        i += 1;
    }
    None
}

} // verus!
