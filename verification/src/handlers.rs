//! Request-level logic of the application's endpoints.
//!
//! The HTTP layer resolves the inbound session and hands these functions
//! plain values. Each function validates its input, consults the room
//! access guard where the endpoint is room-scoped, and applies the store
//! operations in the order the endpoint requires: session resolution before
//! authorization, authorization before update synchronization or posting.

use vstd::prelude::*;
use vstd::string::StringExecFns;

use crate::admins::AdminLogin;
use crate::admins::admin_credentials_ok;
use crate::constraints::MAX_MESSAGE_LEN;
use crate::constraints::MAX_ROOM_NAME_LEN;
use crate::constraints::RoomName;
use crate::constraints::valid_room_name_seq;
use crate::db::Store;
use crate::db::attempt_key;
use crate::db::checkpoint_at;
use crate::db::checkpoint_key;
use crate::db::checkpoint_or_zero;
use crate::db::has_checkpoint;
use crate::db::has_room;
use crate::db::has_row;
use crate::db::has_session;
use crate::db::room_at;
use crate::db::row_at;
use crate::db::table_at;
use crate::messages::MessageJson;
use crate::messages::Updates;
use crate::messages::between_pred;
use crate::messages::markdown_html_of;
use crate::messages::sanitized_of;
use crate::rooms::Room;
use crate::rooms::RoomAccess;
use crate::rooms::RoomLogin;
use crate::rooms::authorize;
use crate::rooms::authorized_spec;
use crate::rooms::hash_password;
use crate::rooms::hex_of;
use crate::rooms::sha256_of;
use crate::sessions::Session;

verus! {

/// The failure statuses room-scoped endpoints report.
#[derive(Clone, Copy, Debug, PartialEq, Eq, Structural)]
pub enum ApiError {
    /// The session is not authorized for the room (or the room is gone).
    Unauthorized,
    /// A store write failed; the client should retry.
    ServerError,
}

/// The polling endpoint: returns the messages this session has not yet
/// received for the room, then advances the session's checkpoint to `now`.
///
/// The interval served is `(checkpoint, now]`, with the checkpoint
/// defaulting to the epoch on a first poll. The new checkpoint is `now`
/// itself — not the last fetched message's timestamp — so idle polls still
/// advance it. A checkpoint at or before the room's creation instant means
/// the room was recreated since the client last synced, and the client
/// must discard its cached view first.
pub fn get_message_updates(
    store: &mut Store,
    session: &Session,
    name: &RoomName,
    now: i64,
) -> (r: Result<Updates, ApiError>)
    requires
        old(store).wf(),
    ensures
        final(store).wf(),
        final(store).same_except_checkpoints(*old(store)),
        r is Ok <==> authorized_spec(*old(store), session.id@, name.0@) && has_session(
            old(store).sessions@,
            session.id@,
        ),
        r == Err::<Updates, ApiError>(ApiError::Unauthorized) <==> !authorized_spec(
            *old(store),
            session.id@,
            name.0@,
        ),
        r matches Err(e) ==> *final(store) == *old(store),
        r matches Ok(u) ==> u.clean_stored == (checkpoint_or_zero(
            old(store).checkpoints@,
            session.id@,
            name.0@,
        ) <= room_at(old(store).rooms@, name.0@).creation) && u.messages@ == table_at(
            old(store).tables@,
            room_at(old(store).rooms@, name.0@).table_id as int,
        ).messages@.filter(
            between_pred(checkpoint_or_zero(old(store).checkpoints@, session.id@, name.0@), now),
        ),
        r is Ok ==> has_checkpoint(final(store).checkpoints@, session.id@, name.0@)
            && checkpoint_at(final(store).checkpoints@, session.id@, name.0@).timestamp == now,
        r is Ok ==> forall|k: (Seq<char>, Seq<char>)|
            k != (session.id@, name.0@) ==> has_row(final(store).checkpoints@, checkpoint_key(), k)
                == has_row(old(store).checkpoints@, checkpoint_key(), k) && (has_row(
                old(store).checkpoints@,
                checkpoint_key(),
                k,
            ) ==> row_at(final(store).checkpoints@, checkpoint_key(), k) == row_at(
                old(store).checkpoints@,
                checkpoint_key(),
                k,
            )),
{
    let room = match authorize(store, session.id.as_str(), name.0.as_str()) {
        RoomAccess::Authorized(room) => room,
        _ => {
            return Err(ApiError::Unauthorized);
        },
    };
    let last_update = match session.get_room_update(store, name.0.as_str()) {
        Ok(t) => t,
        Err(_) => 0,
    };
    let updates = match room.get_updates_between(store, last_update, now) {
        Ok(u) => u,
        Err(_) => {
            return Err(ApiError::ServerError);
        },
    };
    match session.save_room_update(store, name.0.as_str(), now) {
        Ok(()) => Ok(updates),
        Err(_) => Err(ApiError::ServerError),
    }
}

/// The posting endpoint: validates the submitted message, then appends it
/// to the room's table, sanitized, stamped with `now` and attributed to the
/// posting session.
///
/// Validation failures are user-facing outcomes, not errors: their text is
/// returned as the response body, and nothing is stored.
pub fn post(
    store: &mut Store,
    session: &Session,
    name: &RoomName,
    message: MessageJson,
    now: i64,
) -> (r: Result<String, ApiError>)
    requires
        old(store).wf(),
    ensures
        final(store).wf(),
        final(store).same_except_tables(*old(store)),
        !authorized_spec(*old(store), session.id@, name.0@) ==> r == Err::<String, ApiError>(
            ApiError::Unauthorized,
        ) && *final(store) == *old(store),
        authorized_spec(*old(store), session.id@, name.0@) && message.content@.len() == 0 ==> (r
            matches Ok(s) && s@ == "Your message cannot be empty."@)
            && *final(store) == *old(store),
        authorized_spec(*old(store), session.id@, name.0@) && message.content@.len() > 0
            && vstd::utf8::encode_utf8(message.content@).len() > MAX_MESSAGE_LEN ==> (r matches Ok(
            s,
        ) && s@ == "Your message is too long."@) && *final(store) == *old(store),
        authorized_spec(*old(store), session.id@, name.0@) && message.content@.len() > 0
            && vstd::utf8::encode_utf8(message.content@).len() <= MAX_MESSAGE_LEN && table_at(
            old(store).tables@,
            room_at(old(store).rooms@, name.0@).table_id as int,
        ).next_message_id < i32::MAX ==> (r matches Ok(s) && s@
            == "Your message has been saved."@) && table_at(
            final(store).tables@,
            room_at(old(store).rooms@, name.0@).table_id as int,
        ).messages@.len() == table_at(
            old(store).tables@,
            room_at(old(store).rooms@, name.0@).table_id as int,
        ).messages@.len() + 1 && table_at(
            final(store).tables@,
            room_at(old(store).rooms@, name.0@).table_id as int,
        ).messages@.drop_last() == table_at(
            old(store).tables@,
            room_at(old(store).rooms@, name.0@).table_id as int,
        ).messages@ && table_at(
            final(store).tables@,
            room_at(old(store).rooms@, name.0@).table_id as int,
        ).messages@.last().content@ == sanitized_of(markdown_html_of(message.content@))
            && table_at(
            final(store).tables@,
            room_at(old(store).rooms@, name.0@).table_id as int,
        ).messages@.last().timestamp == now && (table_at(
            final(store).tables@,
            room_at(old(store).rooms@, name.0@).table_id as int,
        ).messages@.last().author matches Some(a) && a@ == session.id@) && table_at(
            final(store).tables@,
            room_at(old(store).rooms@, name.0@).table_id as int,
        ).messages@.last().reply_to == message.reply_to,
{
    let room = match authorize(store, session.id.as_str(), name.0.as_str()) {
        RoomAccess::Authorized(room) => room,
        _ => {
            return Err(ApiError::Unauthorized);
        },
    };
    if message.content.as_str().is_empty() {
        return Ok(String::from_str("Your message cannot be empty."));
    }
    if message.content.as_str().as_bytes().len() > MAX_MESSAGE_LEN {
        return Ok(String::from_str("Your message is too long."));
    }
    match room.add_message(store, message.content, session.id(), message.reply_to, now) {
        Ok(()) => Ok(String::from_str("Your message has been saved.")),
        Err(_) => Err(ApiError::ServerError),
    }
}

/// The room login endpoint: checks the submitted credentials against the
/// room, and stores the password attempt for the session on success, which
/// is the only way a session acquires authorization for a room.
pub fn enter_room(store: &mut Store, session: &Session, login: &RoomLogin) -> (r: Result<
    (),
    String,
>)
    requires
        old(store).wf(),
    ensures
        final(store).wf(),
        final(store).same_except_attempts(*old(store)),
        !has_room(old(store).rooms@, login.name@) ==> (r matches Err(e) && e@
            == "Your credentials are invalid."@) && *final(store) == *old(store),
        has_room(old(store).rooms@, login.name@) && room_at(
            old(store).rooms@,
            login.name@,
        ).password@ != hex_of(sha256_of(vstd::utf8::encode_utf8(login.password@))) ==> (r matches
        Err(e) && e@ == "Your credentials are invalid."@) && *final(store) == *old(store),
        has_room(old(store).rooms@, login.name@) && room_at(
            old(store).rooms@,
            login.name@,
        ).password@ == hex_of(sha256_of(vstd::utf8::encode_utf8(login.password@)))
            && has_session(old(store).sessions@, session.id@) ==> r is Ok && authorized_spec(
            *final(store),
            session.id@,
            login.name@,
        ),
        has_room(old(store).rooms@, login.name@) && room_at(
            old(store).rooms@,
            login.name@,
        ).password@ == hex_of(sha256_of(vstd::utf8::encode_utf8(login.password@)))
            && !has_session(old(store).sessions@, session.id@) ==> (r matches Err(e) && e@
            == "Could not save your login attempt."@) && *final(store) == *old(store),
        r is Ok ==> forall|k: (Seq<char>, Seq<char>)|
            k != (session.id@, login.name@) ==> has_row(final(store).attempts@, attempt_key(), k)
                == has_row(old(store).attempts@, attempt_key(), k) && (has_row(
                old(store).attempts@,
                attempt_key(),
                k,
            ) ==> row_at(final(store).attempts@, attempt_key(), k) == row_at(
                old(store).attempts@,
                attempt_key(),
                k,
            )),
{
    let allowed = match login.can_log_in(store) {
        Ok(b) => b,
        Err(_) => false,
    };
    if !allowed {
        return Err(String::from_str("Your credentials are invalid."));
    }
    let hashed = hash_password(login.password.as_str());
    match session.save_room_attempt(store, login.name.as_str(), hashed.as_str()) {
        Ok(()) => Ok(()),
        Err(_) => Err(String::from_str("Could not save your login attempt.")),
    }
}

/// The admin login endpoint: after the submitted credentials check out
/// against the admins table, the session is elevated to administrator.
pub fn admin_login(store: &mut Store, session: &mut Session, login: &AdminLogin) -> (r: Result<
    (),
    String,
>)
    requires
        old(store).wf(),
    ensures
        final(store).wf(),
        final(store).same_except_sessions(*old(store)),
        !admin_credentials_ok(*old(store), login.username@, login.password@) ==> (r matches Err(e)
            && e@ == "Your credentials are invalid."@) && *final(store) == *old(store)
            && *final(session) == *old(session),
        admin_credentials_ok(*old(store), login.username@, login.password@) && has_session(
            old(store).sessions@,
            old(session).id@,
        ) ==> r is Ok && final(session).is_admin && has_session(
            final(store).sessions@,
            old(session).id@,
        ) && crate::db::session_at(final(store).sessions@, old(session).id@).is_admin,
        admin_credentials_ok(*old(store), login.username@, login.password@) && !has_session(
            old(store).sessions@,
            old(session).id@,
        ) ==> (r matches Err(e) && e@ == "Could not log you in as admin."@) && *final(store)
            == *old(store) && *final(session) == *old(session),
{
    let valid = match login.is_valid(store) {
        Ok(b) => b,
        Err(_) => false,
    };
    if !valid {
        return Err(String::from_str("Your credentials are invalid."));
    }
    if session.make_admin(store) {
        Ok(())
    } else {
        Err(String::from_str("Could not log you in as admin."))
    }
}

/// The room creation endpoint (admin only): validates the requested name
/// and password, then creates the room and its message table.
pub fn create_room(store: &mut Store, room: &RoomLogin, now: i64) -> (r: String)
    requires
        old(store).wf(),
    ensures
        final(store).wf(),
        final(store).same_except_rooms(*old(store)),
        room.name@.len() == 0 ==> r@ == "The room name cannot be empty."@
            && *final(store) == *old(store),
        room.name@.len() > 0 && vstd::utf8::encode_utf8(room.name@).len() > MAX_ROOM_NAME_LEN
            ==> r@ == "The room name is too long."@ && *final(store) == *old(store),
        room.name@.len() > 0 && vstd::utf8::encode_utf8(room.name@).len() <= MAX_ROOM_NAME_LEN
            && !valid_room_name_seq(room.name@) ==> r@
            == "The room name contains invalid characters."@ && *final(store) == *old(store),
        !valid_room_name_seq(room.name@) ==> *final(store) == *old(store),
        valid_room_name_seq(room.name@) && room.password@.len() == 0 ==> r@
            == "The password cannot be empty."@ && *final(store) == *old(store),
        valid_room_name_seq(room.name@) && room.password@.len() > 0 && !has_room(
            old(store).rooms@,
            room.name@,
        ) && old(store).next_table_id < i32::MAX ==> r@ == "Created room "@ + room.name@ + "."@
            && has_room(final(store).rooms@, room.name@) && room_at(
            final(store).rooms@,
            room.name@,
        ).password@ == hex_of(sha256_of(vstd::utf8::encode_utf8(room.password@))) && room_at(
            final(store).rooms@,
            room.name@,
        ).creation == now,
        valid_room_name_seq(room.name@) && room.password@.len() > 0 && (has_room(
            old(store).rooms@,
            room.name@,
        ) || old(store).next_table_id == i32::MAX) ==> r@ == "Could not create the room."@
            && *final(store) == *old(store),
{
    match RoomName::parse(room.name.as_str()) {
        Ok(_) => (),
        Err(reason) => {
            return reason;
        },
    };
    if room.password.as_str().is_empty() {
        return String::from_str("The password cannot be empty.");
    }
    let hashed_password = hash_password(room.password.as_str());
    match Room::create_room(store, room.name.clone(), hashed_password, now) {
        Ok(()) => {
            let mut message = String::from_str("Created room ");
            message.append(room.name.as_str());
            message.append(".");
            message
        },
        Err(_) => String::from_str("Could not create the room."),
    }
}

/// The room deletion endpoint (admin only).
pub fn delete_room(store: &mut Store, name: &RoomName) -> (r: String)
    requires
        old(store).wf(),
    ensures
        final(store).wf(),
        !has_room(old(store).rooms@, name.0@) ==> r@ == "Error while retrieving table_id."@
            && *final(store) == *old(store),
        has_room(old(store).rooms@, name.0@) ==> r@ == "Room "@ + name.0@
            + " deleted successfully."@ && !has_room(final(store).rooms@, name.0@),
        has_room(old(store).rooms@, name.0@) ==> final(store).rooms@
            == old(store).rooms@.filter(crate::rooms::room_kept(name.0@))
            && final(store).attempts@
            == old(store).attempts@.filter(crate::rooms::attempt_kept(name.0@))
            && final(store).checkpoints@
            == old(store).checkpoints@.filter(crate::rooms::checkpoint_kept(name.0@))
            && final(store).sessions == old(store).sessions,
{
    match Room::delete_room(store, name.0.as_str()) {
        Ok(()) => {
            let mut message = String::from_str("Room ");
            message.append(name.0.as_str());
            message.append(" deleted successfully.");
            message
        },
        Err(reason) => reason,
    }
}

/// The room password change endpoint (admin only).
pub fn change_room_password(store: &mut Store, form: &RoomLogin) -> (r: String)
    requires
        old(store).wf(),
    ensures
        final(store).wf(),
        final(store).same_except_rooms(*old(store)),
        form.password@.len() == 0 ==> r@ == "The password cannot be empty."@ && *final(store)
            == *old(store),
        form.password@.len() > 0 ==> r@ == "The password has been changed."@,
        form.password@.len() > 0 && has_room(old(store).rooms@, form.name@) ==> room_at(
            final(store).rooms@,
            form.name@,
        ).password@ == hex_of(sha256_of(vstd::utf8::encode_utf8(form.password@))),
        form.password@.len() > 0 && !has_room(old(store).rooms@, form.name@) ==> *final(store)
            == *old(store),
{
    if form.password.as_str().is_empty() {
        return String::from_str("The password cannot be empty.");
    }
    let hashed_password = hash_password(form.password.as_str());
    let _outcome = Room::change_password(store, form.name.as_str(), hashed_password.as_str());
    String::from_str("The password has been changed.")
}

/// Checkpoint monotonicity: each successful poll writes the poll instant
/// itself as the new checkpoint, so across any two successive successful
/// polls of one session/room pair whose instants do not run backwards, the
/// stored checkpoint never decreases.
///
/// `mid` is the store after a poll at `t1`, `post` the store after a
/// subsequent poll at `t2`; the `requires` are the checkpoint clauses that
/// `get_message_updates` ensures for those calls.
pub proof fn lemma_checkpoint_monotonic(
    mid: Store,
    post: Store,
    sid: Seq<char>,
    room: Seq<char>,
    t1: i64,
    t2: i64,
)
    requires
        t1 <= t2,
        has_checkpoint(mid.checkpoints@, sid, room),
        checkpoint_at(mid.checkpoints@, sid, room).timestamp == t1,
        has_checkpoint(post.checkpoints@, sid, room),
        checkpoint_at(post.checkpoints@, sid, room).timestamp == t2,
    ensures
        checkpoint_or_zero(mid.checkpoints@, sid, room) <= checkpoint_or_zero(
            post.checkpoints@,
            sid,
            room,
        ),
{
}

/// Idempotent redelivery: replaying a poll with the same pre-write
/// checkpoint — as happens when a crash prevented the checkpoint write of
/// an earlier poll — returns every message the lost reply contained, as
/// long as the clock has not run backwards. No message is permanently lost.
pub proof fn lemma_idempotent_redelivery(
    msgs: Seq<crate::messages::Message>,
    c: i64,
    t1: i64,
    t2: i64,
)
    requires
        t1 <= t2,
    ensures
        forall|i: int|
            0 <= i < msgs.filter(between_pred(c, t1)).len() ==> msgs.filter(
                between_pred(c, t2),
            ).contains(#[trigger] msgs.filter(between_pred(c, t1))[i]),
{
    let first = msgs.filter(between_pred(c, t1));
    let second = msgs.filter(between_pred(c, t2));
    crate::db::lemma_filter_members(msgs, between_pred(c, t1));
    assert forall|i: int| 0 <= i < first.len() implies second.contains(first[i]) by {
        msgs.lemma_filter_pred(between_pred(c, t1), i);
        assert(msgs.contains(first[i]));
        let j = choose|j: int| 0 <= j < msgs.len() && msgs[j] == first[i];
        assert(between_pred(c, t2)(msgs[j]));
        msgs.lemma_filter_contains(between_pred(c, t2), j);
    }
}

/// The admin pane, reached without administrator rights.
pub fn admin_pane_for_non_admin() -> (r: String)
    ensures
        r@ == "You do not have permission to access this page."@,
{
    String::from_str("You do not have permission to access this page.")
}

} // verus!
