use forum_core::constraints::RoomName;
use forum_core::db::DbInitFairing;
use forum_core::db::Store;
use forum_core::handlers::ApiError;
use forum_core::handlers::admin_pane_for_non_admin;
use forum_core::handlers::change_room_password;
use forum_core::handlers::create_room;
use forum_core::handlers::delete_room;
use forum_core::handlers::enter_room;
use forum_core::handlers::get_message_updates;
use forum_core::handlers::post;
use forum_core::messages::MessageJson;
use forum_core::rooms::Room;
use forum_core::rooms::RoomAccess;
use forum_core::rooms::RoomLogin;
use forum_core::rooms::authorize;
use forum_core::rooms::hash_password;
use forum_core::sessions::Session;
use forum_core::template_variables::WelcomeMessage;

fn store_with_room(name: &str, password: &str, creation: i64) -> Store {
    let mut store = DbInitFairing::init_db();
    Room::create_room(&mut store, name.to_string(), hash_password(password), creation).unwrap();
    store
}

fn entered_session(store: &mut Store, room: &str, password: &str, now: i64) -> Session {
    let id = Session::start_new(store, now).unwrap();
    let session = Session::from_db(store, &id).unwrap();
    let login = RoomLogin { name: room.to_string(), password: password.to_string() };
    enter_room(store, &session, &login).expect("could not enter the room");
    session
}

#[test]
fn create_and_list_rooms() {
    let mut store = store_with_room("lobby", "pw", 100);
    Room::create_room(&mut store, "annex".to_string(), hash_password("pw2"), 200).unwrap();

    let names = Room::active_rooms(&store);
    assert_eq!(names, vec!["lobby".to_string(), "annex".to_string()]);

    assert!(Room::create_room(&mut store, "lobby".to_string(), hash_password("x"), 300).is_err());

    let room = Room::from_db(&store, "lobby").unwrap();
    assert!(room.valid_password(&hash_password("pw")));
    assert!(!room.valid_password(&hash_password("other")));
}

#[test]
fn guard_requires_attempt_and_matching_password() {
    let mut store = store_with_room("lobby", "pw", 100);
    let id = Session::start_new(&mut store, 10).unwrap();
    let session = Session::from_db(&store, &id).unwrap();

    // (a) No attempt row: unauthorized.
    assert!(matches!(authorize(&store, &id, "lobby"), RoomAccess::Unauthorized));
    // Unknown room: not found, a distinct outcome.
    assert!(matches!(authorize(&store, &id, "nowhere"), RoomAccess::NotFound));

    // (b) An attempt with the wrong hash: unauthorized.
    session.save_room_attempt(&mut store, "lobby", &hash_password("wrong")).unwrap();
    assert!(matches!(authorize(&store, &id, "lobby"), RoomAccess::Unauthorized));

    // (c) An attempt with the correct hash: authorized.
    session.save_room_attempt(&mut store, "lobby", &hash_password("pw")).unwrap();
    assert!(matches!(authorize(&store, &id, "lobby"), RoomAccess::Authorized(_)));

    // Changing the room's password flips the same session back to
    // unauthorized on its next check, with no other action in between.
    let form = RoomLogin { name: "lobby".to_string(), password: "rotated".to_string() };
    assert_eq!(change_room_password(&mut store, &form), "The password has been changed.");
    assert!(matches!(authorize(&store, &id, "lobby"), RoomAccess::Unauthorized));

    // Re-submitting the new password regains access.
    let login = RoomLogin { name: "lobby".to_string(), password: "rotated".to_string() };
    enter_room(&mut store, &session, &login).unwrap();
    assert!(matches!(authorize(&store, &id, "lobby"), RoomAccess::Authorized(_)));
}

#[test]
fn enter_room_rejects_bad_credentials() {
    let mut store = store_with_room("lobby", "pw", 100);
    let id = Session::start_new(&mut store, 10).unwrap();
    let session = Session::from_db(&store, &id).unwrap();

    let wrong = RoomLogin { name: "lobby".to_string(), password: "nope".to_string() };
    assert_eq!(enter_room(&mut store, &session, &wrong).unwrap_err(), "Your credentials are invalid.");
    let missing = RoomLogin { name: "nowhere".to_string(), password: "pw".to_string() };
    assert_eq!(enter_room(&mut store, &session, &missing).unwrap_err(), "Your credentials are invalid.");
    assert!(matches!(authorize(&store, &id, "lobby"), RoomAccess::Unauthorized));
}

#[test]
fn poll_interval_is_open_closed() {
    let mut store = store_with_room("lobby", "pw", 100);
    let session = entered_session(&mut store, "lobby", "pw", 10);
    let room = Room::from_db(&store, "lobby").unwrap();
    room.add_message(&mut store, "a".to_string(), session.id(), None, 150).unwrap();
    room.add_message(&mut store, "b".to_string(), session.id(), None, 200).unwrap();
    room.add_message(&mut store, "c".to_string(), session.id(), None, 250).unwrap();

    // Pretend the session already synced up to 150.
    session.save_room_update(&mut store, "lobby", 150).unwrap();

    let name = RoomName::parse("lobby").unwrap();
    let updates = get_message_updates(&mut store, &session, &name, 250).unwrap();
    let stamps: Vec<i64> = updates.messages.iter().map(|m| m.timestamp).collect();
    // The message at exactly the checkpoint is excluded; the one at exactly
    // `now` is included.
    assert_eq!(stamps, vec![200, 250]);
    assert_eq!(updates.messages[0].content, "<p>b</p>\n");
    assert_eq!(session.get_room_update(&store, "lobby").unwrap(), 250);
}

#[test]
fn first_poll_serves_history_and_requires_reset() {
    let mut store = store_with_room("lobby", "pw", 100);
    let session = entered_session(&mut store, "lobby", "pw", 10);
    let room = Room::from_db(&store, "lobby").unwrap();
    room.add_message(&mut store, "hi".to_string(), session.id(), None, 150).unwrap();
    room.add_message(&mut store, "there".to_string(), session.id(), None, 300).unwrap();

    let name = RoomName::parse("lobby").unwrap();
    // First poll ever, at t=500: the default checkpoint 0 is at or before
    // the room's creation (100), so the client must reset its cache, and it
    // receives the room's entire history.
    let first = get_message_updates(&mut store, &session, &name, 500).unwrap();
    assert!(first.clean_stored);
    assert_eq!(first.messages.len(), 2);
    assert_eq!(session.get_room_update(&store, "lobby").unwrap(), 500);

    // A second poll at t=600 with no new messages: empty, no reset, and the
    // checkpoint still advances.
    let second = get_message_updates(&mut store, &session, &name, 600).unwrap();
    assert!(!second.clean_stored);
    assert!(second.messages.is_empty());
    assert_eq!(session.get_room_update(&store, "lobby").unwrap(), 600);
}

#[test]
fn reset_exactly_when_checkpoint_not_after_creation() {
    let mut store = store_with_room("lobby", "pw", 100);
    let session = entered_session(&mut store, "lobby", "pw", 10);
    let name = RoomName::parse("lobby").unwrap();

    session.save_room_update(&mut store, "lobby", 100).unwrap();
    let at_boundary = get_message_updates(&mut store, &session, &name, 500).unwrap();
    assert!(at_boundary.clean_stored);

    session.save_room_update(&mut store, "lobby", 101).unwrap();
    let after = get_message_updates(&mut store, &session, &name, 600).unwrap();
    assert!(!after.clean_stored);
}

#[test]
fn replayed_poll_redelivers_everything() {
    let mut store = store_with_room("lobby", "pw", 100);
    let session = entered_session(&mut store, "lobby", "pw", 10);
    let room = Room::from_db(&store, "lobby").unwrap();
    room.add_message(&mut store, "a".to_string(), session.id(), None, 200).unwrap();
    room.add_message(&mut store, "b".to_string(), session.id(), None, 400).unwrap();
    session.save_room_update(&mut store, "lobby", 150).unwrap();

    let name = RoomName::parse("lobby").unwrap();
    let original = get_message_updates(&mut store, &session, &name, 500).unwrap();
    let original_ids: Vec<i32> = original.messages.iter().map(|m| m.id).collect();

    // Simulate a crash before the checkpoint write: restore the pre-write
    // checkpoint and poll again later. Every originally delivered message
    // comes back.
    session.save_room_update(&mut store, "lobby", 150).unwrap();
    let replay = get_message_updates(&mut store, &session, &name, 600).unwrap();
    let replay_ids: Vec<i32> = replay.messages.iter().map(|m| m.id).collect();
    for id in &original_ids {
        assert!(replay_ids.contains(id));
    }
    assert_eq!(original_ids, vec![1, 2]);
}

#[test]
fn recreated_room_requires_reset_and_starts_empty() {
    let mut store = store_with_room("lobby", "pw", 100);
    let session = entered_session(&mut store, "lobby", "pw", 10);
    let room = Room::from_db(&store, "lobby").unwrap();
    room.add_message(&mut store, "old".to_string(), session.id(), None, 200).unwrap();
    let name = RoomName::parse("lobby").unwrap();
    let first = get_message_updates(&mut store, &session, &name, 500).unwrap();
    assert_eq!(first.messages.len(), 1);

    // The room is deleted and recreated under the same name at t=800.
    assert_eq!(delete_room(&mut store, &name), "Room lobby deleted successfully.");
    Room::create_room(&mut store, "lobby".to_string(), hash_password("pw"), 800).unwrap();

    // Deleting the room removed the session's attempt and checkpoint rows.
    assert!(session.get_room_attempt(&store, "lobby").is_err());
    assert!(session.get_room_update(&store, "lobby").is_err());

    // After logging in again, the first poll of the recreated room demands
    // a reset (checkpoint 0 <= creation 800) and sees no old messages.
    let login = RoomLogin { name: "lobby".to_string(), password: "pw".to_string() };
    enter_room(&mut store, &session, &login).unwrap();
    let fresh = get_message_updates(&mut store, &session, &name, 900).unwrap();
    assert!(fresh.clean_stored);
    assert!(fresh.messages.is_empty());
}

#[test]
fn checkpoints_never_decrease_across_polls() {
    let mut store = store_with_room("lobby", "pw", 100);
    let session = entered_session(&mut store, "lobby", "pw", 10);
    let name = RoomName::parse("lobby").unwrap();
    let mut last: i64 = 0;
    for now in [500i64, 500, 650, 700] {
        get_message_updates(&mut store, &session, &name, now).unwrap();
        let checkpoint = session.get_room_update(&store, "lobby").unwrap();
        assert!(checkpoint >= last);
        last = checkpoint;
    }
    assert_eq!(last, 700);
}

#[test]
fn post_validates_and_stores_sanitized_content() {
    let mut store = store_with_room("lobby", "pw", 100);
    let session = entered_session(&mut store, "lobby", "pw", 10);
    let name = RoomName::parse("lobby").unwrap();

    let empty = MessageJson { content: String::new(), reply_to: None };
    assert_eq!(post(&mut store, &session, &name, empty, 200).unwrap(), "Your message cannot be empty.");

    let long = MessageJson { content: "x".repeat(2049), reply_to: None };
    assert_eq!(post(&mut store, &session, &name, long, 200).unwrap(), "Your message is too long.");

    let good = MessageJson { content: "*hi*".to_string(), reply_to: None };
    assert_eq!(post(&mut store, &session, &name, good, 200).unwrap(), "Your message has been saved.");

    let updates = get_message_updates(&mut store, &session, &name, 300).unwrap();
    assert_eq!(updates.messages.len(), 1);
    assert_eq!(updates.messages[0].content, "<p><em>hi</em></p>\n");
    assert_eq!(updates.messages[0].timestamp, 200);
    assert_eq!(updates.messages[0].author.as_deref(), Some(session.id().as_str()));
}

#[test]
fn post_and_poll_require_authorization() {
    let mut store = store_with_room("lobby", "pw", 100);
    let id = Session::start_new(&mut store, 10).unwrap();
    let outsider = Session::from_db(&store, &id).unwrap();
    let name = RoomName::parse("lobby").unwrap();

    let message = MessageJson { content: "hi".to_string(), reply_to: None };
    assert!(matches!(
        post(&mut store, &outsider, &name, message, 200),
        Err(ApiError::Unauthorized)
    ));
    assert!(matches!(
        get_message_updates(&mut store, &outsider, &name, 200),
        Err(ApiError::Unauthorized)
    ));
}

#[test]
fn create_room_handler_validates_input() {
    let mut store = DbInitFairing::init_db();
    let bad_name = RoomLogin { name: "two words".to_string(), password: "pw".to_string() };
    assert_eq!(create_room(&mut store, &bad_name, 100), "The room name contains invalid characters.");

    let long_name = RoomLogin { name: "x".repeat(129), password: "pw".to_string() };
    assert_eq!(create_room(&mut store, &long_name, 100), "The room name is too long.");

    let no_name = RoomLogin { name: String::new(), password: "pw".to_string() };
    assert_eq!(create_room(&mut store, &no_name, 100), "The room name cannot be empty.");

    let no_password = RoomLogin { name: "lobby".to_string(), password: String::new() };
    assert_eq!(create_room(&mut store, &no_password, 100), "The password cannot be empty.");

    let good = RoomLogin { name: "lobby".to_string(), password: "pw".to_string() };
    assert_eq!(create_room(&mut store, &good, 100), "Created room lobby.");
    assert_eq!(create_room(&mut store, &good, 200), "Could not create the room.");
}

#[test]
fn change_room_password_requires_a_password() {
    let mut store = store_with_room("lobby", "pw", 100);
    let empty = RoomLogin { name: "lobby".to_string(), password: String::new() };
    assert_eq!(change_room_password(&mut store, &empty), "The password cannot be empty.");
    let room = Room::from_db(&store, "lobby").unwrap();
    assert!(room.valid_password(&hash_password("pw")));
}

#[test]
fn welcome_message_roundtrip() {
    let mut store = DbInitFairing::init_db();
    assert_eq!(WelcomeMessage::from_db(&store).0, "");

    let message = WelcomeMessage::from_data("<b>hi</b><script>x</script>".to_string());
    assert!(!message.0.contains("script"));
    message.save_to_db(&mut store).unwrap();
    assert_eq!(WelcomeMessage::from_db(&store).0, message.0);
}

#[test]
fn admin_pane_denial_message() {
    assert_eq!(admin_pane_for_non_admin(), "You do not have permission to access this page.");
}
