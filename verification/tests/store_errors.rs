use forum_core::db::DbInitFairing;
use forum_core::db::Error;
use forum_core::messages::Message;
use forum_core::rooms::Room;
use forum_core::rooms::hash_password;
use forum_core::sessions::Session;
use forum_core::sessions::SessionFairing;
use forum_core::sessions::TIMEOUT_SECS;

#[test]
fn duplicate_room_name_is_rejected() {
    let mut store = DbInitFairing::init_db();
    Room::create_room(&mut store, "lobby".to_string(), hash_password("a"), 100).unwrap();
    assert!(matches!(
        Room::create_room(&mut store, "lobby".to_string(), hash_password("b"), 200),
        Err(Error::Duplicate)
    ));
}

#[test]
fn duplicate_admin_is_rejected() {
    let mut store = DbInitFairing::init_db();
    store.add_admin("root".to_string(), hash_password("a")).unwrap();
    assert!(matches!(
        store.add_admin("root".to_string(), hash_password("b")),
        Err(Error::Duplicate)
    ));
}

#[test]
fn attempts_require_a_live_session_and_room() {
    let mut store = DbInitFairing::init_db();
    Room::create_room(&mut store, "lobby".to_string(), hash_password("pw"), 100).unwrap();
    let id = Session::start_new(&mut store, 10).unwrap();
    let session = Session::from_db(&store, &id).unwrap();

    // The room does not exist: the write is refused.
    assert!(matches!(
        session.save_room_attempt(&mut store, "nowhere", &hash_password("pw")),
        Err(Error::ForeignKey)
    ));
    assert!(matches!(
        session.save_room_update(&mut store, "nowhere", 5),
        Err(Error::ForeignKey)
    ));

    // The session was reclaimed: the write is refused too.
    SessionFairing::delete_old(&mut store, 10 + TIMEOUT_SECS + 1, TIMEOUT_SECS);
    assert!(matches!(
        session.save_room_attempt(&mut store, "lobby", &hash_password("pw")),
        Err(Error::ForeignKey)
    ));
    assert!(matches!(
        session.save_room_update(&mut store, "lobby", 5),
        Err(Error::ForeignKey)
    ));
}

#[test]
fn exhausted_table_counter_is_reported() {
    let mut store = DbInitFairing::init_db();
    store.next_table_id = i32::MAX;
    assert!(matches!(
        Room::create_room(&mut store, "lobby".to_string(), hash_password("pw"), 100),
        Err(Error::Full)
    ));
}

#[test]
fn reading_a_missing_table_is_no_data() {
    let store = DbInitFairing::init_db();
    assert!(matches!(Message::get_between(&store, 7, 0, 100), Err(Error::NoData)));
    let mut store = DbInitFairing::init_db();
    assert!(matches!(
        Message::add(&mut store, 7, "hi".to_string(), "who".to_string(), None, 5),
        Err(Error::NoData)
    ));
}
