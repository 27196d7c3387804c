use forum_core::admins::AdminLogin;
use forum_core::constraints::RoomName;
use forum_core::db::DbInitFairing;
use forum_core::db::Error;
use forum_core::handlers::admin_login;
use forum_core::handlers::enter_room;
use forum_core::handlers::get_message_updates;
use forum_core::rooms::Room;
use forum_core::rooms::RoomLogin;
use forum_core::rooms::hash_password;
use forum_core::sessions::Session;
use forum_core::sessions::SessionFairing;
use forum_core::sessions::SessionOutcome;
use forum_core::sessions::TIMEOUT_SECS;
use forum_core::sessions::resolve_or_issue;

#[test]
fn start_new_issues_resolvable_session() {
    let mut store = DbInitFairing::init_db();
    let id = Session::start_new(&mut store, 1000).expect("could not start a session");
    assert_eq!(id.len(), 64);
    assert!(id.chars().all(|c| c.is_ascii_alphanumeric()));
    assert_eq!(Session::count_sessions(&store), 1);

    let session = Session::from_db(&store, &id).expect("fresh session not found");
    assert_eq!(session.id(), id);
    assert!(!session.is_admin());
}

#[test]
fn insert_new_is_decided_by_the_primary_key() {
    let mut store = DbInitFairing::init_db();
    // On a store without sessions the insert always succeeds.
    Session::insert_new(&mut store, "tok".to_string(), 10).unwrap();
    let session = Session::from_db(&store, "tok").unwrap();
    assert_eq!(session.last_update, 10);
    assert!(!session.is_admin());
    // A second insert under the same id collides instead of overwriting.
    assert!(matches!(
        Session::insert_new(&mut store, "tok".to_string(), 20),
        Err(Error::Duplicate)
    ));
    assert_eq!(Session::from_db(&store, "tok").unwrap().last_update, 10);
}

#[test]
fn unknown_token_is_not_found() {
    let store = DbInitFairing::init_db();
    assert!(matches!(Session::from_db(&store, "nosuchtoken"), Err(Error::NoData)));
}

#[test]
fn resolve_or_issue_issues_without_token() {
    let mut store = DbInitFairing::init_db();
    match resolve_or_issue(&mut store, None, 50) {
        SessionOutcome::Issued(id) => {
            assert_eq!(id.len(), 64);
            assert!(Session::from_db(&store, &id).is_ok());
        }
        _ => panic!("expected a fresh session"),
    }
}

#[test]
fn resolve_or_issue_keeps_live_sessions_alive() {
    let mut store = DbInitFairing::init_db();
    let id = Session::start_new(&mut store, 10).unwrap();
    match resolve_or_issue(&mut store, Some(&id), 20) {
        SessionOutcome::Resolved(session) => {
            assert_eq!(session.id(), id);
            assert_eq!(session.last_update, 20);
        }
        _ => panic!("expected the session to resolve"),
    }
    let reread = Session::from_db(&store, &id).unwrap();
    assert_eq!(reread.last_update, 20);
}

#[test]
fn resolve_or_issue_reports_expired_tokens() {
    let mut store = DbInitFairing::init_db();
    let before = Session::count_sessions(&store);
    match resolve_or_issue(&mut store, Some("staletoken"), 20) {
        SessionOutcome::Expired => {}
        _ => panic!("expected an expired-session signal"),
    }
    // No silent replacement session is issued.
    assert_eq!(Session::count_sessions(&store), before);
}

#[test]
fn sweep_deletes_only_sessions_past_the_timeout() {
    let mut store = DbInitFairing::init_db();
    let now: i64 = 1_000_000;
    let stale = Session::start_new(&mut store, now - TIMEOUT_SECS - 1).unwrap();
    let fresh = Session::start_new(&mut store, now - TIMEOUT_SECS + 1).unwrap();

    SessionFairing::delete_old(&mut store, now, TIMEOUT_SECS);

    assert!(matches!(Session::from_db(&store, &stale), Err(Error::NoData)));
    assert!(Session::from_db(&store, &fresh).is_ok());
    assert_eq!(Session::count_sessions(&store), 1);
}

#[test]
fn sweep_cascades_to_attempts_and_checkpoints() {
    let mut store = DbInitFairing::init_db();
    Room::create_room(&mut store, "den".to_string(), hash_password("pw"), 100).unwrap();

    let now: i64 = 1_000_000;
    let id = Session::start_new(&mut store, now - TIMEOUT_SECS - 5).unwrap();
    let session = Session::from_db(&store, &id).unwrap();
    session.save_room_attempt(&mut store, "den", &hash_password("pw")).unwrap();
    session.save_room_update(&mut store, "den", 500).unwrap();
    assert!(session.get_room_attempt(&store, "den").is_ok());
    assert!(session.get_room_update(&store, "den").is_ok());

    SessionFairing::delete_old(&mut store, now, TIMEOUT_SECS);

    assert!(matches!(Session::from_db(&store, &id), Err(Error::NoData)));
    assert!(matches!(session.get_room_attempt(&store, "den"), Err(Error::NoData)));
    assert!(matches!(session.get_room_update(&store, "den"), Err(Error::NoData)));
}

#[test]
fn sweep_forgets_authors_of_reclaimed_sessions() {
    let mut store = DbInitFairing::init_db();
    Room::create_room(&mut store, "den".to_string(), hash_password("pw"), 100).unwrap();

    let now: i64 = 1_000_000;
    let poster_id = Session::start_new(&mut store, now - TIMEOUT_SECS - 5).unwrap();
    let poster = Session::from_db(&store, &poster_id).unwrap();
    let room = Room::from_db(&store, "den").unwrap();
    room.add_message(&mut store, "hi".to_string(), poster.id(), None, 500).unwrap();

    SessionFairing::delete_old(&mut store, now, TIMEOUT_SECS);

    let reader_id = Session::start_new(&mut store, now).unwrap();
    let reader = Session::from_db(&store, &reader_id).unwrap();
    let login = RoomLogin { name: "den".to_string(), password: "pw".to_string() };
    enter_room(&mut store, &reader, &login).unwrap();
    let name = RoomName::parse("den").unwrap();
    let updates = get_message_updates(&mut store, &reader, &name, now).unwrap();
    assert_eq!(updates.messages.len(), 1);
    // The message survived its author's session, but forgot the author.
    assert_eq!(updates.messages[0].author, None);
    assert_eq!(updates.messages[0].content, "<p>hi</p>\n");
}

#[test]
fn sweep_sleep_is_self_correcting() {
    assert_eq!(SessionFairing::sweep_sleep_secs(300, 20), 280);
    assert_eq!(SessionFairing::sweep_sleep_secs(300, 300), 0);
    assert_eq!(SessionFairing::sweep_sleep_secs(300, 500), 0);
}

#[test]
fn keep_alive_survives_missing_rows() {
    let mut store = DbInitFairing::init_db();
    let id = Session::start_new(&mut store, 10).unwrap();
    let mut session = Session::from_db(&store, &id).unwrap();
    SessionFairing::delete_old(&mut store, 10 + TIMEOUT_SECS + 1, TIMEOUT_SECS);
    // The row is gone; keeping the session alive is a harmless no-op.
    assert!(session.keep_alive(&mut store, 20).is_ok());
    assert_eq!(Session::count_sessions(&store), 0);
}

#[test]
fn admin_login_elevates_only_with_valid_credentials() {
    let mut store = DbInitFairing::init_db();
    store.add_admin("root".to_string(), hash_password("hunter2")).unwrap();

    let id = Session::start_new(&mut store, 10).unwrap();
    let mut session = Session::from_db(&store, &id).unwrap();

    let bad = AdminLogin { username: "root".to_string(), password: "wrong".to_string() };
    assert_eq!(admin_login(&mut store, &mut session, &bad).unwrap_err(), "Your credentials are invalid.");
    assert!(!session.is_admin());

    let unknown = AdminLogin { username: "nobody".to_string(), password: "hunter2".to_string() };
    assert!(admin_login(&mut store, &mut session, &unknown).is_err());

    let good = AdminLogin { username: "root".to_string(), password: "hunter2".to_string() };
    assert!(admin_login(&mut store, &mut session, &good).is_ok());
    assert!(session.is_admin());
    assert!(Session::from_db(&store, &id).unwrap().is_admin());
}

#[test]
fn is_valid_checks_the_stored_hash() {
    let mut store = DbInitFairing::init_db();
    store.add_admin("root".to_string(), hash_password("hunter2")).unwrap();
    let good = AdminLogin { username: "root".to_string(), password: "hunter2".to_string() };
    assert_eq!(good.is_valid(&store).unwrap(), true);
    let bad = AdminLogin { username: "root".to_string(), password: "x".to_string() };
    assert_eq!(bad.is_valid(&store).unwrap(), false);
    let unknown = AdminLogin { username: "who".to_string(), password: "hunter2".to_string() };
    assert!(matches!(unknown.is_valid(&store), Err(Error::NoData)));
}
