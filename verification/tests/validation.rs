use forum_core::constraints::MAX_ROOM_NAME_LEN;
use forum_core::constraints::RoomName;
use forum_core::messages::prepare_for_storage;
use forum_core::rooms::hash_password;

#[test]
fn room_name_accepts_valid_names() {
    let name = RoomName::parse("lobby_2-b").expect("valid name rejected");
    assert_eq!(name.0, "lobby_2-b");
}

#[test]
fn room_name_accepts_maximum_length() {
    let name: String = std::iter::repeat('a').take(MAX_ROOM_NAME_LEN).collect();
    assert!(RoomName::parse(&name).is_ok());
}

fn parse_error(name: &str) -> String {
    match RoomName::parse(name) {
        Ok(_) => panic!("invalid name accepted"),
        Err(reason) => reason,
    }
}

#[test]
fn room_name_rejects_empty() {
    assert_eq!(parse_error(""), "The room name cannot be empty.");
}

#[test]
fn room_name_rejects_over_length() {
    let name: String = std::iter::repeat('a').take(MAX_ROOM_NAME_LEN + 1).collect();
    assert_eq!(parse_error(&name), "The room name is too long.");
}

#[test]
fn room_name_rejects_invalid_characters() {
    assert_eq!(parse_error("two words"), "The room name contains invalid characters.");
    assert!(RoomName::parse("caf\u{e9}").is_err());
    assert!(RoomName::parse("semi;colon").is_err());
}

#[test]
fn hash_password_is_sha256_hex() {
    assert_eq!(
        hash_password(""),
        "e3b0c44298fc1c149afbf4c8996fb92427ae41e4649b934ca495991b7852b855"
    );
    assert_eq!(
        hash_password("abc"),
        "ba7816bf8f01cfea414140de5dae2223b00361a396177a9cb410ff61f20015ad"
    );
    assert_ne!(hash_password("abc"), hash_password("abd"));
}

#[test]
fn prepare_for_storage_renders_markdown() {
    let mut message = String::from("hello");
    prepare_for_storage(&mut message);
    assert_eq!(message, "<p>hello</p>\n");

    let mut heading = String::from("# Title");
    prepare_for_storage(&mut heading);
    assert_eq!(heading, "<h1>Title</h1>\n");
}

#[test]
fn prepare_for_storage_sanitizes_html() {
    let mut message = String::from("<script>alert('x')</script>ok");
    prepare_for_storage(&mut message);
    assert!(!message.contains("<script>"));
    assert!(message.contains("ok"));
}
