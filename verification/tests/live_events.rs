use fivef::auth::generate_user_auth;
use fivef::events::{event_for_client, new_post_message, new_post_plan};
use fivef::sessions::SessionTable;

const ID: u128 = 0x550e8400e29b41d4a716446655440000;
const ID_TEXT: &str = "550e8400-e29b-41d4-a716-446655440000";
const OTHER: u128 = 0x0123456789abcdef0123456789abcdef;

#[test]
fn message_format() {
    assert_eq!(new_post_message("abc"), "abc:new_post");
    assert_eq!(new_post_message(ID_TEXT), format!("{}:{}", ID_TEXT, "new_post"));
}

#[test]
fn author_gets_no_event() {
    assert_eq!(event_for_client(&new_post_message(ID_TEXT), ID), None);
}

#[test]
fn others_get_new_post() {
    assert_eq!(event_for_client(&new_post_message(ID_TEXT), OTHER), Some("new_post".to_string()));
}

#[test]
fn id_text_compared_in_lower_case() {
    let upper = ID_TEXT.to_uppercase();
    assert_eq!(event_for_client(&new_post_message(&upper), ID), Some("new_post".to_string()));
    let other_text = uuid::Uuid::from_u128(OTHER).to_string();
    assert_eq!(other_text, "01234567-89ab-cdef-0123-456789abcdef");
    assert_eq!(event_for_client(&format!("{other_text}:x"), OTHER), None);
}

#[test]
fn message_without_colon() {
    assert_eq!(event_for_client("hello", ID), Some(String::new()));
    assert_eq!(event_for_client(ID_TEXT, ID), None);
}

#[test]
fn payload_keeps_later_colons() {
    assert_eq!(event_for_client("a:b:c", ID), Some("b:c".to_string()));
}

#[test]
fn post_plan_needs_signed_in_author() {
    let mut table = SessionTable::new();
    table.register(ID);
    assert_eq!(new_post_plan(&table, ID_TEXT, "gus"), None);
    table.sign_in(ID_TEXT, &generate_user_auth("gus".to_string()));
    assert_eq!(new_post_plan(&table, ID_TEXT, "gus"), Some(format!("{ID_TEXT}:new_post")));
    assert_eq!(new_post_plan(&table, ID_TEXT, "hal"), None);
    assert_eq!(new_post_plan(&table, "junk", "gus"), None);
}
