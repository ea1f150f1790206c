use fivef::auth::generate_user_auth;
use fivef::sessions::SessionTable;

const ID: u128 = 0x550e8400e29b41d4a716446655440000;
const ID_TEXT: &str = "550e8400-e29b-41d4-a716-446655440000";

#[test]
fn sign_in_binds_connected_client() {
    let mut table = SessionTable::new();
    table.register(ID);
    assert!(!table.is_bound(ID_TEXT, "alice"));
    assert!(table.is_bound(ID_TEXT, ""));
    let code = generate_user_auth("alice".to_string());
    assert_eq!(table.sign_in(ID_TEXT, &code), Some((true, "alice".to_string())));
    assert!(table.is_bound(ID_TEXT, "alice"));
    assert!(!table.is_bound(ID_TEXT, "bob"));
}

#[test]
fn sign_in_accepts_other_uuid_spellings() {
    let mut table = SessionTable::new();
    table.register(ID);
    let code = generate_user_auth("carol".to_string());
    assert_eq!(
        table.sign_in("550E8400E29B41D4A716446655440000", &code),
        Some((true, "carol".to_string()))
    );
    assert!(table.is_bound("{550e8400-e29b-41d4-a716-446655440000}", "carol"));
}

#[test]
fn sign_in_rejected_code_keeps_name() {
    let mut table = SessionTable::new();
    table.register(ID);
    assert_eq!(table.sign_in(ID_TEXT, "al-bob-ice"), Some((false, String::new())));
    assert!(table.is_bound(ID_TEXT, ""));
}

#[test]
fn sign_in_unknown_client_changes_nothing() {
    let mut table = SessionTable::new();
    let code = generate_user_auth("dave".to_string());
    assert_eq!(table.sign_in(ID_TEXT, &code), Some((true, "dave".to_string())));
    assert!(!table.is_bound(ID_TEXT, "dave"));
}

#[test]
fn sign_in_with_bad_id_text() {
    let mut table = SessionTable::new();
    table.register(ID);
    assert_eq!(table.sign_in("not-a-uuid", "al-alice-ice"), Some((false, String::new())));
    // Without a dash the code cannot be checked, but a bad id comes first.
    assert_eq!(table.sign_in("not-a-uuid", "nodash"), Some((false, String::new())));
    assert!(!table.is_bound("not-a-uuid", ""));
}

#[test]
fn sign_in_with_undecodable_code() {
    let mut table = SessionTable::new();
    table.register(ID);
    assert_eq!(table.sign_in(ID_TEXT, "nodash"), None);
    assert!(table.is_bound(ID_TEXT, ""));
}

#[test]
fn disconnect_unbinds() {
    let mut table = SessionTable::new();
    table.register(ID);
    let code = generate_user_auth("erin".to_string());
    table.sign_in(ID_TEXT, &code);
    table.disconnect(ID);
    assert!(!table.is_bound(ID_TEXT, "erin"));
    assert!(!table.is_bound(ID_TEXT, ""));
}

#[test]
fn connect_gives_fresh_anonymous_clients() {
    let mut table = SessionTable::new();
    let a = table.connect();
    let b = table.connect();
    assert_ne!(a, b);
    let a_text = uuid::Uuid::from_u128(a).to_string();
    assert!(table.is_bound(&a_text, ""));
}

#[test]
fn reconnect_resets_name() {
    let mut table = SessionTable::new();
    table.register(ID);
    table.sign_in(ID_TEXT, &generate_user_auth("fay".to_string()));
    table.register(ID);
    assert!(table.is_bound(ID_TEXT, ""));
}

#[test]
fn connect_draws_version_4_ids() {
    let mut table = SessionTable::new();
    for _ in 0..8 {
        let id = table.connect();
        assert_eq!((id >> 76) & 0xf, 4);
        assert_eq!((id >> 62) & 0x3, 2);
        assert_eq!(uuid::Uuid::from_u128(id).get_version_num(), 4);
    }
}

#[test]
fn connected_client_signs_in_with_its_id_text() {
    let mut table = SessionTable::new();
    let id = table.connect();
    let text = uuid::Uuid::from_u128(id).to_string();
    let code = generate_user_auth("iris".to_string());
    assert_eq!(table.sign_in(&text, &code), Some((true, "iris".to_string())));
    assert!(table.is_bound(&text, "iris"));
}
