use fivef::auth::{decrpyct_ucode, generate_user_auth, user_registration_reply};

#[test]
fn code_for_odd_length_name() {
    assert_eq!(generate_user_auth("alice".to_string()), "al-alice-ice");
}

#[test]
fn code_for_even_length_name() {
    assert_eq!(generate_user_auth("bobby1".to_string()), "bob-bobby1-by1");
}

#[test]
fn code_for_empty_name() {
    assert_eq!(generate_user_auth(String::new()), "--");
}

#[test]
fn code_for_multibyte_name() {
    assert_eq!(generate_user_auth("äöü".to_string()), "ä-äöü-öü");
}

#[test]
fn decode_accepts_issued_code() {
    assert_eq!(decrpyct_ucode("al-alice-ice".to_string()), (true, "alice".to_string()));
}

#[test]
fn decode_rejects_mismatched_middle() {
    assert_eq!(decrpyct_ucode("al-bob-ice".to_string()), (false, String::new()));
}

#[test]
fn decode_two_pieces() {
    // "a-b" splits into "a" and "b": the claimed name "ab" is not "b".
    assert_eq!(decrpyct_ucode("a-b".to_string()), (false, String::new()));
    // "-b" splits into "" and "b": the claimed name "b" is the second piece.
    assert_eq!(decrpyct_ucode("-b".to_string()), (true, "b".to_string()));
}

#[test]
fn decode_lone_dash_is_empty_name() {
    assert_eq!(decrpyct_ucode("-".to_string()), (true, String::new()));
}

#[test]
fn decode_uses_first_and_last_pieces() {
    // pieces: "x", "xz", "q", "z": claimed name "xz" equals the second piece.
    assert_eq!(decrpyct_ucode("x-xz-q-z".to_string()), (true, "xz".to_string()));
}

#[test]
fn round_trip_for_plain_names() {
    for name in ["", "a", "ab", "alice", "Bob Smith", "äöü", "名前です", "x_y.z"] {
        let code = generate_user_auth(name.to_string());
        assert_eq!(decrpyct_ucode(code), (true, name.to_string()), "name {name:?}");
    }
}

#[test]
fn round_trip_fails_for_dashed_name() {
    let code = generate_user_auth("a-b".to_string());
    assert_eq!(code, "a-a-b--b");
    assert_eq!(decrpyct_ucode(code), (false, String::new()));
}

#[test]
fn registration_always_accepted() {
    assert_eq!(user_registration_reply("bob"), (true, "b-bob-ob".to_string()));
    assert_eq!(user_registration_reply("ab"), (true, "a-ab-b".to_string()));
    let long = "abcdefghijklmnopqrstuvwxyz";
    assert_eq!(user_registration_reply(long), (true, generate_user_auth(long.to_string())));
}
