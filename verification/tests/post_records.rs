use fivef::posts::{listed_post, posts_query, shared_post, PostFields, PostKey, PostRow};

fn row() -> PostRow {
    PostRow {
        title: "Hello".to_string(),
        text: "First post".to_string(),
        thumbs_up: 3,
        thumbs_down: -2,
        created_at: "2024-01-01T00:00:00Z".to_string(),
        tag: "intro".to_string(),
        username: "alice".to_string(),
    }
}

#[test]
fn key_names() {
    let names: Vec<&str> = [
        PostKey::Title, PostKey::Text, PostKey::ThumbsUp, PostKey::ThumbsDown,
        PostKey::CreatedAt, PostKey::Tag, PostKey::Username, PostKey::Id,
    ]
    .iter()
    .map(|k| k.name())
    .collect();
    assert_eq!(names, ["title", "text", "tUp", "tDown", "cAt", "tag", "username", "id"]);
}

#[test]
fn listed_row_has_all_fields() {
    let fields = listed_post(Some((row(), 17)));
    let entries: Vec<(&str, String)> = fields.entries().into_iter().map(|(k, v)| (k.name(), v)).collect();
    assert_eq!(
        entries,
        vec![
            ("title", "Hello".to_string()),
            ("text", "First post".to_string()),
            ("tUp", "3".to_string()),
            ("tDown", "-2".to_string()),
            ("cAt", "2024-01-01T00:00:00Z".to_string()),
            ("tag", "intro".to_string()),
            ("username", "alice".to_string()),
            ("id", "17".to_string()),
        ]
    );
}

#[test]
fn unreadable_row_has_no_fields() {
    let fields = listed_post(None);
    assert!(fields.entries().is_empty());
    assert_eq!(fields.field_or_empty(PostKey::Title), "");
    assert_eq!(fields.get(PostKey::Id), None);
}

#[test]
fn shared_found_post_has_no_id() {
    let fields = shared_post(Some(row()), "2030-01-01T00:00:00Z");
    assert_eq!(fields.get(PostKey::Id), None);
    assert_eq!(fields.field_or_empty(PostKey::Username), "alice");
    assert_eq!(fields.entries().len(), 7);
}

#[test]
fn shared_missing_post_stand_in() {
    let fields = shared_post(None, "2030-01-01T00:00:00Z");
    assert_eq!(fields.field_or_empty(PostKey::Title), "Post was not found!");
    assert_eq!(fields.field_or_empty(PostKey::Text), "Womp womp :((");
    assert_eq!(fields.field_or_empty(PostKey::ThumbsUp), "0");
    assert_eq!(fields.field_or_empty(PostKey::ThumbsDown), "0");
    assert_eq!(fields.field_or_empty(PostKey::CreatedAt), "2030-01-01T00:00:00Z");
    assert_eq!(fields.field_or_empty(PostKey::Tag), "unlucky");
    assert_eq!(fields.field_or_empty(PostKey::Username), "mr.nobody");
    assert_eq!(fields.get(PostKey::Id), None);
}

#[test]
fn insert_replaces_field() {
    let mut fields = PostFields::new();
    fields.insert(PostKey::Tag, "a".to_string());
    fields.insert(PostKey::Tag, "b".to_string());
    assert_eq!(fields.get(PostKey::Tag), Some(&"b".to_string()));
    assert_eq!(fields.entries().len(), 1);
}

#[test]
fn listing_queries() {
    let newest = "SELECT post_title, post_text, tUp, tDown, cAt, tag, username, id FROM posts ORDER BY id DESC LIMIT 10 OFFSET ?";
    assert_eq!(posts_query(0), newest);
    assert_eq!(posts_query(5), newest);
    assert_eq!(posts_query(-1), newest);
    assert!(posts_query(1).contains("ORDER BY (tUp - tDown) DESC"));
    assert!(posts_query(2).contains("WHERE cAt >= datetime('now', '-1 day') ORDER BY tUp DESC"));
}

#[test]
fn new_post_has_no_votes() {
    let row = fivef::posts::new_post_row(
        "T".to_string(),
        "body".to_string(),
        "misc".to_string(),
        "ann".to_string(),
        "2024-05-05T10:00:00Z".to_string(),
    );
    assert_eq!((row.thumbs_up, row.thumbs_down), (0, 0));
    assert_eq!(row.title, "T");
    assert_eq!(row.text, "body");
    assert_eq!(row.tag, "misc");
    assert_eq!(row.username, "ann");
    assert_eq!(row.created_at, "2024-05-05T10:00:00Z");
}
