use fivef::age::{post_age_text, time_ago_string};

#[test]
fn just_now_under_a_minute() {
    assert_eq!(time_ago_string(0), "just now");
    assert_eq!(time_ago_string(59), "just now");
    assert_eq!(time_ago_string(-100), "just now");
    assert_eq!(time_ago_string(i64::MIN), "just now");
}

#[test]
fn minutes_hours_days() {
    assert_eq!(time_ago_string(60), "1 minutes ago");
    assert_eq!(time_ago_string(3599), "59 minutes ago");
    assert_eq!(time_ago_string(3600), "1 hours ago");
    assert_eq!(time_ago_string(86399), "23 hours ago");
    assert_eq!(time_ago_string(86400), "1 days ago");
    assert_eq!(time_ago_string(200000), "2 days ago");
}

#[test]
fn age_of_stored_timestamp() {
    // 2024-01-01T00:00:00Z is 1704067200 seconds after the epoch.
    assert_eq!(post_age_text("2024-01-01T00:00:00Z", 1704067200 + 125, 0), Some("2 minutes ago".to_string()));
    assert_eq!(post_age_text("2024-01-01T02:00:00+02:00", 1704067200 + 30, 0), Some("just now".to_string()));
    assert_eq!(post_age_text("2023-12-29T00:00:00Z", 1704067200, 5), Some("3 days ago".to_string()));
}

#[test]
fn age_of_unreadable_timestamp() {
    assert_eq!(post_age_text("", 1704067200, 0), None);
    assert_eq!(post_age_text("yesterday", 1704067200, 0), None);
}
