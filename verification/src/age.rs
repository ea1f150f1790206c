//! How long ago a post was made, as shown above each post.

use vstd::prelude::*;

use crate::numbers::{decimal_of, decimal_text};
use vstd::arithmetic::div_mod::lemma_fundamental_div_mod;

verus! {

/// Whole `unit`s in `secs` seconds, rounded toward zero, as `chrono`'s
/// `TimeDelta::num_minutes`, `num_hours` and `num_days` count them.
pub open spec fn whole_units(secs: int, unit: int) -> int {
    if secs >= 0 {
        secs / unit
    } else {
        -((-secs) / unit)
    }
}

/// The age text for a post made `secs` seconds ago: `just now` under a whole
/// minute, then whole minutes under an hour, whole hours under a day, and
/// whole days beyond.
pub open spec fn time_ago_of(secs: int) -> Seq<char> {
    if whole_units(secs, 60) < 1 {
        "just now"@
    } else if whole_units(secs, 3600) < 1 {
        decimal_of(whole_units(secs, 60)) + " minutes ago"@
    } else if whole_units(secs, 86400) < 1 {
        decimal_of(whole_units(secs, 3600)) + " hours ago"@
    } else {
        decimal_of(whole_units(secs, 86400)) + " days ago"@
    }
}

/// Seconds elapsed, rounded toward zero, from the instant that the RFC 3339
/// text denotes to the instant `now_secs` seconds and `now_nanos` nanoseconds
/// after the Unix epoch; none when the text is not RFC 3339 or `now` lies
/// outside `chrono`'s range.
pub uninterp spec fn rfc3339_elapsed(text: Seq<char>, now_secs: i64, now_nanos: u32) -> Option<
    i64,
>;

/// Calls `chrono::DateTime::parse_from_rfc3339` on `text` and
/// `DateTime::<Utc>::from_timestamp` on `now`, subtracts the first from the
/// second and counts whole seconds (`TimeDelta::num_seconds`). Trusted: the
/// result is `rfc3339_elapsed` of the arguments; how `chrono` parses and how
/// it counts across leap seconds is not spelled out here.
#[verifier::external_body]
fn seconds_since_rfc3339(text: &str, now_secs: i64, now_nanos: u32) -> (r: Option<i64>)
    ensures
        r == rfc3339_elapsed(text@, now_secs, now_nanos),
{
    let now = match chrono::DateTime::from_timestamp(now_secs, now_nanos) {
        Some(now) => now,
        None => return None,
    };
    match chrono::DateTime::parse_from_rfc3339(text) {
        Ok(then) => Some((now - then.with_timezone(&chrono::Utc)).num_seconds()),
        Err(_) => None,
    }
}

/// The age text for a post made `diff_secs` whole seconds ago (see
/// `time_ago_of`).
pub fn time_ago_string(diff_secs: i64) -> (r: String)
    ensures
        r@ == time_ago_of(diff_secs as int),
{
    if diff_secs < 60 {
        return "just now".to_owned();
    }
    let (count, unit) = if diff_secs < 3600 {
        (diff_secs / 60, " minutes ago")
    } else if diff_secs < 86400 {
        (diff_secs / 3600, " hours ago")
    } else {
        (diff_secs / 86400, " days ago")
    };
    let mut text = decimal_text(count);
    text.append(unit);
    text
}

/// The age text for a post created at the RFC 3339 instant `created_at`, seen
/// at `now` (seconds and nanoseconds after the Unix epoch); none when the
/// instant cannot be read.
pub fn post_age_text(created_at: &str, now_secs: i64, now_nanos: u32) -> (r: Option<String>)
    ensures
        match r {
            Some(text) => rfc3339_elapsed(created_at@, now_secs, now_nanos) matches Some(secs)
                && text@ == time_ago_of(secs as int),
            None => rfc3339_elapsed(created_at@, now_secs, now_nanos) is None,
        },
{
    match seconds_since_rfc3339(created_at, now_secs, now_nanos) {
        Some(secs) => Some(time_ago_string(secs)),
        None => None,
    }
}

/// The age text names the whole number of minutes, hours or days the age
/// holds: under a minute (or in the future) it is `just now`; otherwise it is
/// `n` units ago for the largest unit under which the age is at least one, with
/// `n` units at most the age and `n + 1` units more than it.
pub proof fn lemma_age_text_counts_whole_units(secs: int)
    ensures
        secs < 60 ==> time_ago_of(secs) == "just now"@,
        60 <= secs < 3600 ==> exists|n: int|
            1 <= n && n * 60 <= secs < (n + 1) * 60 && time_ago_of(secs) == #[trigger] decimal_of(n)
                + " minutes ago"@,
        3600 <= secs < 86400 ==> exists|n: int|
            1 <= n && n * 3600 <= secs < (n + 1) * 3600 && time_ago_of(secs) == #[trigger] decimal_of(
                n,
            ) + " hours ago"@,
        86400 <= secs ==> exists|n: int|
            1 <= n && n * 86400 <= secs < (n + 1) * 86400 && time_ago_of(secs)
                == #[trigger] decimal_of(n) + " days ago"@,
{
    if secs < 0 {
        assert((-secs) / 60 >= 0);
    }
    if secs >= 60 {
        lemma_fundamental_div_mod(secs, 60);
        lemma_fundamental_div_mod(secs, 3600);
        lemma_fundamental_div_mod(secs, 86400);
        if secs < 3600 {
            let n = secs / 60;
            assert(decimal_of(n) == decimal_of(n));
        } else if secs < 86400 {
            let n = secs / 3600;
            assert(decimal_of(n) == decimal_of(n));
        } else {
            let n = secs / 86400;
            assert(decimal_of(n) == decimal_of(n));
        }
    }
}

} // verus!
