//! Posts as the board lists and shares them: a stored row, the named fields
//! shown for it, and the query that lists posts in the chosen order.

use vstd::prelude::*;

use crate::numbers::{decimal_of, decimal_text, lemma_decimal_round_trip, parsed_i64};

verus! {

/// The fields a post can carry, under the names the web page and the JSON
/// listing use for them.
#[derive(Clone, Copy, PartialEq, Eq, Structural, Debug)]
pub enum PostKey {
    Title,
    Text,
    ThumbsUp,
    ThumbsDown,
    CreatedAt,
    Tag,
    Username,
    Id,
}

pub open spec fn key_name(key: PostKey) -> Seq<char> {
    match key {
        PostKey::Title => "title"@,
        PostKey::Text => "text"@,
        PostKey::ThumbsUp => "tUp"@,
        PostKey::ThumbsDown => "tDown"@,
        PostKey::CreatedAt => "cAt"@,
        PostKey::Tag => "tag"@,
        PostKey::Username => "username"@,
        PostKey::Id => "id"@,
    }
}

impl PostKey {
    /// The field's name.
    pub fn name(&self) -> (r: &'static str)
        ensures
            r@ == key_name(*self),
    {
        match self {
            PostKey::Title => "title",
            PostKey::Text => "text",
            PostKey::ThumbsUp => "tUp",
            PostKey::ThumbsDown => "tDown",
            PostKey::CreatedAt => "cAt",
            PostKey::Tag => "tag",
            PostKey::Username => "username",
            PostKey::Id => "id",
        }
    }
}

/// A stored post as the database returns it (without its id).
pub struct PostRow {
    pub title: String,
    pub text: String,
    pub thumbs_up: i32,
    pub thumbs_down: i32,
    pub created_at: String,
    pub tag: String,
    pub username: String,
}

/// The row stored for a newly published post: the submitted title, text, tag
/// and author, created at `created_at`, with no votes either way.
pub fn new_post_row(
    title: String,
    text: String,
    tag: String,
    username: String,
    created_at: String,
) -> (r: PostRow)
    ensures
        r.title@ == title@,
        r.text@ == text@,
        r.tag@ == tag@,
        r.username@ == username@,
        r.created_at@ == created_at@,
        r.thumbs_up == 0,
        r.thumbs_down == 0,
{
    PostRow { title, text, thumbs_up: 0, thumbs_down: 0, created_at, tag, username }
}

/// The fields of a post, each at most once.
pub struct PostFields {
    title: Option<String>,
    text: Option<String>,
    thumbs_up: Option<String>,
    thumbs_down: Option<String>,
    created_at: Option<String>,
    tag: Option<String>,
    username: Option<String>,
    id: Option<String>,
}

impl PostFields {
    pub closed spec fn slot(&self, key: PostKey) -> Option<String> {
        match key {
            PostKey::Title => self.title,
            PostKey::Text => self.text,
            PostKey::ThumbsUp => self.thumbs_up,
            PostKey::ThumbsDown => self.thumbs_down,
            PostKey::CreatedAt => self.created_at,
            PostKey::Tag => self.tag,
            PostKey::Username => self.username,
            PostKey::Id => self.id,
        }
    }
}

impl View for PostFields {
    type V = Map<PostKey, Seq<char>>;

    closed spec fn view(&self) -> Map<PostKey, Seq<char>> {
        Map::new(|k: PostKey| self.slot(k) is Some, |k: PostKey| self.slot(k)->0@)
    }
}

/// All keys, in the order the listing writes them.
pub open spec fn all_keys() -> Seq<PostKey> {
    seq![
        PostKey::Title,
        PostKey::Text,
        PostKey::ThumbsUp,
        PostKey::ThumbsDown,
        PostKey::CreatedAt,
        PostKey::Tag,
        PostKey::Username,
        PostKey::Id,
    ]
}

/// Position of `key` in `all_keys`.
pub open spec fn key_rank(key: PostKey) -> int {
    match key {
        PostKey::Title => 0,
        PostKey::Text => 1,
        PostKey::ThumbsUp => 2,
        PostKey::ThumbsDown => 3,
        PostKey::CreatedAt => 4,
        PostKey::Tag => 5,
        PostKey::Username => 6,
        PostKey::Id => 7,
    }
}

/// The fields listed for a stored row: every column, with the vote counts in
/// decimal.
pub open spec fn row_fields(row: PostRow) -> Map<PostKey, Seq<char>> {
    Map::<PostKey, Seq<char>>::empty().insert(PostKey::Title, row.title@).insert(
        PostKey::Text,
        row.text@,
    ).insert(PostKey::ThumbsUp, decimal_of(row.thumbs_up as int)).insert(
        PostKey::ThumbsDown,
        decimal_of(row.thumbs_down as int),
    ).insert(PostKey::CreatedAt, row.created_at@).insert(PostKey::Tag, row.tag@).insert(
        PostKey::Username,
        row.username@,
    )
}

/// The fields shown for a shared post that does not exist, created at `now`.
pub open spec fn missing_post_fields(now: Seq<char>) -> Map<PostKey, Seq<char>> {
    Map::<PostKey, Seq<char>>::empty().insert(PostKey::Title, "Post was not found!"@).insert(
        PostKey::Text,
        "Womp womp :(("@,
    ).insert(PostKey::ThumbsUp, "0"@).insert(PostKey::ThumbsDown, "0"@).insert(
        PostKey::CreatedAt,
        now,
    ).insert(PostKey::Tag, "unlucky"@).insert(PostKey::Username, "mr.nobody"@)
}

impl PostFields {
    /// No fields.
    pub fn new() -> (r: Self)
        ensures
            r@ == Map::<PostKey, Seq<char>>::empty(),
    {
        let r = PostFields {
            title: None,
            text: None,
            thumbs_up: None,
            thumbs_down: None,
            created_at: None,
            tag: None,
            username: None,
            id: None,
        };
        assert(r@ =~= Map::<PostKey, Seq<char>>::empty());
        r
    }

    /// Sets field `key` to `value`.
    pub fn insert(&mut self, key: PostKey, value: String)
        ensures
            final(self)@ == old(self)@.insert(key, value@),
    {
        let ghost v = value@;
        match key {
            PostKey::Title => self.title = Some(value),
            PostKey::Text => self.text = Some(value),
            PostKey::ThumbsUp => self.thumbs_up = Some(value),
            PostKey::ThumbsDown => self.thumbs_down = Some(value),
            PostKey::CreatedAt => self.created_at = Some(value),
            PostKey::Tag => self.tag = Some(value),
            PostKey::Username => self.username = Some(value),
            PostKey::Id => self.id = Some(value),
        }
        assert(self@ =~= old(self)@.insert(key, v));
    }

    /// Field `key`, if the post has it.
    pub fn get(&self, key: PostKey) -> (r: Option<&String>)
        ensures
            match r {
                Some(v) => self@.contains_key(key) && v@ == self@[key],
                None => !self@.contains_key(key),
            },
    {
        let slot = match key {
            PostKey::Title => &self.title,
            PostKey::Text => &self.text,
            PostKey::ThumbsUp => &self.thumbs_up,
            PostKey::ThumbsDown => &self.thumbs_down,
            PostKey::CreatedAt => &self.created_at,
            PostKey::Tag => &self.tag,
            PostKey::Username => &self.username,
            PostKey::Id => &self.id,
        };
        match slot {
            Some(v) => Some(v),
            None => None,
        }
    }

    /// Field `key`, or the empty text when the post does not have it (as the
    /// page shows it).
    pub fn field_or_empty(&self, key: PostKey) -> (r: String)
        ensures
            r@ == (if self@.contains_key(key) {
                self@[key]
            } else {
                Seq::empty()
            }),
    {
        match self.get(key) {
            Some(v) => v.clone(),
            None => String::new(),
        }
    }

    /// The fields the post has, with their values, each key once, in the
    /// order of `all_keys`.
    pub fn entries(&self) -> (r: Vec<(PostKey, String)>)
        ensures
            forall|i: int|
                0 <= i < r.len() ==> self@.contains_key(#[trigger] r@[i].0) && self@[r@[i].0]
                    == r@[i].1@,
            forall|i: int, j: int| 0 <= i < j < r.len() ==> r@[i].0 != r@[j].0,
            forall|i: int, j: int|
                0 <= i < j < r.len() ==> key_rank(r@[i].0) < key_rank(r@[j].0),
            forall|k: PostKey| self@.contains_key(k) ==> exists|i: int| 0 <= i < r.len() && r@[i].0 == k,
    {
        let keys = [
            PostKey::Title,
            PostKey::Text,
            PostKey::ThumbsUp,
            PostKey::ThumbsDown,
            PostKey::CreatedAt,
            PostKey::Tag,
            PostKey::Username,
            PostKey::Id,
        ];
        assert(keys@ =~= all_keys());
        let mut out: Vec<(PostKey, String)> = Vec::new();
        let ghost mut taken: Seq<int> = Seq::empty();
        let mut n: usize = 0;
        while n < 8
            invariant
                n <= 8,
                keys@ == all_keys(),
                taken.len() == out.len(),
                forall|i: int| 0 <= i < out.len() ==> 0 <= #[trigger] taken[i] < n && out@[i].0 == keys@[taken[i]],
                forall|i: int, j: int| 0 <= i < j < out.len() ==> taken[i] < taken[j],
                forall|i: int|
                    0 <= i < out.len() ==> self@.contains_key(#[trigger] out@[i].0) && self@[out@[i].0]
                        == out@[i].1@,
                forall|m: int|
                    0 <= m < n && self@.contains_key(keys@[m]) ==> exists|i: int|
                        0 <= i < out.len() && out@[i].0 == keys@[m],
            decreases 8 - n,
        {
            let key = keys[n];
            let ghost prev = out@;
            match self.get(key) {
                Some(v) => {
                    out.push((key, v.clone()));
                    proof {
                        taken = taken.push(n as int);
                    }
                },
                None => {},
            }
            proof {
                assert forall|m: int|
                    0 <= m <= n && self@.contains_key(keys@[m]) implies exists|i: int|
                    0 <= i < out.len() && out@[i].0 == keys@[m] by {
                    if m < n {
                        let i = choose|i: int| 0 <= i < prev.len() && prev[i].0 == keys@[m];
                        assert(out@[i] == prev[i]);
                    } else {
                        assert(out@[out.len() - 1].0 == keys@[m]);
                    }
                }
            }
            n += 1;
        }
        assert forall|k: PostKey| self@.contains_key(k) implies exists|i: int|
            0 <= i < out.len() && out@[i].0 == k by {
            let m: int = match k {
                PostKey::Title => 0,
                PostKey::Text => 1,
                PostKey::ThumbsUp => 2,
                PostKey::ThumbsDown => 3,
                PostKey::CreatedAt => 4,
                PostKey::Tag => 5,
                PostKey::Username => 6,
                PostKey::Id => 7,
            };
            assert(keys@[m] == k);
        }
        assert forall|m: int| 0 <= m < 8 implies key_rank(#[trigger] keys@[m]) == m by {}
        assert forall|i: int, j: int|
            0 <= i < j < out.len() implies key_rank(out@[i].0) < key_rank(out@[j].0) by {
            assert(taken[i] < taken[j]);
            assert(key_rank(keys@[taken[i]]) == taken[i]);
            assert(key_rank(keys@[taken[j]]) == taken[j]);
        }
        assert forall|i: int, j: int| 0 <= i < j < out.len() implies out@[i].0 != out@[j].0 by {
            assert(key_rank(out@[i].0) < key_rank(out@[j].0));
        }
        out
    }
}

fn row_into_fields(row: PostRow) -> (r: PostFields)
    ensures
        r@ == row_fields(row),
{
    let ghost g = row;
    let mut fields = PostFields::new();
    fields.insert(PostKey::Title, row.title);
    fields.insert(PostKey::Text, row.text);
    fields.insert(PostKey::ThumbsUp, decimal_text(row.thumbs_up as i64));
    fields.insert(PostKey::ThumbsDown, decimal_text(row.thumbs_down as i64));
    fields.insert(PostKey::CreatedAt, row.created_at);
    fields.insert(PostKey::Tag, row.tag);
    fields.insert(PostKey::Username, row.username);
    fields
}

/// The fields listed for one row of a post listing: all columns and the id in
/// decimal; no fields at all for a row that could not be read.
pub fn listed_post(row: Option<(PostRow, i32)>) -> (r: PostFields)
    ensures
        match row {
            Some((row, id)) => r@ == row_fields(row).insert(PostKey::Id, decimal_of(id as int)),
            None => r@ == Map::<PostKey, Seq<char>>::empty(),
        },
{
    match row {
        Some((row, id)) => {
            let mut fields = row_into_fields(row);
            fields.insert(PostKey::Id, decimal_text(id as i64));
            fields
        },
        None => PostFields::new(),
    }
}

/// The fields shown for a shared post: all columns of its row (without the
/// id) when it was found, otherwise a stand-in post created at `now`.
pub fn shared_post(row: Option<PostRow>, now: &str) -> (r: PostFields)
    ensures
        match row {
            Some(row) => r@ == row_fields(row),
            None => r@ == missing_post_fields(now@),
        },
{
    match row {
        Some(row) => row_into_fields(row),
        None => {
            let mut fields = PostFields::new();
            fields.insert(PostKey::Title, "Post was not found!".to_owned());
            fields.insert(PostKey::Text, "Womp womp :((".to_owned());
            fields.insert(PostKey::ThumbsUp, "0".to_owned());
            fields.insert(PostKey::ThumbsDown, "0".to_owned());
            fields.insert(PostKey::CreatedAt, now.to_owned());
            fields.insert(PostKey::Tag, "unlucky".to_owned());
            fields.insert(PostKey::Username, "mr.nobody".to_owned());
            fields
        },
    }
}

/// The query listing ten posts from an offset, for sort order `sorting`:
/// 1 by rating (up votes minus down votes), 2 the day's posts by up votes,
/// anything else newest first.
pub open spec fn posts_query_of(sorting: i32) -> Seq<char> {
    if sorting == 1 {
        "SELECT post_title, post_text, tUp, tDown, cAt, tag, username, id FROM posts ORDER BY (tUp - tDown) DESC LIMIT 10 OFFSET ?"@
    } else if sorting == 2 {
        "SELECT post_title, post_text, tUp, tDown, cAt, tag,username, id FROM posts WHERE cAt >= datetime('now', '-1 day') ORDER BY tUp DESC LIMIT 10 OFFSET ?"@
    } else {
        "SELECT post_title, post_text, tUp, tDown, cAt, tag, username, id FROM posts ORDER BY id DESC LIMIT 10 OFFSET ?"@
    }
}

/// The listing query for sort order `sorting` (see `posts_query_of`).
pub fn posts_query(sorting: i32) -> (r: &'static str)
    ensures
        r@ == posts_query_of(sorting),
{
    match sorting {
        0 => "SELECT post_title, post_text, tUp, tDown, cAt, tag, username, id FROM posts ORDER BY id DESC LIMIT 10 OFFSET ?",
        1 => "SELECT post_title, post_text, tUp, tDown, cAt, tag, username, id FROM posts ORDER BY (tUp - tDown) DESC LIMIT 10 OFFSET ?",
        2 => "SELECT post_title, post_text, tUp, tDown, cAt, tag,username, id FROM posts WHERE cAt >= datetime('now', '-1 day') ORDER BY tUp DESC LIMIT 10 OFFSET ?",
        _ => "SELECT post_title, post_text, tUp, tDown, cAt, tag, username, id FROM posts ORDER BY id DESC LIMIT 10 OFFSET ?",
    }
}

/// `text` ends with `tail`.
pub open spec fn ends_with(text: Seq<char>, tail: Seq<char>) -> bool {
    tail.len() <= text.len() && text.skip(text.len() - tail.len()) == tail
}

/// `text` starts with `head`.
pub open spec fn starts_with(text: Seq<char>, head: Seq<char>) -> bool {
    head.len() <= text.len() && text.take(head.len() as int) == head
}

/// Every listing query selects the post columns from the posts table and
/// returns one page of ten posts from the given offset; rating order sorts by
/// up votes minus down votes, the day's order filters on the creation time and
/// sorts by up votes, and every other sort order lists the newest first.
pub proof fn lemma_listing_queries(sorting: i32)
    ensures
        starts_with(posts_query_of(sorting), "SELECT post_title, post_text, tUp, tDown, cAt, tag,"@),
        ends_with(posts_query_of(sorting), " LIMIT 10 OFFSET ?"@),
        sorting == 1 ==> ends_with(
            posts_query_of(sorting),
            " FROM posts ORDER BY (tUp - tDown) DESC LIMIT 10 OFFSET ?"@,
        ),
        sorting == 2 ==> ends_with(
            posts_query_of(sorting),
            " FROM posts WHERE cAt >= datetime('now', '-1 day') ORDER BY tUp DESC LIMIT 10 OFFSET ?"@,
        ),
        sorting != 1 && sorting != 2 ==> ends_with(
            posts_query_of(sorting),
            " FROM posts ORDER BY id DESC LIMIT 10 OFFSET ?"@,
        ),
{
    reveal_strlit("SELECT post_title, post_text, tUp, tDown, cAt, tag,");
    reveal_strlit(" LIMIT 10 OFFSET ?");
    reveal_strlit(" FROM posts ORDER BY (tUp - tDown) DESC LIMIT 10 OFFSET ?");
    reveal_strlit(" FROM posts WHERE cAt >= datetime('now', '-1 day') ORDER BY tUp DESC LIMIT 10 OFFSET ?");
    reveal_strlit(" FROM posts ORDER BY id DESC LIMIT 10 OFFSET ?");
    reveal_strlit("SELECT post_title, post_text, tUp, tDown, cAt, tag, username, id FROM posts ORDER BY (tUp - tDown) DESC LIMIT 10 OFFSET ?");
    reveal_strlit("SELECT post_title, post_text, tUp, tDown, cAt, tag,username, id FROM posts WHERE cAt >= datetime('now', '-1 day') ORDER BY tUp DESC LIMIT 10 OFFSET ?");
    reveal_strlit("SELECT post_title, post_text, tUp, tDown, cAt, tag, username, id FROM posts ORDER BY id DESC LIMIT 10 OFFSET ?");
    let q = posts_query_of(sorting);
    assert(q.take(51) =~= "SELECT post_title, post_text, tUp, tDown, cAt, tag,"@);
    assert(q.skip(q.len() - 18) =~= " LIMIT 10 OFFSET ?"@);
    if sorting == 1 {
        assert(q.skip(q.len() - 57) =~= " FROM posts ORDER BY (tUp - tDown) DESC LIMIT 10 OFFSET ?"@);
    } else if sorting == 2 {
        assert(q.skip(q.len() - 86) =~= " FROM posts WHERE cAt >= datetime('now', '-1 day') ORDER BY tUp DESC LIMIT 10 OFFSET ?"@);
    } else {
        assert(q.skip(q.len() - 46) =~= " FROM posts ORDER BY id DESC LIMIT 10 OFFSET ?"@);
    }
}

/// The fields shown for a stored row carry its columns unchanged, whatever
/// their length, its vote counts as decimal text that reads back to the
/// stored counts, and no id.
pub proof fn lemma_row_fields_keep_columns(row: PostRow)
    ensures
        row_fields(row).contains_key(PostKey::Title) && row_fields(row)[PostKey::Title] == row.title@,
        row_fields(row).contains_key(PostKey::Text) && row_fields(row)[PostKey::Text] == row.text@,
        row_fields(row).contains_key(PostKey::CreatedAt) && row_fields(row)[PostKey::CreatedAt]
            == row.created_at@,
        row_fields(row).contains_key(PostKey::Tag) && row_fields(row)[PostKey::Tag] == row.tag@,
        row_fields(row).contains_key(PostKey::Username) && row_fields(row)[PostKey::Username]
            == row.username@,
        row_fields(row).contains_key(PostKey::ThumbsUp) && parsed_i64(
            row_fields(row)[PostKey::ThumbsUp],
        ) == Some(row.thumbs_up as i64),
        row_fields(row).contains_key(PostKey::ThumbsDown) && parsed_i64(
            row_fields(row)[PostKey::ThumbsDown],
        ) == Some(row.thumbs_down as i64),
        !row_fields(row).contains_key(PostKey::Id),
{
    lemma_decimal_round_trip(row.thumbs_up as i64);
    lemma_decimal_round_trip(row.thumbs_down as i64);
}

/// A listed post carries its row's columns unchanged and an id whose text
/// reads back to the post's id, so the share link built from it finds the post.
pub proof fn lemma_listed_fields(row: PostRow, id: i32)
    ensures
        row_fields(row).insert(PostKey::Id, decimal_of(id as int))[PostKey::Text] == row.text@,
        row_fields(row).insert(PostKey::Id, decimal_of(id as int))[PostKey::Title] == row.title@,
        parsed_i64(row_fields(row).insert(PostKey::Id, decimal_of(id as int))[PostKey::Id]) == Some(
            id as i64,
        ),
{
    lemma_decimal_round_trip(id as i64);
}

} // verus!
