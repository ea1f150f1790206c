# fivef

The rules of a small message board ("5F"), verified with Verus, and the web
server around them.

- `src/` is the verified library:
  - `auth` — sign-in codes: the code handed out at registration and the check
    that reads a name back out of a code;
  - `sessions` — connected clients and the name each is signed in as;
  - `events` — the broadcast for a new post and which client gets what out of it;
  - `posts` — stored post rows, the named fields shown for a post, listing queries;
  - `age` — "5 minutes ago"-style age texts;
  - `numbers` — decimal text of integers, both ways;
  - `client_id` — client ids and their hyphenated hexadecimal text;
  - `text` — character-sequence helpers.
- `app/main.rs` is the server: routes (axum), SQLite access (rusqlite), HTML
  rendering (maud), the live-update stream and the clock.
- `tests/` exercises the library on concrete values.
