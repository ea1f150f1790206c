//! Live updates: the message broadcast when a post is published, and which
//! connected client gets which event out of a broadcast message.

use vstd::prelude::*;

use crate::client_id::{
    client_id_text, client_id_text_of, lemma_client_id_text_has_no_colon,
    lemma_client_id_text_injective,
};
use crate::sessions::{bound_to, SessionTable};
use crate::client_id::parsed_client_id;
use crate::text::{chars_of, find_from, first_index_of, lemma_first_index_at, string_of_range};

verus! {

/// The broadcast message for a post published by the client whose id text is
/// `client`: the id text, a colon, and `new_post`.
pub open spec fn new_post_message_of(client: Seq<char>) -> Seq<char> {
    client + ":new_post"@
}

/// The event that the client with id `receiver` gets out of the broadcast
/// `message`. The message is cut at its first colon into the sender's id text
/// and the payload (empty when there is no colon); the sender gets nothing
/// back, every other client gets the payload.
pub open spec fn event_for(message: Seq<char>, receiver: u128) -> Option<Seq<char>> {
    let i = first_index_of(message, ':');
    let sender = message.take(i);
    let payload = if i < message.len() {
        message.skip(i + 1)
    } else {
        Seq::empty()
    };
    if sender == client_id_text_of(receiver) {
        None
    } else {
        Some(payload)
    }
}

/// The broadcast message for a post published by `client_uuid`.
pub fn new_post_message(client_uuid: &str) -> (r: String)
    ensures
        r@ == new_post_message_of(client_uuid@),
{
    let mut message = client_uuid.to_owned();
    message.append(":new_post");
    message
}

/// The event the client with id `receiver` gets out of the broadcast
/// `message` (see `event_for`).
pub fn event_for_client(message: &str, receiver: u128) -> (r: Option<String>)
    ensures
        match r {
            Some(payload) => event_for(message@, receiver) == Some(payload@),
            None => event_for(message@, receiver) is None,
        },
{
    let v = chars_of(message);
    let len = v.len();
    let i = find_from(&v, 0, ':');
    proof {
        assert(v@.skip(0) =~= v@);
    }
    let sender = string_of_range(&v, 0, i);
    let payload = if i < len {
        string_of_range(&v, i + 1, len)
    } else {
        String::new()
    };
    let me = client_id_text(receiver);
    proof {
        assert(sender@ =~= v@.take(i as int));
        if i < len {
            assert(payload@ =~= v@.skip(i + 1));
        }
    }
    if sender == me {
        None
    } else {
        Some(payload)
    }
}

/// Decides on a post submitted by `client_uuid` under `username`: it is
/// published only when that client is signed in as that name, and then the
/// result is the message to broadcast; otherwise it is refused (`None`).
pub fn new_post_plan(sessions: &SessionTable, client_uuid: &str, username: &str) -> (r: Option<
    String,
>)
    ensures
        match r {
            Some(message) => {
                &&& parsed_client_id(client_uuid@) matches Some(id)
                &&& bound_to(sessions@, id, username@)
                &&& message@ == new_post_message_of(client_uuid@)
            },
            None => !(parsed_client_id(client_uuid@) matches Some(id) && bound_to(
                sessions@,
                id,
                username@,
            )),
        },
{
    if !sessions.is_bound(client_uuid, username) {
        return None;
    }
    Some(new_post_message(client_uuid))
}

/// A post's broadcast is withheld from the client whose id text it carries
/// and reaches every other client as `new_post`, provided the id text holds
/// no colon.
pub proof fn lemma_post_event_routing(client: Seq<char>, receiver: u128)
    requires
        !client.contains(':'),
    ensures
        event_for(new_post_message_of(client), receiver) == if client == client_id_text_of(
            receiver,
        ) {
            None
        } else {
            Some("new_post"@)
        },
{
    reveal_strlit(":new_post");
    reveal_strlit("new_post");
    let m = new_post_message_of(client);
    assert forall|j: int| 0 <= j < client.len() implies m[j] != ':' by {
        if m[j] == ':' {
            assert(client[j] == ':');
        }
    }
    assert(m[client.len() as int] == ':');
    lemma_first_index_at(m, ':', client.len() as int);
    assert(m.take(client.len() as int) =~= client);
    assert(m.skip(client.len() + 1 as int) =~= "new_post"@);
}

/// The client that published a post gets no event for it.
pub proof fn lemma_author_not_notified(author: u128)
    ensures
        event_for(new_post_message_of(client_id_text_of(author)), author) is None,
{
    lemma_client_id_text_has_no_colon(author);
    lemma_post_event_routing(client_id_text_of(author), author);
}

/// A post published by client `author` reaches every other connected client
/// as the event `new_post`.
pub proof fn lemma_others_notified(author: u128, receiver: u128)
    requires
        author != receiver,
    ensures
        event_for(new_post_message_of(client_id_text_of(author)), receiver) == Some("new_post"@),
{
    lemma_client_id_text_has_no_colon(author);
    if client_id_text_of(author) == client_id_text_of(receiver) {
        lemma_client_id_text_injective(author, receiver);
    }
    lemma_post_event_routing(client_id_text_of(author), receiver);
}

} // verus!
