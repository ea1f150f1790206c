//! The table of connected clients and the name each one is signed in as.
//! A client is registered with the empty name when it connects, takes a name
//! when it signs in with a valid code, and leaves the table when it goes away.

use std::collections::HashMap;

use vstd::prelude::*;

use crate::auth::{
    auth_code_of, decoded_code, decrpyct_ucode, lemma_accepted_exactly_when_pieces_agree,
    lemma_code_round_trip,
};
use crate::client_id::{fresh_client_id, is_random_client_id, parse_client_id, parsed_client_id};
use crate::text::{chars_of, split_on};

verus! {

broadcast use vstd::std_specs::hash::group_hash_axioms;

/// Connected clients, by id, with the name each is signed in as (empty until
/// the client signs in).
pub struct SessionTable {
    names: HashMap<u128, String>,
}

impl View for SessionTable {
    type V = Map<u128, Seq<char>>;

    closed spec fn view(&self) -> Map<u128, Seq<char>> {
        self.names@.map_values(|s: String| s@)
    }
}

/// The table after a client with id `id` signs in with `code`: when the code
/// is accepted and the client is connected, it is now signed in as the name
/// the code carries; otherwise nothing changes.
pub open spec fn signed_in(m: Map<u128, Seq<char>>, id: u128, code: Seq<char>) -> Map<
    u128,
    Seq<char>,
> {
    let (accepted, name) = decoded_code(code);
    if accepted && m.contains_key(id) {
        m.insert(id, name)
    } else {
        m
    }
}

/// Client `id` is connected and signed in as `name`.
pub open spec fn bound_to(m: Map<u128, Seq<char>>, id: u128, name: Seq<char>) -> bool {
    m.contains_key(id) && m[id] == name
}

impl SessionTable {
    /// An empty table.
    pub fn new() -> (r: Self)
        ensures
            r@ == Map::<u128, Seq<char>>::empty(),
    {
        let r = SessionTable { names: HashMap::new() };
        assert(r@ =~= Map::<u128, Seq<char>>::empty());
        r
    }

    /// Registers a newly connected client under a fresh random (version 4)
    /// id, with the empty name, and returns the id.
    pub fn connect(&mut self) -> (id: u128)
        ensures
            is_random_client_id(id),
            final(self)@ == old(self)@.insert(id, Seq::empty()),
    {
        let id = fresh_client_id();
        self.register(id);
        id
    }

    /// Registers client `id` with the empty name (replacing any name it had).
    pub fn register(&mut self, id: u128)
        ensures
            final(self)@ == old(self)@.insert(id, Seq::empty()),
    {
        let ghost before = self.names@;
        self.names.insert(id, String::new());
        assert(self@ =~= before.map_values(|s: String| s@).insert(id, Seq::empty()));
    }

    /// Removes client `id` from the table.
    pub fn disconnect(&mut self, id: u128)
        ensures
            final(self)@ == old(self)@.remove(id),
    {
        let ghost before = self.names@;
        self.names.remove(&id);
        assert(self@ =~= before.map_values(|s: String| s@).remove(id));
    }

    /// Signs in the client whose id text is `client_uuid` with the sign-in
    /// code `ucode`, and returns whether the code was accepted and the name it
    /// carries (empty when it was not accepted).
    ///
    /// An id text that is not a client id gives `(false, "")` and changes
    /// nothing. A code without a dash cannot be decoded at all: then the
    /// result is `None` and nothing changes. Otherwise a connected client that
    /// presents an accepted code is signed in as its name.
    pub fn sign_in(&mut self, client_uuid: &str, ucode: &str) -> (r: Option<(bool, String)>)
        ensures
            match parsed_client_id(client_uuid@) {
                None => {
                    &&& r matches Some((accepted, name))
                    &&& !accepted
                    &&& name@ == Seq::<char>::empty()
                    &&& final(self)@ == old(self)@
                },
                Some(id) => if ucode@.contains('-') {
                    &&& r matches Some((accepted, name))
                    &&& accepted == decoded_code(ucode@).0
                    &&& name@ == decoded_code(ucode@).1
                    &&& final(self)@ == signed_in(old(self)@, id, ucode@)
                } else {
                    &&& r is None
                    &&& final(self)@ == old(self)@
                },
            },
    {
        let id = match parse_client_id(client_uuid) {
            Some(id) => id,
            None => {
                return Some((false, String::new()));
            },
        };
        if !has_dash(ucode) {
            return None;
        }
        let (success, username) = decrpyct_ucode(ucode.to_owned());
        if success && self.names.contains_key(&id) {
            let ghost before = self.names@;
            self.names.insert(id, username.clone());
            assert(self@ =~= before.map_values(|s: String| s@).insert(id, username@));
        }
        Some((success, username))
    }

    /// Whether the client whose id text is `client_uuid` is connected and
    /// signed in as `username`. An id text that is not a client id is never
    /// signed in.
    pub fn is_bound(&self, client_uuid: &str, username: &str) -> (r: bool)
        ensures
            r == match parsed_client_id(client_uuid@) {
                Some(id) => bound_to(self@, id, username@),
                None => false,
            },
    {
        let id = match parse_client_id(client_uuid) {
            Some(id) => id,
            None => {
                return false;
            },
        };
        match self.names.get(&id) {
            Some(stored) => {
                let wanted = username.to_owned();
                *stored == wanted
            },
            None => false,
        }
    }
}

/// Whether `s` holds a dash.
fn has_dash(s: &str) -> (r: bool)
    ensures
        r == s@.contains('-'),
{
    let v = chars_of(s);
    let mut i: usize = 0;
    while i < v.len()
        invariant
            i <= v.len(),
            v@ == s@,
            forall|j: int| 0 <= j < i ==> v@[j] != '-',
        decreases v.len() - i,
    {
        if v[i] == '-' {
            return true;
        }
        i += 1;
    }
    false
}

/// A connected client that signs in with the code handed out for a name
/// without dashes is then signed in as that name.
pub proof fn lemma_sign_in_binds(m: Map<u128, Seq<char>>, id: u128, name: Seq<char>)
    requires
        m.contains_key(id),
        !name.contains('-'),
    ensures
        bound_to(signed_in(m, id, auth_code_of(name)), id, name),
{
    lemma_code_round_trip(name);
}

/// Signing in never connects or disconnects a client, and leaves every other
/// client's name as it was.
pub proof fn lemma_sign_in_touches_only_its_client(
    m: Map<u128, Seq<char>>,
    id: u128,
    code: Seq<char>,
    other: u128,
)
    requires
        other != id,
    ensures
        signed_in(m, id, code).dom() == m.dom(),
        signed_in(m, id, code).contains_key(other) ==> signed_in(m, id, code)[other] == m[other],
{
    let r = signed_in(m, id, code);
    assert(r.dom() =~= m.dom());
}

/// A client that has just connected is signed in as the empty name only.
pub proof fn lemma_connected_client_is_anonymous(
    m: Map<u128, Seq<char>>,
    id: u128,
    name: Seq<char>,
)
    ensures
        bound_to(m.insert(id, Seq::empty()), id, name) <==> name == Seq::<char>::empty(),
{
}

/// A client that has gone away is signed in as no name.
pub proof fn lemma_disconnected_client_is_unbound(
    m: Map<u128, Seq<char>>,
    id: u128,
    name: Seq<char>,
)
    ensures
        !bound_to(m.remove(id), id, name),
{
}

/// A rejected code changes nothing in the table: a client signed in as a
/// name stays signed in as it, and every other entry is kept.
pub proof fn lemma_rejected_code_changes_nothing(
    m: Map<u128, Seq<char>>,
    id: u128,
    code: Seq<char>,
    name: Seq<char>,
)
    requires
        !decoded_code(code).0,
    ensures
        signed_in(m, id, code) == m,
        bound_to(m, id, name) ==> bound_to(signed_in(m, id, code), id, name),
{
}

/// After an accepted code a connected client is signed in as the code's
/// second piece, whatever it was signed in as before.
pub proof fn lemma_accepted_code_binds_second_piece(
    m: Map<u128, Seq<char>>,
    id: u128,
    code: Seq<char>,
)
    requires
        code.contains('-'),
        decoded_code(code).0,
        m.contains_key(id),
    ensures
        bound_to(signed_in(m, id, code), id, split_on(code, '-')[1]),
{
    lemma_accepted_exactly_when_pieces_agree(code);
}

} // verus!
