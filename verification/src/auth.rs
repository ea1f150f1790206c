//! Sign-in codes: the code handed out when a user registers, and the check
//! that turns a code back into the user's name.

use vstd::prelude::*;

use crate::text::{
    chars_of, find_from, lemma_first_index_of, lemma_split_after_first, lemma_split_nonempty,
    lemma_split_whole, push_range, split_on, string_of_range,
};

verus! {

/// The code handed out for `name`: the first half of the name (rounded down),
/// a dash, the whole name, a dash, and the second half.
pub open spec fn auth_code_of(name: Seq<char>) -> Seq<char> {
    let mid = (name.len() / 2) as int;
    let first = name.take(mid);
    let second = name.skip(mid);
    first + seq!['-'] + (first + second) + seq!['-'] + second
}

/// What a code decodes to. The code is split at its dashes; the name it claims
/// is its first piece followed by its last piece, and the code is accepted when
/// that name equals its second piece. A rejected code yields the empty name.
pub open spec fn decoded_code(code: Seq<char>) -> (bool, Seq<char>) {
    let parts = split_on(code, '-');
    let name = parts[0] + parts.last();
    if name == parts[1] {
        (true, name)
    } else {
        (false, Seq::empty())
    }
}

/// Builds the sign-in code for `username` (see `auth_code_of`).
pub fn generate_user_auth(username: String) -> (r: String)
    ensures
        r@ == auth_code_of(username@),
{
    let characters = chars_of(username.as_str());
    let mid = characters.len() / 2;
    let len = characters.len();
    let mut result = String::new();
    push_range(&mut result, &characters, 0, mid);
    result.push('-');
    push_range(&mut result, &characters, 0, mid);
    push_range(&mut result, &characters, mid, len);
    result.push('-');
    push_range(&mut result, &characters, mid, len);
    proof {
        let name = username@;
        assert(characters@.subrange(0, mid as int) =~= name.take(mid as int));
        assert(characters@.subrange(mid as int, len as int) =~= name.skip(mid as int));
        assert(result@ =~= auth_code_of(name));
    }
    result
}

/// Decodes a sign-in code (see `decoded_code`): whether it is accepted, and the
/// name it signs in (empty when it is rejected). A code without any dash has
/// no second piece and is not accepted as input.
pub fn decrpyct_ucode(ucode: String) -> (r: (bool, String))
    requires
        ucode@.contains('-'),
    ensures
        r.0 == decoded_code(ucode@).0,
        r.1@ == decoded_code(ucode@).1,
{
    let v = chars_of(ucode.as_str());
    let len = v.len();
    let ghost s = v@;
    let ghost parts = split_on(s, '-');
    let i1 = find_from(&v, 0, '-');
    proof {
        assert(s.skip(0) =~= s);
        lemma_first_index_of(s, '-');
        lemma_split_nonempty(s.skip(i1 + 1), '-');
        assert(parts[0] == s.take(i1 as int));
        assert(parts[1] == split_on(s.skip(i1 + 1), '-')[0]);
    }
    let i2 = find_from(&v, i1 + 1, '-');
    proof {
        let rest = s.skip(i1 + 1);
        lemma_first_index_of(rest, '-');
        let k = i2 - i1 - 1;
        if 0 <= k < rest.len() {
            assert(split_on(rest, '-')[0] == rest.take(k));
        } else {
            assert(split_on(rest, '-')[0] == rest);
        }
        assert(parts[1] =~= s.subrange(i1 + 1, i2 as int));
    }
    // Walk to the last piece.
    let mut p = i1 + 1;
    proof {
        assert(parts.last() == split_on(s.skip(p as int), '-').last());
    }
    loop
        invariant
            len == v.len(),
            s == v@,
            parts == split_on(s, '-'),
            i1 + 1 <= p <= len,
            parts.last() == split_on(s.skip(p as int), '-').last(),
        ensures
            i1 + 1 <= p <= len,
            parts.last() == s.skip(p as int),
        decreases len - p,
    {
        let q = find_from(&v, p, '-');
        proof {
            lemma_first_index_of(s.skip(p as int), '-');
        }
        if q == len {
            proof {
                assert(split_on(s.skip(p as int), '-') == seq![s.skip(p as int)]);
            }
            break;
        }
        proof {
            let t = s.skip(p as int);
            let k = q - p;
            assert(t.skip(k + 1) =~= s.skip(q + 1));
            lemma_split_nonempty(s.skip(q + 1), '-');
            assert(split_on(t, '-') == seq![t.take(k)] + split_on(s.skip(q + 1), '-'));
        }
        p = q + 1;
    }
    let first = string_of_range(&v, 0, i1);
    let second = string_of_range(&v, i1 + 1, i2);
    let mut username = first;
    push_range(&mut username, &v, p, len);
    proof {
        assert(s.take(i1 as int) =~= s.subrange(0, i1 as int));
        assert(s.skip(p as int) =~= s.subrange(p as int, len as int));
        assert(username@ =~= parts[0] + parts.last());
    }
    let success = username == second;
    if success {
        (true, username)
    } else {
        (false, String::new())
    }
}

/// A user registering sees the registration accepted together with the
/// sign-in code for the name. The reply's length rule (a name of at least 20
/// and at most 3 characters is refused) can never fire, so every name is
/// accepted.
pub fn user_registration_reply(username: &str) -> (r: (bool, String))
    ensures
        r.0,
        r.1@ == auth_code_of(username@),
{
    let name_length = chars_of(username).len();
    if name_length >= 20 && name_length <= 3 {
        return (false, "2lng".to_owned());
    }
    let ucode = generate_user_auth(username.to_owned());
    (true, ucode)
}

/// The code handed out for a name without dashes is accepted, and signs in
/// exactly that name.
pub proof fn lemma_code_round_trip(name: Seq<char>)
    requires
        !name.contains('-'),
    ensures
        auth_code_of(name).contains('-'),
        decoded_code(auth_code_of(name)) == (true, name),
{
    let mid = (name.len() / 2) as int;
    let first = name.take(mid);
    let second = name.skip(mid);
    let whole = first + second;
    assert(whole =~= name);
    assert(!first.contains('-')) by {
        if first.contains('-') {
            let k = choose|k: int| 0 <= k < first.len() && first[k] == '-';
            assert(name[k] == '-');
        }
    }
    assert(!second.contains('-')) by {
        if second.contains('-') {
            let k = choose|k: int| 0 <= k < second.len() && second[k] == '-';
            assert(name[k + mid] == '-');
        }
    }
    let code = auth_code_of(name);
    let tail = whole + seq!['-'] + second;
    assert(code =~= first + seq!['-'] + tail);
    assert(code[first.len() as int] == '-');
    lemma_split_after_first(first, '-', tail);
    lemma_split_after_first(whole, '-', second);
    lemma_split_whole(second, '-');
    let parts = split_on(code, '-');
    assert(parts =~= seq![first, whole, second]);
}

/// A code is accepted exactly when the name it claims (its first piece
/// followed by its last piece) equals its second piece character for
/// character; an accepted code signs in that very piece, and a rejected one
/// signs in the empty name.
pub proof fn lemma_accepted_exactly_when_pieces_agree(code: Seq<char>)
    requires
        code.contains('-'),
    ensures
        split_on(code, '-').len() >= 2,
        decoded_code(code).0 <==> (split_on(code, '-')[0] + split_on(code, '-').last()).len()
            == split_on(code, '-')[1].len() && forall|i: int|
            0 <= i < split_on(code, '-')[1].len() ==> (split_on(code, '-')[0] + split_on(
                code,
                '-',
            ).last())[i] == #[trigger] split_on(code, '-')[1][i],
        decoded_code(code).0 ==> decoded_code(code).1 == split_on(code, '-')[1],
        !decoded_code(code).0 ==> decoded_code(code).1.len() == 0,
{
    lemma_split_nonempty(code, '-');
    let parts = split_on(code, '-');
    let name = parts[0] + parts.last();
    if name.len() == parts[1].len() && forall|i: int|
        0 <= i < parts[1].len() ==> name[i] == #[trigger] parts[1][i] {
        assert(name =~= parts[1]);
    }
}

/// Changing the middle piece of an issued code to anything other than the
/// name gets the code rejected, whatever its length.
pub proof fn lemma_altered_middle_rejected(name: Seq<char>, middle: Seq<char>)
    requires
        !name.contains('-'),
        !middle.contains('-'),
        middle != name,
    ensures
        decoded_code(
            name.take((name.len() / 2) as int) + seq!['-'] + middle + seq!['-'] + name.skip(
                (name.len() / 2) as int,
            ),
        ) == (false, Seq::<char>::empty()),
{
    let mid = (name.len() / 2) as int;
    let first = name.take(mid);
    let second = name.skip(mid);
    assert(first + second =~= name);
    assert(!first.contains('-')) by {
        if first.contains('-') {
            let k = choose|k: int| 0 <= k < first.len() && first[k] == '-';
            assert(name[k] == '-');
        }
    }
    assert(!second.contains('-')) by {
        if second.contains('-') {
            let k = choose|k: int| 0 <= k < second.len() && second[k] == '-';
            assert(name[k + mid] == '-');
        }
    }
    let code = first + seq!['-'] + middle + seq!['-'] + second;
    let tail = middle + seq!['-'] + second;
    assert(code =~= first + seq!['-'] + tail);
    lemma_split_after_first(first, '-', tail);
    lemma_split_after_first(middle, '-', second);
    lemma_split_whole(second, '-');
    let parts = split_on(code, '-');
    assert(parts =~= seq![first, middle, second]);
    assert(parts[0] + parts.last() =~= name);
}

} // verus!
