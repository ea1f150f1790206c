//! Client ids: 128-bit values handed to each connected browser, written and
//! read in the hyphenated hexadecimal form of the `uuid` crate.

use vstd::prelude::*;
use vstd::arithmetic::div_mod::{lemma_basic_div, lemma_div_basics, lemma_div_denominator, lemma_fundamental_div_mod};
use vstd::arithmetic::power2::{lemma2_to64, lemma_pow2_adds, lemma_pow2_pos, pow2};

verus! {

/// Lower-case hexadecimal digit for `v` in `0..16`.
pub open spec fn hex_digit(v: int) -> char {
    if v < 10 {
        (48 + v) as char
    } else {
        (87 + v) as char
    }
}

/// The 4-bit group of `id` at position `k` in `0..32`, counted from the most
/// significant end.
pub open spec fn nibble_at(id: u128, k: int) -> int {
    (id as int / pow2((4 * (31 - k)) as nat) as int) % 16
}

/// How many hyphens precede position `i` of the hyphenated text.
pub open spec fn hyphens_before(i: int) -> int {
    if i < 8 {
        0
    } else if i < 13 {
        1
    } else if i < 18 {
        2
    } else if i < 23 {
        3
    } else {
        4
    }
}

/// The hyphenated text of a client id: 32 lower-case hexadecimal digits, most
/// significant first, in groups of 8, 4, 4, 4 and 12 joined by hyphens.
pub open spec fn client_id_text_of(id: u128) -> Seq<char> {
    Seq::new(
        36,
        |i: int|
            if i == 8 || i == 13 || i == 18 || i == 23 {
                '-'
            } else {
                hex_digit(nibble_at(id, i - hyphens_before(i)))
            },
    )
}

/// The client id that `text` denotes, if any, as `uuid::Uuid::parse_str` reads it.
pub uninterp spec fn parsed_client_id(text: Seq<char>) -> Option<u128>;

/// Calls `uuid::Uuid::parse_str` and takes the id as a 128-bit number
/// (`Uuid::as_u128`). Trusted: the result is `parsed_client_id` of the text;
/// which texts that crate accepts is not spelled out here.
#[verifier::external_body]
pub(crate) fn parse_client_id(text: &str) -> (r: Option<u128>)
    ensures
        r == parsed_client_id(text@),
{
    match uuid::Uuid::parse_str(text) {
        Ok(id) => Some(id.as_u128()),
        Err(_) => None,
    }
}

/// Calls `uuid::Uuid::from_u128` and `to_string` on it. Trusted: the text is
/// the hyphenated lower-case form (`client_id_text_of`), as the crate's
/// `Display` writes it, and `parse_str` reads that text back to the same id,
/// as the crate documents for every format it generates.
#[verifier::external_body]
pub(crate) fn client_id_text(id: u128) -> (r: String)
    ensures
        r@ == client_id_text_of(id),
        parsed_client_id(r@) == Some(id),
{
    uuid::Uuid::from_u128(id).to_string()
}

/// A random (version 4) id of the RFC 9562 variant: the version field, bits
/// 76 to 79, holds 4, and the variant field, bits 62 and 63, holds binary 10.
pub open spec fn is_random_client_id(id: u128) -> bool {
    &&& (id >> 76u128) & 0xfu128 == 4u128
    &&& (id >> 62u128) & 0x3u128 == 2u128
}

/// Calls `uuid::Uuid::new_v4` (random) and takes the id as a 128-bit number.
/// Trusted: whatever is drawn, `new_v4` sets the version field to 4 and the
/// variant bits to binary 10 (`is_random_client_id`); the other bits are
/// random and nothing is promised of them.
#[verifier::external_body]
pub(crate) fn fresh_client_id() -> (r: u128)
    ensures
        is_random_client_id(r),
{
    uuid::Uuid::new_v4().as_u128()
}

/// The hyphenated text of an id holds only hexadecimal digits and hyphens, so
/// never a colon.
pub proof fn lemma_client_id_text_has_no_colon(id: u128)
    ensures
        !client_id_text_of(id).contains(':'),
{
    let t = client_id_text_of(id);
    assert forall|i: int| 0 <= i < t.len() implies t[i] != ':' by {
        if !(i == 8 || i == 13 || i == 18 || i == 23) {
            let k = i - hyphens_before(i);
            let p = pow2((4 * (31 - k)) as nat) as int;
            lemma_pow2_pos((4 * (31 - k)) as nat);
            vstd::arithmetic::div_mod::lemma_div_pos_is_pos(id as int, p);
            let v = nibble_at(id, k);
            assert(0 <= v < 16);
            assert(hex_digit(v) as int == (if v < 10 { 48 + v } else { 87 + v }));
        }
    }
}

/// Cutting one more hexadecimal digit off the top: the value above position
/// `k` (inclusive) is sixteen times the value above position `k - 1`, plus the
/// digit at `k`.
proof fn lemma_prefix_step(x: u128, k: int)
    requires
        0 <= k < 32,
    ensures
        x as int / pow2((4 * (31 - k)) as nat) as int == (x as int / pow2(
            (4 * (32 - k)) as nat,
        ) as int) * 16 + nibble_at(x, k),
{
    let e = (4 * (31 - k)) as nat;
    let p = pow2(e) as int;
    lemma2_to64();
    lemma_pow2_pos(e);
    lemma_pow2_adds(e, 4);
    assert((e + 4) as nat == (4 * (32 - k)) as nat);
    assert(pow2((4 * (32 - k)) as nat) as int == p * 16);
    lemma_div_denominator(x as int, p, 16);
    lemma_fundamental_div_mod(x as int / p, 16);
}

/// Ids that agree on their first `k` hexadecimal digits agree on everything
/// above position `k`.
proof fn lemma_prefixes_agree(a: u128, b: u128, k: int)
    requires
        0 <= k <= 32,
        forall|j: int| 0 <= j < k ==> nibble_at(a, j) == nibble_at(b, j),
    ensures
        a as int / pow2((4 * (32 - k)) as nat) as int == b as int / pow2((4 * (32 - k)) as nat) as int,
    decreases k,
{
    if k == 0 {
        lemma2_to64();
        lemma_pow2_adds(64, 64);
        assert(pow2(128) as int > u128::MAX);
        lemma_basic_div(a as int, pow2(128) as int);
        lemma_basic_div(b as int, pow2(128) as int);
    } else {
        lemma_prefixes_agree(a, b, k - 1);
        lemma_prefix_step(a, k - 1);
        lemma_prefix_step(b, k - 1);
    }
}

/// Different client ids have different texts.
pub proof fn lemma_client_id_text_injective(a: u128, b: u128)
    requires
        client_id_text_of(a) == client_id_text_of(b),
    ensures
        a == b,
{
    assert forall|k: int| 0 <= k < 32 implies nibble_at(a, k) == nibble_at(b, k) by {
        let i = k + (if k < 8 {
            0int
        } else if k < 12 {
            1
        } else if k < 16 {
            2
        } else if k < 20 {
            3
        } else {
            4
        });
        assert(hyphens_before(i) == i - k);
        assert(client_id_text_of(a)[i] == client_id_text_of(b)[i]);
        let e = (4 * (31 - k)) as nat;
        lemma_pow2_pos(e);
        vstd::arithmetic::div_mod::lemma_div_pos_is_pos(a as int, pow2(e) as int);
        vstd::arithmetic::div_mod::lemma_div_pos_is_pos(b as int, pow2(e) as int);
        let va = nibble_at(a, k);
        let vb = nibble_at(b, k);
        assert(hex_digit(va) as int == (if va < 10 { 48 + va } else { 87 + va }));
        assert(hex_digit(vb) as int == (if vb < 10 { 48 + vb } else { 87 + vb }));
        assert(!(i == 8 || i == 13 || i == 18 || i == 23));
        assert(client_id_text_of(a)[i] == hex_digit(va));
        assert(client_id_text_of(b)[i] == hex_digit(vb));
        assert(0 <= va < 16 && 0 <= vb < 16);
        assert(hex_digit(va) as int == hex_digit(vb) as int);
    }
    lemma_prefixes_agree(a, b, 32);
    lemma2_to64();
    lemma_div_basics(a as int);
    lemma_div_basics(b as int);
}

} // verus!
