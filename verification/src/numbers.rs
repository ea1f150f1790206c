//! Decimal text of integers, both ways: how vote counts and post ids are
//! written out, and how a post id in a share link is read back.

use vstd::prelude::*;

use crate::text::chars_of;

verus! {

/// The character of decimal digit `d`.
pub open spec fn digit_char(d: int) -> char {
    (48 + d) as char
}

pub open spec fn is_digit(c: char) -> bool {
    '0' <= c && c <= '9'
}

/// Decimal digits of `n`, most significant first, without leading zeros.
pub open spec fn digits_of(n: nat) -> Seq<char>
    decreases n,
{
    if n < 10 {
        seq![digit_char(n as int)]
    } else {
        digits_of(n / 10).push(digit_char((n % 10) as int))
    }
}

/// Decimal text of `n`, with a leading `-` when it is negative.
pub open spec fn decimal_of(n: int) -> Seq<char> {
    if n < 0 {
        seq!['-'] + digits_of((-n) as nat)
    } else {
        digits_of(n as nat)
    }
}

/// The number that a run of decimal digits denotes.
pub open spec fn digits_value(s: Seq<char>) -> int
    decreases s.len(),
{
    if s.len() == 0 {
        0
    } else {
        digits_value(s.drop_last()) * 10 + (s.last() as int - 48)
    }
}

pub open spec fn all_digits(s: Seq<char>) -> bool {
    forall|i: int| 0 <= i < s.len() ==> is_digit(#[trigger] s[i])
}

/// The text without its sign, if it starts with `+` or `-`.
pub open spec fn unsigned_part(s: Seq<char>) -> Seq<char> {
    if s.len() > 0 && (s[0] == '-' || s[0] == '+') {
        s.drop_first()
    } else {
        s
    }
}

/// The 64-bit integer that `s` denotes: an optional `+` or `-`, then one or
/// more decimal digits, within the range of `i64`; nothing otherwise.
pub open spec fn parsed_i64(s: Seq<char>) -> Option<i64> {
    let body = unsigned_part(s);
    let value = if s.len() > 0 && s[0] == '-' {
        -digits_value(body)
    } else {
        digits_value(body)
    };
    if body.len() == 0 || !all_digits(body) {
        None
    } else if i64::MIN <= value <= i64::MAX {
        Some(value as i64)
    } else {
        None
    }
}

fn digit_of(d: u64) -> (c: char)
    requires
        d < 10,
    ensures
        c == digit_char(d as int),
        is_digit(c),
{
    let b: u8 = 48u8 + (d as u8);
    b as char
}

/// Appends the digits of `n`.
fn push_digits(out: &mut String, n: u64)
    ensures
        final(out)@ == old(out)@ + digits_of(n as nat),
    decreases n,
{
    if n >= 10 {
        push_digits(out, n / 10);
    }
    out.push(digit_of(n % 10));
    proof {
        if n >= 10 {
            assert(digits_of(n as nat) == digits_of((n / 10) as nat).push(digit_char((n % 10) as int)));
        }
    }
    assert(out@ =~= old(out)@ + digits_of(n as nat));
}

/// Decimal text of `n`, as integers are displayed.
pub fn decimal_text(n: i64) -> (r: String)
    ensures
        r@ == decimal_of(n as int),
{
    let mut out = String::new();
    if n < 0 {
        out.push('-');
        let magnitude: u64 = (0i128 - (n as i128)) as u64;
        push_digits(&mut out, magnitude);
    } else {
        push_digits(&mut out, n as u64);
    }
    assert(out@ =~= decimal_of(n as int));
    out
}

proof fn lemma_digits_value_prefix(s: Seq<char>, k: int)
    requires
        all_digits(s),
        0 <= k <= s.len(),
    ensures
        0 <= digits_value(s.take(k)) <= digits_value(s),
    decreases s.len(),
{
    if k < s.len() {
        let t = s.drop_last();
        assert(all_digits(t)) by {
            assert forall|i: int| 0 <= i < t.len() implies is_digit(#[trigger] t[i]) by {
                assert(t[i] == s[i]);
            }
        }
        lemma_digits_value_prefix(t, k);
        assert(t.take(k) =~= s.take(k));
        assert(is_digit(s[s.len() - 1]));
    } else {
        assert(s.take(k) =~= s);
        if s.len() > 0 {
            lemma_digits_value_prefix(s.drop_last(), 0);
            let t = s.drop_last();
            assert(all_digits(t)) by {
                assert forall|i: int| 0 <= i < t.len() implies is_digit(#[trigger] t[i]) by {
                    assert(t[i] == s[i]);
                }
            }
            lemma_digits_value_prefix(t, t.len() as int);
            assert(t.take(t.len() as int) =~= t);
            assert(is_digit(s[s.len() - 1]));
        }
    }
}

/// Reads a post id back from its decimal text, as `str::parse::<i64>` does:
/// an optional sign and one or more decimal digits, within range.
pub fn parse_post_id(text: &str) -> (r: Option<i64>)
    ensures
        r == parsed_i64(text@),
{
    let v = chars_of(text);
    let len = v.len();
    let ghost s = v@;
    let negative = len > 0 && v[0] == '-';
    let start: usize = if len > 0 && (v[0] == '-' || v[0] == '+') { 1 } else { 0 };
    let ghost body = unsigned_part(s);
    assert(body =~= s.skip(start as int));
    if start == len {
        return None;
    }
    // Every character after the sign must be a digit.
    let mut i = start;
    while i < len
        invariant
            start <= i <= len,
            len == v.len(),
            s == v@,
            s == text@,
            body == unsigned_part(s),
            body == s.skip(start as int),
            body.len() > 0,
            forall|j: int| 0 <= j < i - start ==> is_digit(#[trigger] body[j]),
        decreases len - i,
    {
        let c = v[i];
        if !('0' <= c && c <= '9') {
            proof {
                assert(body[i - start] == v@[i as int]);
                assert(!is_digit(body[i - start]));
                assert(!all_digits(body));
            }
            return None;
        }
        i += 1;
    }
    assert(all_digits(body));
    let limit: u128 = if negative { 9223372036854775808u128 } else { 9223372036854775807u128 };
    let mut acc: u128 = 0;
    let mut k = start;
    assert(body.take(0) =~= Seq::<char>::empty());
    while k < len
        invariant
            start <= k <= len,
            len == v.len(),
            s == v@,
            s == text@,
            body == unsigned_part(s),
            negative == (s.len() > 0 && s[0] == '-'),
            limit == (if negative { 9223372036854775808u128 } else { 9223372036854775807u128 }),
            body == s.skip(start as int),
            body.len() > 0,
            all_digits(body),
            acc <= limit,
            limit <= 9223372036854775808u128,
            acc == digits_value(body.take(k - start)),
        decreases len - k,
    {
        proof {
            assert(is_digit(body[k - start]));
            assert(body[k - start] == v@[k as int]);
            assert(body.take(k - start + 1).drop_last() =~= body.take(k - start));
            assert(body.take(k - start + 1).last() == v@[k as int]);
        }
        let d = (v[k] as u32 - 48u32) as u128;
        acc = acc * 10 + d;
        if acc > limit {
            proof {
                lemma_digits_value_prefix(body, k - start + 1);
            }
            return None;
        }
        k += 1;
    }
    assert(body.take(len - start) =~= body);
    if negative {
        Some((0i128 - (acc as i128)) as i64)
    } else {
        Some(acc as i64)
    }
}

proof fn lemma_digits_of(n: nat)
    ensures
        digits_of(n).len() > 0,
        all_digits(digits_of(n)),
        is_digit(digits_of(n)[0]),
        digits_value(digits_of(n)) == n,
    decreases n,
{
    let s = digits_of(n);
    assert(digit_char((n % 10) as int) as int == 48 + n % 10);
    if n < 10 {
        assert(s.drop_last() =~= Seq::<char>::empty());
        assert(digits_value(Seq::<char>::empty()) == 0);
        assert(s.last() == digit_char(n as int));
        assert(n % 10 == n);
    } else {
        assert(n == (n / 10) * 10 + n % 10) by (nonlinear_arith);
        lemma_digits_of(n / 10);
        let t = digits_of(n / 10);
        assert(s.drop_last() =~= t);
        assert(s[0] == t[0]);
        assert forall|i: int| 0 <= i < s.len() implies is_digit(#[trigger] s[i]) by {
            if i < t.len() {
                assert(s[i] == t[i]);
            }
        }
    }
}

/// Reading back the decimal text of an integer gives that integer.
pub proof fn lemma_decimal_round_trip(n: i64)
    ensures
        parsed_i64(decimal_of(n as int)) == Some(n),
{
    if n < 0 {
        let m = (-n) as nat;
        lemma_digits_of(m);
        let s = decimal_of(n as int);
        assert(s.drop_first() =~= digits_of(m));
    } else {
        lemma_digits_of(n as nat);
    }
}

} // verus!
