//! Interpreting the user's answers to the prompts: defaults for blank
//! answers, decimal parsing of the shift, and reading the direction letter.

use vstd::prelude::*;
use crate::cipher::Direction;
use crate::cipher::is_upper;

verus! {

/// A digit in decimal notation.
pub open spec fn is_digit(c: char) -> bool {
    '0' <= c && c <= '9'
}

/// The numeric value of one decimal digit.
pub open spec fn digit_val(c: char) -> int {
    c as int - '0' as int
}

pub open spec fn all_digits(s: Seq<char>) -> bool {
    forall|i: int| 0 <= i < s.len() ==> is_digit(#[trigger] s[i])
}

/// The number that a sequence of decimal digits denotes, most significant
/// digit first; the empty sequence denotes zero.
pub open spec fn digits_val(s: Seq<char>) -> int
    decreases s.len(),
{
    if s.len() == 0 {
        0
    } else {
        digits_val(s.drop_last()) * 10 + digit_val(s.last())
    }
}

/// The digits of a numeral: a single leading `'+'` sign is allowed and
/// ignored, as the standard integer parser allows it.
pub open spec fn digits_of(s: Seq<char>) -> Seq<char> {
    if s.len() > 0 && s[0] == '+' {
        s.drop_first()
    } else {
        s
    }
}

/// Whether the text denotes an unsigned 8-bit integer: at least one digit
/// after the optional sign, nothing but digits, and a value at most 255.
pub open spec fn parses_to_u8(s: Seq<char>) -> bool {
    let d = digits_of(s);
    d.len() > 0 && all_digits(d) && digits_val(d) <= 255
}

proof fn lemma_digits_val_nonneg(s: Seq<char>)
    requires
        all_digits(s),
    ensures
        digits_val(s) >= 0,
    decreases s.len(),
{
    if s.len() > 0 {
        assert(all_digits(s.drop_last()));
        lemma_digits_val_nonneg(s.drop_last());
    }
}

/// A numeral denotes at least as much as any of its prefixes: the digits that
/// follow only multiply the prefix's value and add to it.
proof fn lemma_digits_val_prefix_le(s: Seq<char>, k: int)
    requires
        all_digits(s),
        0 <= k <= s.len(),
    ensures
        digits_val(s.take(k)) <= digits_val(s),
    decreases s.len() - k,
{
    if k < s.len() {
        lemma_digits_val_prefix_le(s, k + 1);
        assert(s.take(k + 1).drop_last() =~= s.take(k));
        assert(s.take(k + 1).last() == s[k]);
        assert(all_digits(s.take(k)));
        lemma_digits_val_nonneg(s.take(k));
        assert(digits_val(s.take(k + 1)) == digits_val(s.take(k)) * 10 + digit_val(s[k]));
    } else {
        assert(s.take(k) =~= s);
    }
}

/// Parses an unsigned 8-bit integer written in decimal, with an optional
/// leading `'+'`, exactly as far as the value fits; anything else is refused.
pub fn parse_u8(s: &str) -> (r: Option<u8>)
    ensures
        r is Some <==> parses_to_u8(s@),
        r matches Some(v) ==> v as int == digits_val(digits_of(s@)),
{
    let n: usize = s.unicode_len();
    let ghost d: Seq<char> = digits_of(s@);
    let mut start: usize = 0;
    if n > 0 && s.get_char(0) == '+' {
        start = 1;
    }
    assert(d.len() == n - start);
    assert(forall|j: int| 0 <= j < d.len() ==> d[j] == s@[j + start]);
    if start == n {
        return None;
    }
    let mut acc: u16 = 0;
    let mut i: usize = start;
    while i < n
        invariant
            start <= i <= n,
            n as nat == s@.len(),
            start < n,
            d == digits_of(s@),
            d.len() == n - start,
            forall|j: int| 0 <= j < d.len() ==> d[j] == s@[j + start],
            acc <= 255,
            all_digits(d.take(i - start)),
            acc as int == digits_val(d.take(i - start)),
        decreases n - i,
    {
        let c = s.get_char(i);
        let code: u32 = c as u32;
        if code < 48 || code > 57 {
            assert(!is_digit(d[i - start]));
            return None;
        }
        let dv: u16 = (code - 48) as u16;
        let t: u16 = acc * 10 + dv;
        proof {
            assert(d.take(i - start + 1).drop_last() =~= d.take(i - start));
            assert(d.take(i - start + 1).last() == d[i - start]);
            assert(all_digits(d.take(i - start + 1)));
        }
        if t > 255 {
            proof {
                if all_digits(d) {
                    lemma_digits_val_prefix_le(d, i - start + 1);
                }
            }
            return None;
        }
        acc = t;
        i = i + 1;
    }
    proof {
        assert(d.take(n - start) =~= d);
    }
    Some(acc as u8)
}

/// The phrase to work on: blank input falls back to the default phrase.
pub fn phrase_or_default(input: &str) -> (r: String)
    ensures
        input@.len() == 0 ==> r@ == "Hello, world!"@,
        input@.len() > 0 ==> r@ == input@,
{
    if input.is_empty() {
        "Hello, world!".to_owned()
    } else {
        input.to_owned()
    }
}

/// Whether an answer to the shift prompt is accepted: blank takes the
/// default, otherwise the text must denote an integer of at most 26.
pub open spec fn shift_accepted(s: Seq<char>) -> bool {
    s.len() == 0 || (parses_to_u8(s) && digits_val(digits_of(s)) <= 26)
}

/// The shift an accepted answer denotes; blank input means the default, 13.
pub open spec fn shift_value(s: Seq<char>) -> int {
    if s.len() == 0 {
        13
    } else {
        digits_val(digits_of(s))
    }
}

/// The shift to use: blank input means the default, 13; a numeral above 26 or
/// text that is no numeral at all is refused, and the caller asks again.
pub fn shift_or_default(input: &str) -> (r: Option<u8>)
    ensures
        r is Some <==> shift_accepted(input@),
        r matches Some(v) ==> v as int == shift_value(input@) && v <= 26,
{
    if input.is_empty() {
        return Some(13);
    }
    match parse_u8(input) {
        None => None,
        Some(v) => if v > 26 {
            None
        } else {
            Some(v)
        },
    }
}

/// An ASCII uppercase letter mapped to its lowercase form; any other
/// character is left alone.
pub open spec fn to_lower_char(c: char) -> char {
    if is_upper(c) {
        ((c as int) + 32) as char
    } else {
        c
    }
}

/// Whether an answer to the direction prompt is accepted: blank, or a first
/// character that reads `'e'` or `'d'` in either case.
pub open spec fn direction_accepted(s: Seq<char>) -> bool {
    s.len() == 0 || to_lower_char(s[0]) == 'e' || to_lower_char(s[0]) == 'd'
}

/// The direction an accepted answer asks for; blank input means encrypting.
pub open spec fn direction_value(s: Seq<char>) -> Direction {
    if s.len() == 0 {
        Direction::Encrypt
    } else if to_lower_char(s[0]) == 'd' {
        Direction::Decrypt
    } else {
        Direction::Encrypt
    }
}

fn to_ascii_lower(c: char) -> (r: char)
    ensures
        r == to_lower_char(c),
{
    let code: u32 = c as u32;
    if 65 <= code && code <= 90 {
        ((code + 32) as u8) as char
    } else {
        c
    }
}

/// The direction to use: blank input means encrypting; a first character
/// reading `'e'` or `'d'` in either case decides; anything else is refused,
/// and the caller asks again.
pub fn direction_or_default(input: &str) -> (r: Option<Direction>)
    ensures
        r is Some <==> direction_accepted(input@),
        r matches Some(v) ==> v == direction_value(input@),
{
    if input.is_empty() {
        return Some(Direction::Encrypt);
    }
    let c = input.get_char(0);
    let lc = to_ascii_lower(c);
    if lc == 'e' {
        Some(Direction::Encrypt)
    } else if lc == 'd' {
        Some(Direction::Decrypt)
    } else {
        None
    }
}

} // verus!
