//! The Caesar transform: rotate each ASCII letter within its case by a fixed
//! shift, leaving every other character untouched.

use vstd::prelude::*;

verus! {

/// Which way the cipher runs. Decrypting with shift `s` is the same as
/// encrypting with shift `(26 - s) % 26`.
#[derive(Clone, Copy, PartialEq, Eq, Structural, Debug)]
pub enum Direction {
    Encrypt,
    Decrypt,
}

pub open spec fn is_upper(c: char) -> bool {
    'A' <= c && c <= 'Z'
}

pub open spec fn is_lower(c: char) -> bool {
    'a' <= c && c <= 'z'
}

pub open spec fn is_letter(c: char) -> bool {
    is_upper(c) || is_lower(c)
}

/// The rotation that is actually applied to the letters: the shift itself when
/// encrypting, its complement modulo 26 when decrypting.
pub open spec fn effective_shift(shift: u8, direction: Direction) -> int {
    match direction {
        Direction::Encrypt => shift as int,
        Direction::Decrypt => (26 - shift as int) % 26,
    }
}

/// One character of the transform: an ASCII letter is rotated by `off` places
/// within its own case; anything else stays as it is.
pub open spec fn rotate_char(c: char, off: int) -> char {
    if is_upper(c) {
        ((('A' as int) + ((c as int) - ('A' as int) + off) % 26) as char)
    } else if is_lower(c) {
        ((('a' as int) + ((c as int) - ('a' as int) + off) % 26) as char)
    } else {
        c
    }
}

/// The whole transform, character by character.
pub open spec fn rotate_seq(s: Seq<char>, off: int) -> Seq<char> {
    s.map_values(|c: char| rotate_char(c, off))
}

/// Rotates one character by `off` places within its case.
pub fn shift_char(c: char, off: u8) -> (r: char)
    requires
        off <= 26,
    ensures
        r == rotate_char(c, off as int),
{
    let code: u32 = c as u32;
    if 65 <= code && code <= 90 {
        let shifted: u32 = (code - 65 + off as u32) % 26 + 65;
        (shifted as u8) as char
    } else if 97 <= code && code <= 122 {
        let shifted: u32 = (code - 97 + off as u32) % 26 + 97;
        (shifted as u8) as char
    } else {
        c
    }
}

/// Relies on `String::push`: appends the given character at the end of the
/// string, so the new view is the old view with `c` pushed.
pub assume_specification[ String::push ](s: &mut String, c: char)
    ensures
        final(s)@ == old(s)@.push(c),
;

/// Applies the Caesar transform to a whole phrase. The result is the input,
/// character by character, rotated by the effective shift; length, letter case
/// and every non-letter character are preserved in place.
pub fn transform(text: &str, shift: u8, direction: Direction) -> (r: String)
    requires
        shift <= 26,
    ensures
        r@ == rotate_seq(text@, effective_shift(shift, direction)),
        r@.len() == text@.len(),
        forall|i: int| 0 <= i < text@.len() && !is_letter(text@[i]) ==> r@[i] == text@[i],
{
    let off: u8 = match direction {
        Direction::Encrypt => shift,
        Direction::Decrypt => (26 - shift) % 26,
    };
    let ghost eff: int = effective_shift(shift, direction);
    assert(off as int == eff);
    let n: usize = text.unicode_len();
    let mut out = String::new();
    let mut i: usize = 0;
    while i < n
        invariant
            n as nat == text@.len(),
            i <= n,
            off <= 26,
            off as int == eff,
            eff == effective_shift(shift, direction),
            out@ == rotate_seq(text@, eff).take(i as int),
        decreases n - i,
    {
        let c = text.get_char(i);
        let rc = shift_char(c, off);
        out.push(rc);
        proof {
            assert(rotate_seq(text@, eff)[i as int] == rotate_char(text@[i as int], eff));
            assert(out@ =~= rotate_seq(text@, eff).take(i as int + 1));
        }
        i = i + 1;
    }
    proof {
        assert(out@ =~= rotate_seq(text@, eff));
        assert forall|j: int| 0 <= j < text@.len() && !is_letter(text@[j]) implies out@[j]
            == text@[j] by {
            assert(out@[j] == rotate_char(text@[j], eff));
        }
    }
    out
}

/// Rotation never changes a character's kind: an uppercase letter stays
/// uppercase, a lowercase letter stays lowercase, and a non-letter stays
/// exactly as it is.
pub proof fn lemma_rotate_char_case(c: char, off: int)
    ensures
        is_upper(c) ==> is_upper(rotate_char(c, off)),
        is_lower(c) ==> is_lower(rotate_char(c, off)),
        !is_letter(c) ==> rotate_char(c, off) == c,
{
    if is_upper(c) {
        let v: int = ('A' as int) + ((c as int) - ('A' as int) + off) % 26;
        assert(65 <= v <= 90);
        assert((v as char) as int == v);
    } else if is_lower(c) {
        let v: int = ('a' as int) + ((c as int) - ('a' as int) + off) % 26;
        assert(97 <= v <= 122);
        assert((v as char) as int == v);
    }
}

/// Two rotations whose offsets add up to a multiple of 26 cancel on an
/// alphabet position.
proof fn lemma_rotate_cancel(a: int, e: int, d: int)
    requires
        0 <= a < 26,
        (e + d) % 26 == 0,
    ensures
        ((a + e) % 26 + d) % 26 == a,
{
    broadcast use vstd::arithmetic::div_mod::lemma_add_mod_noop;
    broadcast use vstd::arithmetic::div_mod::lemma_mod_twice;

    assert(((a + e) % 26 + d) % 26 == (a + e + d) % 26);
    assert((a + e + d) % 26 == (a % 26 + (e + d) % 26) % 26);
    assert(a % 26 == a) by {
        vstd::arithmetic::div_mod::lemma_small_mod(a as nat, 26);
    }
}

/// Decrypting undoes encrypting: for every character and every shift in
/// `[0, 26]`, rotating by the shift and then by its complement gives the
/// character back.
pub proof fn lemma_round_trip_char(c: char, shift: u8)
    requires
        shift <= 26,
    ensures
        rotate_char(
            rotate_char(c, effective_shift(shift, Direction::Encrypt)),
            effective_shift(shift, Direction::Decrypt),
        ) == c,
{
    let e: int = effective_shift(shift, Direction::Encrypt);
    let d: int = effective_shift(shift, Direction::Decrypt);
    assert((e + d) % 26 == 0) by {
        if shift != 0 && shift != 26 {
            assert(d == 26 - shift);
        }
    }
    lemma_rotate_char_case(c, e);
    if is_upper(c) {
        let r1: char = rotate_char(c, e);
        assert(r1 as int == 'A' as int + (c as int - 'A' as int + e) % 26);
        lemma_rotate_cancel(c as int - 'A' as int, e, d);
        assert(rotate_char(r1, d) as int == c as int);
    } else if is_lower(c) {
        let r1: char = rotate_char(c, e);
        assert(r1 as int == 'a' as int + (c as int - 'a' as int + e) % 26);
        lemma_rotate_cancel(c as int - 'a' as int, e, d);
        assert(rotate_char(r1, d) as int == c as int);
    }
}

/// Decrypting undoes encrypting on whole phrases: for every phrase and every
/// shift in `[0, 26]`, encrypting and then decrypting with the same shift
/// gives the phrase back.
pub proof fn lemma_round_trip(s: Seq<char>, shift: u8)
    requires
        shift <= 26,
    ensures
        rotate_seq(
            rotate_seq(s, effective_shift(shift, Direction::Encrypt)),
            effective_shift(shift, Direction::Decrypt),
        ) == s,
{
    let e: int = effective_shift(shift, Direction::Encrypt);
    let d: int = effective_shift(shift, Direction::Decrypt);
    let t: Seq<char> = rotate_seq(rotate_seq(s, e), d);
    assert forall|i: int| 0 <= i < s.len() implies t[i] == s[i] by {
        lemma_round_trip_char(s[i], shift);
    }
    assert(t =~= s);
}

/// The direction named by the answer character: `'d'` asks for decryption,
/// anything else encrypts.
pub open spec fn direction_of(c: char) -> Direction {
    if c == 'd' {
        Direction::Decrypt
    } else {
        Direction::Encrypt
    }
}

/// Transforms the phrase with the given shift, decrypting when the direction
/// character is `'d'` and encrypting otherwise.
pub fn process_phrase(phrase: &String, shift: &u8, direction: &char) -> (r: String)
    requires
        *shift <= 26,
    ensures
        r@ == rotate_seq(phrase@, effective_shift(*shift, direction_of(*direction))),
        r@.len() == phrase@.len(),
{
    let dir = if *direction == 'd' {
        Direction::Decrypt
    } else {
        Direction::Encrypt
    };
    transform(phrase.as_str(), *shift, dir)
}

} // verus!
