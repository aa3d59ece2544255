//! Shared helpers for the letter-substitution ciphers: ASCII letter tests,
//! cyclic alphabet shifts, and string construction.

use vstd::prelude::*;

verus! {

/// An ASCII letter, in either case.
pub open spec fn is_ascii_letter(c: char) -> bool {
    (65 <= c as u32 && c as u32 <= 90) || (97 <= c as u32 && c as u32 <= 122)
}

/// The first code point of the case block that letter `c` belongs to.
pub open spec fn letter_base(c: char) -> u32 {
    if 97 <= c as u32 && c as u32 <= 122 {
        97
    } else {
        65
    }
}

/// `c` moved `offset` places down the alphabet, cyclically, case kept;
/// any character that is not an ASCII letter is left as is.
pub open spec fn shift_char(c: char, offset: u32) -> char
    recommends
        offset <= 26,
{
    if is_ascii_letter(c) {
        (letter_base(c) + ((c as u32 - letter_base(c) + offset) % 26)) as char
    } else {
        c
    }
}

/// Computes `shift_char` on one character.
pub fn shift_letter(c: char, offset: u8) -> (res: char)
    requires
        offset <= 26,
    ensures
        res == shift_char(c, offset as u32),
{
    let v: u32 = c as u32;
    if (65 <= v && v <= 90) || (97 <= v && v <= 122) {
        let base: u32 = if 97 <= v && v <= 122 {
            97
        } else {
            65
        };
        let shifted: u32 = base + ((v - base + (offset as u32)) % 26);
        (shifted as u8) as char
    } else {
        c
    }
}

/// Shifting moves letters to letters of the same case and leaves everything
/// else alone, so a shift never changes which characters are letters.
pub proof fn lemma_shift_char_letter(c: char, offset: u32)
    requires
        offset <= 26,
    ensures
        is_ascii_letter(shift_char(c, offset)) == is_ascii_letter(c),
        is_ascii_letter(c) ==> letter_base(shift_char(c, offset)) == letter_base(c),
{
}

/// Two shifts whose offsets add up to a multiple of the alphabet cancel.
pub proof fn lemma_shift_char_cancel(c: char, o1: u32, o2: u32)
    requires
        o1 <= 26,
        o2 <= 26,
        (o1 + o2) % 26 == 0,
    ensures
        shift_char(shift_char(c, o1), o2) == c,
{
    if is_ascii_letter(c) {
        lemma_shift_char_letter(c, o1);
        let base = letter_base(c);
        let x = c as u32 - base;
        let m = shift_char(c, o1);
        assert(m as u32 == base + ((x + o1) % 26));
        assert(((x + o1) % 26 + o2) % 26 == x) by (nonlinear_arith)
            requires
                0 <= x < 26,
                o1 <= 26,
                o2 <= 26,
                (o1 + o2) % 26 == 0,
        ;
    }
}

/// Relies on `String::push`: appends exactly one character at the end.
#[verifier::external_body]
pub fn push_char(s: &mut String, c: char)
    ensures
        final(s)@ == old(s)@.push(c),
{
    s.push(c);
}

} // verus!
