//! The Caesar cipher: each ASCII letter replaced by the letter a fixed number
//! of places down the alphabet, every other character left as is.  A
//! single-alphabet substitution offers no real secrecy; it is kept for
//! completeness.

use vstd::prelude::*;

use crate::text::{lemma_shift_char_cancel, push_char, shift_char, shift_letter};

verus! {

/// The direction in which the Caesar cipher rotates the letters.
pub enum ShiftDirection {
    Left,
    Right,
}

/// The other direction.
pub open spec fn opposite(direction: ShiftDirection) -> ShiftDirection {
    match direction {
        ShiftDirection::Left => ShiftDirection::Right,
        ShiftDirection::Right => ShiftDirection::Left,
    }
}

/// The rightward offset, between 0 and 26, that a shift in the given
/// direction amounts to.
pub open spec fn caesar_offset(shift: u8, direction: ShiftDirection) -> u32 {
    match direction {
        ShiftDirection::Left => (26 - (shift % 26)) as u32,
        ShiftDirection::Right => (shift % 26) as u32,
    }
}

/// Round trip: a text enciphered with some shift and direction, as
/// `caesar_enc` promises, and then deciphered with the same shift and
/// direction, as `caesar_dec` promises, is the original text.
pub proof fn lemma_caesar_round_trip(
    data: Seq<char>,
    enc: Seq<char>,
    dec: Seq<char>,
    shift: u8,
    direction: ShiftDirection,
)
    requires
        enc.len() == data.len(),
        forall|i: int| 0 <= i < data.len() ==> enc[i] == shift_char(
            data[i],
            caesar_offset(shift, direction),
        ),
        dec.len() == enc.len(),
        forall|i: int| 0 <= i < enc.len() ==> dec[i] == shift_char(
            enc[i],
            caesar_offset(shift, opposite(direction)),
        ),
    ensures
        dec == data,
{
    assert forall|i: int| 0 <= i < data.len() implies dec[i] == data[i] by {
        lemma_shift_char_cancel(
            data[i],
            caesar_offset(shift, direction),
            caesar_offset(shift, opposite(direction)),
        );
    }
    assert(dec =~= data);
}

/// A full-alphabet offset moves no letter.
proof fn lemma_shift_char_identity(c: char)
    ensures
        shift_char(c, 0) == c,
        shift_char(c, 26) == c,
{
}

/// Shifts every ASCII letter of `data` by `offset` places to the right,
/// cyclically; everything else is copied unchanged.
fn shift_string(data: &str, offset: u8) -> (res: String)
    requires
        offset <= 26,
    ensures
        res@.len() == data@.len(),
        forall|i: int| 0 <= i < data@.len() ==> res@[i] == shift_char(data@[i], offset as u32),
{
    let len: usize = data.unicode_len();
    let mut res = String::new();
    let mut i: usize = 0;
    while i < len
        invariant
            offset <= 26,
            i <= len,
            len == data@.len(),
            res@.len() == i,
            forall|j: int| 0 <= j < i ==> res@[j] == shift_char(data@[j], offset as u32),
        decreases len - i,
    {
        let ch = data.get_char(i);
        push_char(&mut res, shift_letter(ch, offset));
        i += 1;
    }
    res
}

/// Applies the Caesar cipher to `data`, shifting each ASCII letter by
/// `shift` places in the given direction; any other character is left as is.
pub fn caesar_enc(data: &str, shift: u8, direction: ShiftDirection) -> (res: String)
    ensures
        res@.len() == data@.len(),
        forall|i: int| 0 <= i < data@.len() ==> res@[i] == shift_char(
            data@[i],
            caesar_offset(shift, direction),
        ),
{
    if shift == 0 {
        let res = data.to_owned();
        proof {
            assert forall|i: int| 0 <= i < data@.len() implies res@[i] == shift_char(
                data@[i],
                caesar_offset(0, direction),
            ) by {
                lemma_shift_char_identity(data@[i]);
            }
        }
        return res;
    }
    let offset: u8 = shift % 26;
    let offset: u8 = match direction {
        ShiftDirection::Left => 26 - offset,  // the corresponding right shift
        ShiftDirection::Right => offset,
    };
    shift_string(data, offset)
}

/// Decrypts a Caesar-enciphered string: shifting by the same amount in the
/// opposite direction undoes `caesar_enc`.
pub fn caesar_dec(data: &str, shift: u8, direction: ShiftDirection) -> (res: String)
    ensures
        res@.len() == data@.len(),
        forall|i: int| 0 <= i < data@.len() ==> res@[i] == shift_char(
            data@[i],
            caesar_offset(shift, opposite(direction)),
        ),
{
    if shift == 0 {
        let res = data.to_owned();
        proof {
            assert forall|i: int| 0 <= i < data@.len() implies res@[i] == shift_char(
                data@[i],
                caesar_offset(0, opposite(direction)),
            ) by {
                lemma_shift_char_identity(data@[i]);
            }
        }
        return res;
    }
    let offset: u8 = shift % 26;
    let offset: u8 = match direction {
        ShiftDirection::Left => offset,
        ShiftDirection::Right => 26 - offset,  // the corresponding left shift
    };
    shift_string(data, offset)
}

} // verus!
