//! The Vigenere cipher: interwoven Caesar shifts, one per message letter,
//! drawn from the letters of a repeating keyword.  Only ASCII letters of the
//! keyword take part; any other character of the message is left as is.

use vstd::prelude::*;

use crate::text::{
    is_ascii_letter, lemma_shift_char_cancel, lemma_shift_char_letter, push_char, shift_char,
    shift_letter,
};

verus! {

/// The upper-case ASCII code of letter `c`.
pub open spec fn upper_code(c: char) -> u8
    recommends
        is_ascii_letter(c),
{
    if 97 <= c as u32 {
        (c as u32 - 32) as u8
    } else {
        (c as u32) as u8
    }
}

/// The upper-case codes of the ASCII letters of `s`, in order: the effective
/// keyword.
pub open spec fn upper_letter_codes(s: Seq<char>) -> Seq<u8>
    decreases s.len(),
{
    if s.len() == 0 {
        Seq::empty()
    } else {
        let rest = upper_letter_codes(s.skip(1));
        if is_ascii_letter(s[0]) {
            seq![upper_code(s[0])] + rest
        } else {
            rest
        }
    }
}

/// How many ASCII letters stand among the first `n` characters of `s`.
pub open spec fn letter_count(s: Seq<char>, n: int) -> int
    decreases n,
{
    if n <= 0 {
        0
    } else {
        letter_count(s, n - 1) + if is_ascii_letter(s[n - 1]) {
            1int
        } else {
            0int
        }
    }
}

/// The rightward shift that encryption applies to the `n`-th message letter:
/// the alphabet position of the `n`-th keyword letter, the keyword repeating.
pub open spec fn vigenere_offset_enc(key: Seq<char>, n: int) -> u32
    recommends
        upper_letter_codes(key).len() > 0,
        n >= 0,
{
    (upper_letter_codes(key)[n % upper_letter_codes(key).len() as int] - 65) as u32
}

/// The rightward shift that decryption applies to the `n`-th message letter:
/// the complement of `vigenere_offset_enc`, so the two cancel.
pub open spec fn vigenere_offset_dec(key: Seq<char>, n: int) -> u32
    recommends
        upper_letter_codes(key).len() > 0,
        n >= 0,
{
    (91 - upper_letter_codes(key)[n % upper_letter_codes(key).len() as int]) as u32
}

/// Every code of the effective keyword is an upper-case letter code.
pub proof fn lemma_upper_letter_codes_range(s: Seq<char>)
    ensures
        forall|t: int| 0 <= t < upper_letter_codes(s).len() ==> 65 <= #[trigger] upper_letter_codes(
            s,
        )[t] <= 90,
    decreases s.len(),
{
    if s.len() > 0 {
        lemma_upper_letter_codes_range(s.skip(1));
        let rest = upper_letter_codes(s.skip(1));
        assert forall|t: int| 0 <= t < upper_letter_codes(s).len() implies 65
            <= #[trigger] upper_letter_codes(s)[t] <= 90 by {
            if is_ascii_letter(s[0]) {
                if t == 0 {
                    assert(upper_letter_codes(s)[t] == upper_code(s[0]));
                } else {
                    assert(upper_letter_codes(s)[t] == rest[t - 1]);
                }
            } else {
                assert(upper_letter_codes(s)[t] == rest[t]);
            }
        }
    }
}

/// A prefix holds at least no letters and at most only letters.
proof fn lemma_letter_count_bounds(s: Seq<char>, n: int)
    requires
        n >= 0,
    ensures
        0 <= letter_count(s, n) <= n,
    decreases n,
{
    if n > 0 {
        lemma_letter_count_bounds(s, n - 1);
    }
}

/// Sequences whose characters are letters at the same positions have the
/// same letter counts.
proof fn lemma_letter_count_eq(a: Seq<char>, b: Seq<char>, n: int)
    requires
        0 <= n <= a.len(),
        b.len() == a.len(),
        forall|i: int| 0 <= i < a.len() ==> is_ascii_letter(b[i]) == is_ascii_letter(a[i]),
    ensures
        letter_count(b, n) == letter_count(a, n),
    decreases n,
{
    if n > 0 {
        lemma_letter_count_eq(a, b, n - 1);
    }
}

/// Round trip: a message enciphered under a keyword, as `vigenere_enc`
/// promises, and then deciphered under the same keyword, as `vigenere_dec`
/// promises, is the original message.
pub proof fn lemma_vigenere_round_trip(
    msg: Seq<char>,
    key: Seq<char>,
    enc: Seq<char>,
    dec: Seq<char>,
)
    requires
        upper_letter_codes(key).len() > 0,
        enc.len() == msg.len(),
        forall|i: int| 0 <= i < msg.len() ==> enc[i] == shift_char(
            msg[i],
            vigenere_offset_enc(key, letter_count(msg, i)),
        ),
        dec.len() == enc.len(),
        forall|i: int| 0 <= i < enc.len() ==> dec[i] == shift_char(
            enc[i],
            vigenere_offset_dec(key, letter_count(enc, i)),
        ),
    ensures
        dec == msg,
{
    lemma_upper_letter_codes_range(key);
    assert forall|i: int| 0 <= i < msg.len() implies is_ascii_letter(enc[i]) == is_ascii_letter(
        msg[i],
    ) by {
        lemma_letter_count_bounds(msg, i);
        lemma_shift_char_letter(msg[i], vigenere_offset_enc(key, letter_count(msg, i)));
    }
    assert forall|i: int| 0 <= i < msg.len() implies dec[i] == msg[i] by {
        lemma_letter_count_bounds(msg, i);
        lemma_letter_count_eq(msg, enc, i);
        lemma_shift_char_cancel(
            msg[i],
            vigenere_offset_enc(key, letter_count(msg, i)),
            vigenere_offset_dec(key, letter_count(msg, i)),
        );
    }
    assert(dec =~= msg);
}

/// The effective keyword of `key` as a byte vector of upper-case codes.
fn effective_keyword(key: &str) -> (fkey: Vec<u8>)
    ensures
        fkey@ == upper_letter_codes(key@),
        forall|t: int| 0 <= t < fkey@.len() ==> 65 <= #[trigger] fkey@[t] <= 90,
{
    let klen: usize = key.unicode_len();
    let mut fkey: Vec<u8> = Vec::new();
    let mut j: usize = 0;
    proof {
        assert(key@.skip(0) =~= key@);
        assert(Seq::<u8>::empty() + upper_letter_codes(key@) =~= upper_letter_codes(key@));
    }
    while j < klen
        invariant
            j <= klen,
            klen == key@.len(),
            fkey@ + upper_letter_codes(key@.skip(j as int)) == upper_letter_codes(key@),
            forall|t: int| 0 <= t < fkey@.len() ==> 65 <= #[trigger] fkey@[t] <= 90,
        decreases klen - j,
    {
        let c = key.get_char(j);
        let v: u32 = c as u32;
        proof {
            assert(key@.skip(j as int).skip(1) =~= key@.skip(j + 1));
        }
        if (65 <= v && v <= 90) || (97 <= v && v <= 122) {
            let code: u8 = if v >= 97 {
                (v - 32) as u8
            } else {
                v as u8
            };
            fkey.push(code);
            proof {
                assert(fkey@ + upper_letter_codes(key@.skip(j + 1)) =~= (fkey@.drop_last()
                    + seq![code]) + upper_letter_codes(key@.skip(j + 1)));
                assert((fkey@.drop_last() + seq![code]) + upper_letter_codes(key@.skip(j + 1))
                    =~= fkey@.drop_last() + (seq![code] + upper_letter_codes(key@.skip(j + 1))));
            }
        }
        j += 1;
    }
    proof {
        assert(key@.skip(klen as int) =~= Seq::<char>::empty());
        assert(fkey@ + upper_letter_codes(Seq::<char>::empty()) =~= fkey@);
    }
    fkey
}

/// Shifts each ASCII letter of `msg` by the offset its keyword letter calls
/// for, encrypting or decrypting; every other character is copied unchanged.
fn vigenere_apply(msg: &str, key: &str, decrypt: bool) -> (res: String)
    requires
        upper_letter_codes(key@).len() > 0,
    ensures
        res@.len() == msg@.len(),
        forall|i: int| 0 <= i < msg@.len() ==> res@[i] == shift_char(
            msg@[i],
            if decrypt {
                vigenere_offset_dec(key@, letter_count(msg@, i))
            } else {
                vigenere_offset_enc(key@, letter_count(msg@, i))
            },
        ),
{
    let fkey = effective_keyword(key);
    let len: usize = msg.unicode_len();
    let mut res = String::new();
    let mut letters: usize = 0;
    let mut i: usize = 0;
    while i < len
        invariant
            i <= len,
            len == msg@.len(),
            fkey@ == upper_letter_codes(key@),
            fkey@.len() > 0,
            forall|t: int| 0 <= t < fkey@.len() ==> 65 <= #[trigger] fkey@[t] <= 90,
            res@.len() == i,
            letters == letter_count(msg@, i as int),
            letters <= i,
            forall|t: int| 0 <= t < i ==> res@[t] == shift_char(
                msg@[t],
                if decrypt {
                    vigenere_offset_dec(key@, letter_count(msg@, t))
                } else {
                    vigenere_offset_enc(key@, letter_count(msg@, t))
                },
            ),
        decreases len - i,
    {
        let ch = msg.get_char(i);
        let v: u32 = ch as u32;
        if (65 <= v && v <= 90) || (97 <= v && v <= 122) {
            let kb: u8 = fkey[letters % fkey.len()];
            let offset: u8 = if decrypt {
                91 - kb
            } else {
                kb - 65
            };
            push_char(&mut res, shift_letter(ch, offset));
            letters += 1;
        } else {
            push_char(&mut res, ch);
        }
        i += 1;
    }
    res
}

/// Vigenere encryption of `msg` under the keyword `key`.  An empty message
/// or an empty keyword is returned unchanged.
pub fn vigenere_enc(msg: &str, key: &str) -> (res: String)
    requires
        msg@.len() == 0 || key@.len() == 0 || upper_letter_codes(key@).len() > 0,
    ensures
        res@.len() == msg@.len(),
        (msg@.len() == 0 || key@.len() == 0) ==> res@ == msg@,
        (msg@.len() > 0 && key@.len() > 0) ==> forall|i: int|
            0 <= i < msg@.len() ==> res@[i] == shift_char(
                msg@[i],
                vigenere_offset_enc(key@, letter_count(msg@, i)),
            ),
{
    if key.is_empty() || msg.is_empty() {
        return msg.to_owned();
    }
    vigenere_apply(msg, key, false)
}

/// Vigenere decryption of `msg` under the keyword `key`: the exact inverse
/// of `vigenere_enc` with the same keyword.
pub fn vigenere_dec(msg: &str, key: &str) -> (res: String)
    requires
        msg@.len() == 0 || key@.len() == 0 || upper_letter_codes(key@).len() > 0,
    ensures
        res@.len() == msg@.len(),
        (msg@.len() == 0 || key@.len() == 0) ==> res@ == msg@,
        (msg@.len() > 0 && key@.len() > 0) ==> forall|i: int|
            0 <= i < msg@.len() ==> res@[i] == shift_char(
                msg@[i],
                vigenere_offset_dec(key@, letter_count(msg@, i)),
            ),
{
    if key.is_empty() || msg.is_empty() {
        return msg.to_owned();
    }
    vigenere_apply(msg, key, true)
}

} // verus!
