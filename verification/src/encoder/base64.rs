//! A Base64 codec: the standard and URL-safe alphabets of RFC 4648, and the
//! MIME line-wrapped form of RFC 2045.
//!
//! Three input bytes become four 6-bit symbols; a final group of one or two
//! bytes is completed with `=` padding unless the caller asks for none.  The
//! decoder does not validate its input: a byte outside the alphabet counts
//! as the symbol value 0, exactly as a table-driven decoder maps it.

use vstd::prelude::*;

verus! {

/// The symbol for the 6-bit value `v` in the standard or URL-safe alphabet;
/// any value of 64 or more gives the padding byte `=`.
pub open spec fn b64_symbol(v: u8, url_safe: bool) -> u8 {
    if v < 26 {
        (65 + v) as u8  // 'A' .. 'Z'
    } else if v < 52 {
        (97 + (v - 26)) as u8  // 'a' .. 'z'
    } else if v < 62 {
        (48 + (v - 52)) as u8  // '0' .. '9'
    } else if v == 62 {
        if url_safe {
            45  // '-'
        } else {
            43  // '+'
        }
    } else if v == 63 {
        if url_safe {
            95  // '_'
        } else {
            47  // '/'
        }
    } else {
        61  // '='
    }
}

/// The 6-bit value of a Base64 symbol, standard or URL-safe; the decoder
/// does not validate, so any other byte counts as 0.
pub open spec fn b64_digit(c: u8) -> u8 {
    if 65 <= c && c <= 90 {
        (c - 65) as u8  // 'A' .. 'Z'
    } else if 97 <= c && c <= 122 {
        (c - 71) as u8  // 'a' .. 'z'
    } else if 48 <= c && c <= 57 {
        (c + 4) as u8  // '0' .. '9'
    } else if c == 43 || c == 45 {
        62  // '+' or '-'
    } else if c == 47 || c == 95 {
        63  // '/' or '_'
    } else {
        0
    }
}

/// Computes `b64_symbol` on one 6-bit value.
fn b64_sym(v: u8, url_safe: bool) -> (r: u8)
    ensures
        r == b64_symbol(v, url_safe),
{
    if v < 26 {
        65 + v
    } else if v < 52 {
        97 + (v - 26)
    } else if v < 62 {
        48 + (v - 52)
    } else if v == 62 {
        if url_safe {
            45
        } else {
            43
        }
    } else if v == 63 {
        if url_safe {
            95
        } else {
            47
        }
    } else {
        61
    }
}

/// Computes `b64_digit` on one symbol.
fn b64_val(c: u8) -> (r: u8)
    ensures
        r == b64_digit(c),
{
    if 65 <= c && c <= 90 {
        c - 65
    } else if 97 <= c && c <= 122 {
        c - 71
    } else if 48 <= c && c <= 57 {
        c + 4
    } else if c == 43 || c == 45 {
        62
    } else if c == 47 || c == 95 {
        63
    } else {
        0
    }
}

/// The four symbols that encode one full 3-byte group.
pub open spec fn encode_group(b0: u8, b1: u8, b2: u8, url_safe: bool) -> Seq<u8> {
    seq![
        b64_symbol(b0 >> 2, url_safe),
        b64_symbol((((b0 & 0x03) * 16) as u8) | (b1 >> 4), url_safe),
        b64_symbol((((b1 & 0x0F) * 4) as u8) | (b2 >> 6), url_safe),
        b64_symbol(b2 & 0x3F, url_safe),
    ]
}

/// RFC 4648 encoding of `data`: the full 3-byte groups, then the one- or
/// two-byte tail with its padding.
pub open spec fn b64_encode_spec(data: Seq<u8>, no_padding: bool, url_safe: bool) -> Seq<u8>
    decreases data.len(),
{
    if data.len() >= 3 {
        encode_group(data[0], data[1], data[2], url_safe) + b64_encode_spec(
            data.skip(3),
            no_padding,
            url_safe,
        )
    } else if data.len() == 2 {
        seq![
            b64_symbol(data[0] >> 2, url_safe),
            b64_symbol((((data[0] & 0x03) * 16) as u8) | (data[1] >> 4), url_safe),
            b64_symbol(((data[1] & 0x0F) * 4) as u8, url_safe),
        ] + (if no_padding {
            Seq::<u8>::empty()
        } else {
            seq![61u8]
        })
    } else if data.len() == 1 {
        seq![b64_symbol(data[0] >> 2, url_safe), b64_symbol(((data[0] & 0x03) * 16) as u8, url_safe)]
            + (if no_padding {
            Seq::<u8>::empty()
        } else {
            seq![61u8, 61u8]
        })
    } else {
        Seq::<u8>::empty()
    }
}

/// An encoding is never one symbol longer than a multiple of four: padded it
/// is a multiple of four, unpadded the tail holds two or three symbols.
proof fn lemma_b64_encode_spec_len(data: Seq<u8>, no_padding: bool, url_safe: bool)
    ensures
        b64_encode_spec(data, no_padding, url_safe).len() % 4 != 1,
        !no_padding ==> b64_encode_spec(data, no_padding, url_safe).len() % 4 == 0,
        data.len() > 0 ==> b64_encode_spec(data, no_padding, url_safe).len() > 0,
    decreases data.len(),
{
    if data.len() >= 3 {
        lemma_b64_encode_spec_len(data.skip(3), no_padding, url_safe);
    }
}

/// The masked pieces an encoder builds its 6-bit values from are small.
proof fn lemma_b64_byte_facts(x: u8, y: u8)
    by (bit_vector)
    ensures
        x >> 2 < 64,
        x & 0x03 <= 3,
        x & 0x0F <= 15,
        x & 0x3F < 64,
        y >> 4 < 16,
        y >> 6 < 4,
        (((x & 0x03) * 16) as u8) | (y >> 4) < 64,
        (((x & 0x0F) * 4) as u8) | (y >> 6) < 64,
        (((x & 0x03) * 16) as u8) < 64,
        (((x & 0x0F) * 4) as u8) < 64,
{
}

/// Encodes a sequence of bytes as Base64 (RFC 4648).  With `no_padding` the
/// final `=` bytes are left off; with `url_safe` the alphabet uses `-` and
/// `_` in place of `+` and `/`.
pub fn b64_encode(data: &[u8], no_padding: bool, url_safe: bool) -> (enc: Vec<u8>)
    ensures
        enc@ == b64_encode_spec(data@, no_padding, url_safe),
        enc@.len() % 4 != 1,
        !no_padding ==> enc@.len() % 4 == 0,
{
    proof {
        lemma_b64_encode_spec_len(data@, no_padding, url_safe);
    }
    let data_len: usize = data.len();
    let mut enc_data: Vec<u8> = Vec::new();
    let mut b_enc: usize = 0;  // number of bytes encoded
    proof {
        assert(data@.skip(0) =~= data@);
        assert(Seq::<u8>::empty() + b64_encode_spec(data@, no_padding, url_safe)
            =~= b64_encode_spec(data@, no_padding, url_safe));
    }
    while data_len - b_enc >= 3
        invariant
            b_enc <= data_len,
            data_len == data@.len(),
            enc_data@ + b64_encode_spec(data@.skip(b_enc as int), no_padding, url_safe)
                == b64_encode_spec(data@, no_padding, url_safe),
        decreases data_len - b_enc,
    {
        let d0 = data[b_enc];
        let d1 = data[b_enc + 1];
        let d2 = data[b_enc + 2];
        proof {
            lemma_b64_byte_facts(d0, d1);
            lemma_b64_byte_facts(d1, d2);
        }
        enc_data.push(b64_sym(d0 >> 2, url_safe));
        enc_data.push(b64_sym(((d0 & 0x03) * 16) | (d1 >> 4), url_safe));
        enc_data.push(b64_sym(((d1 & 0x0F) * 4) | (d2 >> 6), url_safe));
        enc_data.push(b64_sym(d2 & 0x3F, url_safe));
        proof {
            let rest = data@.skip(b_enc as int);
            assert(rest.skip(3) =~= data@.skip(b_enc + 3));
            assert(enc_data@ =~= (enc_data@.subrange(0, enc_data@.len() - 4)) + encode_group(
                d0,
                d1,
                d2,
                url_safe,
            ));
            assert((enc_data@.subrange(0, enc_data@.len() - 4) + encode_group(d0, d1, d2, url_safe))
                + b64_encode_spec(data@.skip(b_enc + 3), no_padding, url_safe) =~= enc_data@.subrange(
                0,
                enc_data@.len() - 4,
            ) + (encode_group(d0, d1, d2, url_safe) + b64_encode_spec(
                data@.skip(b_enc + 3),
                no_padding,
                url_safe,
            )));
        }
        b_enc += 3;
    }
    let ghost loop_out = enc_data@;
    let ghost tail = b64_encode_spec(data@.skip(b_enc as int), no_padding, url_safe);
    if data_len - b_enc > 0 {
        let d0 = data[b_enc];
        proof {
            lemma_b64_byte_facts(d0, d0);
        }
        enc_data.push(b64_sym(d0 >> 2, url_safe));
        if data_len - b_enc == 1 {
            enc_data.push(b64_sym((d0 & 0x03) * 16, url_safe));
            if !no_padding {
                enc_data.push(61);  // padding '='
                enc_data.push(61);
                proof {
                    assert(enc_data@ =~= loop_out + tail);
                }
            } else {
                proof {
                    assert(enc_data@ =~= loop_out + tail);
                }
            }
        } else {
            let d1 = data[b_enc + 1];
            proof {
                lemma_b64_byte_facts(d1, d1);
            }
            enc_data.push(b64_sym(((d0 & 0x03) * 16) | (d1 >> 4), url_safe));
            enc_data.push(b64_sym((d1 & 0x0F) * 4, url_safe));
            if !no_padding {
                enc_data.push(61);  // padding '='
            }
            proof {
                assert(enc_data@ =~= loop_out + tail);
            }
        }
    } else {
        proof {
            assert(data@.skip(b_enc as int) =~= Seq::<u8>::empty());
            assert(enc_data@ =~= loop_out + tail);
        }
    }
    enc_data
}

/// One full 4-symbol group decoded into three bytes through a 24-bit buffer.
pub open spec fn decode_group(c0: u8, c1: u8, c2: u8, c3: u8) -> Seq<u8> {
    let buff = ((b64_digit(c0) as u32) << 18) | ((b64_digit(c1) as u32) << 12) | ((b64_digit(c2)
        as u32) << 6) | (b64_digit(c3) as u32);
    seq![(buff >> 16) as u8, ((buff >> 8) & 0xFF) as u8, (buff & 0xFF) as u8]
}

/// The first `n` full groups of `s` decoded, in order.
pub open spec fn decode_groups(s: Seq<u8>, n: int) -> Seq<u8>
    decreases n,
{
    if n <= 0 {
        Seq::<u8>::empty()
    } else {
        decode_groups(s, n - 1) + decode_group(
            s[4 * (n - 1)],
            s[4 * (n - 1) + 1],
            s[4 * (n - 1) + 2],
            s[4 * (n - 1) + 3],
        )
    }
}

/// Whether the encoding ends in a partial group: its length is no multiple
/// of four, or its last symbol is the padding `=`.
pub open spec fn b64_has_tail(s: Seq<u8>) -> bool
    recommends
        s.len() > 0,
{
    s.len() % 4 != 0 || s[s.len() - 1] == 61
}

/// Whether the partial group holds two data bytes (three symbols), rather
/// than one.
pub open spec fn b64_tail_two(s: Seq<u8>) -> bool
    recommends
        s.len() > 0,
{
    b64_has_tail(s) && (s.len() % 4 > 2 || (s.len() % 4 == 0 && s[s.len() - 2] != 61))
}

/// Where the full 4-symbol groups of `s` end.
pub open spec fn b64_full_len(s: Seq<u8>) -> int {
    ((s.len() - (if b64_has_tail(s) {
        1int
    } else {
        0int
    })) / 4) * 4
}

/// RFC 4648 decoding of a non-empty `s`: the full groups, then one or two
/// bytes from the partial tail.  Meaningful for well-formed input; for any
/// other input it describes exactly what the table-driven decoder produces.
pub open spec fn b64_decode_spec(s: Seq<u8>) -> Seq<u8>
    recommends
        s.len() > 0,
        s.len() % 4 != 1,
{
    let full = decode_groups(s, b64_full_len(s) / 4);
    if b64_has_tail(s) {
        let li = b64_full_len(s);
        let buff = ((b64_digit(s[li]) as u32) << 18) | ((b64_digit(s[li + 1]) as u32) << 12);
        full + seq![(buff >> 16) as u8] + (if b64_tail_two(s) {
            seq![(((buff | ((b64_digit(s[li + 2]) as u32) << 6)) >> 8) & 0xFF) as u8]
        } else {
            Seq::<u8>::empty()
        })
    } else {
        full
    }
}

/// Decodes a Base64 sequence (RFC 4648, standard or URL-safe alphabet), or
/// `None` when it is empty.  The input is not validated: a malformed input
/// decodes to a malformed output.  A length of one more than a multiple of
/// four is ruled out: no Base64 encoding has such a length.
pub fn b64_decode(enc_data: &Vec<u8>) -> (res: Option<Vec<u8>>)
    requires
        enc_data@.len() % 4 != 1,
    ensures
        (res is None) <==> enc_data@.len() == 0,
        res matches Some(v) ==> v@ == b64_decode_spec(enc_data@),
{
    let data_len: usize = enc_data.len();
    if data_len == 0 {
        return None;
    }
    let data_mod: usize = data_len % 4;
    let pad1: bool = data_mod != 0 || enc_data[data_len - 1] == 61;
    // true if there is only one padding: the last group holds two data bytes
    let pad2: bool = pad1 && (data_mod > 2 || (data_mod == 0 && enc_data[data_len - 2] != 61));
    let p: usize = if pad1 {
        1
    } else {
        0
    };
    let last_index: usize = ((data_len - p) / 4) * 4;
    let mut dec_data: Vec<u8> = Vec::new();
    let mut b_dec: usize = 0;  // number of symbols decoded
    while b_dec < last_index
        invariant
            data_len == enc_data@.len(),
            0 < data_len,
            data_len % 4 != 1,
            pad1 == b64_has_tail(enc_data@),
            last_index == b64_full_len(enc_data@),
            last_index <= data_len,
            b_dec % 4 == 0,
            b_dec <= last_index,
            dec_data@ == decode_groups(enc_data@, b_dec as int / 4),
        decreases last_index - b_dec,
    {
        let buff: u32 = ((b64_val(enc_data[b_dec]) as u32) << 18) | ((b64_val(
            enc_data[b_dec + 1],
        ) as u32) << 12) | ((b64_val(enc_data[b_dec + 2]) as u32) << 6) | (b64_val(
            enc_data[b_dec + 3],
        ) as u32);
        dec_data.push(#[verifier::truncate] ((buff >> 16) as u8));
        dec_data.push(#[verifier::truncate] (((buff >> 8) & 0xFF) as u8));
        dec_data.push(#[verifier::truncate] ((buff & 0xFF) as u8));
        proof {
            assert(dec_data@ =~= decode_groups(enc_data@, b_dec as int / 4 + 1));
        }
        b_dec += 4;
    }
    if pad1 {
        let mut buff: u32 = ((b64_val(enc_data[last_index]) as u32) << 18) | ((b64_val(
            enc_data[last_index + 1],
        ) as u32) << 12);
        dec_data.push(#[verifier::truncate] ((buff >> 16) as u8));
        if pad2 {
            buff |= (b64_val(enc_data[last_index + 2]) as u32) << 6;
            dec_data.push(#[verifier::truncate] (((buff >> 8) & 0xFF) as u8));
        }
        proof {
            assert(dec_data@ =~= b64_decode_spec(enc_data@));
        }
    } else {
        proof {
            assert(dec_data@ =~= b64_decode_spec(enc_data@));
        }
    }
    Some(dec_data)
}

/// CRLF pairs inserted into `s` at position 76 and then every 77 positions,
/// as long as the position lies below the unwrapped length `dlen`.
pub open spec fn crlf_insert(s: Seq<u8>, dlen: int, idx: int) -> Seq<u8>
    decreases (if idx < dlen {
        dlen - idx
    } else {
        0int
    }),
{
    if idx >= dlen || idx + 1 > s.len() {
        s
    } else {
        crlf_insert(s.insert(idx, 13u8).insert(idx + 1, 10u8), dlen, idx + 77)
    }
}

/// The MIME (RFC 2045) encoding of `data`: the padded standard encoding,
/// wrapped with CRLF line breaks.
pub open spec fn b64_mime_encode_spec(data: Seq<u8>) -> Seq<u8> {
    let enc = b64_encode_spec(data, false, false);
    crlf_insert(enc, enc.len() as int, 76)
}

/// Encodes a sequence of bytes as MIME Base64: standard alphabet, padding,
/// and a CRLF line break after each wrapped line.
pub fn b64_mime_encode(data: &[u8]) -> (enc: Vec<u8>)
    ensures
        enc@ == b64_mime_encode_spec(data@),
{
    let mut enc_data = b64_encode(data, false, false);
    let data_len: usize = enc_data.len();
    // walk the grown vector, inserting a line break each 76 symbols
    let mut index: u128 = 76;
    let ghost mut inserted: int = 0;
    while index < data_len as u128
        invariant
            data_len == b64_encode_spec(data@, false, false).len(),
            index == 76 + 77 * inserted,
            inserted >= 0,
            enc_data@.len() == data_len + 2 * inserted,
            crlf_insert(enc_data@, data_len as int, index as int) == b64_mime_encode_spec(data@),
        decreases (if index < data_len as u128 {
            data_len as int - index as int
        } else {
            0int
        }),
    {
        let i: usize = index as usize;
        enc_data.insert(i, 0x0D);
        enc_data.insert(i + 1, 0x0A);
        index += 77;
        proof {
            inserted = inserted + 1;
        }
    }
    enc_data
}

/// `s` with every CR and LF byte removed.
pub open spec fn strip_crlf(s: Seq<u8>) -> Seq<u8>
    decreases s.len(),
{
    if s.len() == 0 {
        Seq::<u8>::empty()
    } else {
        let rest = strip_crlf(s.skip(1));
        if s[0] == 13 || s[0] == 10 {
            rest
        } else {
            seq![s[0]] + rest
        }
    }
}

/// Decodes a MIME Base64 sequence: CRLF bytes are dropped, the rest decoded
/// as standard Base64; `None` when nothing but line breaks is left.  As with
/// `b64_decode`, the input is not validated.
pub fn b64_mime_decode(enc_data: &[u8]) -> (res: Option<Vec<u8>>)
    requires
        strip_crlf(enc_data@).len() % 4 != 1,
    ensures
        (res is None) <==> strip_crlf(enc_data@).len() == 0,
        res matches Some(v) ==> v@ == b64_decode_spec(strip_crlf(enc_data@)),
{
    // remove the CRLF bytes
    let len: usize = enc_data.len();
    let mut filtered: Vec<u8> = Vec::new();
    let mut i: usize = 0;
    proof {
        assert(enc_data@.skip(0) =~= enc_data@);
        assert(Seq::<u8>::empty() + strip_crlf(enc_data@) =~= strip_crlf(enc_data@));
    }
    while i < len
        invariant
            i <= len,
            len == enc_data@.len(),
            filtered@ + strip_crlf(enc_data@.skip(i as int)) == strip_crlf(enc_data@),
        decreases len - i,
    {
        let b = enc_data[i];
        proof {
            assert(enc_data@.skip(i as int).skip(1) =~= enc_data@.skip(i + 1));
        }
        if b != 0x0D && b != 0x0A {
            filtered.push(b);
            proof {
                assert(filtered@ + strip_crlf(enc_data@.skip(i + 1)) =~= filtered@.drop_last() + (
                seq![b] + strip_crlf(enc_data@.skip(i + 1))));
            }
        }
        i += 1;
    }
    proof {
        assert(enc_data@.skip(len as int) =~= Seq::<u8>::empty());
        assert(filtered@ + strip_crlf(Seq::<u8>::empty()) =~= filtered@);
    }
    b64_decode(&filtered)
}

/// A symbol of the alphabet proper decodes back to the 6-bit value it
/// encodes, and is never the padding byte.
proof fn lemma_b64_digit_symbol(v: u8, url_safe: bool)
    requires
        v < 64,
    ensures
        b64_digit(b64_symbol(v, url_safe)) == v,
        b64_symbol(v, url_safe) != 61,
{
}

/// The three bytes of a full group are recovered from the 24-bit buffer its
/// four 6-bit values rebuild.
proof fn lemma_group_bits(d0: u8, d1: u8, d2: u8)
    by (bit_vector)
    ensures
        (((((d0 >> 2) as u32) << 18) | ((((((d0 & 0x03) * 16) as u8) | (d1 >> 4)) as u32) << 12) | (
        (((((d1 & 0x0F) * 4) as u8) | (d2 >> 6)) as u32) << 6) | ((d2 & 0x3F) as u32)) >> 16) as u8
            == d0,
        ((((((d0 >> 2) as u32) << 18) | ((((((d0 & 0x03) * 16) as u8) | (d1 >> 4)) as u32) << 12) | (
        (((((d1 & 0x0F) * 4) as u8) | (d2 >> 6)) as u32) << 6) | ((d2 & 0x3F) as u32)) >> 8) & 0xFF)
            as u8 == d1,
        (((((d0 >> 2) as u32) << 18) | ((((((d0 & 0x03) * 16) as u8) | (d1 >> 4)) as u32) << 12) | (
        (((((d1 & 0x0F) * 4) as u8) | (d2 >> 6)) as u32) << 6) | ((d2 & 0x3F) as u32)) & 0xFF) as u8
            == d2,
{
}

/// The one or two bytes of a partial group are recovered the same way.
proof fn lemma_tail_bits(d0: u8, d1: u8)
    by (bit_vector)
    ensures
        (((((d0 >> 2) as u32) << 18) | ((((d0 & 0x03) * 16) as u32) << 12)) >> 16) as u8 == d0,
        (((((d0 >> 2) as u32) << 18) | ((((((d0 & 0x03) * 16) as u8) | (d1 >> 4)) as u32) << 12))
            >> 16) as u8 == d0,
        ((((((d0 >> 2) as u32) << 18) | ((((((d0 & 0x03) * 16) as u8) | (d1 >> 4)) as u32) << 12) | (
        (((d1 & 0x0F) * 4) as u32) << 6)) >> 8) & 0xFF) as u8 == d1,
{
}

/// The decoded full groups are three bytes per group.
proof fn lemma_decode_groups_len(s: Seq<u8>, n: int)
    requires
        n >= 0,
    ensures
        decode_groups(s, n).len() == 3 * n,
    decreases n,
{
    if n > 0 {
        lemma_decode_groups_len(s, n - 1);
    }
}

/// Putting one full group in front of `rest` puts its three bytes in front
/// of the decoded groups of `rest`.
proof fn lemma_decode_groups_shift(c0: u8, c1: u8, c2: u8, c3: u8, rest: Seq<u8>, n: int)
    requires
        n >= 0,
        4 * n <= rest.len(),
    ensures
        decode_groups(seq![c0, c1, c2, c3] + rest, n + 1) == decode_group(c0, c1, c2, c3)
            + decode_groups(rest, n),
    decreases n,
{
    let s = seq![c0, c1, c2, c3] + rest;
    if n == 0 {
        reveal_with_fuel(decode_groups, 2);
        assert(decode_groups(s, 1) =~= decode_group(c0, c1, c2, c3) + decode_groups(rest, 0));
    } else {
        lemma_decode_groups_shift(c0, c1, c2, c3, rest, n - 1);
        assert(s[4 * n] == rest[4 * (n - 1)]);
        assert(s[4 * n + 1] == rest[4 * (n - 1) + 1]);
        assert(s[4 * n + 2] == rest[4 * (n - 1) + 2]);
        assert(s[4 * n + 3] == rest[4 * (n - 1) + 3]);
        assert(decode_groups(s, n + 1) =~= decode_group(c0, c1, c2, c3) + decode_groups(rest, n));
    }
}

/// Putting one full group, not ending in padding, in front of an encoding
/// puts its three bytes in front of the decoding.
proof fn lemma_decode_shift(c0: u8, c1: u8, c2: u8, c3: u8, rest: Seq<u8>)
    requires
        rest.len() > 0,
        rest.len() % 4 != 1,
        c3 != 61,
    ensures
        b64_decode_spec(seq![c0, c1, c2, c3] + rest) == decode_group(c0, c1, c2, c3)
            + b64_decode_spec(rest),
{
    let s = seq![c0, c1, c2, c3] + rest;
    assert(rest.len() >= 2);
    assert(s[s.len() - 1] == rest[rest.len() - 1]);
    assert(s[s.len() - 2] == rest[rest.len() - 2]);
    assert(s.len() % 4 == rest.len() % 4);
    assert(b64_has_tail(s) == b64_has_tail(rest));
    assert(b64_tail_two(s) == b64_tail_two(rest));
    assert(b64_full_len(s) == b64_full_len(rest) + 4);
    let n = b64_full_len(rest) / 4;
    assert(b64_full_len(s) / 4 == n + 1);
    lemma_decode_groups_shift(c0, c1, c2, c3, rest, n);
    lemma_decode_groups_len(rest, n);
    if b64_has_tail(rest) {
        let li = b64_full_len(rest);
        assert(s[4 + li] == rest[li]);
        assert(s[4 + li + 1] == rest[li + 1]);
        if b64_tail_two(rest) {
            assert(s[4 + li + 2] == rest[li + 2]);
        }
    }
    assert(b64_decode_spec(s) =~= decode_group(c0, c1, c2, c3) + b64_decode_spec(rest));
}

/// Round trip: decoding an encoding, padded or not, in either alphabet,
/// restores the original bytes.
#[verifier::rlimit(100)]
pub proof fn lemma_b64_round_trip(data: Seq<u8>, no_padding: bool, url_safe: bool)
    requires
        data.len() > 0,
    ensures
        b64_decode_spec(b64_encode_spec(data, no_padding, url_safe)) == data,
    decreases data.len(),
{
    let enc = b64_encode_spec(data, no_padding, url_safe);
    lemma_b64_byte_facts(data[0], if data.len() > 1 {
        data[1]
    } else {
        data[0]
    });
    if data.len() >= 3 {
        lemma_b64_byte_facts(data[1], data[2]);
        lemma_b64_byte_facts(data[2], data[0]);
        let d0 = data[0];
        let d1 = data[1];
        let d2 = data[2];
        lemma_b64_digit_symbol(d0 >> 2, url_safe);
        lemma_b64_digit_symbol(((d0 & 0x03) * 16) as u8 | (d1 >> 4), url_safe);
        lemma_b64_digit_symbol(((d1 & 0x0F) * 4) as u8 | (d2 >> 6), url_safe);
        lemma_b64_digit_symbol(d2 & 0x3F, url_safe);
        lemma_group_bits(d0, d1, d2);
        if data.len() == 3 {
            assert(data.skip(3) =~= Seq::<u8>::empty());
            assert(b64_encode_spec(data.skip(3), no_padding, url_safe) =~= Seq::<u8>::empty());
            reveal_with_fuel(decode_groups, 2);
            assert(enc =~= seq![
                b64_symbol(d0 >> 2, url_safe),
                b64_symbol((((d0 & 0x03) * 16) as u8) | (d1 >> 4), url_safe),
                b64_symbol((((d1 & 0x0F) * 4) as u8) | (d2 >> 6), url_safe),
                b64_symbol(d2 & 0x3F, url_safe),
            ]);
            assert(!b64_has_tail(enc));
            assert(b64_full_len(enc) == 4);
            assert(b64_decode_spec(enc) =~= decode_group(enc[0], enc[1], enc[2], enc[3]));
            assert(b64_decode_spec(enc) =~= data);
        } else {
            let rest = b64_encode_spec(data.skip(3), no_padding, url_safe);
            lemma_b64_encode_spec_len(data.skip(3), no_padding, url_safe);
            lemma_b64_round_trip(data.skip(3), no_padding, url_safe);
            assert(enc =~= seq![
                b64_symbol(d0 >> 2, url_safe),
                b64_symbol((((d0 & 0x03) * 16) as u8) | (d1 >> 4), url_safe),
                b64_symbol((((d1 & 0x0F) * 4) as u8) | (d2 >> 6), url_safe),
                b64_symbol(d2 & 0x3F, url_safe),
            ] + rest);
            lemma_decode_shift(enc[0], enc[1], enc[2], enc[3], rest);
            assert(b64_decode_spec(enc) =~= data);
        }
    } else if data.len() == 2 {
        let d0 = data[0];
        let d1 = data[1];
        lemma_b64_byte_facts(d1, d0);
        lemma_b64_digit_symbol(d0 >> 2, url_safe);
        lemma_b64_digit_symbol(((d0 & 0x03) * 16) as u8 | (d1 >> 4), url_safe);
        lemma_b64_digit_symbol(((d1 & 0x0F) * 4) as u8, url_safe);
        lemma_tail_bits(d0, d1);
        assert(b64_has_tail(enc));
        assert(b64_tail_two(enc));
        assert(b64_full_len(enc) == 0);
        assert(b64_decode_spec(enc) =~= data);
    } else {
        let d0 = data[0];
        lemma_b64_digit_symbol(d0 >> 2, url_safe);
        lemma_b64_digit_symbol(((d0 & 0x03) * 16) as u8, url_safe);
        lemma_tail_bits(d0, d0);
        assert(b64_has_tail(enc));
        assert(!b64_tail_two(enc));
        assert(b64_full_len(enc) == 0);
        assert(b64_decode_spec(enc) =~= data);
    }
}

/// Stripping distributes over concatenation.
proof fn lemma_strip_crlf_concat(a: Seq<u8>, b: Seq<u8>)
    ensures
        strip_crlf(a + b) == strip_crlf(a) + strip_crlf(b),
    decreases a.len(),
{
    if a.len() == 0 {
        assert(a + b =~= b);
        assert(strip_crlf(a) + strip_crlf(b) =~= strip_crlf(b));
    } else {
        lemma_strip_crlf_concat(a.skip(1), b);
        assert((a + b).skip(1) =~= a.skip(1) + b);
        if !(a[0] == 13 || a[0] == 10) {
            assert(seq![a[0]] + (strip_crlf(a.skip(1)) + strip_crlf(b)) =~= (seq![a[0]]
                + strip_crlf(a.skip(1))) + strip_crlf(b));
        }
    }
}

/// A sequence without CR or LF bytes is left alone by stripping.
proof fn lemma_strip_crlf_clean(s: Seq<u8>)
    requires
        forall|i: int| 0 <= i < s.len() ==> s[i] != 13 && s[i] != 10,
    ensures
        strip_crlf(s) == s,
    decreases s.len(),
{
    if s.len() > 0 {
        lemma_strip_crlf_clean(s.skip(1));
        assert(seq![s[0]] + s.skip(1) =~= s);
    }
}

/// Stripping removes exactly what line wrapping inserted.
proof fn lemma_crlf_insert_strip(s: Seq<u8>, dlen: int, idx: int)
    requires
        idx >= 0,
    ensures
        strip_crlf(crlf_insert(s, dlen, idx)) == strip_crlf(s),
    decreases (if idx < dlen {
        dlen - idx
    } else {
        0int
    }),
{
    if idx < dlen && idx + 1 <= s.len() {
        let s2 = s.insert(idx, 13u8).insert(idx + 1, 10u8);
        lemma_crlf_insert_strip(s2, dlen, idx + 77);
        assert(s2 =~= (s.take(idx) + seq![13u8, 10u8]) + s.skip(idx));
        lemma_strip_crlf_concat(s.take(idx) + seq![13u8, 10u8], s.skip(idx));
        lemma_strip_crlf_concat(s.take(idx), seq![13u8, 10u8]);
        reveal_with_fuel(strip_crlf, 3);
        assert(strip_crlf(seq![13u8, 10u8]) =~= Seq::<u8>::empty());
        lemma_strip_crlf_concat(s.take(idx), s.skip(idx));
        assert(s.take(idx) + s.skip(idx) =~= s);
        assert(strip_crlf(s.take(idx)) + Seq::<u8>::empty() =~= strip_crlf(s.take(idx)));
    }
}

/// No byte of an encoding is a CR or an LF.
proof fn lemma_b64_encode_no_crlf(data: Seq<u8>, no_padding: bool, url_safe: bool)
    ensures
        forall|i: int|
            0 <= i < b64_encode_spec(data, no_padding, url_safe).len()
                ==> #[trigger] b64_encode_spec(data, no_padding, url_safe)[i] != 13
                && b64_encode_spec(data, no_padding, url_safe)[i] != 10,
    decreases data.len(),
{
    if data.len() >= 3 {
        lemma_b64_encode_no_crlf(data.skip(3), no_padding, url_safe);
    }
    let enc = b64_encode_spec(data, no_padding, url_safe);
    assert forall|i: int| 0 <= i < enc.len() implies #[trigger] enc[i] != 13 && enc[i] != 10 by {
        if data.len() >= 3 {
            if i >= 4 {
                assert(enc[i] == b64_encode_spec(data.skip(3), no_padding, url_safe)[i - 4]);
            } else {
                assert(enc[i] == encode_group(data[0], data[1], data[2], url_safe)[i]);
            }
        }
    }
}

/// Round trip for MIME: stripping the line breaks of a MIME encoding gives
/// the padded standard encoding back, and decoding that restores the bytes.
pub proof fn lemma_b64_mime_round_trip(data: Seq<u8>)
    requires
        data.len() > 0,
    ensures
        strip_crlf(b64_mime_encode_spec(data)) == b64_encode_spec(data, false, false),
        b64_decode_spec(strip_crlf(b64_mime_encode_spec(data))) == data,
{
    let enc = b64_encode_spec(data, false, false);
    lemma_crlf_insert_strip(enc, enc.len() as int, 76);
    lemma_b64_encode_no_crlf(data, false, false);
    lemma_strip_crlf_clean(enc);
    lemma_b64_round_trip(data, false, false);
}

} // verus!
