//! The DES block cipher: a 16-round Feistel network on 64-bit blocks under a
//! 64-bit key of which 56 bits are effective.
//!
//! Every stage is a table-driven bit permutation, an S-box substitution or an
//! XOR; the spec functions model each stage exactly and the executable
//! functions are proved to compute them.  Weak keys and parity bits are not
//! checked: every stage is total over all 64-bit inputs.

use vstd::prelude::*;

use crate::bits::{
    apply_perm32, apply_perm64, bit32, bit64, lemma_apply_perm64_bits, lemma_u64_eq_by_bits,
    perm_step32, perm_step64,
};

verus! {

/// Key reduction: 64 key bits down to the 56 effective ones.
pub const REDUC_PERM: [u8; 56] = [
    56, 48, 40, 32, 24, 16, 8, 0, 57, 49, 41, 33, 25, 17, 9, 1, 58, 50, 42, 34, 26, 18, 10, 2, 59,
    51, 43, 35, 62, 54, 46, 38, 30, 22, 14, 6, 61, 53, 45, 37, 29, 21, 13, 5, 60, 52, 44, 36, 28,
    20, 12, 4, 27, 19, 11, 3,
];

/// Initial permutation of the 64-bit block.
pub const INIT_PERM: [u8; 64] = [
    57, 49, 41, 33, 25, 17, 9, 1, 59, 51, 43, 35, 27, 19, 11, 3, 61, 53, 45, 37, 29, 21, 13, 5, 63,
    55, 47, 39, 31, 23, 15, 7, 56, 48, 40, 32, 24, 16, 8, 0, 58, 50, 42, 34, 26, 18, 10, 2, 60, 52,
    44, 36, 28, 20, 12, 4, 62, 54, 46, 38, 30, 22, 14, 6,
];

/// Final permutation of the 64-bit block: the exact inverse of `INIT_PERM`.
pub const FINAL_PERM: [u8; 64] = [
    39, 7, 47, 15, 55, 23, 63, 31, 38, 6, 46, 14, 54, 22, 62, 30, 37, 5, 45, 13, 53, 21, 61, 29,
    36, 4, 44, 12, 52, 20, 60, 28, 35, 3, 43, 11, 51, 19, 59, 27, 34, 2, 42, 10, 50, 18, 58, 26,
    33, 1, 41, 9, 49, 17, 57, 25, 32, 0, 40, 8, 48, 16, 56, 24,
];

/// Compression permutation: 48 subkey bits out of the 56-bit rotated key.
pub const COMP_PERM: [u8; 48] = [
    13, 16, 10, 23, 0, 4, 2, 27, 14, 5, 20, 9, 22, 18, 11, 3, 25, 7, 15, 6, 26, 19, 12, 1, 40, 51,
    30, 36, 46, 54, 29, 39, 50, 44, 32, 47, 43, 48, 38, 55, 33, 52, 45, 41, 49, 35, 28, 31,
];

/// Expansion permutation: the 32-bit half block widened to 48 bits.
pub const EXPANSION_PERM: [u8; 48] = [
    31, 0, 1, 2, 3, 4, 3, 4, 5, 6, 7, 8, 7, 8, 9, 10, 11, 12, 11, 12, 13, 14, 15, 16, 15, 16, 17,
    18, 19, 20, 19, 20, 21, 22, 23, 24, 23, 24, 25, 26, 27, 28, 27, 28, 29, 30, 31, 0,
];

/// Result permutation ("P-box") applied after the S-boxes.
pub const P_BOX_PERM: [u8; 32] = [
    15, 6, 19, 20, 28, 11, 27, 16, 0, 14, 22, 25, 4, 17, 30, 9, 1, 7, 23, 13, 31, 26, 2, 8, 18, 12,
    29, 5, 21, 10, 3, 24,
];

/// Left-rotation amount for each of the 16 key-schedule rounds.
pub const ROT: [u8; 16] = [1, 1, 2, 2, 2, 2, 2, 2, 1, 2, 2, 2, 2, 2, 2, 1];

/// The eight S-boxes: each maps a 6-bit group (2-bit row from its outer bits,
/// 4-bit column from its middle bits) to a 4-bit output.
pub const S_BOX: [[u8; 64]; 8] = [
    [
        14, 4, 13, 1, 2, 15, 11, 8, 3, 10, 6, 12, 5, 9, 0, 7, 0, 15, 7, 4, 14, 2, 13, 1, 10, 6, 12,
        11, 9, 5, 3, 8, 4, 1, 14, 8, 13, 6, 2, 11, 15, 12, 9, 7, 3, 10, 5, 0, 15, 12, 8, 2, 4, 9,
        1, 7, 5, 11, 3, 14, 10, 0, 6, 13,
    ],
    [
        15, 1, 8, 14, 6, 11, 3, 4, 9, 7, 2, 13, 12, 0, 5, 10, 3, 13, 4, 7, 15, 2, 8, 14, 12, 0, 1,
        10, 6, 9, 11, 5, 0, 14, 7, 11, 10, 4, 13, 1, 5, 8, 12, 6, 9, 3, 2, 15, 13, 8, 10, 1, 3, 15,
        4, 2, 11, 6, 7, 12, 0, 5, 14, 9,
    ],
    [
        10, 0, 9, 14, 6, 3, 15, 5, 1, 13, 12, 7, 11, 4, 2, 8, 13, 7, 0, 9, 3, 4, 6, 10, 2, 8, 5,
        14, 12, 11, 15, 1, 13, 6, 4, 9, 8, 15, 3, 0, 11, 1, 2, 12, 5, 10, 14, 7, 1, 10, 13, 0, 6,
        9, 8, 7, 4, 15, 14, 3, 11, 5, 2, 12,
    ],
    [
        7, 13, 14, 3, 0, 6, 9, 10, 1, 2, 8, 5, 11, 12, 4, 15, 13, 8, 11, 5, 6, 15, 0, 3, 4, 7, 2,
        12, 1, 10, 14, 9, 10, 6, 9, 0, 12, 11, 7, 13, 15, 1, 3, 14, 5, 2, 8, 4, 3, 15, 0, 6, 10, 1,
        13, 8, 9, 4, 5, 11, 12, 7, 2, 14,
    ],
    [
        2, 12, 4, 1, 7, 10, 11, 6, 8, 5, 3, 15, 13, 0, 14, 9, 14, 11, 2, 12, 4, 7, 13, 1, 5, 0, 15,
        10, 3, 9, 8, 6, 4, 2, 1, 11, 10, 13, 7, 8, 15, 9, 12, 5, 6, 3, 0, 14, 11, 8, 12, 7, 1, 14,
        2, 13, 6, 15, 0, 9, 10, 4, 5, 3,
    ],
    [
        12, 1, 10, 15, 9, 2, 6, 8, 0, 13, 3, 4, 14, 7, 5, 11, 10, 15, 4, 2, 7, 12, 9, 5, 6, 1, 13,
        14, 0, 11, 3, 8, 9, 14, 15, 5, 2, 8, 12, 3, 7, 0, 4, 10, 1, 13, 11, 6, 4, 3, 2, 12, 9, 5,
        15, 10, 11, 14, 1, 7, 6, 0, 8, 13,
    ],
    [
        4, 11, 2, 14, 15, 0, 8, 13, 3, 12, 9, 7, 5, 10, 6, 1, 13, 0, 11, 7, 4, 9, 1, 10, 14, 3, 5,
        12, 2, 15, 8, 6, 1, 4, 11, 13, 12, 3, 7, 14, 10, 15, 6, 8, 0, 5, 9, 2, 6, 11, 13, 8, 1, 4,
        10, 7, 9, 5, 0, 15, 14, 2, 3, 12,
    ],
    [
        13, 2, 8, 4, 6, 15, 11, 1, 10, 9, 3, 14, 5, 0, 12, 7, 1, 15, 13, 8, 10, 3, 7, 4, 12, 5, 6,
        11, 0, 14, 9, 2, 7, 11, 4, 1, 9, 12, 14, 2, 0, 6, 10, 13, 15, 3, 5, 8, 2, 1, 14, 7, 4, 10,
        8, 13, 15, 12, 9, 0, 3, 5, 6, 11,
    ],
];

/// Mask for the most significant bit of a 64-bit word.
const BIT0_64MASK: u64 = 0x8000000000000000;

/// Mask for the most significant bit of a 32-bit word.
const BIT0_32MASK: u32 = 0x80000000;

/// Range and inversion facts about the fixed permutation tables.
pub proof fn lemma_perm_table_facts()
    ensures
        forall|j: int| 0 <= j < 64 ==> INIT_PERM[j] < 64,
        forall|j: int| 0 <= j < 64 ==> FINAL_PERM[j] < 64,
        forall|j: int| 0 <= j < 64 ==> FINAL_PERM[INIT_PERM[j] as int] == j,
        forall|j: int| 0 <= j < 64 ==> INIT_PERM[FINAL_PERM[j] as int] == j,
        forall|j: int| 0 <= j < 56 ==> REDUC_PERM[j] < 64,
        forall|j: int| 0 <= j < 48 ==> COMP_PERM[j] < 64,
        forall|j: int| 0 <= j < 48 ==> EXPANSION_PERM[j] < 32,
        forall|j: int| 0 <= j < 32 ==> P_BOX_PERM[j] < 32,
        forall|j: int| 0 <= j < 16 ==> 1 <= #[trigger] ROT[j] <= 2,
{
    assert forall|j: int| 0 <= j < 64 implies FINAL_PERM[INIT_PERM[j] as int] == j by {
        assert(0 <= j < 64);
    }
    assert forall|j: int| 0 <= j < 64 implies INIT_PERM[FINAL_PERM[j] as int] == j by {
        assert(0 <= j < 64);
    }
}

/// The MSB-of-shift test used by the primitive reads exactly one bit, and the
/// shifted MSB mask is the mask of that output position.
proof fn lemma_bit_select64(f: u64, p: u8, q: u8)
    by (bit_vector)
    requires
        p < 64,
        q < 64,
    ensures
        ((f << p) & 0x8000000000000000u64 != 0) == bit64(f, p as u64),
        0x8000000000000000u64 >> q == 1u64 << ((63 - q) as u64),
{
}

/// The 32-bit form of `lemma_bit_select64`.
proof fn lemma_bit_select32(f: u32, p: u8, q: u8)
    by (bit_vector)
    requires
        p < 32,
        q < 32,
    ensures
        ((f << p) & 0x80000000u32 != 0) == bit32(f, p as u32),
        0x80000000u32 >> q == 1u32 << ((31 - q) as u32),
{
}

/// Sets bit `to_pos` of `to` if and only if bit `from_pos` of `from` is set
/// (MSB-first numbering); every other bit of `to` is left alone.
pub fn permute_bit64(from: &u64, to: &mut u64, from_pos: u8, to_pos: u8)
    requires
        from_pos < 64,
        to_pos < 64,
    ensures
        *final(to) == perm_step64(*from, *old(to), from_pos as u64, to_pos as u64),
{
    proof {
        lemma_bit_select64(*from, from_pos, to_pos);
    }
    if ((*from << from_pos) & BIT0_64MASK) != 0 {
        *to |= BIT0_64MASK >> to_pos;
    }
}

/// The 32-bit form of `permute_bit64`.
pub fn permute_bit32(from: &u32, to: &mut u32, from_pos: u8, to_pos: u8)
    requires
        from_pos < 32,
        to_pos < 32,
    ensures
        *final(to) == perm_step32(*from, *old(to), from_pos as u32, to_pos as u32),
{
    proof {
        lemma_bit_select32(*from, from_pos, to_pos);
    }
    if ((*from << from_pos) & BIT0_32MASK) != 0 {
        *to |= BIT0_32MASK >> to_pos;
    }
}

/// The initial permutation as a value.
pub open spec fn initial_perm(block: u64) -> u64 {
    apply_perm64(block, INIT_PERM@, 64)
}

/// The final permutation as a value.
pub open spec fn final_perm(block: u64) -> u64 {
    apply_perm64(block, FINAL_PERM@, 64)
}

/// The initial and the final permutation undo one another, in both orders.
pub proof fn lemma_perm_inverse(x: u64)
    ensures
        final_perm(initial_perm(x)) == x,
        initial_perm(final_perm(x)) == x,
{
    lemma_perm_table_facts();
    let y = initial_perm(x);
    let z = final_perm(y);
    assert forall|j: u64| j < 64 implies bit64(z, j) == bit64(x, j) by {
        lemma_apply_perm64_bits(y, FINAL_PERM@, 64, j);
        lemma_apply_perm64_bits(x, INIT_PERM@, 64, FINAL_PERM@[j as int] as u64);
    }
    lemma_u64_eq_by_bits(z, x);
    let w = final_perm(x);
    let v = initial_perm(w);
    assert forall|j: u64| j < 64 implies bit64(v, j) == bit64(x, j) by {
        lemma_apply_perm64_bits(w, INIT_PERM@, 64, j);
        lemma_apply_perm64_bits(x, FINAL_PERM@, 64, INIT_PERM@[j as int] as u64);
    }
    lemma_u64_eq_by_bits(v, x);
}

/// Bit `j` of a 28-bit value, MSB-first: bit 0 is bit 27 of the `u32`.
pub open spec fn bit28(x: u32, j: u32) -> bool
    recommends
        x < 0x10000000,
        j < 28,
{
    (x >> ((27 - j) as u32)) & 1 == 1
}

/// Left-circular rotation of a 28-bit value held in a `u32`.
pub open spec fn rotl28(halve: u32, shift: u32) -> u32
    recommends
        halve < 0x10000000,
        shift <= 28,
{
    (((halve << shift) & 0x0FFFFFFF) + (halve >> ((28 - shift) as u32))) as u32
}

/// The two summands of a 28-bit rotation occupy disjoint bit ranges, so their
/// sum stays below 2^28 and cannot overflow.
proof fn lemma_rot28_bounds(h: u32, s: u32)
    by (bit_vector)
    requires
        h < 0x10000000,
        s <= 28,
    ensures
        ((h << s) & 0x0FFFFFFFu32) + (h >> ((28 - s) as u32)) < 0x10000000,
{
}

/// Rotation correctness: every output bit is the input bit `shift` places
/// further left, cyclically, within the 28-bit word.
pub proof fn lemma_rotl28_is_rotation(h: u32, s: u32, j: u32)
    by (bit_vector)
    requires
        h < 0x10000000,
        s <= 28,
        j < 28,
    ensures
        bit28(rotl28(h, s), j) == bit28(h, ((j + s) % 28) as u32),
{
}

/// Left-circular rotation of a 28-bit half by `shift` positions: the bits
/// shifted off the top re-enter at the bottom.
pub fn circ_rot_left(mut halve: u32, shift: u8) -> (res: u32)
    requires
        halve < 0x10000000,
        shift <= 28,
    ensures
        res == rotl28(halve, shift as u32),
        res < 0x10000000,
{
    proof {
        lemma_rot28_bounds(halve, shift as u32);
    }
    let sh: u32 = shift as u32;
    let temp: u32 = halve >> (28 - sh);
    halve <<= sh;
    halve &= 0x0FFFFFFF;
    halve + temp
}

/// The 56-bit reduced key: the key with its eight ignored bits dropped,
/// held in the top 56 bits of a `u64`.
pub open spec fn reduced_key(key: u64) -> u64 {
    apply_perm64(key, REDUC_PERM@, 56)
}

/// The left 28-bit key half before any rotation.
pub open spec fn left_half0(key: u64) -> u32 {
    (reduced_key(key) >> 36) as u32
}

/// The right 28-bit key half before any rotation.
pub open spec fn right_half0(key: u64) -> u32 {
    ((reduced_key(key) >> 8) & 0x0FFFFFFF) as u32
}

/// The left key half after the cumulative rotations of rounds `0 .. r`.
pub open spec fn key_half_l(key: u64, r: int) -> u32
    decreases r,
{
    if r <= 0 {
        left_half0(key)
    } else {
        rotl28(key_half_l(key, r - 1), ROT[r - 1] as u32)
    }
}

/// The right key half after the cumulative rotations of rounds `0 .. r`.
pub open spec fn key_half_r(key: u64, r: int) -> u32
    decreases r,
{
    if r <= 0 {
        right_half0(key)
    } else {
        rotl28(key_half_r(key, r - 1), ROT[r - 1] as u32)
    }
}

/// Round subkey `i`: the recombined halves after `i + 1` rotation rounds,
/// compressed to 48 bits.
pub open spec fn round_subkey(key: u64, i: int) -> u64 {
    apply_perm64(
        ((key_half_l(key, i + 1) as u64) << 36) | ((key_half_r(key, i + 1) as u64) << 8),
        COMP_PERM@,
        48,
    )
}

/// A 28-bit quantity comes out of either initial key-half extraction.
proof fn lemma_split56(k: u64)
    by (bit_vector)
    ensures
        ((k >> 36) as u32) < 0x10000000,
        (((k >> 8) & 0x0FFFFFFF) as u32) < 0x10000000,
{
}

/// Derives the sixteen 48-bit round subkeys from the given key.
pub fn prepare_key(key: u64) -> (keys: [u64; 16])
    ensures
        forall|i: int| 0 <= i < 16 ==> keys[i] == round_subkey(key, i),
{
    let mut redu_key: u64 = 0;
    let mut i: usize = 0;
    while i < 56
        invariant
            i <= 56,
            redu_key == apply_perm64(key, REDUC_PERM@, i as int),
        decreases 56 - i,
    {
        proof {
            lemma_perm_table_facts();
        }
        permute_bit64(&key, &mut redu_key, REDUC_PERM[i], i as u8);
        i += 1;
    }
    // left halve: the first 28 bits; right halve: the last 28 bits
    let mut l_hlv: u32 = (redu_key >> 36) as u32;
    let mut r_hlv: u32 = ((redu_key >> 8) & 0x0FFFFFFF) as u32;
    proof {
        lemma_split56(redu_key);
    }
    let mut round: usize = 0;
    let mut keys: [u64; 16] = [0, 0, 0, 0, 0, 0, 0, 0, 0, 0, 0, 0, 0, 0, 0, 0];
    while round < 16
        invariant
            round <= 16,
            l_hlv == key_half_l(key, round as int),
            r_hlv == key_half_r(key, round as int),
            l_hlv < 0x10000000,
            r_hlv < 0x10000000,
            forall|j: int| 0 <= j < round ==> keys[j] == round_subkey(key, j),
        decreases 16 - round,
    {
        proof {
            lemma_perm_table_facts();
        }
        // circular rotation of both halves
        l_hlv = circ_rot_left(l_hlv, ROT[round]);
        r_hlv = circ_rot_left(r_hlv, ROT[round]);
        // recombine the two halves
        let next_key: u64 = ((l_hlv as u64) << 36) | ((r_hlv as u64) << 8);
        // compression permutation: 48 subkey bits out of the 56
        let mut round_key: u64 = 0;
        i = 0;
        while i < 48
            invariant
                i <= 48,
                round_key == apply_perm64(next_key, COMP_PERM@, i as int),
            decreases 48 - i,
        {
            proof {
                lemma_perm_table_facts();
            }
            permute_bit64(&next_key, &mut round_key, COMP_PERM[i], i as u8);
            i += 1;
        }
        keys[round] = round_key;
        round += 1;
    }
    keys
}

/// Applies the initial permutation to the given 64-bit plain-text block.
pub fn init_permutation(pt_block: u64) -> (res: u64)
    ensures
        res == initial_perm(pt_block),
{
    let mut perm_block: u64 = 0;
    let mut i: usize = 0;
    while i < 64
        invariant
            i <= 64,
            perm_block == apply_perm64(pt_block, INIT_PERM@, i as int),
        decreases 64 - i,
    {
        proof {
            lemma_perm_table_facts();
        }
        permute_bit64(&pt_block, &mut perm_block, INIT_PERM[i], i as u8);
        i += 1;
    }
    perm_block
}

/// Applies the final permutation to the given 64-bit cipher-text block.
pub fn final_permutation(ct_block: u64) -> (res: u64)
    ensures
        res == final_perm(ct_block),
{
    let mut perm_block: u64 = 0;
    let mut i: usize = 0;
    while i < 64
        invariant
            i <= 64,
            perm_block == apply_perm64(ct_block, FINAL_PERM@, i as int),
        decreases 64 - i,
    {
        proof {
            lemma_perm_table_facts();
        }
        permute_bit64(&ct_block, &mut perm_block, FINAL_PERM[i], i as u8);
        i += 1;
    }
    perm_block
}

/// The 6-bit group `i` (leftmost first) of a 48-bit value held in the top
/// bits of a `u64`.
pub open spec fn six_bit_group(x: u64, i: int) -> u64 {
    (x >> ((58 - 6 * i) as u64)) & 0x3F
}

/// The S-box output for group `i`: the row index comes from the group's
/// outer bits (bit 0 worth 2, bit 5 worth 1), the column from its middle
/// four bits.
pub open spec fn sbox_value(i: int, g: u64) -> u8 {
    S_BOX[i][(((((g >> 5) & 1) * 2 + (g & 1)) * 16) + ((g >> 1) & 0xF)) as int]
}

/// The first `n` S-box outputs packed into a 32-bit word, leftmost first.
pub open spec fn sbox_acc(x: u64, n: int) -> u32
    decreases n,
{
    if n <= 0 {
        0
    } else {
        sbox_acc(x, n - 1) | ((sbox_value(n - 1, six_bit_group(x, n - 1)) as u32) << ((28 - 4 * (n
            - 1)) as u32))
    }
}

/// The whole S-box stage: eight 6-bit groups substituted to eight 4-bit
/// outputs.
pub open spec fn sbox_stage(x: u64) -> u32 {
    sbox_acc(x, 8)
}

/// The Feistel mixing function: expansion, key mix, substitution and P-box.
pub open spec fn feistel_mix(r_block: u32, round_key: u64) -> u32 {
    apply_perm32(
        sbox_stage(apply_perm64((r_block as u64) << 32, EXPANSION_PERM@, 48) ^ round_key),
        P_BOX_PERM@,
        32,
    )
}

/// The pieces of an S-box index are small, so the index stays below 64.
proof fn lemma_sbox_index(g: u64)
    by (bit_vector)
    ensures
        (g >> 5) & 1 <= 1,
        g & 1 <= 1,
        (g >> 1) & 0xF <= 15,
        ((((g >> 5) & 1) * 2 + (g & 1)) * 16) + ((g >> 1) & 0xF) < 64,
{
}

/// XOR facts: mixing the same word in twice cancels, in either association,
/// and XOR commutes.
proof fn lemma_xor_cancel(a: u32, b: u32)
    by (bit_vector)
    ensures
        b ^ (b ^ a) == a,
        (b ^ a) ^ b == a,
        a ^ b == b ^ a,
{
}

/// One application of the DES round function: the right half expanded, mixed
/// with the subkey, substituted, permuted, and folded into the left half.
pub fn des_round(l_block: u32, r_block: u32, round_key: u64) -> (res: u32)
    ensures
        res == feistel_mix(r_block, round_key) ^ l_block,
{
    // expansion permutation: the right half widened to 48 bits
    let mut exp_block: u64 = 0;
    let temp_block: u64 = (r_block as u64) << 32;
    let mut i: usize = 0;
    while i < 48
        invariant
            i <= 48,
            exp_block == apply_perm64(temp_block, EXPANSION_PERM@, i as int),
        decreases 48 - i,
    {
        proof {
            lemma_perm_table_facts();
        }
        permute_bit64(&temp_block, &mut exp_block, EXPANSION_PERM[i], i as u8);
        i += 1;
    }
    // mix with the round subkey
    exp_block = exp_block ^ round_key;
    // S-box substitution, one 6-bit group at a time
    let mut s_out: u32 = 0;
    i = 0;
    while i < 8
        invariant
            i <= 8,
            exp_block == apply_perm64(temp_block, EXPANSION_PERM@, 48) ^ round_key,
            s_out == sbox_acc(exp_block, i as int),
        decreases 8 - i,
    {
        let g: u64 = (exp_block >> (58 - 6 * (i as u64))) & 0x3F;
        proof {
            lemma_sbox_index(g);
        }
        let row_col: usize = (((((g >> 5) & 1) * 2 + (g & 1)) * 16) + ((g >> 1) & 0xF)) as usize;
        s_out |= (S_BOX[i][row_col] as u32) << (28 - 4 * (i as u32));
        i += 1;
    }
    // P-box permutation of the substituted word
    i = 0;
    let mut r_temp_block: u32 = 0;
    while i < 32
        invariant
            i <= 32,
            s_out == sbox_stage(apply_perm64(temp_block, EXPANSION_PERM@, 48) ^ round_key),
            r_temp_block == apply_perm32(s_out, P_BOX_PERM@, i as int),
        decreases 32 - i,
    {
        proof {
            lemma_perm_table_facts();
        }
        permute_bit32(&s_out, &mut r_temp_block, P_BOX_PERM[i], i as u8);
        i += 1;
    }
    // fold into the original left half
    r_temp_block ^ l_block
}

/// The subkey sequence of a key, in encryption order.
pub open spec fn key_schedule(key: u64) -> Seq<u64> {
    Seq::new(16, |i: int| round_subkey(key, i))
}

/// The Feistel state after one round for each subkey in `ks`, starting from
/// halves `(l, r)`.
pub open spec fn feistel_rounds(l: u32, r: u32, ks: Seq<u64>) -> (u32, u32)
    decreases ks.len(),
{
    if ks.len() == 0 {
        (l, r)
    } else {
        feistel_rounds(r, feistel_mix(r, ks[0]) ^ l, ks.skip(1))
    }
}

/// Splitting the concatenation of two halves gives the halves back, and the
/// halves are disjoint, so `|` and `+` concatenate alike.
proof fn lemma_combine_split(l: u32, r: u32)
    by (bit_vector)
    ensures
        ((((r as u64) << 32) | (l as u64)) >> 32) as u32 == r,
        ((((r as u64) << 32) | (l as u64)) & 0xFFFFFFFF) as u32 == l,
        ((r as u64) << 32) | (l as u64) == ((r as u64) << 32) + (l as u64),
{
}

/// Concatenating the two halves of a word gives the word back.
proof fn lemma_split_combine(p: u64)
    by (bit_vector)
    ensures
        (((((p >> 32) as u32) as u64) << 32) | (((p & 0xFFFFFFFF) as u32) as u64)) == p,
{
}

/// Appending one subkey to a round sequence runs one more round at the end.
proof fn lemma_feistel_rounds_snoc(l: u32, r: u32, s: Seq<u64>, k: u64)
    ensures
        ({
            let lr = feistel_rounds(l, r, s);
            feistel_rounds(l, r, s.push(k)) == (lr.1, feistel_mix(lr.1, k) ^ lr.0)
        }),
    decreases s.len(),
{
    if s.len() == 0 {
        reveal_with_fuel(feistel_rounds, 2);
        assert(s.push(k).skip(1) =~= Seq::<u64>::empty());
    } else {
        lemma_feistel_rounds_snoc(r, feistel_mix(r, s[0]) ^ l, s.skip(1), k);
        assert(s.push(k).skip(1) =~= s.skip(1).push(k));
    }
}

/// The self-inverting Feistel property: running the rounds again on the
/// swapped final halves, with the subkeys in reverse order, restores the
/// swapped initial halves.
pub proof fn lemma_feistel_rounds_reverse(l: u32, r: u32, ks: Seq<u64>)
    ensures
        ({
            let lr = feistel_rounds(l, r, ks);
            feistel_rounds(lr.1, lr.0, ks.reverse()) == (r, l)
        }),
    decreases ks.len(),
{
    if ks.len() == 0 {
        assert(ks.reverse() =~= Seq::<u64>::empty());
    } else {
        let l1 = r;
        let r1 = feistel_mix(r, ks[0]) ^ l;
        lemma_feistel_rounds_reverse(l1, r1, ks.skip(1));
        let lr = feistel_rounds(l1, r1, ks.skip(1));
        assert(ks.reverse() =~= ks.skip(1).reverse().push(ks[0]));
        lemma_feistel_rounds_snoc(lr.1, lr.0, ks.skip(1).reverse(), ks[0]);
        lemma_xor_cancel(l, feistel_mix(r, ks[0]));
    }
}

/// DES encryption as a value: initial permutation, 16 rounds, half swap,
/// final permutation.
pub open spec fn des_encrypt_spec(plain_text: u64, key: u64) -> u64 {
    let p = initial_perm(plain_text);
    let lr = feistel_rounds((p >> 32) as u32, (p & 0xFFFFFFFF) as u32, key_schedule(key));
    final_perm(((lr.1 as u64) << 32) | (lr.0 as u64))
}

/// DES decryption as a value: the same network with the subkeys in reverse
/// order.
pub open spec fn des_decrypt_spec(cipher_text: u64, key: u64) -> u64 {
    let p = initial_perm(cipher_text);
    let lr = feistel_rounds(
        (p >> 32) as u32,
        (p & 0xFFFFFFFF) as u32,
        key_schedule(key).reverse(),
    );
    final_perm(((lr.1 as u64) << 32) | (lr.0 as u64))
}

/// Round trip: decrypting an encrypted block with the same key restores the
/// block, and encrypting a decrypted block does too.
pub proof fn lemma_des_round_trip(block: u64, key: u64)
    ensures
        des_decrypt_spec(des_encrypt_spec(block, key), key) == block,
        des_encrypt_spec(des_decrypt_spec(block, key), key) == block,
{
    let p = initial_perm(block);
    let l0 = (p >> 32) as u32;
    let r0 = (p & 0xFFFFFFFF) as u32;
    let ks = key_schedule(key);
    lemma_split_combine(p);
    lemma_perm_inverse(block);

    // encrypt, then decrypt
    let lr = feistel_rounds(l0, r0, ks);
    let joined = ((lr.1 as u64) << 32) | (lr.0 as u64);
    lemma_perm_inverse(joined);
    lemma_combine_split(lr.0, lr.1);
    lemma_feistel_rounds_reverse(l0, r0, ks);

    // decrypt, then encrypt
    let lrd = feistel_rounds(l0, r0, ks.reverse());
    let joined_d = ((lrd.1 as u64) << 32) | (lrd.0 as u64);
    lemma_perm_inverse(joined_d);
    lemma_combine_split(lrd.0, lrd.1);
    lemma_feistel_rounds_reverse(l0, r0, ks.reverse());
    assert(ks.reverse().reverse() =~= ks);
}

/// Encrypts one 64-bit block under the given key.
pub fn des_encrypt(plain_text: u64, key: u64) -> (res: u64)
    ensures
        res == des_encrypt_spec(plain_text, key),
{
    // initial permutation
    let plain_text = init_permutation(plain_text);
    // prepare the subkeys for the rounds
    let round_key = prepare_key(key);
    // block splitting
    let mut left: u32 = (plain_text >> 32) as u32;
    let mut right: u32 = (plain_text & 0xFFFFFFFF) as u32;
    let mut temp_right: u32 = right;
    let mut i: usize = 0;
    while i < 16
        invariant
            i <= 16,
            temp_right == right,
            (left, right) == feistel_rounds(
                (plain_text >> 32) as u32,
                (plain_text & 0xFFFFFFFF) as u32,
                key_schedule(key).take(i as int),
            ),
            forall|j: int| 0 <= j < 16 ==> round_key[j] == round_subkey(key, j),
        decreases 16 - i,
    {
        proof {
            lemma_feistel_rounds_snoc(
                (plain_text >> 32) as u32,
                (plain_text & 0xFFFFFFFF) as u32,
                key_schedule(key).take(i as int),
                key_schedule(key)[i as int],
            );
            assert(key_schedule(key).take(i + 1) =~= key_schedule(key).take(i as int).push(
                key_schedule(key)[i as int],
            ));
        }
        right = des_round(left, right, round_key[i]);
        left = temp_right;
        temp_right = right;
        i += 1;
    }
    proof {
        assert(key_schedule(key).take(16) =~= key_schedule(key));
        lemma_combine_split(left, right);
    }
    // combine the two halves, swapped, and apply the final permutation
    let cipher_text = ((right as u64) << 32) + (left as u64);
    final_permutation(cipher_text)
}

/// Decrypts one 64-bit block under the given key.
pub fn des_decrypt(cipher_text: u64, key: u64) -> (res: u64)
    ensures
        res == des_decrypt_spec(cipher_text, key),
{
    let cipher_text = init_permutation(cipher_text);
    let round_key = prepare_key(key);
    // block splitting
    let mut left: u32 = (cipher_text >> 32) as u32;
    let mut right: u32 = (cipher_text & 0xFFFFFFFF) as u32;
    let mut temp_right: u32 = right;
    let mut i: usize = 0;
    while i < 16
        invariant
            i <= 16,
            temp_right == right,
            (left, right) == feistel_rounds(
                (cipher_text >> 32) as u32,
                (cipher_text & 0xFFFFFFFF) as u32,
                key_schedule(key).reverse().take(i as int),
            ),
            forall|j: int| 0 <= j < 16 ==> round_key[j] == round_subkey(key, j),
        decreases 16 - i,
    {
        proof {
            lemma_feistel_rounds_snoc(
                (cipher_text >> 32) as u32,
                (cipher_text & 0xFFFFFFFF) as u32,
                key_schedule(key).reverse().take(i as int),
                key_schedule(key).reverse()[i as int],
            );
            assert(key_schedule(key).reverse().take(i + 1) =~= key_schedule(key).reverse().take(
                i as int,
            ).push(key_schedule(key).reverse()[i as int]));
            assert(key_schedule(key).reverse()[i as int] == round_subkey(key, 15 - i));
        }
        right = des_round(left, right, round_key[15 - i]);
        left = temp_right;
        temp_right = right;
        i += 1;
    }
    proof {
        assert(key_schedule(key).reverse().take(16) =~= key_schedule(key).reverse());
        lemma_combine_split(left, right);
    }
    // combine the two halves, swapped, and apply the final permutation
    let cipher_text = ((right as u64) << 32) + (left as u64);
    final_permutation(cipher_text)
}

} // verus!
