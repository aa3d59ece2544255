//! MSB-first bit indexing and table-driven bit permutations.
//!
//! Permutation tables list, for every output position, which input bit lands
//! there, with bit 0 the most significant bit.  The spec functions here give
//! those tables a meaning, and the lemmas let a caller read single bits out of
//! a permuted word and recover whole-word equality from bitwise equality.

use vstd::prelude::*;

verus! {

/// Bit `i` of `x` under MSB-first numbering: bit 0 is the most significant bit.
pub open spec fn bit64(x: u64, i: u64) -> bool
    recommends
        i < 64,
{
    (x >> ((63 - i) as u64)) & 1 == 1
}

/// Bit `i` of `x` under MSB-first numbering, on 32-bit words.
pub open spec fn bit32(x: u32, i: u32) -> bool
    recommends
        i < 32,
{
    (x >> ((31 - i) as u32)) & 1 == 1
}

/// One step of a table-driven permutation: the accumulator `to`, with its bit
/// `to_pos` additionally set when bit `from_pos` of `from` is set.
pub open spec fn perm_step64(from: u64, to: u64, from_pos: u64, to_pos: u64) -> u64
    recommends
        from_pos < 64,
        to_pos < 64,
{
    if bit64(from, from_pos) {
        to | (1u64 << ((63 - to_pos) as u64))
    } else {
        to
    }
}

/// One step of a table-driven permutation on 32-bit words.
pub open spec fn perm_step32(from: u32, to: u32, from_pos: u32, to_pos: u32) -> u32
    recommends
        from_pos < 32,
        to_pos < 32,
{
    if bit32(from, from_pos) {
        to | (1u32 << ((31 - to_pos) as u32))
    } else {
        to
    }
}

/// The first `n` entries of table `t` applied to `x`: output bit `j`, for
/// `j < n`, is bit `t[j]` of `x`; all other output bits are clear.
pub open spec fn apply_perm64(x: u64, t: Seq<u8>, n: int) -> u64
    decreases n,
{
    if n <= 0 {
        0
    } else {
        perm_step64(x, apply_perm64(x, t, n - 1), t[n - 1] as u64, (n - 1) as u64)
    }
}

/// The first `n` entries of table `t` applied to `x`, on 32-bit words.
pub open spec fn apply_perm32(x: u32, t: Seq<u8>, n: int) -> u32
    decreases n,
{
    if n <= 0 {
        0
    } else {
        perm_step32(x, apply_perm32(x, t, n - 1), t[n - 1] as u32, (n - 1) as u32)
    }
}

/// Setting one bit by mask leaves every other bit alone, and the zero word has
/// no bit set.
proof fn lemma_bit64_or_mask(a: u64, m: u64, j: u64)
    by (bit_vector)
    requires
        m < 64,
        j < 64,
    ensures
        bit64(a | (1u64 << ((63 - m) as u64)), j) == (bit64(a, j) || j == m),
        !bit64(0u64, j),
{
}

/// Output bit `j` of a table-driven permutation is input bit `t[j]`.
pub proof fn lemma_apply_perm64_bits(x: u64, t: Seq<u8>, n: int, j: u64)
    requires
        0 <= n <= 64,
        j < 64,
        forall|k: int| 0 <= k < n ==> t[k] < 64,
    ensures
        bit64(apply_perm64(x, t, n), j) == (j < n && bit64(x, t[j as int] as u64)),
    decreases n,
{
    if n <= 0 {
        lemma_bit64_or_mask(0, 0, j);
    } else {
        lemma_apply_perm64_bits(x, t, n - 1, j);
        let prev = apply_perm64(x, t, n - 1);
        if bit64(x, t[n - 1] as u64) {
            lemma_bit64_or_mask(prev, (n - 1) as u64, j);
        }
    }
}

/// Equal suffixes: words that agree on every bit agree on every right shift.
proof fn lemma_u64_shr_eq(a: u64, b: u64, k: u64)
    requires
        k < 64,
        forall|j: u64| j < 64 ==> bit64(a, j) == bit64(b, j),
    ensures
        a >> k == b >> k,
    decreases 64 - k,
{
    if k == 63 {
        assert(bit64(a, 0) == bit64(b, 0));
        assert(a >> 63u64 == b >> 63u64) by (bit_vector)
            requires
                ((a >> 63u64) & 1 == 1) == ((b >> 63u64) & 1 == 1),
        ;
    } else {
        lemma_u64_shr_eq(a, b, (k + 1) as u64);
        assert(bit64(a, (63 - k) as u64) == bit64(b, (63 - k) as u64));
        assert(a >> k == b >> k) by (bit_vector)
            requires
                k < 63,
                a >> ((k + 1) as u64) == b >> ((k + 1) as u64),
                ((a >> k) & 1 == 1) == ((b >> k) & 1 == 1),
        ;
    }
}

/// Two words that agree on all 64 bits are equal.
pub proof fn lemma_u64_eq_by_bits(a: u64, b: u64)
    requires
        forall|j: u64| j < 64 ==> bit64(a, j) == bit64(b, j),
    ensures
        a == b,
{
    lemma_u64_shr_eq(a, b, 0);
    assert(a >> 0u64 == a && b >> 0u64 == b) by (bit_vector);
}

} // verus!
