//! Tests for the DES core and its Triple-DES composition.

use ciphers::block::des::{circ_rot_left, des_decrypt, des_encrypt, final_permutation, init_permutation};
use ciphers::block::triple_des::{triple_des_decrypt, triple_des_encrypt};

/*   Validation Sets:
 *    #1
 *    Key    : 0123 4567 89ab cdef
 *    Plain  : 0123 4567 89ab cdef
 *    Cipher : 56cc 09e7 cfdc 4cef
 *
 *    #2
 *    Key    : 0123 4567 89ab cdef
 *    Plain  : 0123 4567 89ab cde7
 *    Cipher : c957 4425 6a5e d31d
 */

#[test]
fn test_des_comp() {
    let block: u64 = 0x123456789ABCDEF;
    let perm_block = init_permutation(block);
    assert_eq!(final_permutation(perm_block), block);
    // Rotation
    assert_eq!(circ_rot_left(15, 2), 60);
}

#[test]
fn test_des_encrypt() {
    // # 1st set.
    let mut plain = 0x0123456789ABCDEF;
    let mut key = 0x0123456789ABCDEF;
    assert_eq!(des_encrypt(plain, key), 0x56CC09E7CFDC4CEF);
    // # 2nd set.
    plain = 0x123456789ABCDE7;
    key = 0x123456789ABCDEF;
    assert_eq!(des_encrypt(plain, key), 0xC95744256A5ED31D);
}

#[test]
fn test_des_decrypt() {
    // # 1st set.
    let mut cipher = 0x56CC09E7CFDC4CEF;
    let mut key = 0x0123456789ABCDEF;
    assert_eq!(des_decrypt(cipher, key), 0x0123456789ABCDEF);
    // # 2nd set.
    cipher = 0xC95744256A5ED31D;
    key = 0x123456789ABCDEF;
    assert_eq!(des_decrypt(cipher, key), 0x123456789ABCDE7);
}

#[test]
fn test_des_round_trip() {
    let block: u64 = 0xFEDCBA9876543210;
    let key: u64 = 0x133457799BBCDFF1;
    assert_eq!(des_decrypt(des_encrypt(block, key), key), block);
    assert_eq!(des_encrypt(des_decrypt(block, key), key), block);
    // an all-zero key is degenerate but not rejected
    assert_eq!(des_decrypt(des_encrypt(block, 0), 0), block);
    assert_eq!(des_decrypt(des_encrypt(0, 0), 0), 0);
}

#[test]
fn test_permutations_inverse_more() {
    for block in [0u64, 1, u64::MAX, 0x8000000000000001, 0xA5A5A5A55A5A5A5A] {
        assert_eq!(final_permutation(init_permutation(block)), block);
        assert_eq!(init_permutation(final_permutation(block)), block);
    }
}

#[test]
fn test_rotation_more() {
    // rotating the full width is the identity
    assert_eq!(circ_rot_left(0x0ABCDEF1, 28), 0x0ABCDEF1);
    // a bit pushed off the top re-enters at the bottom
    assert_eq!(circ_rot_left(0x8000000, 1), 1);
    assert_eq!(circ_rot_left(0x8000001, 2), 6);
    // no rotation
    assert_eq!(circ_rot_left(0x0FFFFFFF, 0), 0x0FFFFFFF);
}

#[test]
fn test_triple_des_round_trip() {
    let block: u64 = 0x0011223344556677;
    let (k1, k2, k3) = (0x0123456789ABCDEF, 0x23456789ABCDEF01, 0x456789ABCDEF0123);
    let cipher = triple_des_encrypt(block, k1, k2, k3);
    assert_eq!(triple_des_decrypt(cipher, k1, k2, k3), block);
    assert_eq!(
        triple_des_encrypt(triple_des_decrypt(block, k1, k2, k3), k1, k2, k3),
        block
    );
}

#[test]
fn test_triple_des_single_key() {
    let block: u64 = 0x0123456789ABCDEF;
    let key: u64 = 0x0123456789ABCDEF;
    assert_eq!(triple_des_encrypt(block, key, key, key), des_encrypt(block, key));
    assert_eq!(triple_des_encrypt(block, key, key, key), 0x56CC09E7CFDC4CEF);
}
