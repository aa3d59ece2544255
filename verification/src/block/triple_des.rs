//! Triple-DES (EDE): three single-key DES passes in alternating direction.

use vstd::prelude::*;

use crate::block::des::{
    des_decrypt, des_decrypt_spec, des_encrypt, des_encrypt_spec, lemma_des_round_trip,
};

verus! {

/// Triple-DES encryption as a value: encrypt-decrypt-encrypt.
pub open spec fn triple_des_encrypt_spec(
    plain_text: u64,
    key_1: u64,
    key_2: u64,
    key_3: u64,
) -> u64 {
    des_encrypt_spec(des_decrypt_spec(des_encrypt_spec(plain_text, key_1), key_2), key_3)
}

/// Triple-DES decryption as a value: decrypt-encrypt-decrypt, the keys taken
/// in reverse order.
pub open spec fn triple_des_decrypt_spec(
    cipher_text: u64,
    key_1: u64,
    key_2: u64,
    key_3: u64,
) -> u64 {
    des_decrypt_spec(des_encrypt_spec(des_decrypt_spec(cipher_text, key_3), key_2), key_1)
}

/// Round trip: Triple-DES decryption undoes Triple-DES encryption under the
/// same three keys, and the other way around.
pub proof fn lemma_triple_des_round_trip(block: u64, key_1: u64, key_2: u64, key_3: u64)
    ensures
        triple_des_decrypt_spec(
            triple_des_encrypt_spec(block, key_1, key_2, key_3),
            key_1,
            key_2,
            key_3,
        ) == block,
        triple_des_encrypt_spec(
            triple_des_decrypt_spec(block, key_1, key_2, key_3),
            key_1,
            key_2,
            key_3,
        ) == block,
{
    lemma_des_round_trip(des_decrypt_spec(des_encrypt_spec(block, key_1), key_2), key_3);
    lemma_des_round_trip(des_encrypt_spec(block, key_1), key_2);
    lemma_des_round_trip(block, key_1);
    lemma_des_round_trip(des_encrypt_spec(des_decrypt_spec(block, key_3), key_2), key_1);
    lemma_des_round_trip(des_decrypt_spec(block, key_3), key_2);
    lemma_des_round_trip(block, key_3);
}

/// Degeneracy: with all three keys equal, Triple-DES is single DES.
pub proof fn lemma_triple_des_single_key(block: u64, key: u64)
    ensures
        triple_des_encrypt_spec(block, key, key, key) == des_encrypt_spec(block, key),
{
    lemma_des_round_trip(block, key);
}

/// Encrypts one 64-bit block under three keys (EDE).
pub fn triple_des_encrypt(plain_text: u64, key_1: u64, key_2: u64, key_3: u64) -> (res: u64)
    ensures
        res == triple_des_encrypt_spec(plain_text, key_1, key_2, key_3),
{
    let mut cipher = des_encrypt(plain_text, key_1);
    cipher = des_decrypt(cipher, key_2);
    des_encrypt(cipher, key_3)
}

/// Decrypts one 64-bit block under three keys: the exact inverse of
/// `triple_des_encrypt`.
pub fn triple_des_decrypt(plain_text: u64, key_1: u64, key_2: u64, key_3: u64) -> (res: u64)
    ensures
        res == triple_des_decrypt_spec(plain_text, key_1, key_2, key_3),
{
    let mut cipher = des_decrypt(plain_text, key_3);
    cipher = des_encrypt(cipher, key_2);
    des_decrypt(cipher, key_1)
}

} // verus!
