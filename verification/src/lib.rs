//! Classic cipher and encoding primitives: the DES block cipher and its
//! Triple-DES composition, together with a Caesar cipher, a Vigenere cipher
//! and a Base64 codec, each with a full functional specification.

pub mod bits;
pub mod block;
pub mod caesar;
pub mod encoder;
pub mod text;
pub mod vigenere;
