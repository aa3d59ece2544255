//! Block ciphers: single DES and its Triple-DES (EDE) composition.

pub mod des;
pub mod triple_des;
