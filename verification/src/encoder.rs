//! Binary-to-text encodings.

pub mod base64;
