//! Tests for the Vigenere cipher.

use ciphers::vigenere::{vigenere_dec, vigenere_enc};

#[test]
fn empty() {
    assert_eq!(vigenere_enc("", "test"), "");
}

#[test]
fn vigenere_simple() {
    assert_eq!(
        vigenere_enc("THEQUICKBROWNFOXJUMPSOVERTHELAZYDOG", "LION"),
        "EPSDFQQXMZCJYNCKUCACDWJRCBVRWINLOWU"
    );

    assert_eq!(
        vigenere_enc("cryptoisshortforcryptography", "abcd"),
        "csastpkvsiqutgqucsastpiuaqjb"
    );
}

#[test]
fn vigenere_with_spaces() {
    assert_eq!(
        vigenere_enc(
            "Lorem ipsum dolor sit amet, consectetur adipiscing elit.",
            "spaces"
        ),
        "Ddrgq ahhuo hgddr uml sbev, ggfheexwljr chahxsemfy tlkx."
    );
}

#[test]
fn vigenere_unicode_and_numbers() {
    assert_eq!(
        vigenere_enc("1 Lorem ⏳ ipsum dolor sit amet Ѡ", "unicode"),
        "1 Fbzga ⏳ ltmhu fcosl fqv opin Ѡ"
    );
}

#[test]
fn vigenere_unicode_key() {
    assert_eq!(
        vigenere_enc("Lorem ipsum dolor sit amet", "😉 key!"),
        "Vspoq gzwsw hmvsp cmr kqcd"
    );
}

#[test]
fn vigenere_empty_key() {
    assert_eq!(vigenere_enc("Lorem ipsum", ""), "Lorem ipsum");
}

#[test]
fn vigenere_dec_test() {
    assert_eq!(vigenere_dec("IHSQIRIHCQCU", "IOZQGH"), "ATTACKATDAWN");
}

#[test]
fn vigenere_enc_dec_inverse() {
    let msg = "Attack at dawn, then Fall Back! 123";
    for key in ["a", "LION", "Mixed key 99", "z"] {
        assert_eq!(vigenere_dec(&vigenere_enc(msg, key), key), msg);
    }
}

#[test]
fn vigenere_key_repeats() {
    // a keyword longer than the message is cut off, a short one repeats
    assert_eq!(vigenere_enc("AAAAAA", "bcd"), "BCDBCD");
    assert_eq!(vigenere_enc("AB", "bcdefg"), "BD");
}
