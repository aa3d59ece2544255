//! Tests for the Caesar cipher.

use ciphers::caesar::{caesar_dec, caesar_enc, ShiftDirection};

#[test]
pub fn test_enc() {
    assert_eq!(
        caesar_enc("THE QUICK BROWN FOX JUMPS OVER THE LAZY DOG", 23, ShiftDirection::Right),
        "QEB NRFZH YOLTK CLU GRJMP LSBO QEB IXWV ALD".to_owned()
    );

    assert_eq!(
        caesar_enc("ABCDEFGHIJKLMNOPQRSTUVWXYZ", 1, ShiftDirection::Left),
        "ZABCDEFGHIJKLMNOPQRSTUVWXY".to_owned()
    );

    assert_eq!(
        caesar_enc("attack at dawn 攻", 5, ShiftDirection::Right),
        "fyyfhp fy ifbs 攻".to_owned()
    );
    assert_eq!(
        caesar_enc("ABCDEFGHIJKLMNOPQRSTUVWXYZ", 0, ShiftDirection::Left),
        "ABCDEFGHIJKLMNOPQRSTUVWXYZ".to_owned()
    );
}

#[test]
pub fn test_dec() {
    assert_eq!(
        caesar_dec("QEB NRFZH YOLTK CLU GRJMP LSBO QEB IXWV ALD", 23, ShiftDirection::Right),
        "THE QUICK BROWN FOX JUMPS OVER THE LAZY DOG".to_owned()
    );
    assert_eq!(
        caesar_dec("QEB NRFZH YOLTK CLU GRJMP LSBO QEB IXWV ALD", 3, ShiftDirection::Left),
        "THE QUICK BROWN FOX JUMPS OVER THE LAZY DOG".to_owned()
    );
    assert_eq!(
        caesar_dec(
            "Pm ol ohk hufaopun jvumpkluaphs av zhf, ol dyval pa pu jpwoly, aoha pz, if zv johunpun aol vykly vm aol slaalyz vm aol hswohila, aoha uva h dvyk jvbsk il thkl vba.",
            7,
            ShiftDirection::Right
        ),
        "If he had anything confidential to say, he wrote it in cipher, that is, by so changing the order of the letters of the alphabet, that not a word could be made out."
    );
}

#[test]
fn test_full_alphabet_shift() {
    // a shift of 26 in either direction moves nothing
    assert_eq!(caesar_enc("Attack At Dawn!", 26, ShiftDirection::Right), "Attack At Dawn!");
    assert_eq!(caesar_enc("Attack At Dawn!", 26, ShiftDirection::Left), "Attack At Dawn!");
    // shifts congruent mod 26 agree
    assert_eq!(
        caesar_enc("abcXYZ", 29, ShiftDirection::Right),
        caesar_enc("abcXYZ", 3, ShiftDirection::Right)
    );
}

#[test]
fn test_enc_dec_inverse() {
    let data = "Mixed CASE with spaces, punctuation... and 123 digits";
    for shift in [1u8, 7, 13, 25, 26, 200] {
        assert_eq!(caesar_dec(&caesar_enc(data, shift, ShiftDirection::Right), shift, ShiftDirection::Right), data);
        assert_eq!(caesar_dec(&caesar_enc(data, shift, ShiftDirection::Left), shift, ShiftDirection::Left), data);
    }
}
