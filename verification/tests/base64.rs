//! Tests for the Base64 codec.

use ciphers::encoder::base64::{b64_decode, b64_encode, b64_mime_decode, b64_mime_encode};

#[test]
fn basic_test() {
    assert_eq!(b64_encode(&b"abcd".to_vec(), false, false), b"YWJjZA==".to_vec());
    assert_eq!(
        b64_encode(&b"\x9f\x0e8\xbc\xf5\xd0-\xb4.\xd4\xf0?\x8f\xe7\t{.\xff/6\xcbTY!\xae9\x82".to_vec(), false, false),
        b"nw44vPXQLbQu1PA/j+cJey7/LzbLVFkhrjmC".to_vec()
    );
    assert_eq!(b64_encode(&b"\x7f3\x15\x1a\xd3\xf91\x9bS\xa44=".to_vec(), false, false), b"fzMVGtP5MZtTpDQ9".to_vec());
    assert_eq!(
        b64_encode(&b"7:\xf5\xd1[\xbfV/P\x18\x03\x00\xdc\xcd\xa1\xecG".to_vec(), false, false),
        b"Nzr10Vu/Vi9QGAMA3M2h7Ec=".to_vec()
    );
    assert_eq!(
        b64_encode(&b"\xc3\xc9\x18={\xc4\x08\x97wN\xda\x81\x84?\x94\xe6\x9e".to_vec(), false, false),
        b"w8kYPXvECJd3TtqBhD+U5p4=".to_vec()
    );
    assert_eq!(
        b64_encode(&b"\x8cJ\xf8e\x13\r\x8fw\xa8\xe6G\xce\x93c*\xe7M\xb6\xd7".to_vec(), false, false),
        b"jEr4ZRMNj3eo5kfOk2Mq50221w==".to_vec()
    );
    assert_eq!(
        b64_encode(&b"\xde\xc4~\xb2}\xb1\x14F.~\xa1z|s\x90\x8dd\x9b\x04\x81\xf2\x92{".to_vec(), false, true),
        b"3sR-sn2xFEYufqF6fHOQjWSbBIHykns=".to_vec()
    );
    assert_eq!(
        b64_encode(&b"\xf0y\t\x14\xd161n\x03e\xed\x0e\x05\xdf\xc1\xb9\xda".to_vec(), false, true),
        b"8HkJFNE2MW4DZe0OBd_Budo=".to_vec()
    );
    assert_eq!(
        b64_encode(&b"*.\x8e\x1d@\x1ac\xdd;\x9a\xcc \x0c\xc2KI".to_vec(), false, false),
        b"Ki6OHUAaY907mswgDMJLSQ==".to_vec()
    );
    assert_eq!(b64_encode(&b"\xd6\x829\x82\xbc\x00\xc9\xfe\x03".to_vec(), false, false), b"1oI5grwAyf4D".to_vec());
    assert_eq!(
        b64_encode(&b"\r\xf2\xb4\xd4\xa1g\x8fhl\xaa@\x98\x00\xda\x95".to_vec(), false, false),
        b"DfK01KFnj2hsqkCYANqV".to_vec()
    );
    assert_eq!(
        b64_encode(&b"\x1a\xfaV\x1a\xc2e\xc0\xad\xef|\x07\xcf\xa9\xb7O".to_vec(), false, false),
        b"GvpWGsJlwK3vfAfPqbdP".to_vec()
    );
    assert_eq!(b64_encode(&b"\xc20{_\x81\xac".to_vec(), false, true), b"wjB7X4Gs".to_vec());
    assert_eq!(
        b64_encode(&b"B\xa85\xac\xe9\x0ev-\x8bT\xb3|\xde".to_vec(), false, true),
        b"Qqg1rOkOdi2LVLN83g==".to_vec()
    );
    assert_eq!(
        b64_encode(&b"\x05\xe0\xeeSs\xfdY9\x0b7\x84\xfc-\xec".to_vec(), false, false),
        b"BeDuU3P9WTkLN4T8Lew=".to_vec()
    );
    assert_eq!(
        b64_encode(&b"Qj\x92\xfa?\xa5\xe3_[\xde\x82\x97{$\xb2\xf9\xd5\x98\x0cy\x15\xe4R\x8d".to_vec(), false, false),
        b"UWqS+j+l419b3oKXeySy+dWYDHkV5FKN".to_vec()
    );
    assert_eq!(b64_encode(&b"\x853\xe0\xc0\x1d\xc1".to_vec(), false, false), b"hTPgwB3B".to_vec());
    assert_eq!(b64_encode(&b"}2\xd0\x13m\x8d\x8f#\x9c\xf5,\xc7".to_vec(), false, false), b"fTLQE22NjyOc9SzH".to_vec());
}

#[test]
fn b64_decode_test() {
    assert_eq!(
        b64_decode(&b"0zHJh0T+qrP/74wOb0Q=".to_vec()).unwrap(),
        b"\xd31\xc9\x87D\xfe\xaa\xb3\xff\xef\x8c\x0eoD".to_vec()
    );
    assert_eq!(
        b64_decode(&b"nw44vPXQLbQu1PA/j+cJey7/LzbLVFkhrjmC".to_vec()).unwrap(),
        b"\x9f\x0e8\xbc\xf5\xd0-\xb4.\xd4\xf0?\x8f\xe7\t{.\xff/6\xcbTY!\xae9\x82".to_vec()
    );
    assert_eq!(
        b64_decode(&b"fzMVGtP5MZtTpDQ9".to_vec()).unwrap(),
        b"\x7f3\x15\x1a\xd3\xf91\x9bS\xa44=".to_vec()
    );
    assert_eq!(
        b64_decode(&b"Nzr10Vu/Vi9QGAMA3M2h7Ec=".to_vec()).unwrap(),
        b"7:\xf5\xd1[\xbfV/P\x18\x03\x00\xdc\xcd\xa1\xecG".to_vec()
    );
    assert_eq!(
        b64_decode(&b"w8kYPXvECJd3TtqBhD+U5p4=".to_vec()).unwrap(),
        b"\xc3\xc9\x18={\xc4\x08\x97wN\xda\x81\x84?\x94\xe6\x9e".to_vec()
    );
    assert_eq!(
        b64_decode(&b"jEr4ZRMNj3eo5kfOk2Mq50221w==".to_vec()).unwrap(),
        b"\x8cJ\xf8e\x13\r\x8fw\xa8\xe6G\xce\x93c*\xe7M\xb6\xd7".to_vec()
    );
    assert_eq!(
        b64_decode(&b"3sR+sn2xFEYufqF6fHOQjWSbBIHykns=".to_vec()).unwrap(),
        b"\xde\xc4~\xb2}\xb1\x14F.~\xa1z|s\x90\x8dd\x9b\x04\x81\xf2\x92{".to_vec()
    );
    assert_eq!(
        b64_decode(&b"8HkJFNE2MW4DZe0OBd/Budo=".to_vec()).unwrap(),
        b"\xf0y\t\x14\xd161n\x03e\xed\x0e\x05\xdf\xc1\xb9\xda".to_vec()
    );
    assert_eq!(
        b64_decode(&b"Ki6OHUAaY907mswgDMJLSQ==".to_vec()).unwrap(),
        b"*.\x8e\x1d@\x1ac\xdd;\x9a\xcc \x0c\xc2KI".to_vec()
    );
    assert_eq!(
        b64_decode(&b"1oI5grwAyf4D".to_vec()).unwrap(),
        b"\xd6\x829\x82\xbc\x00\xc9\xfe\x03".to_vec()
    );
    assert_eq!(
        b64_decode(&b"DfK01KFnj2hsqkCYANqV".to_vec()).unwrap(),
        b"\r\xf2\xb4\xd4\xa1g\x8fhl\xaa@\x98\x00\xda\x95".to_vec()
    );
    assert_eq!(
        b64_decode(&b"GvpWGsJlwK3vfAfPqbdP".to_vec()).unwrap(),
        b"\x1a\xfaV\x1a\xc2e\xc0\xad\xef|\x07\xcf\xa9\xb7O".to_vec()
    );
    assert_eq!(
        b64_decode(&b"wjB7X4Gs".to_vec()).unwrap(),
        b"\xc20{_\x81\xac".to_vec()
    );
    assert_eq!(
        b64_decode(&b"Qqg1rOkOdi2LVLN83g==".to_vec()).unwrap(),
        b"B\xa85\xac\xe9\x0ev-\x8bT\xb3|\xde".to_vec()
    );
    assert_eq!(
        b64_decode(&b"BeDuU3P9WTkLN4T8Lew=".to_vec()).unwrap(),
        b"\x05\xe0\xeeSs\xfdY9\x0b7\x84\xfc-\xec".to_vec()
    );
    assert_eq!(
        b64_decode(&b"UWqS+j+l419b3oKXeySy+dWYDHkV5FKN".to_vec()).unwrap(),
        b"Qj\x92\xfa?\xa5\xe3_[\xde\x82\x97{$\xb2\xf9\xd5\x98\x0cy\x15\xe4R\x8d".to_vec()
    );
    assert_eq!(
        b64_decode(&b"hTPgwB3B".to_vec()).unwrap(),
        b"\x853\xe0\xc0\x1d\xc1".to_vec()
    );
    assert_eq!(
        b64_decode(&b"fTLQE22NjyOc9SzH".to_vec()).unwrap(),
        b"}2\xd0\x13m\x8d\x8f#\x9c\xf5,\xc7".to_vec()
    );
}

#[test]
fn b64_mime_encode_test() {
    assert_eq!(
        b64_mime_encode(&b"\xf0y\t\x14\xd161n\x03e\xed\x0e\x05\xdf\xc1\xb9\xda".to_vec()),
        b"8HkJFNE2MW4DZe0OBd/Budo=".to_vec()
    );
    assert_eq!(
        b64_mime_encode(&b"*.\x8e\x1d@\x1ac\xdd;\x9a\xcc \x0c\xc2KI".to_vec()),
        b"Ki6OHUAaY907mswgDMJLSQ==".to_vec()
    );
    assert_eq!(b64_mime_encode(&b"\xd6\x829\x82\xbc\x00\xc9\xfe\x03".to_vec()), b"1oI5grwAyf4D".to_vec());
    assert_eq!(
        b64_mime_encode(&b"\r\xf2\xb4\xd4\xa1g\x8fhl\xaa@\x98\x00\xda\x95".to_vec()),
        b"DfK01KFnj2hsqkCYANqV".to_vec()
    );
    assert_eq!(
        b64_mime_encode(&b"\x1a\xfaV\x1a\xc2e\xc0\xad\xef|\x07\xcf\xa9\xb7O".to_vec()),
        b"GvpWGsJlwK3vfAfPqbdP".to_vec()
    )
}

#[test]
fn b64_mime_decode_test() {
    assert_eq!(
        b64_mime_decode(&b"1oI5grwAyf4D".to_vec()).unwrap(),
        b"\xd6\x829\x82\xbc\x00\xc9\xfe\x03".to_vec()
    );
    assert_eq!(
        b64_mime_decode(&b"DfK01KFnj2hsqkCYANqV".to_vec()).unwrap(),
        b"\r\xf2\xb4\xd4\xa1g\x8fhl\xaa@\x98\x00\xda\x95".to_vec()
    );
    assert_eq!(
        b64_mime_decode(&b"GvpWGsJlwK3vfAfPqbdP".to_vec()).unwrap(),
        b"\x1a\xfaV\x1a\xc2e\xc0\xad\xef|\x07\xcf\xa9\xb7O".to_vec()
    );
    assert_eq!(
        b64_mime_decode(&b"wjB7X4Gs".to_vec()).unwrap(),
        b"\xc20{_\x81\xac".to_vec()
    );
    assert_eq!(
        b64_mime_decode(&b"Qqg1rOkOdi2LVLN83g==".to_vec()).unwrap(),
        b"B\xa85\xac\xe9\x0ev-\x8bT\xb3|\xde".to_vec()
    );
    assert_eq!(
        b64_mime_decode(&b"BeDuU3P9WTkLN4T8Lew=".to_vec()).unwrap(),
        b"\x05\xe0\xeeSs\xfdY9\x0b7\x84\xfc-\xec".to_vec()
    );
    assert_eq!(
        b64_mime_decode(&b"UWqS+j+l419b3oKXeySy+dWYDHkV5FKN".to_vec()).unwrap(),
        b"Qj\x92\xfa?\xa5\xe3_[\xde\x82\x97{$\xb2\xf9\xd5\x98\x0cy\x15\xe4R\x8d".to_vec()
    );
}

#[test]
fn b64_empty_and_padding_cases() {
    // an empty input encodes to nothing and decodes to None
    assert_eq!(b64_encode(&[], false, false), Vec::<u8>::new());
    assert_eq!(b64_decode(&Vec::new()), None);
    // a MIME input of nothing but line breaks decodes to None as well
    assert_eq!(b64_mime_decode(b"\r\n\r\n"), None);
    // padding suppressed
    assert_eq!(b64_encode(b"a", true, false), b"YQ".to_vec());
    assert_eq!(b64_encode(b"ab", true, false), b"YWI".to_vec());
    assert_eq!(b64_encode(b"abc", true, false), b"YWJj".to_vec());
    // unpadded input decodes too
    assert_eq!(b64_decode(&b"YQ".to_vec()).unwrap(), b"a".to_vec());
    assert_eq!(b64_decode(&b"YWI".to_vec()).unwrap(), b"ab".to_vec());
}

#[test]
fn b64_mime_line_wrap() {
    // 60 bytes encode to 80 symbols: one break after symbol 76
    let data = [65u8; 60];
    let mut expected = "QUFB".repeat(19);
    expected.push_str("\r\n");
    expected.push_str("QUFB");
    assert_eq!(b64_mime_encode(&data), expected.clone().into_bytes());
    assert_eq!(b64_mime_decode(expected.as_bytes()).unwrap(), data.to_vec());

    // 120 bytes encode to 160 symbols: the first line holds 76, later ones 75
    let data2 = [0u8; 120];
    let mut expected2 = "A".repeat(76);
    expected2.push_str("\r\n");
    expected2.push_str(&"A".repeat(75));
    expected2.push_str("\r\n");
    expected2.push_str(&"A".repeat(9));
    assert_eq!(b64_mime_encode(&data2), expected2.clone().into_bytes());
    assert_eq!(b64_mime_decode(expected2.as_bytes()).unwrap(), data2.to_vec());
}
