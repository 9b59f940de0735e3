use fcr_simulator::hash256::{
    parse_hex_bytes, parse_hex_hash, parse_root, Hash256, HexBytesError, HexError, RootError,
};

fn digits(byte: &str) -> String {
    byte.repeat(32)
}

#[test]
fn roots_are_read_with_and_without_prefix() {
    let expected = Hash256 { bytes: [0xab; 32] };
    for text in [digits("ab"), digits("AB"), format!("0x{}", digits("aB"))] {
        assert_eq!(parse_root(&text).unwrap(), expected);
        assert_eq!(parse_hex_hash(&text).unwrap(), expected);
    }
}

#[test]
fn bytes_of_a_root_keep_their_order() {
    let text: String = (0u8..32).map(|b| format!("{b:02x}")).collect();
    let bytes: Vec<u8> = (0u8..32).collect();
    assert_eq!(parse_root(&text).unwrap(), Hash256::from_slice(&bytes));
    assert_eq!(parse_hex_bytes(&text).unwrap(), bytes);
}

#[test]
fn roots_of_another_length_are_refused() {
    for (text, hex_chars) in [("", 0), ("0x", 0), ("0xab", 2), ("abc", 3)] {
        assert_eq!(parse_root(text).unwrap_err(), RootError::WrongLength { hex_chars });
        assert_eq!(parse_hex_hash(text).unwrap_err(), RootError::WrongLength { hex_chars });
    }
    let long = format!("0x{}", "a".repeat(66));
    assert_eq!(parse_root(&long).unwrap_err(), RootError::WrongLength { hex_chars: 66 });
}

#[test]
fn roots_of_other_characters_are_refused() {
    let text = format!("0x{}g", "0".repeat(63));
    let cause = HexError::InvalidHexCharacter { c: 'g', index: 63 };
    assert_eq!(parse_hex_hash(&text).unwrap_err(), RootError::InvalidHex { cause });
    assert!(matches!(parse_root(&text), Err(RootError::InvalidHex { .. })));
    let twice = format!("0x0x{}", "0".repeat(62));
    assert!(matches!(parse_root(&twice), Err(RootError::InvalidHex { .. })));
    assert!(matches!(parse_hex_hash(&twice), Err(RootError::InvalidHex { .. })));
}

#[test]
fn byte_strings_are_read() {
    assert_eq!(parse_hex_bytes("0x").unwrap(), Vec::<u8>::new());
    assert_eq!(parse_hex_bytes("0x00ff10").unwrap(), vec![0, 255, 16]);
    assert_eq!(parse_hex_bytes("00FF10").unwrap(), vec![0, 255, 16]);
    assert_eq!(parse_hex_bytes("0x0").unwrap_err(), HexBytesError::OddLength);
    let cause = HexError::InvalidHexCharacter { c: 'z', index: 1 };
    assert_eq!(parse_hex_bytes("1z").unwrap_err(), HexBytesError::InvalidHex { cause });
}

#[test]
fn roots_are_equal_by_their_bytes() {
    let mut bytes = [7u8; 32];
    let root = Hash256 { bytes };
    assert_eq!(root, Hash256 { bytes });
    bytes[31] = 8;
    assert_ne!(root, Hash256 { bytes });
    assert_eq!(Hash256::zero(), Hash256 { bytes: [0; 32] });
}
