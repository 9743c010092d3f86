use arecibo::infohash::{InfoHash, InfoHashError};

const HEX40: &str = "0123456789abcdef0123456789abcdef01234567";

#[test]
fn parses_forty_hex_digits() {
    let h = InfoHash::from_str(HEX40).unwrap();
    assert_eq!(h.as_bytes().len(), 20);
    assert_eq!(h.as_bytes()[0], 0x01);
    assert_eq!(h.as_bytes()[19], 0x67);
}

#[test]
fn parses_sixty_four_hex_digits() {
    let s = "ff".repeat(32);
    let h = InfoHash::from_str(&s).unwrap();
    assert_eq!(h.as_bytes(), &[0xffu8; 32][..]);
}

#[test]
fn parses_uppercase_and_prints_lowercase() {
    let h = InfoHash::from_str(&HEX40.to_uppercase()).unwrap();
    assert_eq!(h.to_string(), HEX40);
}

#[test]
fn rejects_thirty_eight_digits() {
    let s = &HEX40[..38];
    assert!(matches!(InfoHash::from_str(s), Err(InfoHashError::InvalidLength(19))));
}

#[test]
fn rejects_forty_two_digits() {
    let s = format!("{}ab", HEX40);
    assert!(matches!(InfoHash::from_str(&s), Err(InfoHashError::InvalidLength(21))));
}

#[test]
fn rejects_odd_length() {
    let s = &HEX40[..39];
    assert!(matches!(InfoHash::from_str(s), Err(InfoHashError::InvalidHex(_))));
}

#[test]
fn rejects_non_hex_characters() {
    let s = format!("{}zz", &HEX40[..38]);
    assert!(matches!(InfoHash::from_str(&s), Err(InfoHashError::InvalidHex(_))));
}

#[test]
fn from_bytes_accepts_twenty_and_thirty_two() {
    let a = InfoHash::from_bytes(&[7u8; 20]).unwrap();
    assert_eq!(a.as_bytes(), &[7u8; 20][..]);
    let b = InfoHash::from_bytes(&[9u8; 32]).unwrap();
    assert_eq!(b.as_bytes().len(), 32);
}

#[test]
fn from_bytes_rejects_other_lengths() {
    assert!(matches!(InfoHash::from_bytes(&[1u8; 21]), Err(InfoHashError::InvalidLength(21))));
    assert!(matches!(InfoHash::from_bytes(&[]), Err(InfoHashError::InvalidLength(0))));
}

#[test]
fn hex_text_and_bytes_agree() {
    let a = InfoHash::from_str(HEX40).unwrap();
    let b = InfoHash::from_bytes(a.as_bytes()).unwrap();
    assert_eq!(b.to_string(), HEX40);
}
