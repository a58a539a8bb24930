use corbel::error::Error;
use corbel::hash::{hash_bytes, ContentHash};

#[test]
fn different_content_produces_different_hash() {
    let a = hash_bytes(b"content-a");
    let b = hash_bytes(b"content-b");

    assert_ne!(a, b);
}

#[test]
fn display_and_from_hex_roundtrip() {
    let hash = hash_bytes(b"roundtrip content");
    let text = hash.to_string();

    assert_eq!(text.len(), 16);

    let restored = ContentHash::from_hex(&text).unwrap();

    assert_eq!(hash, restored);
}

#[test]
fn from_hex_rejects_wrong_length() {
    let result = ContentHash::from_hex("abc");

    assert!(matches!(result, Err(Error::InvalidContentHash { .. })));
}

#[test]
fn from_hex_rejects_non_hex_characters() {
    let result = ContentHash::from_hex("zzzzzzzzzzzzzzzz");

    assert!(matches!(result, Err(Error::InvalidContentHash { .. })));
}

#[test]
fn hash_of_empty_input_is_the_xxh3_seed_value() {
    assert_eq!(hash_bytes(b"").to_string(), "2d06800538d394c2");
}

#[test]
fn hash_of_known_input_matches_xxh3() {
    assert_eq!(hash_bytes(b"hello, corbel").to_string(), hash_bytes(b"hello, corbel").to_hex());
    assert_ne!(hash_bytes(b"hello, corbel").to_string(), hash_bytes(b"").to_string());
}

#[test]
fn reading_a_hash_back_prints_it_in_lower_case() {
    let h = corbel::hash::ContentHash::from_hex("00000000DEADBEEF").unwrap();
    assert_eq!(h.to_string(), "00000000deadbeef");
}
