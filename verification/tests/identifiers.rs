//! Tests of identifier parsing, canonicalization and generation.

use note_repo::errors::RepoError;
use note_repo::ids::{key_to_id, parse_id};

#[test]
fn parse_accepts_exactly_24_hex_digits() {
    assert!(parse_id("0123456789abcdef01234567").is_ok());
    assert!(parse_id("ABCDEF0123456789abcdef01").is_ok());
    assert_eq!(parse_id(""), Err(RepoError::InvalidId));
    assert_eq!(parse_id("0123456789abcdef0123456"), Err(RepoError::InvalidId));
    assert_eq!(parse_id("0123456789abcdef012345678"), Err(RepoError::InvalidId));
    assert_eq!(parse_id("0123456789abcdef0123456g"), Err(RepoError::InvalidId));
    assert_eq!(parse_id("not-a-valid-id"), Err(RepoError::InvalidId));
}

#[test]
fn parse_canonicalizes_to_lowercase() {
    let canon = parse_id("ABCDEF0123456789ABCDEF01").unwrap();
    assert_eq!(canon, "abcdef0123456789abcdef01");
    // Already-canonical input is returned unchanged.
    assert_eq!(parse_id(&canon).unwrap(), canon);
}

#[test]
fn generated_ids_have_canonical_form() {
    assert_eq!(key_to_id(0), "000000000000000000000000");
    assert_eq!(key_to_id(1), "000000000000000000000001");
    assert_eq!(key_to_id(255), "0000000000000000000000ff");
    assert_eq!(key_to_id(0xdead_beef), "0000000000000000deadbeef");
    assert_eq!(key_to_id(u64::MAX), "00000000ffffffffffffffff");
}

#[test]
fn generated_ids_round_trip_through_parse() {
    for k in [0u64, 1, 9, 10, 15, 16, 255, 4096, u64::MAX] {
        let id = key_to_id(k);
        assert_eq!(parse_id(&id), Ok(id.clone()));
    }
}
