//! Tree entry behaviour: construction from text lines, display forms,
//! canonical serialization, and binary-safe parsing.

use git_objects::errors::ObjectError;
use git_objects::tree_entry::TreeObjectEntry;
use sha1::Digest;

#[test]
fn test_unformatted_display() {
    let new = TreeObjectEntry::new_from_file("100644 foo.txt");
    assert_eq!(new.unformatted_value(), "foo.txt");
}

#[test]
fn test_formatted_display() {
    let new = TreeObjectEntry::new_from_file("100644 foo.txt");
    println!("{}", new.formatted_value());
    assert_eq!(
        new.formatted_value(),
        format!("100644 foo.txt\x00{:x}", sha1::Sha1::digest("foo.txt"))
    );
}

#[test]
fn entry_serialize_concrete_vector() {
    let entry = TreeObjectEntry::new_from_file("100644 foo.txt");
    let mut expected = b"100644 foo.txt\x00".to_vec();
    expected.extend_from_slice(&sha1::Sha1::digest(b"foo.txt"));
    assert_eq!(entry.serialize(), expected);
}

#[test]
fn entry_name_may_contain_spaces() {
    let entry = TreeObjectEntry::new_from_file("100644 foo bar.txt");
    assert_eq!(entry.unformatted_value(), "foo bar.txt");
}

#[test]
fn entry_hash_value_is_name_digest() {
    let entry = TreeObjectEntry::new_from_file("40000 dir");
    assert_eq!(entry.hash_value(), sha1::Sha1::digest(b"dir").to_vec());
}

#[test]
fn parse_one_recovers_name_with_all_nul_hash() {
    // The 20 hash bytes are all NUL: a delimiter-scanning parser would
    // mis-terminate, the cursor discipline must not.
    let mut data = b"100644 foo.txt\x00".to_vec();
    data.extend_from_slice(&[0u8; 20]);
    let (entry, next) = TreeObjectEntry::parse_one(&data, 0).unwrap();
    assert_eq!(entry.unformatted_value(), "foo.txt");
    assert_eq!(entry.hash_value(), vec![0u8; 20]);
    assert_eq!(next, data.len());
}

#[test]
fn parse_one_recovers_name_with_space_hash() {
    // Hash bytes equal to the space byte must not end the mode or name.
    let mut data = b"100644 foo.txt\x00".to_vec();
    data.extend_from_slice(&[0x20u8; 20]);
    let (entry, next) = TreeObjectEntry::parse_one(&data, 0).unwrap();
    assert_eq!(entry.unformatted_value(), "foo.txt");
    assert_eq!(entry.hash_value(), vec![0x20u8; 20]);
    assert_eq!(next, data.len());
}

#[test]
fn parse_one_accepts_five_digit_mode() {
    let mut data = b"40000 dir\x00".to_vec();
    data.extend_from_slice(&[7u8; 20]);
    let (entry, _) = TreeObjectEntry::parse_one(&data, 0).unwrap();
    assert_eq!(entry.unformatted_value(), "dir");
}

#[test]
fn parse_one_rejects_missing_mode() {
    let mut data = b" foo\x00".to_vec();
    data.extend_from_slice(&[0u8; 20]);
    assert_eq!(
        TreeObjectEntry::parse_one(&data, 0).unwrap_err(),
        ObjectError::MalformedTree
    );
}

#[test]
fn parse_one_rejects_missing_nul() {
    let data = b"100644 foo.txt".to_vec();
    assert_eq!(
        TreeObjectEntry::parse_one(&data, 0).unwrap_err(),
        ObjectError::MalformedTree
    );
}

#[test]
fn parse_one_rejects_short_hash() {
    let mut data = b"100644 foo.txt\x00".to_vec();
    data.extend_from_slice(&[0u8; 19]);
    assert_eq!(
        TreeObjectEntry::parse_one(&data, 0).unwrap_err(),
        ObjectError::TruncatedEntry
    );
}

#[test]
fn serialize_then_parse_one_round_trips() {
    let entry = TreeObjectEntry::new_from_file("100644 a b c");
    let bytes = entry.serialize();
    let (back, next) = TreeObjectEntry::parse_one(&bytes, 0).unwrap();
    assert_eq!(next, bytes.len());
    assert_eq!(back.serialize(), bytes);
}
