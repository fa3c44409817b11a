//! Blob framing: the canonical encoding, round-trip identity, the
//! typed parse errors, and the concrete digest vector.

use git_objects::errors::ObjectError;
use git_objects::store::key_for;
use git_objects::HashObject;

#[test]
fn blob_encodes_concrete_vector() {
    let blob = HashObject::new("foo");
    assert_eq!(blob.value_as_byte(), b"blob 3\x00foo".to_vec());
    assert_eq!(blob.value(), "blob 3\x00foo");
}

#[test]
fn blob_digest_concrete_vector() {
    let blob = HashObject::new("foo");
    let canonical = blob.value_as_byte();
    assert_eq!(key_for(&canonical), "19102815663d23f8b75a47e7a01965dcdc96468c");
}

#[test]
fn blob_round_trip_simple() {
    let blob = HashObject::new("foo");
    let encoded = blob.value_as_byte();
    assert_eq!(HashObject::parse(&encoded).unwrap(), b"foo".to_vec());
}

#[test]
fn blob_round_trip_empty() {
    let blob = HashObject::from_content(Vec::new());
    let encoded = blob.value_as_byte();
    assert_eq!(encoded, b"blob 0\x00".to_vec());
    assert_eq!(HashObject::parse(&encoded).unwrap(), Vec::<u8>::new());
}

#[test]
fn blob_round_trip_binary_content() {
    let content = vec![0u8, 0x20, 0xff, 0, 10, 32, 0];
    let blob = HashObject::from_content(content.clone());
    let encoded = blob.value_as_byte();
    assert_eq!(HashObject::parse(&encoded).unwrap(), content);
}

#[test]
fn blob_parse_rejects_wrong_kind() {
    let data = b"blub 3\x00foo".to_vec();
    assert_eq!(HashObject::parse(&data).unwrap_err(), ObjectError::InvalidHeader);
}

#[test]
fn blob_parse_rejects_missing_nul() {
    let data = b"blob 3foo".to_vec();
    assert_eq!(HashObject::parse(&data).unwrap_err(), ObjectError::InvalidHeader);
}

#[test]
fn blob_parse_rejects_length_mismatch() {
    let long = b"blob 4\x00foo".to_vec();
    assert_eq!(HashObject::parse(&long).unwrap_err(), ObjectError::LengthMismatch);
    let short = b"blob 2\x00foo".to_vec();
    assert_eq!(HashObject::parse(&short).unwrap_err(), ObjectError::LengthMismatch);
}

#[test]
fn blob_encode_decode_round_trips() {
    let blob = HashObject::new("hello world");
    let stored = blob.encode();
    assert_eq!(HashObject::decode(stored).unwrap(), "blob 11\x00hello world");
}

#[test]
fn blob_size_and_unformatted_value() {
    let blob = HashObject::new("foo");
    assert_eq!(blob.size(), 3);
    assert_eq!(blob.unformatted_value(), "foo");
    assert_eq!(blob.formatted_value(), "blob 3\x00foo");
}
