//! Tree objects: canonical ordering, serialization, parsing, and the
//! binary-safety of the payload cursor.

use git_objects::errors::ObjectError;
use git_objects::TreeObject;
use sha1::Digest;

fn lines(names: &[&str]) -> Vec<String> {
    names.iter().map(|n| format!("100644 {}", n)).collect()
}

#[test]
fn tree_sorts_entries_by_name() {
    let tree = TreeObject::new_from_file(lines(&["b.txt", "a.txt", "c.txt"]));
    assert_eq!(tree.name_only(), vec!["a.txt", "b.txt", "c.txt"]);
}

#[test]
fn tree_serialization_is_insertion_order_independent() {
    let one = TreeObject::new_from_file(lines(&["b.txt", "a.txt", "c.txt"]));
    let two = TreeObject::new_from_file(lines(&["c.txt", "b.txt", "a.txt"]));
    assert_eq!(one.serialize(), two.serialize());
}

#[test]
fn tree_serialize_parse_round_trips_sorted() {
    let tree = TreeObject::new_from_file(lines(&["b.txt", "a.txt"]));
    let canonical = tree.serialize();
    let back = TreeObject::parse(&canonical).unwrap();
    assert_eq!(back.name_only(), vec!["a.txt", "b.txt"]);
    assert_eq!(back.serialize(), canonical);
}

#[test]
fn tree_serialize_concrete_vector() {
    let tree = TreeObject::new_from_file(vec!["100644 foo.txt".to_string()]);
    let mut payload = b"100644 foo.txt\x00".to_vec();
    payload.extend_from_slice(&sha1::Sha1::digest(b"foo.txt"));
    let mut expected = format!("tree {}\x00", payload.len()).into_bytes();
    expected.extend_from_slice(&payload);
    assert_eq!(tree.serialize(), expected);
    assert_eq!(tree.size(), payload.len());
}

#[test]
fn tree_parse_is_binary_safe_against_nul_and_space_hashes() {
    // Two entries whose hashes are all NUL and all space: a parser that
    // scans through hash bytes for delimiters would lose the second
    // entry or mangle its name.
    let mut payload = b"100644 a.txt\x00".to_vec();
    payload.extend_from_slice(&[0u8; 20]);
    payload.extend_from_slice(b"100644 b c.txt\x00");
    payload.extend_from_slice(&[0x20u8; 20]);
    let mut data = format!("tree {}\x00", payload.len()).into_bytes();
    data.extend_from_slice(&payload);
    let tree = TreeObject::parse(&data).unwrap();
    assert_eq!(tree.name_only(), vec!["a.txt", "b c.txt"]);
}

#[test]
fn tree_parse_sorts_unsorted_payload() {
    let mut payload = b"100644 z.txt\x00".to_vec();
    payload.extend_from_slice(&[1u8; 20]);
    payload.extend_from_slice(b"100644 a.txt\x00");
    payload.extend_from_slice(&[2u8; 20]);
    let mut data = format!("tree {}\x00", payload.len()).into_bytes();
    data.extend_from_slice(&payload);
    let tree = TreeObject::parse(&data).unwrap();
    assert_eq!(tree.name_only(), vec!["a.txt", "z.txt"]);
}

#[test]
fn tree_parse_rejects_bad_header() {
    let data = b"trees 0\x00".to_vec();
    assert_eq!(TreeObject::parse(&data).unwrap_err(), ObjectError::InvalidHeader);
}

#[test]
fn tree_parse_rejects_length_mismatch() {
    let data = b"tree 5\x00abc".to_vec();
    assert_eq!(TreeObject::parse(&data).unwrap_err(), ObjectError::LengthMismatch);
}

#[test]
fn tree_parse_rejects_malformed_entry() {
    let data = b"tree 3\x00abc".to_vec();
    assert_eq!(TreeObject::parse(&data).unwrap_err(), ObjectError::MalformedTree);
}

#[test]
fn tree_parse_rejects_truncated_entry() {
    let mut payload = b"100644 a\x00".to_vec();
    payload.extend_from_slice(&[0u8; 10]);
    let mut data = format!("tree {}\x00", payload.len()).into_bytes();
    data.extend_from_slice(&payload);
    assert_eq!(TreeObject::parse(&data).unwrap_err(), ObjectError::TruncatedEntry);
}

#[test]
fn tree_empty_payload_parses_to_empty_tree() {
    let data = b"tree 0\x00".to_vec();
    let tree = TreeObject::parse(&data).unwrap();
    assert_eq!(tree.name_only(), Vec::<String>::new());
    assert_eq!(tree.size(), 0);
}

#[test]
fn tree_display_forms() {
    let tree = TreeObject::new_from_file(lines(&["b", "a"]));
    assert_eq!(tree.unformatted_value(), "a \nb \n");
    let display = tree.formatted_value();
    let body: String = ["a", "b"]
        .iter()
        .map(|n| format!("100644 {}\x00{:x}", n, sha1::Sha1::digest(n.as_bytes())))
        .collect();
    assert_eq!(display, format!("tree {}\x00{}", body.chars().count(), body));
}
