//! The codec and the store plans: compression round trips, key
//! determinism, and the full fetch pipelines over in-memory bytes.

use git_objects::codec::{compress, compress_round_trip, decompress};
use git_objects::errors::ObjectError;
use git_objects::hasher::{digest, digest_hex};
use git_objects::store::{decode_blob_file, store_blob_plan, tree_names_from_file, write_plan};
use git_objects::TreeObject;

#[test]
fn codec_round_trips_arbitrary_bytes() {
    for content in [
        Vec::new(),
        b"foo".to_vec(),
        vec![0u8, 32, 0, 255, 10, 0],
        vec![7u8; 4096],
    ] {
        let packed = compress(&content);
        assert_eq!(decompress(&packed).unwrap(), content);
        assert_eq!(compress_round_trip(&content), content);
    }
}

#[test]
fn codec_actually_compresses() {
    // A run of equal bytes must shrink: a codec that handed its input
    // back unchanged would fail this and the corrupt-stream test.
    let content = vec![0u8; 4096];
    assert!(compress(&content).len() < content.len());
}

#[test]
fn decompress_rejects_corrupt_stream() {
    let garbage = b"this is not a zlib stream".to_vec();
    assert_eq!(decompress(&garbage).unwrap_err(), ObjectError::CorruptObject);
}

#[test]
fn digest_is_deterministic() {
    let data = b"canonical bytes".to_vec();
    assert_eq!(digest(&data), digest(&data));
    assert_eq!(digest_hex(&data), digest_hex(&data));
}

#[test]
fn store_same_content_same_key() {
    let one = store_blob_plan(b"foo".to_vec());
    let two = store_blob_plan(b"foo".to_vec());
    assert_eq!(one.key, two.key);
    assert_eq!(one.dir_name, two.dir_name);
    assert_eq!(one.file_name, two.file_name);
}

#[test]
fn store_plan_splits_key_two_then_thirtyeight() {
    let plan = store_blob_plan(b"foo".to_vec());
    assert_eq!(plan.key, "19102815663d23f8b75a47e7a01965dcdc96468c");
    assert_eq!(plan.dir_name, "19");
    assert_eq!(plan.file_name, "102815663d23f8b75a47e7a01965dcdc96468c");
    assert_eq!(format!("{}{}", plan.dir_name, plan.file_name), plan.key);
}

#[test]
fn write_plan_data_decompresses_to_canonical() {
    let canonical = b"blob 3\x00foo".to_vec();
    let plan = write_plan(&canonical);
    assert_eq!(decompress(&plan.data).unwrap(), canonical);
}

#[test]
fn fetch_blob_pipeline() {
    let plan = store_blob_plan(b"hello".to_vec());
    assert_eq!(decode_blob_file(&plan.data).unwrap(), b"hello".to_vec());
}

#[test]
fn fetch_blob_rejects_corrupt_file() {
    let garbage = b"junk".to_vec();
    assert_eq!(decode_blob_file(&garbage).unwrap_err(), ObjectError::CorruptObject);
}

#[test]
fn fetch_tree_names_pipeline() {
    let tree = TreeObject::new_from_file(vec![
        "100644 b.txt".to_string(),
        "100644 a.txt".to_string(),
        "100644 c.txt".to_string(),
    ]);
    let stored = compress(&tree.serialize());
    assert_eq!(
        tree_names_from_file(&stored).unwrap(),
        vec!["a.txt", "b.txt", "c.txt"]
    );
}

#[test]
fn fetch_tree_names_rejects_blob_file() {
    let plan = store_blob_plan(b"foo".to_vec());
    assert_eq!(
        tree_names_from_file(&plan.data).unwrap_err(),
        ObjectError::InvalidHeader
    );
}
