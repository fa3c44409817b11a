//! Content-addressed storage, computed side: the hex key of canonical
//! bytes, the two-level path split, and the compressed payload. The
//! caller persists the plan under `objects/<dir>/<file>` only if the
//! path is absent: objects are immutable, so the same content always
//! maps to the same key and an existing key is never rewritten.

use vstd::prelude::*;
use crate::blob::{blob_encoding, spec_blob_parse, HashObject};
use crate::bytesutil::copy_range;
use crate::codec::{compress, decompress, inflate_of};
use crate::errors::ObjectError;
use crate::hasher::{digest, sha1_of};
use crate::text::{chars_of_bytes, hex_chars, to_hex_string};
use crate::tree::{spec_tree_parse, TreeObject};
use crate::tree_sort::sorted_entries;

verus! {

/// Everything an object write needs: the hex key, the two-level path
/// parts derived from it, and the compressed canonical bytes.
pub struct StorePlan {
    /// The 40-character lowercase hex digest of the canonical bytes.
    pub key: String,
    /// The first two hex characters: the directory level.
    pub dir_name: String,
    /// The remaining 38 hex characters: the file level.
    pub file_name: String,
    /// The zlib-compressed canonical bytes to persist.
    pub data: Vec<u8>,
}

/// The storage key of canonical bytes: the digest in lowercase hex.
pub fn key_for(canonical: &Vec<u8>) -> (r: String)
    ensures
        r@ == hex_chars(sha1_of(canonical@)),
        r@.len() == 40,
{
    let hash = digest(canonical);
    to_hex_string(&hash)
}

/// Computes the full write plan for canonical bytes: the key, its
/// split into directory and file levels, and the compressed payload.
pub fn write_plan(canonical: &Vec<u8>) -> (r: StorePlan)
    ensures
        r.key@ == hex_chars(sha1_of(canonical@)),
        r.key@.len() == 40,
        r.dir_name@ == hex_chars(sha1_of(canonical@)).take(2),
        r.file_name@ == hex_chars(sha1_of(canonical@)).skip(2),
        inflate_of(r.data@) == Some(canonical@),
{
    let hash = digest(canonical);
    let key = to_hex_string(&hash);
    let head = copy_range(&hash, 0, 1);
    let tail = copy_range(&hash, 1, hash.len());
    let dir_name = to_hex_string(&head);
    let file_name = to_hex_string(&tail);
    proof {
        let h = hash@;
        assert forall|k: int| 0 <= k < 2 implies hex_chars(h.subrange(0, 1))[k] == hex_chars(
            h,
        ).take(2)[k] by {
            assert(h.subrange(0, 1)[k / 2] == h[k / 2]);
        }
        assert(hex_chars(h.subrange(0, 1)) =~= hex_chars(h).take(2));
        assert forall|k: int| 0 <= k < 2 * (h.len() - 1) implies hex_chars(
            h.subrange(1, h.len() as int),
        )[k] == hex_chars(h).skip(2)[k] by {
            assert(h.subrange(1, h.len() as int)[k / 2] == h[k / 2 + 1]);
            assert((k + 2) / 2 == k / 2 + 1);
            assert((k + 2) % 2 == k % 2);
        }
        assert(hex_chars(h.subrange(1, h.len() as int)) =~= hex_chars(h).skip(2));
    }
    let data = compress(canonical);
    StorePlan { key, dir_name, file_name, data }
}

/// The blob write path: frames the content as a canonical blob and
/// computes its write plan. The key depends on the content alone, so
/// storing identical content twice yields the identical key.
pub fn store_blob_plan(content: Vec<u8>) -> (r: StorePlan)
    ensures
        r.key@ == hex_chars(sha1_of(blob_encoding(content@))),
        r.key@.len() == 40,
        r.dir_name@ == hex_chars(sha1_of(blob_encoding(content@))).take(2),
        r.file_name@ == hex_chars(sha1_of(blob_encoding(content@))).skip(2),
        inflate_of(r.data@) == Some(blob_encoding(content@)),
{
    let blob = HashObject::from_content(content);
    let canonical = blob.value_as_byte();
    write_plan(&canonical)
}

/// The blob read path after the store handed over the at-rest bytes:
/// decompresses and unframes them, yielding the content.
/// `CorruptObject` exactly when decompression fails, otherwise the
/// framing errors of [`spec_blob_parse`].
pub fn decode_blob_file(data: &Vec<u8>) -> (r: Result<Vec<u8>, ObjectError>)
    ensures
        match r {
            Ok(c) => match inflate_of(data@) {
                Some(d) => spec_blob_parse(d) == Ok::<Seq<u8>, ObjectError>(c@),
                None => false,
            },
            Err(e) => match inflate_of(data@) {
                Some(d) => spec_blob_parse(d) == Err::<Seq<u8>, ObjectError>(e),
                None => e == ObjectError::CorruptObject,
            },
        },
{
    let canonical = match decompress(data) {
        Ok(d) => d,
        Err(e) => {
            return Err(e);
        },
    };
    HashObject::parse(&canonical)
}

/// The tree listing path after the store handed over the at-rest
/// bytes: decompresses, parses the tree, and yields the entry names in
/// canonical sorted order.
pub fn tree_names_from_file(data: &Vec<u8>) -> (r: Result<Vec<String>, ObjectError>)
    ensures
        match r {
            Ok(names) => match inflate_of(data@) {
                Some(d) => match spec_tree_parse(d) {
                    Ok(es) => names@.len() == es.len() && sorted_entries(es) && (forall|i: int|
                        0 <= i < es.len() ==> names@[i]@ == chars_of_bytes(es[i].name)),
                    Err(_) => false,
                },
                None => false,
            },
            Err(e) => match inflate_of(data@) {
                Some(d) => spec_tree_parse(d) == Err::<Seq<crate::tree_entry::EntryModel>,
                    ObjectError,
                >(e),
                None => e == ObjectError::CorruptObject,
            },
        },
{
    let canonical = match decompress(data) {
        Ok(d) => d,
        Err(e) => {
            return Err(e);
        },
    };
    match TreeObject::parse(&canonical) {
        Ok(tree) => Ok(tree.name_only()),
        Err(e) => Err(e),
    }
}

} // verus!
