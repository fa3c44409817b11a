//! Content hashing: a stable 20-byte digest over canonical bytes,
//! exposed as raw bytes and as a lowercase hex string.

use vstd::prelude::*;
use crate::text::{hex_chars, to_hex_string};

verus! {

/// The SHA-1 digest of a byte sequence. The digest is a pure function
/// of the input bytes, so a name for its result is all the contracts
/// need; nothing restates the algorithm itself.
pub uninterp spec fn sha1_of(data: Seq<u8>) -> Seq<u8>;

/// Relies on `sha1::Sha1::digest`: a 20-byte digest that depends on the
/// input bytes alone.
#[verifier::external_body]
fn sha1_digest(data: &Vec<u8>) -> (r: Vec<u8>)
    ensures
        r@ == sha1_of(data@),
        r@.len() == 20,
{
    let d = <sha1::Sha1 as sha1::Digest>::digest(data.as_slice());
    d.to_vec()
}

/// The 20-byte digest of `data` as raw bytes, for embedding inside a
/// parent tree entry.
pub fn digest(data: &Vec<u8>) -> (r: Vec<u8>)
    ensures
        r@ == sha1_of(data@),
        r@.len() == 20,
{
    sha1_digest(data)
}

/// The digest of `data` as a 40-character lowercase hex string, the
/// form used as a storage key.
pub fn digest_hex(data: &Vec<u8>) -> (r: String)
    ensures
        r@ == hex_chars(sha1_of(data@)),
        r@.len() == 40,
{
    let d = sha1_digest(data);
    to_hex_string(&d)
}

/// Hashing the same canonical bytes twice yields the identical digest:
/// the digest depends on nothing but the input byte sequence.
pub proof fn lemma_digest_deterministic(a: Seq<u8>, b: Seq<u8>)
    requires
        a == b,
    ensures
        sha1_of(a) == sha1_of(b),
{
}

} // verus!
