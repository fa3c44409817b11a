//! The at-rest codec: zlib compression of canonical bytes. Only
//! decompression exactness matters for correctness, so the contracts
//! are stated through the decompression function alone.

use vstd::prelude::*;
use crate::errors::ObjectError;

verus! {

/// What zlib decompression yields on a byte sequence: the decompressed
/// bytes, or `None` when the input is not a valid compressed stream.
/// The result depends on the input bytes alone.
pub uninterp spec fn inflate_of(data: Seq<u8>) -> Option<Seq<u8>>;

/// Relies on `flate2::read::ZlibEncoder`: compresses so that zlib
/// decompression recovers exactly the input bytes.
#[verifier::external_body]
fn zlib_compress(data: &Vec<u8>) -> (r: Vec<u8>)
    ensures
        inflate_of(r@) == Some(data@),
{
    let mut enc = flate2::read::ZlibEncoder::new(&data[..], flate2::Compression::default());
    let mut buf: Vec<u8> = Vec::new();
    std::io::Read::read_to_end(&mut enc, &mut buf).unwrap();
    buf
}

/// Relies on `flate2::read::ZlibDecoder`: yields the decompressed bytes
/// of a valid zlib stream and reports an error on any other input.
#[verifier::external_body]
fn zlib_decompress(data: &Vec<u8>) -> (r: Option<Vec<u8>>)
    ensures
        match r {
            Some(d) => inflate_of(data@) == Some(d@),
            None => inflate_of(data@) is None,
        },
{
    let mut dec = flate2::read::ZlibDecoder::new(&data[..]);
    let mut buf: Vec<u8> = Vec::new();
    match std::io::Read::read_to_end(&mut dec, &mut buf) {
        Ok(_) => Some(buf),
        Err(_) => None,
    }
}

/// Compresses canonical bytes for at-rest storage.
pub fn compress(data: &Vec<u8>) -> (r: Vec<u8>)
    ensures
        inflate_of(r@) == Some(data@),
{
    zlib_compress(data)
}

/// Decompresses an at-rest byte stream, failing with `CorruptObject`
/// exactly when the input is not a valid compressed stream.
pub fn decompress(data: &Vec<u8>) -> (r: Result<Vec<u8>, ObjectError>)
    ensures
        match r {
            Ok(d) => inflate_of(data@) == Some(d@),
            Err(e) => e == ObjectError::CorruptObject && inflate_of(data@) is None,
        },
{
    match zlib_decompress(data) {
        Some(d) => Ok(d),
        None => Err(ObjectError::CorruptObject),
    }
}

/// Compression round trip: decompressing what `compress` produced
/// returns the input bytes unchanged, for every byte sequence.
pub fn compress_round_trip(data: &Vec<u8>) -> (r: Vec<u8>)
    ensures
        r@ == data@,
{
    let packed = compress(data);
    match decompress(&packed) {
        Ok(d) => d,
        Err(_) => {
            proof {
                assert(false);
            }
            Vec::new()
        },
    }
}

} // verus!
