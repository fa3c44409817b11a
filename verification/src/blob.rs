//! The blob object: arbitrary byte content wrapped in the canonical
//! `"blob <length>\0"` framing.

use vstd::prelude::*;
use crate::bytesutil::{NUL_BYTE, SPACE_BYTE};
use crate::codec::{compress, decompress, inflate_of};
use crate::digits::render_decimal;
use crate::errors::ObjectError;
use crate::header::{check_header, header_bytes, lemma_header_round_trip, spec_check_header};
use crate::text::{bytes_to_string, chars_of_bytes};
use vstd::string::StrSliceExecFns;
use vstd::string::StringSliceAdditionalSpecFns;

verus! {

/// The kind word of a blob header.
pub open spec fn blob_kind() -> Seq<u8> {
    seq![98u8, 108u8, 111u8, 98u8]
}

/// The canonical encoding of blob content: `"blob <length>\0"` followed
/// by the content bytes unchanged.
pub open spec fn blob_encoding(c: Seq<u8>) -> Seq<u8> {
    header_bytes(blob_kind(), c.len()) + c
}

/// Parses canonical blob bytes back to the content, or the typed error
/// the buffer earns: `InvalidHeader` when the framing is not
/// `"blob <digits>\0"`, `LengthMismatch` when the declared length
/// disagrees with the remaining byte count.
pub open spec fn spec_blob_parse(s: Seq<u8>) -> Result<Seq<u8>, ObjectError> {
    match spec_check_header(s, blob_kind()) {
        Err(e) => Err(e),
        Ok(after) => Ok(s.skip(after)),
    }
}

/// Round-trip identity: parsing the canonical encoding of any content
/// bytes, empty or with embedded NUL or space, gives back the content.
pub proof fn lemma_blob_round_trip(c: Seq<u8>)
    ensures
        spec_blob_parse(blob_encoding(c)) == Ok::<Seq<u8>, ObjectError>(c),
{
    lemma_header_round_trip(blob_kind(), c);
    assert(blob_encoding(c).skip(header_bytes(blob_kind(), c.len()).len() as int) =~= c);
}

/// A blob object: immutable content bytes. The view is the content.
pub struct HashObject {
    content: Vec<u8>,
}

impl View for HashObject {
    type V = Seq<u8>;

    closed spec fn view(&self) -> Seq<u8> {
        self.content@
    }
}

/// The exec form of the blob kind word.
fn blob_kind_vec() -> (r: Vec<u8>)
    ensures
        r@ == blob_kind(),
{
    let mut v: Vec<u8> = Vec::new();
    v.push(98);
    v.push(108);
    v.push(111);
    v.push(98);
    proof {
        assert(v@ =~= blob_kind());
    }
    v
}

impl HashObject {
    /// A blob over the bytes of the given text.
    pub fn new(text: &str) -> (r: Self)
        ensures
            r@ == text.spec_bytes(),
    {
        HashObject { content: text.as_bytes_vec() }
    }

    /// A blob over the given content bytes.
    pub fn from_content(content: Vec<u8>) -> (r: Self)
        ensures
            r@ == content@,
    {
        HashObject { content }
    }

    /// The byte length of the content.
    pub fn size(&self) -> (r: usize)
        ensures
            r == self@.len(),
    {
        self.content.len()
    }

    /// The canonical encoding of this blob.
    pub fn value_as_byte(&self) -> (r: Vec<u8>)
        ensures
            r@ == blob_encoding(self@),
    {
        let mut out = blob_kind_vec();
        out.push(SPACE_BYTE);
        let mut digits = render_decimal(self.content.len());
        out.append(&mut digits);
        out.push(NUL_BYTE);
        out.extend_from_slice(self.content.as_slice());
        proof {
            assert(out@ =~= blob_encoding(self@));
        }
        out
    }

    /// The canonical encoding as text, character for byte.
    pub fn value(&self) -> (r: String)
        ensures
            r@ == chars_of_bytes(blob_encoding(self@)),
    {
        let encoded = self.value_as_byte();
        bytes_to_string(&encoded)
    }

    /// The canonical encoding as text; the form a raw object listing
    /// prints.
    pub fn formatted_value(&self) -> (r: String)
        ensures
            r@ == chars_of_bytes(blob_encoding(self@)),
    {
        self.value()
    }

    /// The content alone as text, character for byte.
    pub fn unformatted_value(&self) -> (r: String)
        ensures
            r@ == chars_of_bytes(self@),
    {
        bytes_to_string(&self.content)
    }

    /// Parses canonical blob bytes into the content they frame.
    pub fn parse(canonical: &Vec<u8>) -> (r: Result<Vec<u8>, ObjectError>)
        ensures
            match r {
                Ok(c) => spec_blob_parse(canonical@) == Ok::<Seq<u8>, ObjectError>(c@),
                Err(e) => spec_blob_parse(canonical@) == Err::<Seq<u8>, ObjectError>(e),
            },
    {
        let kind = blob_kind_vec();
        let after = match check_header(canonical, &kind) {
            Ok(after) => after,
            Err(e) => {
                return Err(e);
            },
        };
        let mut content: Vec<u8> = Vec::new();
        let mut i: usize = after;
        while i < canonical.len()
            invariant
                after <= i <= canonical@.len(),
                content@ =~= canonical@.subrange(after as int, i as int),
            decreases canonical@.len() - i,
        {
            content.push(canonical[i]);
            i = i + 1;
        }
        proof {
            assert(content@ =~= canonical@.skip(after as int));
        }
        Ok(content)
    }

    /// Compresses the canonical encoding for at-rest storage.
    pub fn encode(&self) -> (r: Vec<u8>)
        ensures
            inflate_of(r@) == Some(blob_encoding(self@)),
    {
        let canonical = self.value_as_byte();
        compress(&canonical)
    }

    /// Decompresses an at-rest stream and validates the blob framing,
    /// returning the whole canonical text: `CorruptObject` when the
    /// stream does not decompress, otherwise the framing errors of
    /// [`spec_blob_parse`].
    pub fn decode(encoded_value: Vec<u8>) -> (r: Result<String, ObjectError>)
        ensures
            match r {
                Ok(s) => match inflate_of(encoded_value@) {
                    Some(d) => spec_blob_parse(d) is Ok && s@ == chars_of_bytes(d),
                    None => false,
                },
                Err(e) => match inflate_of(encoded_value@) {
                    Some(d) => spec_blob_parse(d) == Err::<Seq<u8>, ObjectError>(e),
                    None => e == ObjectError::CorruptObject,
                },
            },
    {
        let canonical = match decompress(&encoded_value) {
            Ok(d) => d,
            Err(e) => {
                return Err(e);
            },
        };
        match Self::parse(&canonical) {
            Ok(_) => Ok(bytes_to_string(&canonical)),
            Err(e) => Err(e),
        }
    }
}

} // verus!
