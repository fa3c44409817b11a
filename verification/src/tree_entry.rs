//! One tree entry: a (mode, name, target-hash) triple, parsed from and
//! serialized to a raw byte cursor.
//!
//! The 20 hash bytes are opaque binary and may equal any delimiter
//! byte, so the parser consumes them by count alone: it never scans
//! through them for a separator.

use vstd::prelude::*;
use crate::bytesutil::{copy_range, digit_run_end, find_byte, lemma_digit_run_end,
    lemma_digit_run_end_exact, lemma_find_byte, lemma_find_byte_exact, lex_le, lex_le_bytes,
    no_nul, HASH_LEN, NUL_BYTE, SPACE_BYTE};
use crate::digits::{all_digits, is_digit};
use crate::errors::ObjectError;
use crate::hasher::{digest, sha1_of};
use crate::text::{bytes_to_string, chars_of_bytes, hex_chars, to_hex_string};
use vstd::string::StrSliceExecFns;
use vstd::string::StringExecFns;
use vstd::string::StringSliceAdditionalSpecFns;

verus! {

/// The mathematical model of one tree entry.
pub struct EntryModel {
    /// A non-empty run of ASCII digits, kept as given.
    pub mode: Seq<u8>,
    /// A byte sequence free of NUL; it may contain spaces.
    pub name: Seq<u8>,
    /// Exactly 20 raw bytes; any byte value is legal here.
    pub hash: Seq<u8>,
}

/// Well-formedness of an entry model: what the canonical format can
/// represent and what parsing always yields.
pub open spec fn entry_wf(e: EntryModel) -> bool {
    &&& e.mode.len() > 0
    &&& all_digits(e.mode)
    &&& no_nul(e.name)
    &&& e.hash.len() == HASH_LEN
}

/// The canonical per-entry encoding: mode digits, one space, the name,
/// one NUL, then the 20 raw hash bytes with no trailing separator.
pub open spec fn entry_encoding(e: EntryModel) -> Seq<u8> {
    e.mode + seq![SPACE_BYTE] + e.name + seq![NUL_BYTE] + e.hash
}

/// Parses one entry at offset `i` of `s` by the cursor discipline:
/// a digit run up to a single space, a name up to the first NUL, then
/// exactly 20 hash bytes taken by count. Yields the entry and the
/// offset just past its 20th hash byte.
pub open spec fn spec_parse_entry(s: Seq<u8>, i: int) -> Result<(EntryModel, int), ObjectError>
    recommends
        0 <= i <= s.len(),
{
    let d = digit_run_end(s, i);
    if d == i || d >= s.len() || s[d] != SPACE_BYTE {
        Err(ObjectError::MalformedTree)
    } else {
        match find_byte(s, NUL_BYTE, d + 1) {
            None => Err(ObjectError::MalformedTree),
            Some(n) => if s.len() - (n + 1) < HASH_LEN {
                Err(ObjectError::TruncatedEntry)
            } else {
                Ok(
                    (
                        EntryModel {
                            mode: s.subrange(i, d),
                            name: s.subrange(d + 1, n),
                            hash: s.subrange(n + 1, n + 1 + HASH_LEN),
                        },
                        n + 1 + HASH_LEN,
                    ),
                )
            },
        }
    }
}

/// What a successful parse yields: a well-formed entry whose encoding
/// is exactly the bytes consumed, and a cursor that moved forward.
pub proof fn lemma_spec_parse_entry_ok(s: Seq<u8>, i: int, e: EntryModel, j: int)
    requires
        0 <= i <= s.len(),
        spec_parse_entry(s, i) == Ok::<(EntryModel, int), ObjectError>((e, j)),
    ensures
        entry_wf(e),
        i < j <= s.len(),
        j - i == entry_encoding(e).len(),
        s.subrange(i, j) == entry_encoding(e),
        j >= i + 23,
{
    let d = digit_run_end(s, i);
    lemma_digit_run_end(s, i);
    lemma_find_byte(s, NUL_BYTE, d + 1);
    let n = find_byte(s, NUL_BYTE, d + 1)->Some_0;
    assert(s.subrange(i, j) =~= entry_encoding(e));
}

/// Parsing at the start of an entry's encoding recovers exactly that
/// entry, whatever bytes follow it. This holds even when the hash
/// bytes contain NUL or space: the parser never looks at them for a
/// delimiter.
pub proof fn lemma_parse_entry_of_encoding(e: EntryModel, s: Seq<u8>, i: int)
    requires
        entry_wf(e),
        0 <= i,
        i + entry_encoding(e).len() <= s.len(),
        s.subrange(i, i + entry_encoding(e).len()) == entry_encoding(e),
    ensures
        spec_parse_entry(s, i) == Ok::<(EntryModel, int), ObjectError>(
            (e, i + entry_encoding(e).len()),
        ),
{
    let enc = entry_encoding(e);
    let mlen = e.mode.len() as int;
    let nlen = e.name.len() as int;
    let d = i + mlen;
    let n = d + 1 + nlen;
    assert forall|k: int| i <= k < i + enc.len() implies s[k] == enc[k - i] by {
        assert(s.subrange(i, i + enc.len())[k - i] == s[k]);
    }
    assert forall|k: int| i <= k < d implies is_digit(s[k]) by {
        assert(enc[k - i] == e.mode[k - i]);
    }
    assert(s[d] == SPACE_BYTE);
    lemma_digit_run_end_exact(s, i, d);
    assert forall|k: int| d + 1 <= k < n implies s[k] != NUL_BYTE by {
        assert(enc[k - i] == e.name[k - (d + 1)]);
    }
    assert(s[n] == NUL_BYTE);
    lemma_find_byte_exact(s, NUL_BYTE, d + 1, n);
    assert(s.len() - (n + 1) >= HASH_LEN);
    let parsed = spec_parse_entry(s, i)->Ok_0.0;
    assert(parsed.mode =~= e.mode);
    assert(parsed.name =~= e.name);
    assert forall|k: int| 0 <= k < HASH_LEN implies s.subrange(n + 1, n + 1 + HASH_LEN)[k]
        == e.hash[k] by {
        assert(enc[n + 1 + k - i] == e.hash[k]);
    }
    assert(parsed.hash =~= e.hash);
    assert(n + 1 + HASH_LEN == i + enc.len());
}

/// One (mode, name, target-hash) entry of a tree object. The view is
/// its [`EntryModel`].
#[derive(Debug)]
pub struct TreeObjectEntry {
    mode: Vec<u8>,
    name: Vec<u8>,
    hash: Vec<u8>,
}

impl View for TreeObjectEntry {
    type V = EntryModel;

    closed spec fn view(&self) -> EntryModel {
        EntryModel { mode: self.mode@, name: self.name@, hash: self.hash@ }
    }
}

/// A well-formed `"<mode> <name>"` line: a non-empty digit run, one
/// space, then a name free of NUL bytes (it may contain spaces).
pub open spec fn entry_line_wf(b: Seq<u8>) -> bool {
    match find_byte(b, SPACE_BYTE, 0) {
        None => false,
        Some(k) => k > 0 && all_digits(b.take(k)) && no_nul(b.skip(k + 1)),
    }
}

impl TreeObjectEntry {
    /// Builds an entry from a `"<mode> <name>"` line; the target hash
    /// is the digest of the name bytes. The mode is the digit run
    /// before the first space, the name everything after it.
    pub fn new_from_file(unformatted_entry: &str) -> (r: Self)
        requires
            entry_line_wf(unformatted_entry.spec_bytes()),
        ensures
            ({
                let b = unformatted_entry.spec_bytes();
                &&& find_byte(b, SPACE_BYTE, 0) matches Some(k)
                &&& r@.mode == b.take(find_byte(b, SPACE_BYTE, 0)->Some_0)
                &&& r@.name == b.skip(find_byte(b, SPACE_BYTE, 0)->Some_0 + 1)
                &&& r@.hash == sha1_of(r@.name)
                &&& entry_wf(r@)
            }),
    {
        let bytes = unformatted_entry.as_bytes_vec();
        let ghost k0 = find_byte(bytes@, SPACE_BYTE, 0)->Some_0;
        proof {
            lemma_find_byte(bytes@, SPACE_BYTE, 0);
        }
        let mut k: usize = 0;
        while bytes[k] != SPACE_BYTE
            invariant
                0 <= k <= k0 < bytes@.len(),
                bytes@.len() <= usize::MAX,
                forall|j: int| 0 <= j < k ==> bytes@[j] != SPACE_BYTE,
                find_byte(bytes@, SPACE_BYTE, 0) == Some(k0),
                bytes@[k0] == SPACE_BYTE,
            decreases k0 - k,
        {
            k = k + 1;
        }
        let mode = copy_range(&bytes, 0, k);
        let name = copy_range(&bytes, k + 1, bytes.len());
        let hash = digest(&name);
        proof {
            assert(k == k0);
            assert(mode@ =~= bytes@.take(k as int));
            assert(name@ =~= bytes@.skip(k + 1));
        }
        TreeObjectEntry { mode, name, hash }
    }

    /// The stored 20-byte target hash.
    pub fn hash_value(&self) -> (r: Vec<u8>)
        ensures
            r@ == self@.hash,
    {
        copy_range(&self.hash, 0, self.hash.len())
    }

    /// The name as text, character for byte.
    pub fn name_as_string(&self) -> (r: String)
        ensures
            r@ == chars_of_bytes(self@.name),
    {
        bytes_to_string(&self.name)
    }

    /// The name as text; the raw datum an entry was created over.
    pub fn unformatted_value(&self) -> (r: String)
        ensures
            r@ == chars_of_bytes(self@.name),
    {
        self.name_as_string()
    }

    /// The display form of an entry: mode, space, name, NUL, then the
    /// target hash in lowercase hex.
    pub fn formatted_value(&self) -> (r: String)
        ensures
            r@ == chars_of_bytes(self@.mode + seq![SPACE_BYTE] + self@.name + seq![NUL_BYTE])
                + hex_chars(self@.hash),
    {
        let mut head: Vec<u8> = copy_range(&self.mode, 0, self.mode.len());
        head.push(SPACE_BYTE);
        head.extend_from_slice(self.name.as_slice());
        head.push(NUL_BYTE);
        let mut out = bytes_to_string(&head);
        let hex = to_hex_string(&self.hash);
        out.append(hex.as_str());
        proof {
            assert(head@ =~= self@.mode + seq![SPACE_BYTE] + self@.name + seq![NUL_BYTE]);
        }
        out
    }

    /// The canonical encoding of this entry.
    pub fn serialize(&self) -> (r: Vec<u8>)
        ensures
            r@ == entry_encoding(self@),
    {
        let mut out: Vec<u8> = copy_range(&self.mode, 0, self.mode.len());
        out.push(SPACE_BYTE);
        out.extend_from_slice(self.name.as_slice());
        out.push(NUL_BYTE);
        out.extend_from_slice(self.hash.as_slice());
        proof {
            assert(out@ =~= entry_encoding(self@));
        }
        out
    }

    /// Whether this entry's name comes at or before the other's in
    /// byte-wise lexicographic order: the canonical order of a tree.
    pub fn name_le(&self, other: &TreeObjectEntry) -> (r: bool)
        ensures
            r == lex_le(self@.name, other@.name),
    {
        lex_le_bytes(&self.name, &other.name)
    }

    /// Parses one entry at `offset`, returning it with the offset just
    /// past its final hash byte, exactly as [`spec_parse_entry`] reads
    /// the bytes.
    pub fn parse_one(data: &Vec<u8>, offset: usize) -> (r: Result<
        (TreeObjectEntry, usize),
        ObjectError,
    >)
        requires
            offset <= data@.len(),
        ensures
            match r {
                Ok(p) => spec_parse_entry(data@, offset as int) == Ok::<
                    (EntryModel, int),
                    ObjectError,
                >((p.0@, p.1 as int)) && entry_wf(p.0@) && offset < p.1 <= data@.len(),
                Err(e) => spec_parse_entry(data@, offset as int) == Err::<
                    (EntryModel, int),
                    ObjectError,
                >(e),
            },
    {
        let mut d: usize = offset;
        while d < data.len() && is_digit_byte(data[d])
            invariant
                offset <= d <= data@.len(),
                forall|j: int| offset <= j < d ==> is_digit(data@[j]),
            decreases data@.len() - d,
        {
            d = d + 1;
        }
        proof {
            lemma_digit_run_end_exact(data@, offset as int, d as int);
        }
        if d == offset || d == data.len() {
            return Err(ObjectError::MalformedTree);
        }
        if data[d] != SPACE_BYTE {
            return Err(ObjectError::MalformedTree);
        }
        let mut n: usize = d + 1;
        while n < data.len() && data[n] != NUL_BYTE
            invariant
                d + 1 <= n <= data@.len(),
                forall|j: int| d + 1 <= j < n ==> data@[j] != NUL_BYTE,
            decreases data@.len() - n,
        {
            n = n + 1;
        }
        if n == data.len() {
            proof {
                crate::bytesutil::lemma_find_byte_none(data@, NUL_BYTE, d + 1);
            }
            return Err(ObjectError::MalformedTree);
        }
        proof {
            lemma_find_byte_exact(data@, NUL_BYTE, d + 1, n as int);
        }
        if data.len() - (n + 1) < HASH_LEN {
            return Err(ObjectError::TruncatedEntry);
        }
        let mode = copy_range(data, offset, d);
        let name = copy_range(data, d + 1, n);
        let hash = copy_range(data, n + 1, n + 1 + HASH_LEN);
        Ok((TreeObjectEntry { mode, name, hash }, n + 1 + HASH_LEN))
    }
}

/// The exec form of the digit test.
fn is_digit_byte(b: u8) -> (r: bool)
    ensures
        r == is_digit(b),
{
    48 <= b && b <= 57
}

} // verus!
