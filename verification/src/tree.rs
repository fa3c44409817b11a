//! The tree object: an ordered sequence of entries under the canonical
//! `"tree <length>\0"` framing. Parsing consumes the payload entry by
//! entry under the declared length; serialization emits entries in the
//! canonical name order.

use vstd::prelude::*;
use crate::bytesutil::{NUL_BYTE, SPACE_BYTE};
use crate::codec::{decompress, inflate_of};
use crate::digits::{dec_digits, is_digit, render_decimal};
use crate::errors::ObjectError;
use crate::hasher::sha1_of;
use crate::header::{check_header, header_bytes, lemma_header_round_trip, spec_check_header};
use crate::text::{bytes_to_string, chars_of_bytes, hex_chars, push_char};
use crate::tree_entry::{entry_encoding, entry_line_wf, entry_wf, lemma_parse_entry_of_encoding,
    lemma_spec_parse_entry_ok, spec_parse_entry, EntryModel, TreeObjectEntry};
use crate::tree_sort::{all_entries_wf, entry_views, lemma_sort_entries_of_sorted,
    lemma_sort_entries_sorted, sort_entries, sort_entries_vec, sorted_entries};
use crate::bytesutil::find_byte;
use vstd::string::StrSliceExecFns;
use vstd::string::StringExecFns;
use vstd::string::StringSliceAdditionalSpecFns;
use vstd::utf8::encode_utf8;

verus! {

/// The kind word of a tree header.
pub open spec fn tree_kind() -> Seq<u8> {
    seq![116u8, 114u8, 101u8, 101u8]
}

/// The canonical tree payload: the concatenation of each entry's
/// canonical encoding, in the order given.
pub open spec fn tree_payload(es: Seq<EntryModel>) -> Seq<u8>
    decreases es.len(),
{
    if es.len() == 0 {
        Seq::empty()
    } else {
        entry_encoding(es[0]) + tree_payload(es.drop_first())
    }
}

/// Appending an entry appends its encoding to the payload.
pub proof fn lemma_tree_payload_push(es: Seq<EntryModel>, e: EntryModel)
    ensures
        tree_payload(es.push(e)) == tree_payload(es) + entry_encoding(e),
    decreases es.len(),
{
    if es.len() == 0 {
        assert(es.push(e).drop_first() =~= Seq::<EntryModel>::empty());
        assert(es.push(e)[0] == e);
        assert(tree_payload(es.push(e).drop_first()) == Seq::<u8>::empty());
        assert(tree_payload(es.push(e)) == entry_encoding(e) + Seq::<u8>::empty());
        assert(tree_payload(es) == Seq::<u8>::empty());
        assert(tree_payload(es.push(e)) =~= tree_payload(es) + entry_encoding(e));
    } else {
        assert(es.push(e).drop_first() =~= es.drop_first().push(e));
        assert(es.push(e)[0] == es[0]);
        lemma_tree_payload_push(es.drop_first(), e);
        assert(tree_payload(es.push(e)) =~= tree_payload(es) + entry_encoding(e));
    }
}

/// If parsing one entry at `i` succeeds, the cursor moves strictly
/// forward and stays in bounds.
pub proof fn lemma_parse_entry_advances(s: Seq<u8>, i: int)
    requires
        0 <= i <= s.len(),
    ensures
        spec_parse_entry(s, i) matches Ok(p) ==> i < p.1 <= s.len(),
{
    match spec_parse_entry(s, i) {
        Ok(p) => lemma_spec_parse_entry_ok(s, i, p.0, p.1),
        Err(_) => (),
    }
}

/// Parses entries from offset `i` to the very end of `s`, one after
/// the other by the cursor discipline. The cursor lands exactly on the
/// end or the parse fails with the first entry's error.
pub open spec fn spec_parse_entries(s: Seq<u8>, i: int) -> Result<Seq<EntryModel>, ObjectError>
    decreases s.len() - i when 0 <= i <= s.len()
{
    if i >= s.len() {
        Ok(Seq::empty())
    } else {
        match spec_parse_entry(s, i) {
            Err(e) => Err(e),
            Ok(p) => {
                proof {
                    lemma_parse_entry_advances(s, i);
                }
                match spec_parse_entries(s, p.1) {
                    Err(e) => Err(e),
                    Ok(rest) => Ok(seq![p.0] + rest),
                }
            },
        }
    }
}

/// Parsing the payload of well-formed entries recovers exactly those
/// entries: the inductive heart of the tree round trip.
pub proof fn lemma_parse_entries_of_payload(es: Seq<EntryModel>, s: Seq<u8>, i: int)
    requires
        all_entries_wf(es),
        0 <= i <= s.len(),
        s.skip(i) == tree_payload(es),
    ensures
        spec_parse_entries(s, i) == Ok::<Seq<EntryModel>, ObjectError>(es),
    decreases es.len(),
{
    if es.len() == 0 {
        assert(s.skip(i).len() == 0);
        assert(es =~= Seq::<EntryModel>::empty());
    } else {
        let e = es[0];
        assert(entry_wf(e));
        let enc = entry_encoding(e);
        let j = i + enc.len() as int;
        assert(s.skip(i).len() == tree_payload(es).len());
        assert(j <= s.len());
        assert forall|k: int| i <= k < j implies s[k] == enc[k - i] by {
            assert(s.skip(i)[k - i] == s[k]);
            assert(tree_payload(es)[k - i] == enc[k - i]);
        }
        assert(s.subrange(i, j) =~= enc);
        lemma_parse_entry_of_encoding(e, s, i);
        assert forall|k: int| 0 <= k < s.len() - j implies s.skip(j)[k] == tree_payload(
            es.drop_first(),
        )[k] by {
            assert(s.skip(i)[k + enc.len()] == s[j + k]);
            assert(tree_payload(es)[k + enc.len()] == tree_payload(es.drop_first())[k]);
        }
        assert(s.skip(j) =~= tree_payload(es.drop_first()));
        assert(all_entries_wf(es.drop_first()));
        lemma_parse_entries_of_payload(es.drop_first(), s, j);
        assert(i < s.len());
        assert(seq![e] + es.drop_first() =~= es);
    }
}

/// The canonical encoding of a tree whose entries stand in the given
/// order: header plus payload.
pub open spec fn tree_encoding(es: Seq<EntryModel>) -> Seq<u8> {
    header_bytes(tree_kind(), tree_payload(es).len()) + tree_payload(es)
}

/// Parses canonical tree bytes: the header must read
/// `"tree <digits>\0"` and declare exactly the remaining byte count;
/// the payload must parse as entries that fill it exactly. The result
/// is the parsed entries in canonical sorted order.
pub open spec fn spec_tree_parse(s: Seq<u8>) -> Result<Seq<EntryModel>, ObjectError> {
    match spec_check_header(s, tree_kind()) {
        Err(e) => Err(e),
        Ok(after) => match spec_parse_entries(s, after) {
            Err(e) => Err(e),
            Ok(es) => Ok(sort_entries(es)),
        },
    }
}

/// Tree canonical ordering, round-tripped: for entries inserted in any
/// order, the serialization of their sorted form parses back to that
/// same sorted sequence. This holds whatever bytes the entries' hashes
/// contain.
pub proof fn lemma_tree_round_trip(es: Seq<EntryModel>)
    requires
        all_entries_wf(es),
    ensures
        sorted_entries(sort_entries(es)),
        spec_tree_parse(tree_encoding(sort_entries(es))) == Ok::<Seq<EntryModel>, ObjectError>(
            sort_entries(es),
        ),
{
    lemma_sort_entries_sorted(es);
    let canon = sort_entries(es);
    let payload = tree_payload(canon);
    assert forall|i: int| 0 <= i < tree_kind().len() implies !is_digit(tree_kind()[i])
        && tree_kind()[i] != SPACE_BYTE && tree_kind()[i] != NUL_BYTE by {}
    lemma_header_round_trip(tree_kind(), payload);
    let s = tree_encoding(canon);
    let after = header_bytes(tree_kind(), payload.len()).len() as int;
    assert(s.skip(after) =~= payload);
    lemma_parse_entries_of_payload(canon, s, after);
    lemma_sort_entries_of_sorted(canon);
}

/// The entry model a `"<mode> <name>"` line denotes: the digit run
/// before the first space, the name after it, and the digest of the
/// name as the target hash.
pub open spec fn line_model(b: Seq<u8>) -> EntryModel {
    let k = find_byte(b, SPACE_BYTE, 0)->Some_0;
    EntryModel { mode: b.take(k), name: b.skip(k + 1), hash: sha1_of(b.skip(k + 1)) }
}

/// Prepends already-parsed entries to the outcome of parsing the rest.
pub open spec fn with_prefix(
    p: Seq<EntryModel>,
    r: Result<Seq<EntryModel>, ObjectError>,
) -> Result<Seq<EntryModel>, ObjectError> {
    match r {
        Ok(rest) => Ok(p + rest),
        Err(e) => Err(e),
    }
}

/// The exec form of the tree kind word.
fn tree_kind_vec() -> (r: Vec<u8>)
    ensures
        r@ == tree_kind(),
{
    let mut v: Vec<u8> = Vec::new();
    v.push(116);
    v.push(114);
    v.push(101);
    v.push(101);
    proof {
        assert(v@ =~= tree_kind());
    }
    v
}

/// The display form of one entry: mode, space, name, NUL, hex hash.
pub open spec fn entry_display(e: EntryModel) -> Seq<char> {
    chars_of_bytes(e.mode + seq![SPACE_BYTE] + e.name + seq![NUL_BYTE]) + hex_chars(e.hash)
}

/// The concatenated display forms of a sequence of entries.
pub open spec fn entries_display(es: Seq<EntryModel>) -> Seq<char>
    decreases es.len(),
{
    if es.len() == 0 {
        Seq::empty()
    } else {
        entries_display(es.drop_last()) + entry_display(es.last())
    }
}

/// The raw listing of a sequence of entries: each name followed by a
/// space and a newline.
pub open spec fn entries_unformatted(es: Seq<EntryModel>) -> Seq<char>
    decreases es.len(),
{
    if es.len() == 0 {
        Seq::empty()
    } else {
        entries_unformatted(es.drop_last()) + chars_of_bytes(es.last().name) + seq![' ', '\n']
    }
}

/// A tree object: an ordered sequence of entries, kept sorted by name
/// in byte-wise order, each well-formed. The view is the sequence of
/// entry models.
#[derive(Debug)]
pub struct TreeObject {
    entries: Vec<TreeObjectEntry>,
}

impl View for TreeObject {
    type V = Seq<EntryModel>;

    closed spec fn view(&self) -> Seq<EntryModel> {
        entry_views(self.entries@)
    }
}

impl TreeObject {
    /// The canonical invariant: entries sorted by name, each well-formed.
    #[verifier::type_invariant]
    closed spec fn inv(self) -> bool {
        all_entries_wf(entry_views(self.entries@)) && sorted_entries(entry_views(self.entries@))
    }

    /// Builds a tree from `"<mode> <name>"` lines, one entry each; the
    /// entries end up in canonical sorted order whatever order the
    /// lines came in.
    pub fn new_from_file(unformatted_tree_entries: Vec<String>) -> (r: Self)
        requires
            forall|i: int| 0 <= i < unformatted_tree_entries@.len() ==> entry_line_wf(
                encode_utf8(#[trigger] unformatted_tree_entries@[i]@),
            ),
        ensures
            r@ == sort_entries(
                unformatted_tree_entries@.map_values(|l: String| line_model(encode_utf8(l@))),
            ),
            sorted_entries(r@),
            all_entries_wf(r@),
    {
        let ghost models = unformatted_tree_entries@.map_values(
            |l: String| line_model(encode_utf8(l@)),
        );
        let mut entries: Vec<TreeObjectEntry> = Vec::new();
        let mut i: usize = 0;
        while i < unformatted_tree_entries.len()
            invariant
                0 <= i <= unformatted_tree_entries@.len(),
                models == unformatted_tree_entries@.map_values(
                    |l: String| line_model(encode_utf8(l@)),
                ),
                forall|k: int| 0 <= k < unformatted_tree_entries@.len() ==> entry_line_wf(
                    encode_utf8(#[trigger] unformatted_tree_entries@[k]@),
                ),
                entry_views(entries@) =~= models.take(i as int),
                all_entries_wf(entry_views(entries@)),
            decreases unformatted_tree_entries@.len() - i,
        {
            let line = &unformatted_tree_entries[i];
            let ghost b = encode_utf8(line@);
            let e = TreeObjectEntry::new_from_file(line.as_str());
            proof {
                assert(e@ == line_model(b));
                assert(models[i as int] == line_model(b));
                crate::tree_sort::lemma_entry_views_push(entries@, e);
                assert(models.take(i + 1) =~= models.take(i as int).push(models[i as int]));
            }
            entries.push(e);
            i = i + 1;
        }
        proof {
            assert(models.take(models.len() as int) =~= models);
        }
        let sorted = sort_entries_vec(entries);
        proof {
            lemma_sort_entries_sorted(models);
        }
        TreeObject { entries: sorted }
    }

    /// Parses canonical tree bytes into a tree, exactly as
    /// [`spec_tree_parse`] reads them, or yields the typed error the
    /// buffer earns.
    pub fn parse(canonical: &Vec<u8>) -> (r: Result<TreeObject, ObjectError>)
        ensures
            match r {
                Ok(t) => spec_tree_parse(canonical@) == Ok::<Seq<EntryModel>, ObjectError>(t@)
                    && sorted_entries(t@) && all_entries_wf(t@),
                Err(e) => spec_tree_parse(canonical@) == Err::<Seq<EntryModel>, ObjectError>(e),
            },
    {
        let kind = tree_kind_vec();
        let after = match check_header(canonical, &kind) {
            Ok(a) => a,
            Err(e) => {
                return Err(e);
            },
        };
        let mut entries: Vec<TreeObjectEntry> = Vec::new();
        let mut pos: usize = after;
        while pos < canonical.len()
            invariant
                pos <= canonical@.len(),
                0 <= after <= canonical@.len(),
                spec_check_header(canonical@, tree_kind()) == Ok::<int, ObjectError>(
                    after as int,
                ),
                spec_parse_entries(canonical@, after as int) == with_prefix(
                    entry_views(entries@),
                    spec_parse_entries(canonical@, pos as int),
                ),
                all_entries_wf(entry_views(entries@)),
            decreases canonical@.len() - pos,
        {
            match TreeObjectEntry::parse_one(canonical, pos) {
                Err(e) => {
                    return Err(e);
                },
                Ok(p) => {
                    let (entry, next) = p;
                    proof {
                        crate::tree_sort::lemma_entry_views_push(entries@, entry);
                        match spec_parse_entries(canonical@, next as int) {
                            Ok(rest) => {
                                assert(entry_views(entries@) + (seq![entry@] + rest)
                                    =~= entry_views(entries@).push(entry@) + rest);
                            },
                            Err(_) => {},
                        }
                    }
                    entries.push(entry);
                    pos = next;
                },
            }
        }
        let ghost parsed = entry_views(entries@);
        proof {
            assert(parsed + Seq::<EntryModel>::empty() =~= parsed);
            assert(spec_parse_entries(canonical@, after as int) == Ok::<
                Seq<EntryModel>,
                ObjectError,
            >(parsed));
        }
        let sorted = sort_entries_vec(entries);
        proof {
            lemma_sort_entries_sorted(parsed);
        }
        Ok(TreeObject { entries: sorted })
    }

    /// Decompresses an at-rest stream and parses it as a tree:
    /// `CorruptObject` when the stream does not decompress, otherwise
    /// the framing errors of [`spec_tree_parse`].
    pub fn from_compressed(value: Vec<u8>) -> (r: Result<TreeObject, ObjectError>)
        ensures
            match r {
                Ok(t) => match inflate_of(value@) {
                    Some(d) => spec_tree_parse(d) == Ok::<Seq<EntryModel>, ObjectError>(t@)
                        && sorted_entries(t@),
                    None => false,
                },
                Err(e) => match inflate_of(value@) {
                    Some(d) => spec_tree_parse(d) == Err::<Seq<EntryModel>, ObjectError>(e),
                    None => e == ObjectError::CorruptObject,
                },
            },
    {
        let canonical = match decompress(&value) {
            Ok(d) => d,
            Err(e) => {
                return Err(e);
            },
        };
        Self::parse(&canonical)
    }

    /// The canonical payload bytes: each entry's encoding, in order.
    fn payload_bytes(&self) -> (r: Vec<u8>)
        ensures
            r@ == tree_payload(self@),
    {
        let mut out: Vec<u8> = Vec::new();
        let mut i: usize = 0;
        while i < self.entries.len()
            invariant
                0 <= i <= self.entries@.len(),
                out@ =~= tree_payload(entry_views(self.entries@).take(i as int)),
            decreases self.entries@.len() - i,
        {
            let mut enc = self.entries[i].serialize();
            proof {
                let views = entry_views(self.entries@);
                assert(views[i as int] == self.entries@[i as int]@);
                lemma_tree_payload_push(views.take(i as int), views[i as int]);
                assert(views.take(i + 1) =~= views.take(i as int).push(views[i as int]));
            }
            out.append(&mut enc);
            i = i + 1;
        }
        proof {
            assert(entry_views(self.entries@).take(self.entries@.len() as int) =~= entry_views(
                self.entries@,
            ));
        }
        out
    }

    /// The canonical payload byte length of this tree.
    pub fn size(&self) -> (r: usize)
        ensures
            r == tree_payload(self@).len(),
    {
        let payload = self.payload_bytes();
        payload.len()
    }

    /// The canonical encoding of this tree: header plus payload. The
    /// entries already stand in canonical sorted order.
    pub fn serialize(&self) -> (r: Vec<u8>)
        ensures
            r@ == tree_encoding(self@),
            sorted_entries(self@),
            all_entries_wf(self@),
    {
        proof {
            use_type_invariant(&*self);
        }
        let payload = self.payload_bytes();
        let mut out = tree_kind_vec();
        out.push(SPACE_BYTE);
        let mut digits = render_decimal(payload.len());
        out.append(&mut digits);
        out.push(NUL_BYTE);
        out.extend_from_slice(payload.as_slice());
        proof {
            assert(out@ =~= tree_encoding(self@));
        }
        out
    }

    /// The names of the entries, in the canonical sorted order, as
    /// text, character for byte.
    pub fn name_only(&self) -> (r: Vec<String>)
        ensures
            r@.len() == self@.len(),
            forall|i: int| 0 <= i < r@.len() ==> r@[i]@ == chars_of_bytes(self@[i].name),
            sorted_entries(self@),
    {
        proof {
            use_type_invariant(&*self);
        }
        let mut names: Vec<String> = Vec::new();
        let mut i: usize = 0;
        while i < self.entries.len()
            invariant
                0 <= i <= self.entries@.len(),
                names@.len() == i,
                forall|k: int| 0 <= k < i ==> names@[k]@ == chars_of_bytes(
                    entry_views(self.entries@)[k].name,
                ),
            decreases self.entries@.len() - i,
        {
            proof {
                assert(entry_views(self.entries@)[i as int] == self.entries@[i as int]@);
            }
            let name = self.entries[i].name_as_string();
            names.push(name);
            i = i + 1;
        }
        names
    }

    /// The display form of this tree: the kind word, the display
    /// length, a NUL, then each entry's display form in order.
    pub fn formatted_value(&self) -> (r: String)
        ensures
            r@ == seq!['t', 'r', 'e', 'e', ' '] + chars_of_bytes(
                dec_digits(entries_display(self@).len()),
            ) + seq![(NUL_BYTE as char)] + entries_display(self@),
    {
        let body = self.display_body();
        let dlen = body.as_str().unicode_len();
        let digit_bytes = render_decimal(dlen);
        let digit_text = bytes_to_string(&digit_bytes);
        let mut out = String::new();
        push_char(&mut out, 't');
        push_char(&mut out, 'r');
        push_char(&mut out, 'e');
        push_char(&mut out, 'e');
        push_char(&mut out, ' ');
        proof {
            assert(out@ =~= seq!['t', 'r', 'e', 'e', ' ']);
        }
        out.append(digit_text.as_str());
        push_char(&mut out, NUL_BYTE as char);
        out.append(body.as_str());
        proof {
            assert(out@ =~= seq!['t', 'r', 'e', 'e', ' '] + chars_of_bytes(
                dec_digits(entries_display(self@).len()),
            ) + seq![(NUL_BYTE as char)] + entries_display(self@));
        }
        out
    }

    /// The concatenated display forms of the entries.
    fn display_body(&self) -> (r: String)
        ensures
            r@ == entries_display(self@),
    {
        let mut body = String::new();
        let mut i: usize = 0;
        while i < self.entries.len()
            invariant
                0 <= i <= self.entries@.len(),
                body@ =~= entries_display(entry_views(self.entries@).take(i as int)),
            decreases self.entries@.len() - i,
        {
            proof {
                let views = entry_views(self.entries@);
                assert(views[i as int] == self.entries@[i as int]@);
                assert(views.take(i + 1).drop_last() =~= views.take(i as int));
                assert(views.take(i + 1).last() == views[i as int]);
            }
            let part = self.entries[i].formatted_value();
            body.append(part.as_str());
            i = i + 1;
        }
        proof {
            assert(entry_views(self.entries@).take(self.entries@.len() as int) =~= entry_views(
                self.entries@,
            ));
        }
        body
    }

    /// The raw listing of this tree: each entry's name, a space and a
    /// newline.
    pub fn unformatted_value(&self) -> (r: String)
        ensures
            r@ == entries_unformatted(self@),
    {
        let mut out = String::new();
        let mut i: usize = 0;
        while i < self.entries.len()
            invariant
                0 <= i <= self.entries@.len(),
                out@ =~= entries_unformatted(entry_views(self.entries@).take(i as int)),
            decreases self.entries@.len() - i,
        {
            proof {
                let views = entry_views(self.entries@);
                assert(views[i as int] == self.entries@[i as int]@);
                assert(views.take(i + 1).drop_last() =~= views.take(i as int));
                assert(views.take(i + 1).last() == views[i as int]);
            }
            let name = self.entries[i].name_as_string();
            out.append(name.as_str());
            push_char(&mut out, ' ');
            push_char(&mut out, '\n');
            i = i + 1;
        }
        proof {
            assert(entry_views(self.entries@).take(self.entries@.len() as int) =~= entry_views(
                self.entries@,
            ));
        }
        out
    }
}

} // verus!
