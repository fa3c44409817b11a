//! The canonical order of tree entries: stable insertion sort by
//! byte-wise name comparison, as a spec-level function mirrored by a
//! verified executable sort.

use vstd::prelude::*;
use crate::bytesutil::{lemma_lex_le_total, lemma_lex_le_trans, lex_le};
use crate::tree_entry::{entry_wf, EntryModel, TreeObjectEntry};

verus! {

/// Whether a sequence of entries is sorted by name, byte-wise.
pub open spec fn sorted_entries(es: Seq<EntryModel>) -> bool {
    forall|i: int, j: int| 0 <= i < j < es.len() ==> lex_le(es[i].name, es[j].name)
}

/// Every entry of the sequence is well-formed.
pub open spec fn all_entries_wf(es: Seq<EntryModel>) -> bool {
    forall|i: int| 0 <= i < es.len() ==> entry_wf(#[trigger] es[i])
}

/// Inserts `e` after every element whose name is at or below `e`'s:
/// the stable insertion step.
pub open spec fn insert_sorted(e: EntryModel, es: Seq<EntryModel>) -> Seq<EntryModel>
    decreases es.len(),
{
    if es.len() == 0 {
        seq![e]
    } else if lex_le(es[0].name, e.name) {
        seq![es[0]] + insert_sorted(e, es.drop_first())
    } else {
        seq![e] + es
    }
}

/// Sorts entries by name: a stable insertion sort, inserting each
/// element into the sorted run of those before it.
pub open spec fn sort_entries(es: Seq<EntryModel>) -> Seq<EntryModel>
    decreases es.len(),
{
    if es.len() == 0 {
        Seq::empty()
    } else {
        insert_sorted(es.last(), sort_entries(es.drop_last()))
    }
}

/// Inserting adds one element and keeps the rest.
pub proof fn lemma_insert_sorted_len(e: EntryModel, es: Seq<EntryModel>)
    ensures
        insert_sorted(e, es).len() == es.len() + 1,
    decreases es.len(),
{
    if es.len() > 0 && lex_le(es[0].name, e.name) {
        lemma_insert_sorted_len(e, es.drop_first());
    }
}

/// Every element of an insertion result is the inserted element or
/// an element that was already present.
pub proof fn lemma_insert_sorted_elems(e: EntryModel, es: Seq<EntryModel>)
    ensures
        forall|i: int| 0 <= i < insert_sorted(e, es).len() ==> insert_sorted(e, es)[i] == e
            || es.contains(insert_sorted(e, es)[i]),
    decreases es.len(),
{
    lemma_insert_sorted_len(e, es);
    if es.len() > 0 && lex_le(es[0].name, e.name) {
        lemma_insert_sorted_elems(e, es.drop_first());
        assert forall|i: int| 0 <= i < insert_sorted(e, es).len() implies insert_sorted(e, es)[i]
            == e || es.contains(insert_sorted(e, es)[i]) by {
            if i > 0 {
                let v = insert_sorted(e, es)[i];
                assert(v == insert_sorted(e, es.drop_first())[i - 1]);
                if v != e {
                    let w = choose|j: int|
                        0 <= j < es.drop_first().len() && es.drop_first()[j] == v;
                    assert(es[w + 1] == v);
                }
            }
        }
    }
}

/// Inserting into a sorted run keeps it sorted.
pub proof fn lemma_insert_sorted_sorted(e: EntryModel, es: Seq<EntryModel>)
    requires
        sorted_entries(es),
    ensures
        sorted_entries(insert_sorted(e, es)),
    decreases es.len(),
{
    lemma_insert_sorted_len(e, es);
    if es.len() == 0 {
    } else if lex_le(es[0].name, e.name) {
        assert(sorted_entries(es.drop_first()));
        lemma_insert_sorted_sorted(e, es.drop_first());
        lemma_insert_sorted_elems(e, es.drop_first());
        let r = insert_sorted(e, es);
        assert forall|i: int, j: int| 0 <= i < j < r.len() implies lex_le(
            r[i].name,
            r[j].name,
        ) by {
            if i == 0 {
                let v = r[j];
                assert(v == insert_sorted(e, es.drop_first())[j - 1]);
                if v == e {
                    assert(lex_le(es[0].name, e.name));
                } else {
                    assert(es.drop_first().contains(v));
                    let w = choose|w: int|
                        0 <= w < es.drop_first().len() && es.drop_first()[w] == v;
                    assert(es[0 + 1 + w] == v);
                    assert(lex_le(es[0].name, v.name));
                }
            } else {
                assert(r[i] == insert_sorted(e, es.drop_first())[i - 1]);
                assert(r[j] == insert_sorted(e, es.drop_first())[j - 1]);
            }
        }
    } else {
        lemma_lex_le_total(es[0].name, e.name);
        let r = insert_sorted(e, es);
        assert forall|i: int, j: int| 0 <= i < j < r.len() implies lex_le(
            r[i].name,
            r[j].name,
        ) by {
            if i == 0 && j > 0 {
                assert(r[j] == es[j - 1]);
                if j - 1 > 0 {
                    assert(lex_le(es[0].name, es[j - 1].name));
                    lemma_lex_le_trans(e.name, es[0].name, es[j - 1].name);
                }
            }
        }
    }
}

/// Inserting a well-formed entry into well-formed entries yields
/// well-formed entries.
pub proof fn lemma_insert_sorted_wf(e: EntryModel, es: Seq<EntryModel>)
    requires
        entry_wf(e),
        all_entries_wf(es),
    ensures
        all_entries_wf(insert_sorted(e, es)),
{
    lemma_insert_sorted_len(e, es);
    lemma_insert_sorted_elems(e, es);
    assert forall|i: int| 0 <= i < insert_sorted(e, es).len() implies entry_wf(
        #[trigger] insert_sorted(e, es)[i],
    ) by {
        let v = insert_sorted(e, es)[i];
        if v != e {
            let w = choose|j: int| 0 <= j < es.len() && es[j] == v;
        }
    }
}

/// The sort yields a sorted sequence of the same length, and keeps
/// every entry well-formed when they all were.
pub proof fn lemma_sort_entries_sorted(es: Seq<EntryModel>)
    ensures
        sorted_entries(sort_entries(es)),
        sort_entries(es).len() == es.len(),
        all_entries_wf(es) ==> all_entries_wf(sort_entries(es)),
    decreases es.len(),
{
    if es.len() > 0 {
        lemma_sort_entries_sorted(es.drop_last());
        lemma_insert_sorted_sorted(es.last(), sort_entries(es.drop_last()));
        lemma_insert_sorted_len(es.last(), sort_entries(es.drop_last()));
        if all_entries_wf(es) {
            assert(all_entries_wf(es.drop_last()));
            lemma_insert_sorted_wf(es.last(), sort_entries(es.drop_last()));
        }
    }
}

/// Inserting an element at or above everything present appends it.
pub proof fn lemma_insert_sorted_at_end(e: EntryModel, es: Seq<EntryModel>)
    requires
        forall|i: int| 0 <= i < es.len() ==> lex_le(#[trigger] es[i].name, e.name),
    ensures
        insert_sorted(e, es) == es.push(e),
    decreases es.len(),
{
    if es.len() == 0 {
        assert(insert_sorted(e, es) =~= es.push(e));
    } else {
        assert(forall|i: int|
            0 <= i < es.drop_first().len() ==> lex_le(#[trigger] es.drop_first()[i].name, e.name));
        lemma_insert_sorted_at_end(e, es.drop_first());
        assert(insert_sorted(e, es) =~= es.push(e));
    }
}

/// Sorting an already sorted sequence leaves it unchanged: the sort is
/// idempotent on canonical input.
pub proof fn lemma_sort_entries_of_sorted(es: Seq<EntryModel>)
    requires
        sorted_entries(es),
    ensures
        sort_entries(es) == es,
    decreases es.len(),
{
    if es.len() > 0 {
        assert(sorted_entries(es.drop_last()));
        lemma_sort_entries_of_sorted(es.drop_last());
        assert(forall|i: int|
            0 <= i < es.drop_last().len() ==> lex_le(#[trigger] es.drop_last()[i].name, es.last().name));
        lemma_insert_sorted_at_end(es.last(), es.drop_last());
        assert(es.drop_last().push(es.last()) =~= es);
    }
}

/// The views of a sequence of entry values.
pub open spec fn entry_views(es: Seq<TreeObjectEntry>) -> Seq<EntryModel> {
    es.map_values(|t: TreeObjectEntry| t@)
}

/// Views commute with appending one entry value.
pub proof fn lemma_entry_views_push(es: Seq<TreeObjectEntry>, e: TreeObjectEntry)
    ensures
        entry_views(es.push(e)) == entry_views(es).push(e@),
{
    assert(entry_views(es.push(e)) =~= entry_views(es).push(e@));
}

/// Splitting an insertion at the found position: if everything before
/// `j` is at or below `e` and the element at `j` (if any) is not, the
/// insertion puts `e` exactly at `j`.
pub proof fn lemma_insert_sorted_at(e: EntryModel, es: Seq<EntryModel>, j: int)
    requires
        0 <= j <= es.len(),
        forall|i: int| 0 <= i < j ==> lex_le(#[trigger] es[i].name, e.name),
        j < es.len() ==> !lex_le(es[j].name, e.name),
    ensures
        insert_sorted(e, es) == es.take(j) + seq![e] + es.skip(j),
    decreases j,
{
    if es.len() == 0 {
        assert(insert_sorted(e, es) =~= es.take(j) + seq![e] + es.skip(j));
    } else if j == 0 {
        assert(insert_sorted(e, es) =~= es.take(0) + seq![e] + es.skip(0));
    } else {
        lemma_insert_sorted_at(e, es.drop_first(), j - 1);
        assert(es.drop_first().take(j - 1) =~= es.take(j).drop_first());
        assert(es.drop_first().skip(j - 1) =~= es.skip(j));
        assert(insert_sorted(e, es) =~= es.take(j) + seq![e] + es.skip(j));
    }
}

/// Sorts entry values by name with a stable insertion sort, matching
/// [`sort_entries`] exactly.
pub fn sort_entries_vec(entries: Vec<TreeObjectEntry>) -> (r: Vec<TreeObjectEntry>)
    ensures
        entry_views(r@) == sort_entries(entry_views(entries@)),
{
    let ghost input = entry_views(entries@);
    let mut src = entries;
    let mut acc: Vec<TreeObjectEntry> = Vec::new();
    let ghost total = input.len();
    while src.len() > 0
        invariant
            entry_views(src@) =~= input.skip(input.len() - src@.len()),
            src@.len() <= input.len(),
            entry_views(acc@) =~= sort_entries(input.take(input.len() - src@.len())),
        decreases src@.len(),
    {
        let ghost done = input.len() - src@.len();
        let ghost old_src = src@;
        let e = src.remove(0);
        proof {
            assert(entry_views(old_src)[0] == old_src[0]@);
            assert(entry_views(old_src) =~= input.skip(done));
            assert(e@ == input[done]);
            assert(src@ =~= old_src.remove(0));
            assert forall|i: int| 0 <= i < src@.len() implies entry_views(src@)[i]
                == input.skip(done + 1)[i] by {
                assert(entry_views(src@)[i] == src@[i]@);
                assert(src@[i] == old_src[i + 1]);
                assert(entry_views(old_src)[i + 1] == old_src[i + 1]@);
            }
            assert(entry_views(src@) =~= input.skip(done + 1));
        }
        let mut j: usize = 0;
        while j < acc.len() && acc[j].name_le(&e)
            invariant
                0 <= j <= acc@.len(),
                forall|i: int| 0 <= i < j ==> lex_le(#[trigger] entry_views(acc@)[i].name, e@.name),
            decreases acc@.len() - j,
        {
            proof {
                assert(entry_views(acc@)[j as int] == acc@[j as int]@);
            }
            j = j + 1;
        }
        proof {
            if (j as int) < acc@.len() {
                assert(entry_views(acc@)[j as int] == acc@[j as int]@);
            }
            lemma_insert_sorted_at(e@, entry_views(acc@), j as int);
        }
        let ghost old_acc = acc@;
        acc.insert(j, e);
        proof {
            assert(entry_views(acc@) =~= entry_views(old_acc).take(j as int) + seq![e@]
                + entry_views(old_acc).skip(j as int));
            assert(input.take(done + 1).drop_last() =~= input.take(done));
            assert(input.take(done + 1).last() == input[done]);
        }
    }
    proof {
        assert(input.take(input.len() as int) =~= input);
    }
    acc
}

} // verus!
