//! The sibling order of scan results, and a verified stable insertion sort
//! that realises it.
//!
//! Folders sort strictly before files; within one kind, names compare
//! case-insensitively: both are lowercased and then compared
//! lexicographically by unicode scalar value. Entries whose lowercased names
//! are equal keep their relative input order (the sort is stable).

use vstd::prelude::*;

use crate::model::{entries_model, entry_model, lemma_entries_model_index, EntryModel};
use crate::types::{EntryKind, FileEntry};

verus! {

/// What `str::to_lowercase` returns for a given character sequence.
pub uninterp spec fn lower_of(s: Seq<char>) -> Seq<char>;

/// Relies on `str::to_lowercase`: the lowercased text is a function of the
/// characters alone.
#[verifier::external_body]
fn lowercase(s: &str) -> (r: String)
    ensures
        r@ == lower_of(s@),
{
    s.to_lowercase()
}

/// Lexicographic order on character sequences, by unicode scalar value: a
/// prefix sorts before every extension of it.
pub open spec fn lex_le(a: Seq<char>, b: Seq<char>) -> bool
    decreases a.len(),
{
    if a.len() == 0 {
        true
    } else if b.len() == 0 {
        false
    } else if a[0] == b[0] {
        lex_le(a.skip(1), b.skip(1))
    } else {
        (a[0] as int) < (b[0] as int)
    }
}

/// `lex_le` is total.
pub proof fn lemma_lex_le_total(a: Seq<char>, b: Seq<char>)
    ensures
        lex_le(a, b) || lex_le(b, a),
    decreases a.len(),
{
    if a.len() > 0 && b.len() > 0 && a[0] == b[0] {
        lemma_lex_le_total(a.skip(1), b.skip(1));
    }
}

/// `lex_le` is transitive.
pub proof fn lemma_lex_le_trans(a: Seq<char>, b: Seq<char>, c: Seq<char>)
    requires
        lex_le(a, b),
        lex_le(b, c),
    ensures
        lex_le(a, c),
    decreases a.len(),
{
    if a.len() > 0 && b.len() > 0 && c.len() > 0 && a[0] == b[0] && b[0] == c[0] {
        lemma_lex_le_trans(a.skip(1), b.skip(1), c.skip(1));
    }
}

/// When the first `i` characters agree, the order is decided by the rest.
proof fn lemma_lex_le_common_prefix(a: Seq<char>, b: Seq<char>, i: int)
    requires
        0 <= i <= a.len(),
        i <= b.len(),
        forall|j: int| 0 <= j < i ==> a[j] == b[j],
    ensures
        lex_le(a, b) == lex_le(a.skip(i), b.skip(i)),
    decreases i,
{
    if i > 0 {
        lemma_lex_le_common_prefix(a, b, i - 1);
        let sa = a.skip(i - 1);
        let sb = b.skip(i - 1);
        assert(sa[0] == a[i - 1]);
        assert(sb[0] == b[i - 1]);
        assert(sa.skip(1) =~= a.skip(i));
        assert(sb.skip(1) =~= b.skip(i));
    } else {
        assert(a.skip(0) =~= a);
        assert(b.skip(0) =~= b);
    }
}

/// Decide `lex_le` on two string slices.
fn lex_le_chars(a: &str, b: &str) -> (r: bool)
    ensures
        r == lex_le(a@, b@),
{
    let a_len = a.unicode_len();
    let b_len = b.unicode_len();
    let mut i: usize = 0;
    loop
        invariant
            i <= a_len,
            i <= b_len,
            a_len == a@.len(),
            b_len == b@.len(),
            forall|j: int| 0 <= j < i ==> a@[j] == b@[j],
        decreases a_len - i,
    {
        if i == a_len {
            proof {
                lemma_lex_le_common_prefix(a@, b@, i as int);
            }
            return true;
        }
        if i == b_len {
            proof {
                lemma_lex_le_common_prefix(a@, b@, i as int);
            }
            return false;
        }
        let ca = a.get_char(i);
        let cb = b.get_char(i);
        if ca == cb {
            i = i + 1;
        } else {
            proof {
                lemma_lex_le_common_prefix(a@, b@, i as int);
            }
            return (ca as u32) < (cb as u32);
        }
    }
}

/// The sibling order: folders strictly before files; within one kind,
/// case-insensitive lexicographic order of the display names.
pub open spec fn entry_le(a: EntryModel, b: EntryModel) -> bool {
    match (a.kind, b.kind) {
        (EntryKind::Folder, EntryKind::File) => true,
        (EntryKind::File, EntryKind::Folder) => false,
        _ => lex_le(lower_of(a.name), lower_of(b.name)),
    }
}

/// The sibling order is total.
pub proof fn lemma_entry_le_total(a: EntryModel, b: EntryModel)
    ensures
        entry_le(a, b) || entry_le(b, a),
{
    lemma_lex_le_total(lower_of(a.name), lower_of(b.name));
}

/// The sibling order is transitive.
pub proof fn lemma_entry_le_trans(a: EntryModel, b: EntryModel, c: EntryModel)
    requires
        entry_le(a, b),
        entry_le(b, c),
    ensures
        entry_le(a, c),
{
    if a.kind == b.kind && b.kind == c.kind {
        lemma_lex_le_trans(lower_of(a.name), lower_of(b.name), lower_of(c.name));
    }
}

/// Decide the sibling order on two result entries.
fn entry_le_exec(a: &FileEntry, b: &FileEntry) -> (r: bool)
    ensures
        r == entry_le(entry_model(*a), entry_model(*b)),
{
    match (a.entry_type, b.entry_type) {
        (EntryKind::Folder, EntryKind::File) => true,
        (EntryKind::File, EntryKind::Folder) => false,
        _ => {
            let la = lowercase(a.name.as_str());
            let lb = lowercase(b.name.as_str());
            lex_le_chars(la.as_str(), lb.as_str())
        },
    }
}

/// Siblings stand in non-decreasing `entry_le` order.
pub open spec fn siblings_sorted(s: Seq<EntryModel>) -> bool {
    forall|i: int, j: int| 0 <= i < j < s.len() ==> entry_le(s[i], s[j])
}

/// Insert `e` into `s` behind every element that sorts no later than it, so
/// that an element equal to `e` under the order keeps its earlier place.
pub open spec fn insert_sorted(s: Seq<EntryModel>, e: EntryModel) -> Seq<EntryModel>
    decreases s.len(),
{
    if s.len() == 0 {
        seq![e]
    } else if entry_le(s[0], e) {
        seq![s[0]] + insert_sorted(s.skip(1), e)
    } else {
        seq![e] + s
    }
}

/// Stable insertion sort under the sibling order.
pub open spec fn sort_model(s: Seq<EntryModel>) -> Seq<EntryModel>
    decreases s.len(),
{
    if s.len() == 0 {
        Seq::empty()
    } else {
        insert_sorted(sort_model(s.subrange(0, s.len() - 1)), s[s.len() - 1])
    }
}

/// Inserting keeps every elementwise property that the inserted element also
/// has.
pub proof fn lemma_insert_sorted_all(s: Seq<EntryModel>, e: EntryModel, p: spec_fn(EntryModel) -> bool)
    requires
        forall|i: int| 0 <= i < s.len() ==> p(#[trigger] s[i]),
        p(e),
    ensures
        insert_sorted(s, e).len() == s.len() + 1,
        forall|i: int| 0 <= i < s.len() + 1 ==> p(#[trigger] insert_sorted(s, e)[i]),
    decreases s.len(),
{
    if s.len() == 0 {
    } else if entry_le(s[0], e) {
        let rest = s.skip(1);
        assert(forall|i: int| 0 <= i < rest.len() ==> p(#[trigger] rest[i]));
        lemma_insert_sorted_all(rest, e, p);
        let r = seq![s[0]] + insert_sorted(rest, e);
        assert forall|i: int| 0 <= i < s.len() + 1 implies p(#[trigger] r[i]) by {
            if i > 0 {
                assert(r[i] == insert_sorted(rest, e)[i - 1]);
            }
        }
    } else {
        let r = seq![e] + s;
        assert forall|i: int| 0 <= i < s.len() + 1 implies p(#[trigger] r[i]) by {
            if i > 0 {
                assert(r[i] == s[i - 1]);
            }
        }
    }
}

/// Inserting into a sorted sequence keeps it sorted.
pub proof fn lemma_insert_sorted_sorted(s: Seq<EntryModel>, e: EntryModel)
    requires
        siblings_sorted(s),
    ensures
        siblings_sorted(insert_sorted(s, e)),
    decreases s.len(),
{
    if s.len() == 0 {
    } else if entry_le(s[0], e) {
        let rest = s.skip(1);
        assert(siblings_sorted(rest));
        lemma_insert_sorted_sorted(rest, e);
        let p = |x: EntryModel| entry_le(s[0], x);
        assert(forall|i: int| 0 <= i < rest.len() ==> p(#[trigger] rest[i]));
        lemma_insert_sorted_all(rest, e, p);
        let r = seq![s[0]] + insert_sorted(rest, e);
        assert forall|i: int, j: int| 0 <= i < j < r.len() implies entry_le(r[i], r[j]) by {
            assert(r[j] == insert_sorted(rest, e)[j - 1]);
            assert(p(insert_sorted(rest, e)[j - 1]));
            if i > 0 {
                assert(r[i] == insert_sorted(rest, e)[i - 1]);
            }
        }
    } else {
        lemma_entry_le_total(s[0], e);
        let r = seq![e] + s;
        assert forall|i: int, j: int| 0 <= i < j < r.len() implies entry_le(r[i], r[j]) by {
            assert(r[j] == s[j - 1]);
            if i == 0 {
                if j > 1 {
                    lemma_entry_le_trans(e, s[0], s[j - 1]);
                }
            } else {
                assert(r[i] == s[i - 1]);
            }
        }
    }
}

/// Sorting keeps every elementwise property.
pub proof fn lemma_sort_model_all(s: Seq<EntryModel>, p: spec_fn(EntryModel) -> bool)
    requires
        forall|i: int| 0 <= i < s.len() ==> p(#[trigger] s[i]),
    ensures
        sort_model(s).len() == s.len(),
        forall|i: int| 0 <= i < s.len() ==> p(#[trigger] sort_model(s)[i]),
    decreases s.len(),
{
    if s.len() > 0 {
        let front = s.subrange(0, s.len() - 1);
        assert(forall|i: int| 0 <= i < front.len() ==> p(#[trigger] front[i]));
        lemma_sort_model_all(front, p);
        lemma_insert_sorted_all(sort_model(front), s[s.len() - 1], p);
    }
}

/// The sort's result is sorted under the sibling order.
pub proof fn lemma_sort_model_sorted(s: Seq<EntryModel>)
    ensures
        siblings_sorted(sort_model(s)),
    decreases s.len(),
{
    if s.len() > 0 {
        let front = s.subrange(0, s.len() - 1);
        lemma_sort_model_sorted(front);
        lemma_insert_sorted_sorted(sort_model(front), s[s.len() - 1]);
    }
}

/// Where the scan of the prefix put `e`, spelled out by the insertion point.
proof fn lemma_insert_sorted_at(s: Seq<EntryModel>, e: EntryModel, k: int)
    requires
        0 <= k <= s.len(),
        forall|j: int| 0 <= j < k ==> entry_le(#[trigger] s[j], e),
        k < s.len() ==> !entry_le(s[k], e),
    ensures
        insert_sorted(s, e) == s.subrange(0, k) + seq![e] + s.skip(k),
    decreases k,
{
    if k == 0 {
        assert(s.subrange(0, 0) + seq![e] + s.skip(0) =~= seq![e] + s);
        if s.len() > 0 {
            assert(!entry_le(s[0], e));
        }
    } else {
        let rest = s.skip(1);
        assert(entry_le(s[0], e));
        assert(forall|j: int| 0 <= j < k - 1 ==> entry_le(#[trigger] rest[j], e));
        assert(k - 1 < rest.len() ==> !entry_le(rest[k - 1], e));
        lemma_insert_sorted_at(rest, e, k - 1);
        assert(seq![s[0]] + (rest.subrange(0, k - 1) + seq![e] + rest.skip(k - 1)) =~= s.subrange(
            0,
            k,
        ) + seq![e] + s.skip(k));
    }
}

/// Find the place of `e` in the sorted `list`: the first index whose entry
/// sorts strictly after `e`.
fn find_insert_pos(list: &Vec<FileEntry>, e: &FileEntry) -> (k: usize)
    ensures
        k <= list@.len(),
        forall|j: int|
            0 <= j < k ==> entry_le(#[trigger] entries_model(list@)[j], entry_model(*e)),
        k < list@.len() ==> !entry_le(entries_model(list@)[k as int], entry_model(*e)),
{
    let mut k: usize = 0;
    while k < list.len()
        invariant
            k <= list@.len(),
            forall|j: int|
                0 <= j < k ==> entry_le(#[trigger] entries_model(list@)[j], entry_model(*e)),
        decreases list@.len() - k,
    {
        proof {
            lemma_entries_model_index(list@);
        }
        if !entry_le_exec(&list[k], e) {
            return k;
        }
        k = k + 1;
    }
    k
}

/// Insert `e` into the already sorted `list`, keeping it sorted and stable.
fn insert_entry(list: &mut Vec<FileEntry>, e: FileEntry)
    ensures
        entries_model(final(list)@) == insert_sorted(entries_model(old(list)@), entry_model(e)),
{
    let ghost ms = entries_model(old(list)@);
    proof {
        lemma_entries_model_index(old(list)@);
    }
    let k = find_insert_pos(list, &e);
    proof {
        lemma_insert_sorted_at(ms, entry_model(e), k as int);
    }
    list.insert(k, e);
    proof {
        lemma_entries_model_index(list@);
        assert(entries_model(list@) =~= ms.subrange(0, k as int) + seq![entry_model(e)] + ms.skip(
            k as int,
        ));
    }
}

/// Sort entries into the sibling order: folders first, then files, each kind
/// in case-insensitive name order, stably.
pub fn sort_entries(entries: Vec<FileEntry>) -> (r: Vec<FileEntry>)
    ensures
        entries_model(r@) == sort_model(entries_model(entries@)),
{
    let ghost orig = entries@;
    proof {
        lemma_entries_model_index(orig);
    }
    let mut rest = entries;
    let mut out: Vec<FileEntry> = Vec::new();
    while rest.len() > 0
        invariant
            rest@.len() <= orig.len(),
            rest@ == orig.skip(orig.len() - rest@.len()),
            entries_model(out@) == sort_model(
                entries_model(orig.subrange(0, orig.len() - rest@.len())),
            ),
        decreases rest@.len(),
    {
        let ghost i = orig.len() - rest@.len();
        let e = rest.remove(0);
        proof {
            assert(orig.skip(i)[0] == orig[i]);
            assert(e == orig[i]);
            assert(rest@ =~= orig.skip(i + 1));
            let front = orig.subrange(0, i);
            let upto = orig.subrange(0, i + 1);
            assert(upto.subrange(0, i) =~= front);
            assert(upto[i] == orig[i]);
            lemma_entries_model_index(upto);
            lemma_entries_model_index(front);
            assert(entries_model(upto).subrange(0, i) =~= entries_model(front));
        }
        insert_entry(&mut out, e);
    }
    proof {
        assert(orig.subrange(0, orig.len() as int) =~= orig);
    }
    out
}

} // verus!
