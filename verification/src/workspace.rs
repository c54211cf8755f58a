//! Workspace scanning: the recursive walk over a directory snapshot that
//! keeps markdown notes and folders, drops hidden entries, and orders every
//! sibling set, together with the validation of a workspace root.

use vstd::prelude::*;

use crate::model::{
    entries_model, entry_model, hidden_name, lemma_nodes_model_index, markdown_name, node_model,
    nodes_model, EntryModel, FsModel,
};
use crate::order::{
    lemma_sort_model_all, lemma_sort_model_sorted, siblings_sorted, sort_entries, sort_model,
};
use crate::types::{EntryKind, ErrorCode, FileEntry, FsNode, WorkspaceError};

verus! {

/// What one snapshot node contributes to its directory level: nothing when it
/// is hidden or a non-markdown file; a file entry for a markdown note; a
/// folder entry carrying the recursively scanned children for a directory —
/// folders are kept even when nothing below them is.
pub open spec fn node_kept(n: FsModel) -> Seq<EntryModel>
    decreases n, 0int,
{
    match n {
        FsModel::File { path, name } => if !hidden_name(name) && markdown_name(name) {
            seq![EntryModel { id: path, name, kind: EntryKind::File, path, children: None }]
        } else {
            Seq::empty()
        },
        FsModel::Dir { path, name, entries } => if !hidden_name(name) {
            seq![
                EntryModel {
                    id: path,
                    name,
                    kind: EntryKind::Folder,
                    path,
                    children: Some(scan_model(entries)),
                },
            ]
        } else {
            Seq::empty()
        },
    }
}

/// Everything kept from one directory level, in snapshot order.
pub open spec fn kept_model(nodes: Seq<FsModel>) -> Seq<EntryModel>
    decreases nodes, 1int,
{
    if nodes.len() == 0 {
        Seq::empty()
    } else {
        kept_model(nodes.subrange(0, nodes.len() - 1)) + node_kept(nodes[nodes.len() - 1])
    }
}

/// The scan of one directory level: keep and recurse, then sort the siblings.
pub open spec fn scan_model(nodes: Seq<FsModel>) -> Seq<EntryModel>
    decreases nodes, 2int,
{
    sort_model(kept_model(nodes))
}

/// Decide whether a name is hidden: its first character is `.`.
pub fn is_hidden_name(name: &str) -> (r: bool)
    ensures
        r == hidden_name(name@),
{
    if name.unicode_len() == 0 {
        false
    } else {
        name.get_char(0) == '.'
    }
}

/// Decide whether a name denotes a markdown note: it ends in `.md`.
pub fn is_markdown_name(name: &str) -> (r: bool)
    ensures
        r == markdown_name(name@),
{
    let n = name.unicode_len();
    if n < 3 {
        false
    } else {
        name.get_char(n - 3) == '.' && name.get_char(n - 2) == 'm' && name.get_char(n - 1) == 'd'
    }
}

/// `kept_model` grows by the contribution of the next node.
proof fn lemma_kept_model_snoc(ms: Seq<FsModel>, i: int)
    requires
        0 <= i < ms.len(),
    ensures
        kept_model(ms.subrange(0, i + 1)) == kept_model(ms.subrange(0, i)) + node_kept(ms[i]),
{
    let upto = ms.subrange(0, i + 1);
    assert(upto.subrange(0, i) =~= ms.subrange(0, i));
    assert(upto[i] == ms[i]);
}

/// `entries_model` distributes over pushing one entry.
proof fn lemma_entries_model_snoc(s: Seq<FileEntry>, e: FileEntry)
    ensures
        entries_model(s.push(e)) == entries_model(s).push(entry_model(e)),
{
    let t = s.push(e);
    assert(t.subrange(0, t.len() - 1) =~= s);
    assert(t[t.len() - 1] == e);
}

/// Scan one directory level of a snapshot: keep every non-hidden folder
/// (recursively scanned) and every non-hidden `.md` file, drop everything
/// else, and return the kept entries sorted folders-first and by
/// case-insensitive name within each kind.
pub fn scan_directory_recursive(nodes: &Vec<FsNode>) -> (r: Vec<FileEntry>)
    ensures
        entries_model(r@) == scan_model(nodes_model(nodes@)),
    decreases nodes@,
{
    let mut kept: Vec<FileEntry> = Vec::new();
    let mut i: usize = 0;
    while i < nodes.len()
        invariant
            i <= nodes@.len(),
            entries_model(kept@) == kept_model(nodes_model(nodes@).subrange(0, i as int)),
        decreases nodes@.len() - i,
    {
        let ghost ms = nodes_model(nodes@);
        proof {
            lemma_nodes_model_index(nodes@);
            lemma_kept_model_snoc(ms, i as int);
        }
        match &nodes[i] {
            FsNode::File { path, name } => {
                if !is_hidden_name(name.as_str()) && is_markdown_name(name.as_str()) {
                    let entry = FileEntry::new_file(path.clone(), name.clone());
                    let ghost kept_before = kept@;
                    proof {
                        lemma_entries_model_snoc(kept_before, entry);
                        assert(node_kept(ms[i as int]) =~= seq![entry_model(entry)]);
                        assert(entries_model(kept_before).push(entry_model(entry))
                            =~= entries_model(kept_before) + seq![entry_model(entry)]);
                    }
                    kept.push(entry);
                } else {
                    proof {
                        assert(kept_model(ms.subrange(0, i as int)) + node_kept(ms[i as int])
                            =~= kept_model(ms.subrange(0, i as int)));
                    }
                }
            },
            FsNode::Dir { path, name, entries } => {
                if !is_hidden_name(name.as_str()) {
                    let children = scan_directory_recursive(entries);
                    let entry = FileEntry::new_folder(path.clone(), name.clone(), children);
                    let ghost kept_before = kept@;
                    proof {
                        lemma_entries_model_snoc(kept_before, entry);
                        assert(node_kept(ms[i as int]) =~= seq![entry_model(entry)]);
                        assert(entries_model(kept_before).push(entry_model(entry))
                            =~= entries_model(kept_before) + seq![entry_model(entry)]);
                    }
                    kept.push(entry);
                } else {
                    proof {
                        assert(kept_model(ms.subrange(0, i as int)) + node_kept(ms[i as int])
                            =~= kept_model(ms.subrange(0, i as int)));
                    }
                }
            },
        }
        i = i + 1;
    }
    proof {
        lemma_nodes_model_index(nodes@);
        assert(nodes_model(nodes@).subrange(0, nodes@.len() as int) =~= nodes_model(nodes@));
    }
    sort_entries(kept)
}

/// Every entry of the sequence, at every level, passes the filtering policy.
pub open spec fn entries_filtered(out: Seq<EntryModel>) -> bool
    decreases out, 1int,
{
    forall|i: int| 0 <= i < out.len() ==> entry_filtered(#[trigger] out[i])
}

/// The entry is not hidden, names a markdown note if it is a file, and all of
/// its descendants pass the filtering policy too.
pub open spec fn entry_filtered(e: EntryModel) -> bool
    decreases e, 0int,
{
    &&& !hidden_name(e.name)
    &&& (e.kind is File ==> markdown_name(e.name))
    &&& match e.children {
        Some(cs) => entries_filtered(cs),
        None => true,
    }
}

/// Every entry of the sequence, at every level, is well shaped.
pub open spec fn entries_shaped(out: Seq<EntryModel>) -> bool
    decreases out, 1int,
{
    forall|i: int| 0 <= i < out.len() ==> entry_shaped(#[trigger] out[i])
}

/// The entry's key equals its path, it carries children exactly when it is a
/// folder, and all of its descendants are well shaped too.
pub open spec fn entry_shaped(e: EntryModel) -> bool
    decreases e, 0int,
{
    &&& e.id == e.path
    &&& (e.kind is Folder <==> e.children is Some)
    &&& match e.children {
        Some(cs) => entries_shaped(cs),
        None => true,
    }
}

/// The sequence is sorted under the sibling order, and so is every sibling
/// set below it.
pub open spec fn entries_ordered(out: Seq<EntryModel>) -> bool
    decreases out, 1int,
{
    &&& siblings_sorted(out)
    &&& forall|i: int| 0 <= i < out.len() ==> entry_ordered(#[trigger] out[i])
}

/// Every sibling set below the entry is sorted under the sibling order.
pub open spec fn entry_ordered(e: EntryModel) -> bool
    decreases e, 0int,
{
    match e.children {
        Some(cs) => entries_ordered(cs),
        None => true,
    }
}

/// A scan of an empty directory returns the empty sequence.
pub proof fn lemma_scan_empty()
    ensures
        scan_model(Seq::<FsModel>::empty()) == Seq::<EntryModel>::empty(),
{
}

/// Scanning one unchanged snapshot twice yields structurally identical
/// results: the scan is a function of the snapshot's model alone, so any two
/// results of it agree in shape and order.
pub proof fn lemma_scan_deterministic(
    nodes: Seq<FsModel>,
    r1: Seq<EntryModel>,
    r2: Seq<EntryModel>,
)
    requires
        r1 == scan_model(nodes),
        r2 == scan_model(nodes),
    ensures
        r1 == r2,
{
}

proof fn lemma_node_kept_filtered(n: FsModel)
    ensures
        forall|i: int| 0 <= i < node_kept(n).len() ==> entry_filtered(#[trigger] node_kept(n)[i]),
    decreases n, 0int,
{
    match n {
        FsModel::File { path, name } => {},
        FsModel::Dir { path, name, entries } => {
            if !hidden_name(name) {
                lemma_scan_filtered(entries);
            }
        },
    }
}

proof fn lemma_kept_filtered(nodes: Seq<FsModel>)
    ensures
        forall|i: int|
            0 <= i < kept_model(nodes).len() ==> entry_filtered(#[trigger] kept_model(nodes)[i]),
    decreases nodes, 1int,
{
    if nodes.len() > 0 {
        let front = nodes.subrange(0, nodes.len() - 1);
        let last = nodes[nodes.len() - 1];
        lemma_kept_filtered(front);
        lemma_node_kept_filtered(last);
        assert forall|i: int|
            0 <= i < kept_model(nodes).len() implies entry_filtered(#[trigger] kept_model(nodes)[i]) by {
            let a = kept_model(front);
            let b = node_kept(last);
            if i < a.len() {
                assert(kept_model(nodes)[i] == a[i]);
            } else {
                assert(kept_model(nodes)[i] == b[i - a.len()]);
            }
        }
    }
}

/// No hidden entry and no non-markdown file survives the scan, at any level:
/// every entry of the result, however deep, has a non-hidden name, and every
/// file entry among them names a markdown note. A hidden folder's descendants
/// are absent with it, since entries appear only below their parent.
pub proof fn lemma_scan_filtered(nodes: Seq<FsModel>)
    ensures
        entries_filtered(scan_model(nodes)),
    decreases nodes, 2int,
{
    lemma_kept_filtered(nodes);
    lemma_sort_model_all(kept_model(nodes), |x: EntryModel| entry_filtered(x));
}

proof fn lemma_node_kept_shaped(n: FsModel)
    ensures
        forall|i: int| 0 <= i < node_kept(n).len() ==> entry_shaped(#[trigger] node_kept(n)[i]),
    decreases n, 0int,
{
    match n {
        FsModel::File { path, name } => {},
        FsModel::Dir { path, name, entries } => {
            if !hidden_name(name) {
                lemma_scan_shaped(entries);
            }
        },
    }
}

proof fn lemma_kept_shaped(nodes: Seq<FsModel>)
    ensures
        forall|i: int|
            0 <= i < kept_model(nodes).len() ==> entry_shaped(#[trigger] kept_model(nodes)[i]),
    decreases nodes, 1int,
{
    if nodes.len() > 0 {
        let front = nodes.subrange(0, nodes.len() - 1);
        let last = nodes[nodes.len() - 1];
        lemma_kept_shaped(front);
        lemma_node_kept_shaped(last);
        assert forall|i: int|
            0 <= i < kept_model(nodes).len() implies entry_shaped(#[trigger] kept_model(nodes)[i]) by {
            let a = kept_model(front);
            let b = node_kept(last);
            if i < a.len() {
                assert(kept_model(nodes)[i] == a[i]);
            } else {
                assert(kept_model(nodes)[i] == b[i - a.len()]);
            }
        }
    }
}

/// Every entry of a scan result, at any level, carries a `children` sequence
/// exactly when it is a folder — present though possibly empty for folders,
/// absent for files — and its key equals its path.
pub proof fn lemma_scan_shaped(nodes: Seq<FsModel>)
    ensures
        entries_shaped(scan_model(nodes)),
    decreases nodes, 2int,
{
    lemma_kept_shaped(nodes);
    lemma_sort_model_all(kept_model(nodes), |x: EntryModel| entry_shaped(x));
}

proof fn lemma_node_kept_ordered(n: FsModel)
    ensures
        forall|i: int| 0 <= i < node_kept(n).len() ==> entry_ordered(#[trigger] node_kept(n)[i]),
    decreases n, 0int,
{
    match n {
        FsModel::File { path, name } => {},
        FsModel::Dir { path, name, entries } => {
            if !hidden_name(name) {
                lemma_scan_ordered(entries);
            }
        },
    }
}

proof fn lemma_kept_ordered(nodes: Seq<FsModel>)
    ensures
        forall|i: int|
            0 <= i < kept_model(nodes).len() ==> entry_ordered(#[trigger] kept_model(nodes)[i]),
    decreases nodes, 1int,
{
    if nodes.len() > 0 {
        let front = nodes.subrange(0, nodes.len() - 1);
        let last = nodes[nodes.len() - 1];
        lemma_kept_ordered(front);
        lemma_node_kept_ordered(last);
        assert forall|i: int|
            0 <= i < kept_model(nodes).len() implies entry_ordered(#[trigger] kept_model(nodes)[i]) by {
            let a = kept_model(front);
            let b = node_kept(last);
            if i < a.len() {
                assert(kept_model(nodes)[i] == a[i]);
            } else {
                assert(kept_model(nodes)[i] == b[i - a.len()]);
            }
        }
    }
}

/// Every sibling set of a scan result is totally ordered by the sibling
/// order: folders stand strictly before files, and within each kind names
/// are in non-decreasing case-insensitive lexicographic order — at the top
/// level and inside every folder.
pub proof fn lemma_scan_ordered(nodes: Seq<FsModel>)
    ensures
        entries_ordered(scan_model(nodes)),
    decreases nodes, 2int,
{
    lemma_kept_ordered(nodes);
    lemma_sort_model_all(kept_model(nodes), |x: EntryModel| entry_ordered(x));
    lemma_sort_model_sorted(kept_model(nodes));
}

/// Accept a workspace root exactly when it exists and is a directory; report
/// a missing root as `NotFound` and an existing non-directory as
/// `NotADirectory`, naming the offending path either way.
///
/// The caller supplies what the filesystem reported about the path; the
/// decision itself is pure.
pub fn validate_workspace_path(path: &str, exists: bool, is_directory: bool) -> (r: Result<
    (),
    WorkspaceError,
>)
    ensures
        r is Ok <==> exists && is_directory,
        !exists ==> r is Err && r->Err_0.code == ErrorCode::NotFound && r->Err_0.message@
            == path@,
        exists && !is_directory ==> r is Err && r->Err_0.code == ErrorCode::NotADirectory
            && r->Err_0.message@ == path@,
{
    if !exists {
        Err(WorkspaceError::not_found(path))
    } else if !is_directory {
        Err(WorkspaceError::not_a_directory(path))
    } else {
        Ok(())
    }
}

} // verus!
