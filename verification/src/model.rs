//! Mathematical models of snapshot nodes and result entries.
//!
//! Contracts in this crate speak about these ghost mirrors rather than about
//! the executable types directly: a [`crate::types::FsNode`] maps to an
//! [`FsModel`] and a [`crate::types::FileEntry`] to an [`EntryModel`], with
//! every string replaced by its character sequence.

use vstd::prelude::*;

use crate::types::{EntryKind, FileEntry, FsNode};

verus! {

/// The mathematical shape of one snapshot node: the absolute path and name of
/// the entry, and for a directory the models of its immediate contents.
pub ghost enum FsModel {
    File { path: Seq<char>, name: Seq<char> },
    Dir { path: Seq<char>, name: Seq<char>, entries: Seq<FsModel> },
}

/// The mathematical shape of one result entry.
pub ghost struct EntryModel {
    pub id: Seq<char>,
    pub name: Seq<char>,
    pub kind: EntryKind,
    pub path: Seq<char>,
    pub children: Option<Seq<EntryModel>>,
}

/// The models of a sequence of snapshot nodes, element by element.
pub open spec fn nodes_model(s: Seq<FsNode>) -> Seq<FsModel>
    decreases s, 1int,
{
    if s.len() == 0 {
        Seq::empty()
    } else {
        nodes_model(s.subrange(0, s.len() - 1)).push(node_model(s[s.len() - 1]))
    }
}

/// The model of one snapshot node.
pub open spec fn node_model(n: FsNode) -> FsModel
    decreases n, 0int,
{
    match n {
        FsNode::File { path, name } => FsModel::File { path: path@, name: name@ },
        FsNode::Dir { path, name, entries } => FsModel::Dir {
            path: path@,
            name: name@,
            entries: nodes_model(entries@),
        },
    }
}

/// The models of a sequence of result entries, element by element.
pub open spec fn entries_model(s: Seq<FileEntry>) -> Seq<EntryModel>
    decreases s, 1int,
{
    if s.len() == 0 {
        Seq::empty()
    } else {
        entries_model(s.subrange(0, s.len() - 1)).push(entry_model(s[s.len() - 1]))
    }
}

/// The model of one result entry.
pub open spec fn entry_model(e: FileEntry) -> EntryModel
    decreases e, 0int,
{
    EntryModel {
        id: e.id@,
        name: e.name@,
        kind: e.entry_type,
        path: e.path@,
        children: match e.children {
            Some(v) => Some(entries_model(v@)),
            None => None,
        },
    }
}

/// A name is hidden when its first character is `.`.
pub open spec fn hidden_name(name: Seq<char>) -> bool {
    name.len() > 0 && name[0] == '.'
}

/// A name denotes a markdown note when it ends in the three characters `.md`.
pub open spec fn markdown_name(name: Seq<char>) -> bool {
    &&& name.len() >= 3
    &&& name[name.len() - 3] == '.'
    &&& name[name.len() - 2] == 'm'
    &&& name[name.len() - 1] == 'd'
}

/// `nodes_model` maps the sequence element by element.
pub proof fn lemma_nodes_model_index(s: Seq<FsNode>)
    ensures
        nodes_model(s).len() == s.len(),
        forall|i: int| 0 <= i < s.len() ==> nodes_model(s)[i] == node_model(s[i]),
    decreases s.len(),
{
    if s.len() > 0 {
        let front = s.subrange(0, s.len() - 1);
        lemma_nodes_model_index(front);
        assert forall|i: int| 0 <= i < s.len() implies nodes_model(s)[i] == node_model(s[i]) by {
            if i < s.len() - 1 {
                assert(front[i] == s[i]);
            }
        }
    }
}

/// `entries_model` maps the sequence element by element.
pub proof fn lemma_entries_model_index(s: Seq<FileEntry>)
    ensures
        entries_model(s).len() == s.len(),
        forall|i: int| 0 <= i < s.len() ==> entries_model(s)[i] == entry_model(s[i]),
    decreases s.len(),
{
    if s.len() > 0 {
        let front = s.subrange(0, s.len() - 1);
        lemma_entries_model_index(front);
        assert forall|i: int| 0 <= i < s.len() implies entries_model(s)[i] == entry_model(s[i]) by {
            if i < s.len() - 1 {
                assert(front[i] == s[i]);
            }
        }
    }
}

} // verus!
