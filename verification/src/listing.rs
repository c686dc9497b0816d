//! What a directory holds: the entries that a listing hands over, and the
//! tree of directories that they belong to.

use vstd::prelude::*;
use crate::error::OpenFailure;
use crate::filter::is_visible;

verus! {

/// One entry of a directory that could be read.
#[derive(Debug, PartialEq, Eq)]
pub struct Entry {
    /// The name of the entry inside its directory.
    pub name: String,
    /// Whether the entry is a directory.
    pub is_dir: bool,
}

/// An `Entry` as plain values.
#[verifier::ext_equal]
pub struct EntryView {
    pub name: Seq<char>,
    pub is_dir: bool,
}

impl View for Entry {
    type V = EntryView;

    open spec fn view(&self) -> EntryView {
        EntryView { name: self.name@, is_dir: self.is_dir }
    }
}

/// One place of a listing as plain values: the entry read there, or nothing
/// where reading it failed.
pub open spec fn slot_view(slot: Option<Entry>) -> Option<EntryView> {
    match slot {
        Some(entry) => Some(entry@),
        None => None,
    }
}

/// A listing as plain values.
pub open spec fn slots_view(slots: Seq<Option<Entry>>) -> Seq<Option<EntryView>> {
    Seq::new(slots.len(), |i: int| slot_view(slots[i]))
}

/// Whether a place of a listing is followed up: the entry was read and its
/// name is visible.
pub open spec fn is_wanted(slot: Option<EntryView>) -> bool {
    slot matches Some(entry) && is_visible(entry.name)
}

/// A directory tree as it lies on disk, one node for each entry.
#[verifier::ext_equal]
pub enum Node {
    /// An entry whose reading fails.
    Unreadable,
    /// A file and what is in it; no content where it cannot be read.
    File { name: Seq<char>, content: Option<Seq<u8>> },
    /// A directory and what it holds, or why it cannot be listed.
    Dir { name: Seq<char>, entries: Result<Seq<Node>, OpenFailure> },
}

/// What a listing shows of a node.
pub open spec fn shown(node: Node) -> Option<EntryView> {
    match node {
        Node::Unreadable => None,
        Node::File { name, .. } => Some(EntryView { name, is_dir: false }),
        Node::Dir { name, .. } => Some(EntryView { name, is_dir: true }),
    }
}

/// What a listing shows of the nodes of one directory.
pub open spec fn listed(nodes: Seq<Node>) -> Seq<Option<EntryView>> {
    Seq::new(nodes.len(), |i: int| shown(nodes[i]))
}

} // verus!
