//! What the scanner is told about the file system: one record for each entry
//! that a walk came upon, and one for each failure of the walk.

use vstd::prelude::*;

verus! {

/// What kind of thing an entry is, taken from the entry itself: a symbolic
/// link is a `Symlink`, whatever it points to.
#[derive(Clone, Copy, Debug, PartialEq, Eq, Structural)]
pub enum EntryKind {
    Directory,
    File,
    Symlink,
    Other,
}

/// An entry that a walk came upon.
#[derive(Clone, Debug)]
pub struct Entry {
    /// The path that leads to the entry, beginning with the root of the walk.
    pub path: String,
    pub kind: EntryKind,
}

/// An `Entry` as contracts see it.
pub struct EntryView {
    pub path: Seq<char>,
    pub kind: EntryKind,
}

impl View for Entry {
    type V = EntryView;

    open spec fn view(&self) -> EntryView {
        EntryView { path: self.path@, kind: self.kind }
    }
}

/// One step of a walk: an entry, or a failure to read one.
#[derive(Clone, Debug)]
pub enum WalkItem {
    Visited(Entry),
    Failed { path: String, cause: String },
}

/// A `WalkItem` as contracts see it.
pub enum WalkItemView {
    Visited(EntryView),
    Failed { path: Seq<char>, cause: Seq<char> },
}

impl View for WalkItem {
    type V = WalkItemView;

    open spec fn view(&self) -> WalkItemView {
        match self {
            WalkItem::Visited(entry) => WalkItemView::Visited(entry@),
            WalkItem::Failed { path, cause } => WalkItemView::Failed { path: path@, cause: cause@ },
        }
    }
}

} // verus!
