//! A directory as it was found on disk: names, kinds and texts as plain values.

use vstd::prelude::*;

verus! {

/// One entry of a directory listing.
#[derive(Debug, PartialEq, Eq)]
pub struct Entry {
    /// The entry's name within its directory.
    pub name: String,
    /// What was found under that name.
    pub kind: EntryKind,
}

/// What a directory holds under a name.
#[derive(Debug, PartialEq, Eq)]
pub enum EntryKind {
    /// A regular file and its text; `None` where it could not be read as text.
    File(Option<String>),
    /// A directory and its entries in the order of the listing; `None` where it could not
    /// be listed.
    Directory(Option<Vec<Entry>>),
    /// Neither a file nor a directory.
    Other,
    /// An entry of which the listing could not tell the kind.
    Unknown,
}

/// The view of an `Entry`.
pub struct EntryView {
    pub name: Seq<char>,
    pub kind: EntryKindView,
}

/// The view of an `EntryKind`.
pub enum EntryKindView {
    File(Option<Seq<char>>),
    Directory(Option<Seq<EntryView>>),
    Other,
    Unknown,
}

/// The views of the entries of a listing, in its order.
pub open spec fn listing_view(entries: Seq<Entry>) -> Seq<EntryView>
    decreases entries,
{
    Seq::new(
        entries.len(),
        |i: int|
            if 0 <= i < entries.len() {
                entries[i].view()
            } else {
                EntryView { name: seq![], kind: EntryKindView::Other }
            },
    )
}

impl View for Entry {
    type V = EntryView;

    open spec fn view(&self) -> EntryView
        decreases self,
    {
        EntryView { name: self.name@, kind: self.kind.view() }
    }
}

impl View for EntryKind {
    type V = EntryKindView;

    open spec fn view(&self) -> EntryKindView
        decreases self,
    {
        match self {
            EntryKind::File(Some(text)) => EntryKindView::File(Some(text@)),
            EntryKind::File(None) => EntryKindView::File(None),
            EntryKind::Directory(Some(entries)) => EntryKindView::Directory(
                Some(listing_view(entries@)),
            ),
            EntryKind::Directory(None) => EntryKindView::Directory(None),
            EntryKind::Other => EntryKindView::Other,
            EntryKind::Unknown => EntryKindView::Unknown,
        }
    }
}

/// The names of a listing, in its order.
pub open spec fn names_of(entries: Seq<EntryView>) -> Seq<Seq<char>> {
    Seq::new(entries.len(), |i: int| entries[i].name)
}

} // verus!
