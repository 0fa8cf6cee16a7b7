//! A matched directory, as the list shows it.

use vstd::prelude::*;

verus! {

/// One matched directory.
#[derive(Clone, Debug, PartialEq, Eq)]
pub struct Folder {
    /// Where the directory lies. The path identifies the entry for as long as it is listed.
    pub path: String,
    /// Bytes held by the regular files below `path`, measured once when the
    /// directory was found; `None` where measuring failed.
    pub size: Option<usize>,
    /// Set while a deletion of this directory is under way. Such an entry is
    /// neither shown nor selectable.
    pub deleting: bool,
}

/// What a [`Folder`] holds, with the path as a sequence of characters.
pub struct FolderView {
    pub path: Seq<char>,
    pub size: Option<usize>,
    pub deleting: bool,
}

impl View for Folder {
    type V = FolderView;

    open spec fn view(&self) -> FolderView {
        FolderView { path: self.path@, size: self.size, deleting: self.deleting }
    }
}

/// The views of a list of entries, in order.
pub open spec fn folder_views(folders: Seq<Folder>) -> Seq<FolderView> {
    folders.map_values(|f: Folder| f@)
}

impl Folder {
    /// A copy of this entry.
    pub fn duplicate(&self) -> (r: Folder)
        ensures
            r@ == self@,
    {
        Folder { path: self.path.clone(), size: self.size, deleting: self.deleting }
    }
}

} // verus!
