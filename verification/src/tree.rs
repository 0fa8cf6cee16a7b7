//! What a walk of the file system found, as plain values: the scan works on
//! such a tree and never touches the disk itself.

use vstd::prelude::*;

verus! {

/// What stands at a path.
#[derive(Debug)]
pub enum Kind {
    /// A regular file of `len` bytes.
    File { len: u64 },
    /// A directory and what it holds, in the order the file system listed
    /// it; `None` where it could not be listed.
    Directory { children: Option<Vec<Entry>> },
    /// A symbolic link. It is never followed.
    Symlink,
    /// Anything else: a socket, a device, a pipe.
    Other,
    /// An entry of which nothing could be learned.
    Unknown,
}

/// One entry of the file system.
#[derive(Debug)]
pub struct Entry {
    pub path: String,
    pub kind: Kind,
}

/// The bytes that `e` adds to the size of the directory it lies in: the
/// length of a regular file, the total of a directory, nothing for a link or
/// a special file. They are not known where `e` is a directory that could
/// not be listed, where nothing could be learned of `e`, and where the same
/// holds of anything below `e`.
pub open spec fn entry_bytes(e: Entry) -> Option<nat>
    decreases e,
{
    match e.kind {
        Kind::File { len } => Some(len as nat),
        Kind::Directory { children: Some(cs) } => listing_bytes(cs@),
        Kind::Directory { children: None } => None,
        Kind::Symlink => Some(0),
        Kind::Other => Some(0),
        Kind::Unknown => None,
    }
}

/// The bytes of all regular files below a directory with these children,
/// however deep. The total is known only where it is known of every child:
/// one entry below that could not be measured leaves the whole unknown.
pub open spec fn listing_bytes(children: Seq<Entry>) -> Option<nat>
    decreases children,
{
    if children.len() == 0 {
        Some(0)
    } else {
        match (listing_bytes(children.drop_last()), entry_bytes(children.last())) {
            (Some(n), Some(m)) => Some(n + m),
            _ => None,
        }
    }
}

/// The size of the directory `e`: the bytes of all regular files below it,
/// where every entry below it could be measured and a `usize` holds the
/// total.
pub open spec fn folder_size(e: Entry) -> Option<usize> {
    match e.kind {
        Kind::Directory { children: Some(cs) } => match listing_bytes(cs@) {
            Some(n) => if n <= usize::MAX {
                Some(n as usize)
            } else {
                None
            },
            None => None,
        },
        _ => None,
    }
}

} // verus!
