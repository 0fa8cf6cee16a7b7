//! The scan: which directories of a tree carry the wanted name, and how
//! large each of them is.

use crate::folder::{folder_views, Folder, FolderView};
use crate::layout::{lies_inside, reported_paths_lie_apart, well_laid_out};
use crate::model::distinct_paths;
use crate::path::{chars_of, ends_in, has_last_segment, last_segment};
use crate::search_laws::reported_folders_carry_the_name;
use crate::tree::{entry_bytes, folder_size, listing_bytes, Entry, Kind};
use vstd::prelude::*;

verus! {

/// How far below the root the scan looks into directories.
pub const MAX_DEPTH: usize = 10;

/// The entry that the scan reports for the directory `e`.
pub open spec fn found(e: Entry) -> FolderView {
    FolderView { path: e.path@, size: folder_size(e), deleting: false }
}

/// Whether `e` is a directory whose last path segment is `target`.
pub open spec fn is_match(e: Entry, target: Seq<char>) -> bool {
    e.kind is Directory && last_segment(e.path@) == target
}

/// What the scan reports of the entry `e`, found `depth` levels below the
/// root. A directory named `target` is reported and not looked into. Any
/// other directory is looked into, child by child, unless it lies
/// `MAX_DEPTH` levels down or could not be listed. Files, links and the rest
/// are passed over.
pub open spec fn scan(e: Entry, target: Seq<char>, depth: nat) -> Seq<FolderView>
    decreases e,
{
    match e.kind {
        Kind::Directory { children } => if last_segment(e.path@) == target {
            seq![found(e)]
        } else if depth < MAX_DEPTH {
            match children {
                Some(cs) => scan_all(cs@, target, depth + 1),
                None => Seq::empty(),
            }
        } else {
            Seq::empty()
        },
        _ => Seq::empty(),
    }
}

/// What the scan reports of the entries `children`, one after the other.
pub open spec fn scan_all(children: Seq<Entry>, target: Seq<char>, depth: nat) -> Seq<FolderView>
    decreases children,
{
    if children.len() == 0 {
        Seq::empty()
    } else {
        scan_all(children.drop_last(), target, depth) + scan(children.last(), target, depth)
    }
}

/// What is known of the bytes below a directory.
pub enum Tally {
    /// The exact number.
    Bytes(usize),
    /// More than a `usize` holds.
    TooLarge,
    /// Something below could not be measured.
    Unknown,
}

/// What is known of the bytes below a directory with these children.
pub open spec fn tally_of(children: Seq<Entry>) -> Tally {
    match listing_bytes(children) {
        Some(n) => if n <= usize::MAX {
            Tally::Bytes(n as usize)
        } else {
            Tally::TooLarge
        },
        None => Tally::Unknown,
    }
}

/// One child that could not be measured leaves the total unknown.
pub proof fn lemma_unknown_child(children: Seq<Entry>, k: int)
    requires
        0 <= k < children.len(),
        entry_bytes(children[k]) is None,
    ensures
        listing_bytes(children) is None,
    decreases children.len(),
{
    if k < children.len() - 1 {
        lemma_unknown_child(children.drop_last(), k);
    }
}

/// Adds up the bytes of all regular files below a directory with these
/// children. It looks at every entry below, also once the total is too
/// large, so that nothing that could not be measured goes unnoticed.
pub fn tally(children: &Vec<Entry>) -> (r: Tally)
    ensures
        r == tally_of(children@),
    decreases children@,
{
    let mut total: usize = 0;
    let mut over = false;
    let mut k: usize = 0;
    assert(children@.take(0) == Seq::<Entry>::empty());
    while k < children.len()
        invariant
            k <= children.len(),
            listing_bytes(children@.take(k as int)) is Some,
            !over ==> listing_bytes(children@.take(k as int)) == Some(total as nat),
            over ==> listing_bytes(children@.take(k as int))->0 > usize::MAX,
        decreases children.len() - k,
    {
        let ghost so_far = listing_bytes(children@.take(k as int))->0;
        let child = &children[k];
        proof {
            assert(children@.take(k + 1).drop_last() == children@.take(k as int));
            assert(children@.take(k + 1).last() == *child);
            assert(entry_bytes(*child) is Some ==> listing_bytes(children@.take(k + 1)) == Some(
                so_far + entry_bytes(*child)->0,
            ));
            if entry_bytes(*child) is None {
                lemma_unknown_child(children@, k as int);
            }
        }
        let mut bytes: usize = 0;
        match &child.kind {
            Kind::File { len } => {
                if *len > usize::MAX as u64 {
                    over = true;
                } else {
                    bytes = *len as usize;
                }
            },
            Kind::Directory { children: Some(below) } => {
                match tally(below) {
                    Tally::Bytes(n) => {
                        bytes = n;
                    },
                    Tally::TooLarge => {
                        over = true;
                    },
                    Tally::Unknown => {
                        return Tally::Unknown;
                    },
                }
            },
            Kind::Directory { children: None } => {
                return Tally::Unknown;
            },
            Kind::Unknown => {
                return Tally::Unknown;
            },
            Kind::Symlink => {},
            Kind::Other => {},
        }
        assert(!over ==> entry_bytes(*child) == Some(bytes as nat));
        assert(over ==> so_far + entry_bytes(*child)->0 > usize::MAX);
        if !over {
            match total.checked_add(bytes) {
                Some(sum) => {
                    total = sum;
                },
                None => {
                    over = true;
                },
            }
        }
        k = k + 1;
    }
    assert(children@.take(k as int) == children@);
    if over {
        Tally::TooLarge
    } else {
        Tally::Bytes(total)
    }
}

/// The size of the directory `dir`: the bytes of all regular files below it,
/// however deep. Links are not followed and count nothing. The size is
/// `None` where it could not be measured in full: where `dir` is no
/// directory, where `dir` or a directory anywhere below it could not be
/// listed, where nothing could be learned of an entry below it, and where the
/// total is more than a `usize` holds. A part of the total is never given for
/// the whole.
pub fn calculate_folder_size(dir: &Entry) -> (r: Option<usize>)
    ensures
        r == folder_size(*dir),
{
    match &dir.kind {
        Kind::Directory { children: Some(children) } => match tally(children) {
            Tally::Bytes(n) => Some(n),
            _ => None,
        },
        _ => None,
    }
}

/// Appends what the scan reports of `e` to `folders`.
fn traverse(e: &Entry, target: &Vec<char>, folders: &mut Vec<Folder>, depth: usize)
    requires
        depth <= MAX_DEPTH,
    ensures
        folder_views(final(folders)@) == folder_views(old(folders)@) + scan(
            *e,
            target@,
            depth as nat,
        ),
    decreases e,
{
    let ghost before = folder_views(folders@);
    match &e.kind {
        Kind::Directory { children } => {
            if has_last_segment(e.path.as_str(), target) {
                let size = calculate_folder_size(e);
                folders.push(Folder { path: e.path.clone(), size, deleting: false });
                assert(folder_views(folders@) == before + seq![found(*e)]);
            } else if depth < MAX_DEPTH {
                match children {
                    Some(below) => {
                        let mut k: usize = 0;
                        assert(below@.take(0) == Seq::<Entry>::empty());
                        assert(before + Seq::<FolderView>::empty() == before);
                        while k < below.len()
                            invariant
                                k <= below.len(),
                                depth < MAX_DEPTH,
                                e.kind == (Kind::Directory { children: Some(*below) }),
                                folder_views(folders@) == before + scan_all(
                                    below@.take(k as int),
                                    target@,
                                    (depth + 1) as nat,
                                ),
                            decreases below.len() - k,
                        {
                            let ghost so_far = scan_all(
                                below@.take(k as int),
                                target@,
                                (depth + 1) as nat,
                            );
                            proof {
                                assert(below@.take(k + 1).drop_last() == below@.take(k as int));
                                assert(below@.take(k + 1).last() == below@[k as int]);
                            }
                            proof {
                                assert(decreases_to!(e.kind->children->0 => below@[k as int]));
                            }
                            traverse(&below[k], target, folders, depth + 1);
                            assert(before + so_far + scan(
                                below@[k as int],
                                target@,
                                (depth + 1) as nat,
                            ) == before + (so_far + scan(
                                below@[k as int],
                                target@,
                                (depth + 1) as nat,
                            )));
                            k = k + 1;
                        }
                        assert(below@.take(k as int) == below@);
                    },
                    None => {
                        assert(before + Seq::<FolderView>::empty() == before);
                    },
                }
            } else {
                assert(before + Seq::<FolderView>::empty() == before);
            }
        },
        _ => {
            assert(before + Seq::<FolderView>::empty() == before);
        },
    }
}

/// Finds the directories named `target_folder` in the tree below `root`, in
/// the order in which a walk from the root meets them, each with its size.
/// Of a tree that is laid out as a file system lays it out, no path is found
/// twice, and none that lies inside another one that is found.
pub fn find_target_folders(root: &Entry, target_folder: &str) -> (r: Vec<Folder>)
    ensures
        folder_views(r@) == scan(*root, target_folder@, 0),
        forall|i: int|
            0 <= i < r.len() ==> last_segment((#[trigger] r[i]).path@) == target_folder@
                && !r[i].deleting,
        well_laid_out(*root) ==> distinct_paths(folder_views(r@)),
        well_laid_out(*root) ==> forall|i: int, j: int|
            0 <= i < r.len() && 0 <= j < r.len() && i != j ==> !lies_inside(
                (#[trigger] r[i]).path@,
                (#[trigger] r[j]).path@,
            ),
{
    let target = chars_of(target_folder);
    let mut folders: Vec<Folder> = Vec::new();
    traverse(root, &target, &mut folders, 0);
    proof {
        let reports = scan(*root, target_folder@, 0);
        assert(Seq::<FolderView>::empty() + reports == reports);
        reported_folders_carry_the_name(*root, target_folder@, 0);
        assert forall|i: int| 0 <= i < folders.len() implies last_segment(
            (#[trigger] folders[i]).path@,
        ) == target_folder@ && !folders[i].deleting by {
            assert(folder_views(folders@)[i] == folders[i]@);
        }
        if well_laid_out(*root) {
            reported_paths_lie_apart(*root, target_folder@);
            assert forall|i: int, j: int|
                0 <= i < folders.len() && 0 <= j < folders.len() && i != j implies !lies_inside(
                (#[trigger] folders[i]).path@,
                (#[trigger] folders[j]).path@,
            ) by {
                assert(reports[i] == folders[i]@);
                assert(reports[j] == folders[j]@);
            }
        }
    }
    folders
}

/// How much of a directory the scan needs to know.
#[derive(Clone, Copy, Debug, PartialEq, Eq, Structural)]
pub enum Reach {
    /// Everything below it, however deep: the directory is reported, with
    /// its size.
    Measure,
    /// Its children: the scan goes on with each of them, one level further
    /// down.
    Descend,
    /// Nothing: the scan does not look into it.
    Skip,
}

/// How much the scan needs to know of a directory at `path`, found `depth`
/// levels below the root, when it looks for `target`.
pub open spec fn reach_of(path: Seq<char>, target: Seq<char>, depth: nat) -> Reach {
    if last_segment(path) == target {
        Reach::Measure
    } else if depth < MAX_DEPTH {
        Reach::Descend
    } else {
        Reach::Skip
    }
}

/// Tells whoever reads the file system how much of the directory at `path`
/// to read for a scan.
pub fn reach(path: &str, target_folder: &str, depth: usize) -> (r: Reach)
    ensures
        r == reach_of(path@, target_folder@, depth as nat),
{
    if ends_in(path, target_folder) {
        Reach::Measure
    } else if depth < MAX_DEPTH {
        Reach::Descend
    } else {
        Reach::Skip
    }
}

/// What a directory holds does not matter to the scan where `reach_of` says
/// `Skip`, and only its children's own reports matter where it says
/// `Descend`.
pub proof fn scan_reads_no_more_than_reach(e: Entry, target: Seq<char>, depth: nat)
    requires
        e.kind is Directory,
    ensures
        reach_of(e.path@, target, depth) == Reach::Skip ==> scan(e, target, depth).len() == 0,
        reach_of(e.path@, target, depth) == Reach::Measure ==> scan(e, target, depth) == seq![
            found(e),
        ],
        reach_of(e.path@, target, depth) == Reach::Descend ==> scan(e, target, depth) == match e.kind->children {
            Some(cs) => scan_all(cs@, target, depth + 1),
            None => Seq::empty(),
        },
{
}

} // verus!
