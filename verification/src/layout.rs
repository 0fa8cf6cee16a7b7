//! Trees whose paths say where their directories lie, and what follows for
//! the paths that a scan of such a tree reports.

use crate::model::distinct_paths;
use crate::path::{is_separator, last_segment, last_segment_holds_no_separator, segment_start};
use crate::search::{found, is_match, scan};
use crate::search_laws::{
    descend, leads_to_match, no_report_inside_another, reports_have_ways, scan_ways,
};
use crate::tree::{Entry, Kind};
use vstd::prelude::*;

verus! {

/// `long` starts with the characters of `short`.
pub open spec fn begins_with(long: Seq<char>, short: Seq<char>) -> bool {
    short.len() <= long.len() && forall|i: int|
        0 <= i < short.len() ==> #[trigger] long[i] == short[i]
}

/// The path `inner` is the path `outer`, a separator, and more: what lies at
/// `inner` lies inside the directory at `outer`.
pub open spec fn lies_inside(inner: Seq<char>, outer: Seq<char>) -> bool {
    begins_with(inner, outer) && inner.len() > outer.len() && is_separator(
        inner[outer.len() as int],
    )
}

/// `child` is the path of an entry of the directory at `parent`: the
/// parent's path and one segment that is not empty, with a separator between
/// them, which may be the one that the parent's path ends in.
pub open spec fn is_entry_of(parent: Seq<char>, child: Seq<char>) -> bool {
    &&& begins_with(child, parent)
    &&& child.len() > parent.len()
    &&& segment_start(child) < child.len()
    &&& (segment_start(child) == parent.len() || segment_start(child) == parent.len() + 1)
}

/// The directories of the tree below `e` are laid out as a file system lays
/// them out: the path of each directory is the path of the directory it lies
/// in and one more segment, and two directories that lie in the same
/// directory differ in that segment. Nothing is asked of the paths of files,
/// links and the rest.
pub open spec fn well_laid_out(e: Entry) -> bool
    decreases e,
{
    match e.kind {
        Kind::Directory { children: Some(cs) } => {
            &&& forall|i: int|
                0 <= i < cs@.len() && (#[trigger] cs@[i]).kind is Directory ==> is_entry_of(
                    e.path@,
                    cs@[i].path@,
                ) && well_laid_out(cs@[i])
            &&& forall|i: int, j: int|
                0 <= i < j < cs@.len() && (#[trigger] cs@[i]).kind is Directory && (
                #[trigger] cs@[j]).kind is Directory ==> last_segment(cs@[i].path@)
                    != last_segment(cs@[j].path@)
        },
        _ => true,
    }
}

/// What lies inside a directory that lies inside another lies inside that
/// other one too.
pub proof fn lemma_inside_is_transitive(a: Seq<char>, b: Seq<char>, c: Seq<char>)
    requires
        lies_inside(a, b),
        lies_inside(b, c),
    ensures
        lies_inside(a, c),
{
    assert forall|i: int| 0 <= i < c.len() implies #[trigger] a[i] == c[i] by {
        assert(a[i] == b[i]);
        assert(b[i] == c[i]);
    }
    assert(a[c.len() as int] == b[c.len() as int]);
}

/// The path of an entry ends in its segment, so in no separator.
pub proof fn lemma_entry_ends_in_no_separator(parent: Seq<char>, child: Seq<char>)
    requires
        is_entry_of(parent, child),
    ensures
        child.len() > 0,
        !is_separator(child.last()),
{
    last_segment_holds_no_separator(child);
    assert(!is_separator(child[child.len() - 1]));
}

/// An entry of a directory whose own path ends in no separator lies inside
/// it.
pub proof fn lemma_entry_lies_inside(parent: Seq<char>, child: Seq<char>)
    requires
        is_entry_of(parent, child),
        parent.len() > 0,
        !is_separator(parent.last()),
    ensures
        lies_inside(child, parent),
{
    last_segment_holds_no_separator(child);
    if segment_start(child) == parent.len() {
        assert(child[parent.len() - 1] == parent[parent.len() - 1]);
    }
}

/// Every directory below a directory lies inside it, path by path.
pub proof fn directories_below_lie_inside(c: Entry, way: Seq<int>)
    requires
        well_laid_out(c),
        c.path@.len() > 0,
        !is_separator(c.path@.last()),
        way.len() > 0,
        descend(c, way) is Some,
        descend(c, way)->0.kind is Directory,
    ensures
        lies_inside(descend(c, way)->0.path@, c.path@),
    decreases way.len(),
{
    let cs = c.kind->children->0;
    let child = cs@[way[0]];
    let rest = way.drop_first();
    if rest.len() == 0 {
        assert(descend(child, rest) == Some(child));
    }
    assert(child.kind is Directory);
    lemma_entry_lies_inside(c.path@, child.path@);
    lemma_entry_ends_in_no_separator(c.path@, child.path@);
    if rest.len() > 0 {
        directories_below_lie_inside(child, rest);
        lemma_inside_is_transitive(descend(c, way)->0.path@, child.path@, c.path@);
    }
}

/// Two entries of one directory that differ in their segment: nothing at or
/// inside the first is at, or has inside it, anything at or inside the
/// second.
proof fn lemma_apart_one_way(
    parent: Seq<char>,
    c1: Seq<char>,
    c2: Seq<char>,
    r1: Seq<char>,
    r2: Seq<char>,
)
    requires
        is_entry_of(parent, c1),
        is_entry_of(parent, c2),
        last_segment(c1) != last_segment(c2),
        r1 == c1 || lies_inside(r1, c1),
        r2 == c2 || lies_inside(r2, c2),
    ensures
        r1 != r2,
        !lies_inside(r2, r1),
{
    if r1 == r2 || lies_inside(r2, r1) {
        lemma_meeting_entries_share_a_segment(parent, c1, c2, r1, r2);
    }
}

/// Where something at or inside one entry of a directory is at, or has
/// inside it, something at or inside another entry of that directory, the
/// two entries have the same segment.
proof fn lemma_meeting_entries_share_a_segment(
    parent: Seq<char>,
    c1: Seq<char>,
    c2: Seq<char>,
    r1: Seq<char>,
    r2: Seq<char>,
)
    requires
        is_entry_of(parent, c1),
        is_entry_of(parent, c2),
        r1 == c1 || lies_inside(r1, c1),
        r2 == c2 || lies_inside(r2, c2),
        r1 == r2 || lies_inside(r2, r1),
    ensures
        last_segment(c1) == last_segment(c2),
{
    last_segment_holds_no_separator(c1);
    last_segment_holds_no_separator(c2);
    assert(begins_with(r1, c1));
    assert(begins_with(r2, c2));
    assert(begins_with(r2, r1));
    assert forall|i: int| 0 <= i < c1.len() implies #[trigger] r2[i] == c1[i] by {
        assert(r2[i] == r1[i]);
        assert(r1[i] == c1[i]);
    }
    if c1.len() == c2.len() {
        assert forall|i: int| 0 <= i < c1.len() implies c1[i] == c2[i] by {
            assert(r2[i] == c1[i]);
            assert(r2[i] == c2[i]);
        }
        assert(c1 =~= c2);
    } else if c1.len() < c2.len() {
        let n = c1.len() as int;
        if r1.len() > n {
            assert(is_separator(r1[n]));
            assert(r2[n] == r1[n]);
        } else {
            assert(r1 != r2);
        }
        assert(is_separator(r2[n]));
        assert(r2[n] == c2[n]);
        assert(!is_separator(c2[n]));
    } else {
        let n = c2.len() as int;
        assert(r2.len() > n);
        assert(is_separator(r2[n]));
        assert(r2[n] == r1[n]);
        assert(r1[n] == c1[n]);
        assert(!is_separator(c1[n]));
    }
}

/// Two directories that lie in one directory and differ in their segment
/// keep apart whatever lies at or inside them: no path on the one side is a
/// path on the other, or lies inside one.
pub proof fn siblings_stay_apart(
    parent: Seq<char>,
    c1: Seq<char>,
    c2: Seq<char>,
    r1: Seq<char>,
    r2: Seq<char>,
)
    requires
        is_entry_of(parent, c1),
        is_entry_of(parent, c2),
        last_segment(c1) != last_segment(c2),
        r1 == c1 || lies_inside(r1, c1),
        r2 == c2 || lies_inside(r2, c2),
    ensures
        r1 != r2,
        !lies_inside(r1, r2),
        !lies_inside(r2, r1),
{
    lemma_apart_one_way(parent, c1, c2, r1, r2);
    lemma_apart_one_way(parent, c2, c1, r2, r1);
}

/// A way that leads to a match ends at a directory of the wanted name.
pub proof fn lemma_way_ends_in_match(e: Entry, target: Seq<char>, way: Seq<int>)
    requires
        leads_to_match(e, target, way),
    ensures
        descend(e, way) is Some,
        is_match(descend(e, way)->0, target),
    decreases way.len(),
{
    if way.len() > 0 {
        let cs = e.kind->children->0;
        lemma_way_ends_in_match(cs@[way[0]], target, way.drop_first());
    }
}

/// In a tree that is well laid out, two directories at places of which
/// neither lies below the other have different paths, and neither path lies
/// inside the other.
pub proof fn places_apart_have_paths_apart(e: Entry, p: Seq<int>, q: Seq<int>)
    requires
        well_laid_out(e),
        descend(e, p) is Some,
        descend(e, p)->0.kind is Directory,
        descend(e, q) is Some,
        descend(e, q)->0.kind is Directory,
        !p.is_prefix_of(q),
        !q.is_prefix_of(p),
    ensures
        descend(e, p)->0.path@ != descend(e, q)->0.path@,
        !lies_inside(descend(e, p)->0.path@, descend(e, q)->0.path@),
        !lies_inside(descend(e, q)->0.path@, descend(e, p)->0.path@),
    decreases p.len(),
{
    if p.len() == 0 {
        assert(p.is_prefix_of(q));
    }
    if q.len() == 0 {
        assert(q.is_prefix_of(p));
    }
    let cs = e.kind->children->0;
    let c1 = cs@[p[0]];
    let c2 = cs@[q[0]];
    let p1 = p.drop_first();
    let q1 = q.drop_first();
    let x = descend(e, p)->0;
    let y = descend(e, q)->0;
    if p1.len() == 0 {
        assert(descend(c1, p1) == Some(c1));
    }
    if q1.len() == 0 {
        assert(descend(c2, q1) == Some(c2));
    }
    assert(c1.kind is Directory);
    assert(c2.kind is Directory);
    if p[0] == q[0] {
        if p1.is_prefix_of(q1) {
            assert(p =~= seq![p[0]] + p1);
            assert(q =~= seq![q[0]] + q1);
            assert(p =~= q.subrange(0, p.len() as int));
        }
        if q1.is_prefix_of(p1) {
            assert(p =~= seq![p[0]] + p1);
            assert(q =~= seq![q[0]] + q1);
            assert(q =~= p.subrange(0, q.len() as int));
        }
        places_apart_have_paths_apart(c1, p1, q1);
    } else {
        lemma_entry_ends_in_no_separator(e.path@, c1.path@);
        lemma_entry_ends_in_no_separator(e.path@, c2.path@);
        if p1.len() > 0 {
            directories_below_lie_inside(c1, p1);
        }
        if q1.len() > 0 {
            directories_below_lie_inside(c2, q1);
        }
        if p[0] < q[0] {
            assert(last_segment(cs@[p[0]].path@) != last_segment(cs@[q[0]].path@));
        } else {
            assert(last_segment(cs@[q[0]].path@) != last_segment(cs@[p[0]].path@));
        }
        siblings_stay_apart(e.path@, c1.path@, c2.path@, x.path@, y.path@);
    }
}

/// The scan of a tree that is well laid out reports no path twice, and no
/// path that lies inside another path that it reports: no reported path is
/// another one, a separator, and more.
pub proof fn reported_paths_lie_apart(root: Entry, target: Seq<char>)
    requires
        well_laid_out(root),
    ensures
        distinct_paths(scan(root, target, 0)),
        forall|i: int, j: int|
            0 <= i < scan(root, target, 0).len() && 0 <= j < scan(root, target, 0).len() && i != j
                ==> !lies_inside(
                (#[trigger] scan(root, target, 0)[i]).path,
                (#[trigger] scan(root, target, 0)[j]).path,
            ),
{
    let reports = scan(root, target, 0);
    let ways = scan_ways(root, target, 0);
    reports_have_ways(root, target, 0);
    assert forall|i: int, j: int| 0 <= i < reports.len() && 0 <= j < reports.len() && i
        != j implies (#[trigger] reports[i]).path != (#[trigger] reports[j]).path && !lies_inside(
        reports[i].path,
        reports[j].path,
    ) by {
        let p = ways[i];
        let q = ways[j];
        no_report_inside_another(root, target, i, j);
        no_report_inside_another(root, target, j, i);
        lemma_way_ends_in_match(root, target, p);
        lemma_way_ends_in_match(root, target, q);
        assert(found(descend(root, p)->0) == reports[i]);
        assert(found(descend(root, q)->0) == reports[j]);
        places_apart_have_paths_apart(root, p, q);
    }
}

} // verus!
