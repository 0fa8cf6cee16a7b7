//! What holds of every scan: each reported directory carries the wanted
//! name, and none of them lies inside another.

use crate::path::last_segment;
use crate::search::{found, is_match, scan, scan_all, MAX_DEPTH};
use crate::tree::{Entry, Kind};
use vstd::prelude::*;

verus! {

/// The entry reached from `e` by taking, at each directory, the child whose
/// number comes next in `way`.
pub open spec fn descend(e: Entry, way: Seq<int>) -> Option<Entry>
    decreases way.len(),
{
    if way.len() == 0 {
        Some(e)
    } else {
        match e.kind {
            Kind::Directory { children: Some(cs) } => if 0 <= way[0] < cs@.len() {
                descend(cs@[way[0]], way.drop_first())
            } else {
                None
            },
            _ => None,
        }
    }
}

/// `way` leads from `e` to a directory named `target`, and every directory
/// that it passes through on the way has another name.
pub open spec fn leads_to_match(e: Entry, target: Seq<char>, way: Seq<int>) -> bool
    decreases way.len(),
{
    if way.len() == 0 {
        is_match(e, target)
    } else {
        match e.kind {
            Kind::Directory { children: Some(cs) } => !is_match(e, target) && 0 <= way[0]
                < cs@.len() && leads_to_match(cs@[way[0]], target, way.drop_first()),
            _ => false,
        }
    }
}

/// `way`, seen from the directory whose child number `child` it starts at.
pub open spec fn through(child: int) -> spec_fn(Seq<int>) -> Seq<int> {
    |way: Seq<int>| seq![child] + way
}

/// The ways from `e` to the directories that `scan` reports of it, in the
/// order of the report.
pub open spec fn scan_ways(e: Entry, target: Seq<char>, depth: nat) -> Seq<Seq<int>>
    decreases e,
{
    match e.kind {
        Kind::Directory { children } => if last_segment(e.path@) == target {
            seq![Seq::<int>::empty()]
        } else if depth < MAX_DEPTH {
            match children {
                Some(cs) => scan_all_ways(cs@, target, depth + 1),
                None => Seq::empty(),
            }
        } else {
            Seq::empty()
        },
        _ => Seq::empty(),
    }
}

/// The ways to the directories that `scan_all` reports of `children`, each
/// starting with the number of the child that it goes through.
pub open spec fn scan_all_ways(children: Seq<Entry>, target: Seq<char>, depth: nat) -> Seq<
    Seq<int>,
>
    decreases children,
{
    if children.len() == 0 {
        Seq::empty()
    } else {
        scan_all_ways(children.drop_last(), target, depth) + scan_ways(
            children.last(),
            target,
            depth,
        ).map_values(through(children.len() - 1))
    }
}

/// Every reported directory carries the wanted name, and none is marked as
/// being deleted.
pub proof fn reported_folders_carry_the_name(e: Entry, target: Seq<char>, depth: nat)
    ensures
        forall|i: int|
            0 <= i < scan(e, target, depth).len() ==> last_segment(
                (#[trigger] scan(e, target, depth)[i]).path,
            ) == target && !scan(e, target, depth)[i].deleting,
    decreases e,
{
    match e.kind {
        Kind::Directory { children: Some(cs) } => {
            if last_segment(e.path@) != target && depth < MAX_DEPTH {
                reported_children_carry_the_name(cs@, target, depth + 1);
            }
        },
        _ => {},
    }
}

/// The same of what is reported of a list of entries.
pub proof fn reported_children_carry_the_name(children: Seq<Entry>, target: Seq<char>, depth: nat)
    ensures
        forall|i: int|
            0 <= i < scan_all(children, target, depth).len() ==> last_segment(
                (#[trigger] scan_all(children, target, depth)[i]).path,
            ) == target && !scan_all(children, target, depth)[i].deleting,
    decreases children,
{
    if children.len() > 0 {
        reported_children_carry_the_name(children.drop_last(), target, depth);
        reported_folders_carry_the_name(children.last(), target, depth);
    }
}

/// A directory that carries the wanted name is reported alone: the scan
/// looks no further into it.
pub proof fn a_match_is_a_leaf(e: Entry, target: Seq<char>, depth: nat)
    requires
        is_match(e, target),
    ensures
        scan(e, target, depth) == seq![found(e)],
{
}

/// Each report has its way: it leads from `e` to the reported directory,
/// through no other directory of that name, and no further down than the
/// scan looks. No two reports have the same way.
pub proof fn reports_have_ways(e: Entry, target: Seq<char>, depth: nat)
    requires
        depth <= MAX_DEPTH,
    ensures
        scan_ways(e, target, depth).len() == scan(e, target, depth).len(),
        forall|i: int|
            #![trigger scan_ways(e, target, depth)[i]]
            0 <= i < scan(e, target, depth).len() ==> {
                let way = scan_ways(e, target, depth)[i];
                &&& leads_to_match(e, target, way)
                &&& descend(e, way) is Some
                &&& found(descend(e, way)->0) == scan(e, target, depth)[i]
                &&& depth + way.len() <= MAX_DEPTH
            },
        forall|i: int, j: int|
            0 <= i < j < scan(e, target, depth).len() ==> #[trigger] scan_ways(e, target, depth)[i]
                != #[trigger] scan_ways(e, target, depth)[j],
    decreases e,
{
    match e.kind {
        Kind::Directory { children: Some(cs) } => {
            if last_segment(e.path@) != target && depth < MAX_DEPTH {
                reports_of_children_have_ways(cs@, target, depth + 1);
                assert forall|i: int|
                    #![trigger scan_ways(e, target, depth)[i]]
                    0 <= i < scan(e, target, depth).len() implies {
                    let way = scan_ways(e, target, depth)[i];
                    &&& leads_to_match(e, target, way)
                    &&& descend(e, way) is Some
                    &&& found(descend(e, way)->0) == scan(e, target, depth)[i]
                    &&& depth + way.len() <= MAX_DEPTH
                } by {
                    let way = scan_all_ways(cs@, target, depth + 1)[i];
                    assert(scan_ways(e, target, depth)[i] == way);
                }
            }
        },
        _ => {},
    }
}

/// The same of what is reported of the children of a directory: each way
/// starts with the number of a child and goes on from that child.
pub proof fn reports_of_children_have_ways(children: Seq<Entry>, target: Seq<char>, depth: nat)
    requires
        depth <= MAX_DEPTH,
    ensures
        scan_all_ways(children, target, depth).len() == scan_all(children, target, depth).len(),
        forall|i: int|
            #![trigger scan_all_ways(children, target, depth)[i]]
            0 <= i < scan_all(children, target, depth).len() ==> {
                let way = scan_all_ways(children, target, depth)[i];
                &&& way.len() > 0
                &&& 0 <= way[0] < children.len()
                &&& leads_to_match(children[way[0]], target, way.drop_first())
                &&& descend(children[way[0]], way.drop_first()) is Some
                &&& found(descend(children[way[0]], way.drop_first())->0) == scan_all(
                    children,
                    target,
                    depth,
                )[i]
                &&& depth + way.len() <= MAX_DEPTH + 1
            },
        forall|i: int, j: int|
            0 <= i < j < scan_all(children, target, depth).len() ==> #[trigger] scan_all_ways(
                children,
                target,
                depth,
            )[i] != #[trigger] scan_all_ways(children, target, depth)[j],
    decreases children,
{
    if children.len() > 0 {
        let front = children.drop_last();
        let last = children.last();
        let n = children.len() - 1;
        reports_of_children_have_ways(front, target, depth);
        reports_have_ways(last, target, depth);
        let front_ways = scan_all_ways(front, target, depth);
        let last_ways = scan_ways(last, target, depth);
        let ways = scan_all_ways(children, target, depth);
        let reports = scan_all(children, target, depth);
        assert(ways == front_ways + last_ways.map_values(through(n)));
        assert forall|i: int| #![trigger ways[i]] 0 <= i < reports.len() implies {
            let way = ways[i];
            &&& way.len() > 0
            &&& 0 <= way[0] < children.len()
            &&& leads_to_match(children[way[0]], target, way.drop_first())
            &&& descend(children[way[0]], way.drop_first()) is Some
            &&& found(descend(children[way[0]], way.drop_first())->0) == reports[i]
            &&& depth + way.len() <= MAX_DEPTH + 1
        } by {
            if i < front_ways.len() {
                let way = front_ways[i];
                assert(ways[i] == way);
                assert(front[way[0]] == children[way[0]]);
            } else {
                let rest = last_ways[i - front_ways.len()];
                assert(ways[i] == seq![n] + rest);
                assert((seq![n] + rest).drop_first() == rest);
            }
        }
        assert forall|i: int, j: int| 0 <= i < j < reports.len() implies #[trigger] ways[i]
            != #[trigger] ways[j] by {
            if j < front_ways.len() {
                assert(ways[i] == front_ways[i]);
                assert(ways[j] == front_ways[j]);
            } else if i < front_ways.len() {
                assert(ways[i] == front_ways[i]);
                assert(ways[j] == seq![n] + last_ways[j - front_ways.len()]);
                assert(ways[i][0] < n);
                assert(ways[j][0] == n);
            } else {
                let a = last_ways[i - front_ways.len()];
                let b = last_ways[j - front_ways.len()];
                assert(ways[i] == seq![n] + a);
                assert(ways[j] == seq![n] + b);
                assert((seq![n] + a).drop_first() == a);
                assert((seq![n] + b).drop_first() == b);
            }
        }
    }
}

/// Of two ways that lead to a directory of the wanted name, neither goes on
/// from where the other ends.
pub proof fn ways_do_not_nest(e: Entry, target: Seq<char>, short: Seq<int>, long: Seq<int>)
    requires
        leads_to_match(e, target, short),
        leads_to_match(e, target, long),
        short.is_prefix_of(long),
    ensures
        short == long,
    decreases short.len(),
{
    if short.len() == 0 {
        assert(short =~= long);
    } else {
        match e.kind {
            Kind::Directory { children: Some(cs) } => {
                assert(short[0] == long.subrange(0, short.len() as int)[0]);
                assert(short.drop_first() =~= long.drop_first().subrange(0, short.len() - 1));
                ways_do_not_nest(cs@[short[0]], target, short.drop_first(), long.drop_first());
                assert(short =~= seq![short[0]] + short.drop_first());
                assert(long =~= seq![long[0]] + long.drop_first());
            },
            _ => {},
        }
    }
}

/// No reported directory lies inside another: of the ways that lead from the
/// root to two reports, neither is the beginning of the other.
pub proof fn no_report_inside_another(root: Entry, target: Seq<char>, i: int, j: int)
    requires
        0 <= i < scan(root, target, 0).len(),
        0 <= j < scan(root, target, 0).len(),
        i != j,
    ensures
        !scan_ways(root, target, 0)[i].is_prefix_of(scan_ways(root, target, 0)[j]),
{
    reports_have_ways(root, target, 0);
    let a = scan_ways(root, target, 0)[i];
    let b = scan_ways(root, target, 0)[j];
    if a.is_prefix_of(b) {
        ways_do_not_nest(root, target, a, b);
        if i < j {
            assert(scan_ways(root, target, 0)[i] != scan_ways(root, target, 0)[j]);
        } else {
            assert(scan_ways(root, target, 0)[j] != scan_ways(root, target, 0)[i]);
        }
    }
}

} // verus!
