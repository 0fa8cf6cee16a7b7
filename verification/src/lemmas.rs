//! Facts about the shown list that the operations and the laws rest on.

use crate::folder::FolderView;
use crate::model::{
    distinct_paths, has_path, is_shown, marked, raw_index, restored, shown_before, status_of,
    unmarked, visible, without_path, Status,
};
use vstd::prelude::*;

verus! {

/// Nothing is shown of an empty list.
pub proof fn lemma_visible_empty()
    ensures
        visible(Seq::<FolderView>::empty()) == Seq::<FolderView>::empty(),
{
    reveal(Seq::filter);
}

/// The shown list of one entry.
pub proof fn lemma_visible_single(f: FolderView)
    ensures
        visible(seq![f]) == if f.deleting {
            Seq::<FolderView>::empty()
        } else {
            seq![f]
        },
{
    let e = Seq::<FolderView>::empty();
    assert(e.filter(is_shown()) == e) by {
        reveal(Seq::filter);
    }
    e.lemma_filter_push(f, is_shown());
    assert(e.push(f) == seq![f]);
}

/// The shown list grows with the list, entry by entry.
pub proof fn lemma_visible_push(s: Seq<FolderView>, f: FolderView)
    ensures
        visible(s.push(f)) == if f.deleting {
            visible(s)
        } else {
            visible(s).push(f)
        },
{
    s.lemma_filter_push(f, is_shown());
}

/// The shown list of a prefix, one entry longer.
pub proof fn lemma_visible_take_next(s: Seq<FolderView>, k: int)
    requires
        0 <= k < s.len(),
    ensures
        visible(s.take(k + 1)) == if s[k].deleting {
            visible(s.take(k))
        } else {
            visible(s.take(k)).push(s[k])
        },
{
    assert(s.take(k + 1) == s.take(k).push(s[k]));
    lemma_visible_push(s.take(k), s[k]);
}

/// The shown list falls into what stands before position `k`, the entry at
/// `k` if it is shown, and what stands behind it.
pub proof fn lemma_visible_split(s: Seq<FolderView>, k: int)
    requires
        0 <= k < s.len(),
    ensures
        visible(s) == visible(s.take(k)) + visible(seq![s[k]]) + visible(s.skip(k + 1)),
{
    assert(s == s.take(k) + seq![s[k]] + s.skip(k + 1));
    Seq::filter_distributes_over_add(s.take(k) + seq![s[k]], s.skip(k + 1), is_shown());
    Seq::filter_distributes_over_add(s.take(k), seq![s[k]], is_shown());
}

/// A prefix shows no more than the whole list.
pub proof fn lemma_shown_before_bound(s: Seq<FolderView>, k: int)
    requires
        0 <= k <= s.len(),
    ensures
        shown_before(s, k) <= visible(s).len(),
        k < s.len() && !s[k].deleting ==> shown_before(s, k) < visible(s).len(),
        visible(s).len() <= s.len(),
{
    s.lemma_filter_len(is_shown());
    if k < s.len() {
        lemma_visible_split(s, k);
        lemma_visible_single(s[k]);
    } else {
        assert(s.take(k) == s);
    }
}

/// The shown entry at position `k` of the list is entry number
/// `shown_before(s, k)` of the shown list.
pub proof fn lemma_shown_entry(s: Seq<FolderView>, k: int)
    requires
        0 <= k < s.len(),
        !s[k].deleting,
    ensures
        shown_before(s, k) < visible(s).len(),
        visible(s)[shown_before(s, k) as int] == s[k],
{
    lemma_visible_split(s, k);
    lemma_visible_single(s[k]);
}

/// `raw_index` finds the shown entry number `i`: a shown entry of the list
/// with exactly `i` shown entries before it.
pub proof fn lemma_raw_index(s: Seq<FolderView>, i: int)
    requires
        0 <= i < visible(s).len(),
    ensures
        0 <= raw_index(s, i) < s.len(),
        !s[raw_index(s, i)].deleting,
        shown_before(s, raw_index(s, i)) == i,
        s[raw_index(s, i)] == visible(s)[i],
    decreases s.len(),
{
    if s.len() == 0 {
        assert(visible(s).len() == 0) by {
            reveal(Seq::filter);
        }
    } else {
        let front = s.drop_last();
        assert(s == front.push(s.last()));
        lemma_visible_push(front, s.last());
        if !s.last().deleting && visible(front).len() == i {
            assert(s.take(s.len() - 1) == front);
        } else {
            lemma_raw_index(front, i);
            let k = raw_index(front, i);
            assert(s.take(k) == front.take(k));
        }
    }
}

/// Only one position holds the shown entry number `i`.
pub proof fn lemma_raw_index_unique(s: Seq<FolderView>, i: int, k: int)
    requires
        0 <= k < s.len(),
        !s[k].deleting,
        shown_before(s, k) == i,
    ensures
        raw_index(s, i) == k,
        0 <= i < visible(s).len(),
    decreases s.len(),
{
    lemma_shown_entry(s, k);
    let front = s.drop_last();
    assert(s == front.push(s.last()));
    lemma_visible_push(front, s.last());
    if k == s.len() - 1 {
        assert(s.take(k) == front);
    } else {
        assert(front.take(k) == s.take(k));
        lemma_shown_entry(front, k);
        lemma_raw_index_unique(front, i, k);
    }
}

/// Claiming the shown entry at position `k` takes it, and nothing else, out
/// of the shown list.
pub proof fn lemma_visible_mark(s: Seq<FolderView>, k: int)
    requires
        0 <= k < s.len(),
        !s[k].deleting,
    ensures
        visible(s.update(k, marked(s[k]))) == visible(s).remove(shown_before(s, k) as int),
        visible(s.update(k, marked(s[k]))).len() == visible(s).len() - 1,
{
    let t = s.update(k, marked(s[k]));
    lemma_visible_split(s, k);
    lemma_visible_split(t, k);
    lemma_visible_single(s[k]);
    lemma_visible_single(t[k]);
    assert(t.take(k) == s.take(k));
    assert(t.skip(k + 1) == s.skip(k + 1));
    let a = visible(s.take(k));
    let b = visible(s.skip(k + 1));
    assert((a + seq![s[k]] + b).remove(a.len() as int) == a + b);
    assert(a + Seq::<FolderView>::empty() + b == a + b);
}

/// Showing the claimed entry at position `k` again puts it back at its place
/// in the shown list.
pub proof fn lemma_visible_unmark(s: Seq<FolderView>, k: int)
    requires
        0 <= k < s.len(),
        s[k].deleting,
    ensures
        visible(s.update(k, unmarked(s[k]))) == visible(s).insert(
            shown_before(s, k) as int,
            unmarked(s[k]),
        ),
        visible(s.update(k, unmarked(s[k]))).len() == visible(s).len() + 1,
{
    let t = s.update(k, unmarked(s[k]));
    lemma_visible_split(s, k);
    lemma_visible_split(t, k);
    lemma_visible_single(s[k]);
    lemma_visible_single(t[k]);
    assert(t.take(k) == s.take(k));
    assert(t.skip(k + 1) == s.skip(k + 1));
    let a = visible(s.take(k));
    let b = visible(s.skip(k + 1));
    assert(a + Seq::<FolderView>::empty() + b == a + b);
    assert((a + b).insert(a.len() as int, t[k]) == a + seq![t[k]] + b);
}

/// Taking the entry at position `k` out of the list takes it out of the shown
/// list if it was shown, and leaves the shown list as it was if not.
pub proof fn lemma_visible_remove(s: Seq<FolderView>, k: int)
    requires
        0 <= k < s.len(),
    ensures
        visible(s.remove(k)) == if s[k].deleting {
            visible(s)
        } else {
            visible(s).remove(shown_before(s, k) as int)
        },
{
    lemma_visible_split(s, k);
    lemma_visible_single(s[k]);
    assert(s.remove(k) == s.take(k) + s.skip(k + 1));
    Seq::filter_distributes_over_add(s.take(k), s.skip(k + 1), is_shown());
    let a = visible(s.take(k));
    let b = visible(s.skip(k + 1));
    assert(a + Seq::<FolderView>::empty() + b == a + b);
    assert((a + seq![s[k]] + b).remove(a.len() as int) == a + b);
}

/// With unique paths, dropping a path drops the one entry that has it.
pub proof fn lemma_without_path_found(s: Seq<FolderView>, path: Seq<char>, k: int)
    requires
        distinct_paths(s),
        0 <= k < s.len(),
        s[k].path == path,
    ensures
        without_path(s, path) == s.remove(k),
{
    let keep = |f: FolderView| f.path != path;
    assert(s == s.take(k) + seq![s[k]] + s.skip(k + 1));
    Seq::filter_distributes_over_add(s.take(k) + seq![s[k]], s.skip(k + 1), keep);
    Seq::filter_distributes_over_add(s.take(k), seq![s[k]], keep);
    lemma_filter_keeps_all(s.take(k), keep);
    lemma_filter_keeps_all(s.skip(k + 1), keep);
    let e = Seq::<FolderView>::empty();
    assert(e.filter(keep) == e) by {
        reveal(Seq::filter);
    }
    e.lemma_filter_push(s[k], keep);
    assert(e.push(s[k]) == seq![s[k]]);
    assert(s.take(k) + e + s.skip(k + 1) == s.remove(k));
}

/// A path that no entry has is dropped without effect.
pub proof fn lemma_without_path_absent(s: Seq<FolderView>, path: Seq<char>)
    requires
        !has_path(s, path),
    ensures
        without_path(s, path) == s,
{
    lemma_filter_keeps_all(s, |f: FolderView| f.path != path);
}

/// A filter that every entry passes changes nothing.
pub proof fn lemma_filter_keeps_all(s: Seq<FolderView>, keep: spec_fn(FolderView) -> bool)
    requires
        forall|i: int| 0 <= i < s.len() ==> keep(#[trigger] s[i]),
    ensures
        s.filter(keep) == s,
    decreases s.len(),
{
    reveal(Seq::filter);
    if s.len() > 0 {
        lemma_filter_keeps_all(s.drop_last(), keep);
        assert(s.drop_last().push(s.last()) == s);
    }
}

/// With unique paths, showing a path again changes the one entry that has it.
pub proof fn lemma_restored_found(s: Seq<FolderView>, path: Seq<char>, k: int)
    requires
        distinct_paths(s),
        0 <= k < s.len(),
        s[k].path == path,
    ensures
        restored(s, path) == s.update(k, unmarked(s[k])),
{
    assert(restored(s, path) =~= s.update(k, unmarked(s[k])));
}

/// A path that no entry has is shown again without effect.
pub proof fn lemma_restored_absent(s: Seq<FolderView>, path: Seq<char>)
    requires
        !has_path(s, path),
    ensures
        restored(s, path) == s,
{
    assert(restored(s, path) =~= s);
}

/// The status says `Deleting` exactly when some entry is being deleted.
pub proof fn lemma_status_of(s: Seq<FolderView>)
    ensures
        status_of(s) == Status::Deleting <==> exists|k: int|
            0 <= k < s.len() && (#[trigger] s[k]).deleting,
    decreases s.len(),
{
    s.lemma_filter_len(is_shown());
    if s.len() == 0 {
    } else {
        let front = s.drop_last();
        assert(s == front.push(s.last()));
        lemma_visible_push(front, s.last());
        lemma_status_of(front);
        front.lemma_filter_len(is_shown());
        if status_of(s) == Status::Deleting {
            if s.last().deleting {
                assert(s[s.len() - 1].deleting);
            } else {
                let k = choose|k: int| 0 <= k < front.len() && (#[trigger] front[k]).deleting;
                assert(s[k].deleting);
            }
        }
        if exists|k: int| 0 <= k < s.len() && (#[trigger] s[k]).deleting {
            let k = choose|k: int| 0 <= k < s.len() && (#[trigger] s[k]).deleting;
            if k < s.len() - 1 {
                assert(front[k].deleting);
            }
        }
    }
}

} // verus!
