//! The last segment of a path, whichever separator the path is written with.

use vstd::prelude::*;
use vstd::std_specs::iter::IteratorSpec;

verus! {

/// Both separators count, so that a path means the same on every platform.
pub open spec fn is_separator(c: char) -> bool {
    c == '/' || c == '\\'
}

/// Where the last segment of `path` begins: behind its last separator, or at
/// its start where it has none.
pub open spec fn segment_start(path: Seq<char>) -> int
    decreases path.len(),
{
    if path.len() == 0 {
        0
    } else if is_separator(path.last()) {
        path.len() as int
    } else {
        segment_start(path.drop_last())
    }
}

/// What follows the last separator of `path`; the whole of it where it has
/// none.
pub open spec fn last_segment(path: Seq<char>) -> Seq<char> {
    path.skip(segment_start(path))
}

/// The last segment begins at the start of the path or right behind a
/// separator, and holds no separator itself: it is the same whichever of the
/// two separators the path is written with.
pub proof fn last_segment_holds_no_separator(path: Seq<char>)
    ensures
        0 <= segment_start(path) <= path.len(),
        segment_start(path) > 0 ==> is_separator(path[segment_start(path) - 1]),
        forall|i: int| segment_start(path) <= i < path.len() ==> !is_separator(#[trigger] path[i]),
        forall|i: int|
            0 <= i < last_segment(path).len() ==> !is_separator(#[trigger] last_segment(path)[i]),
    decreases path.len(),
{
    if path.len() > 0 && !is_separator(path.last()) {
        let front = path.drop_last();
        last_segment_holds_no_separator(front);
        assert forall|i: int| segment_start(path) <= i < path.len() implies !is_separator(
            #[trigger] path[i],
        ) by {
            if i < front.len() {
                assert(path[i] == front[i]);
            }
        }
    }
}

/// The characters of `s`, one by one.
pub fn chars_of(s: &str) -> (r: Vec<char>)
    ensures
        r@ == s@,
{
    let mut out: Vec<char> = Vec::new();
    let mut rest = s.chars();
    loop
        invariant
            out@ + rest.remaining() == s@,
            rest.obeys_prophetic_iter_laws(),
            rest.decrease() is Some,
        ensures
            out@ == s@,
        decreases rest.decrease()->0,
    {
        let ghost before = rest.remaining();
        match rest.next() {
            Some(c) => {
                out.push(c);
                assert(before == seq![c] + rest.remaining());
            },
            None => {
                assert(out@ + before == out@);
                break ;
            },
        }
    }
    out
}

/// Only one place is the start of the last segment: one at the start of the
/// path or right behind a separator, with no separator from there on.
pub proof fn lemma_segment_start_unique(path: Seq<char>, k: int)
    requires
        0 <= k <= path.len(),
        k > 0 ==> is_separator(path[k - 1]),
        forall|i: int| k <= i < path.len() ==> !is_separator(#[trigger] path[i]),
    ensures
        segment_start(path) == k,
    decreases path.len(),
{
    if path.len() > 0 {
        if is_separator(path.last()) {
            assert(k == path.len());
        } else {
            let front = path.drop_last();
            assert(k < path.len());
            assert forall|i: int| k <= i < front.len() implies !is_separator(
                #[trigger] front[i],
            ) by {
                assert(front[i] == path[i]);
            }
            if k > 0 {
                assert(front[k - 1] == path[k - 1]);
            }
            lemma_segment_start_unique(front, k);
        }
    }
}

/// Where the last segment of `path` begins.
pub fn segment_start_of(path: &Vec<char>) -> (r: usize)
    ensures
        r == segment_start(path@),
        r <= path.len(),
{
    let mut k: usize = path.len();
    while k > 0
        invariant
            k <= path.len(),
            forall|i: int| k <= i < path.len() ==> !is_separator(#[trigger] path@[i]),
        decreases k,
    {
        let c = path[k - 1];
        if c == '/' || c == '\\' {
            proof {
                lemma_segment_start_unique(path@, k as int);
            }
            return k;
        }
        k = k - 1;
    }
    proof {
        lemma_segment_start_unique(path@, 0);
    }
    k
}

/// Whether the last segment of `path` is `segment`, character for character.
pub fn has_last_segment(path: &str, segment: &Vec<char>) -> (r: bool)
    ensures
        r == (last_segment(path@) == segment@),
{
    let chars = chars_of(path);
    let start = segment_start_of(&chars);
    if chars.len() - start != segment.len() {
        return false;
    }
    let mut j: usize = 0;
    while j < segment.len()
        invariant
            j <= segment.len(),
            start <= chars.len(),
            chars.len() - start == segment.len(),
            chars@ == path@,
            start == segment_start(path@),
            forall|i: int| 0 <= i < j ==> chars@[start + i] == segment@[i],
        decreases segment.len() - j,
    {
        if chars[start + j] != segment[j] {
            assert(last_segment(path@)[j as int] != segment@[j as int]);
            return false;
        }
        j = j + 1;
    }
    assert(last_segment(path@) =~= segment@);
    true
}

/// Whether the last segment of `path` is `name`.
pub fn ends_in(path: &str, name: &str) -> (r: bool)
    ensures
        r == (last_segment(path@) == name@),
{
    let segment = chars_of(name);
    has_last_segment(path, &segment)
}

} // verus!
