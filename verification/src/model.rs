//! What each operation of the heap makes of the sequence it holds.

use crate::layout::{sift_down, sift_up, swapped};
use crate::order::same;
use vstd::prelude::*;

verus! {

/// `s` after `value` has been pushed: appended, then moved up.
pub open spec fn pushed<T: PartialOrd>(s: Seq<T>, value: T) -> Seq<T> {
    sift_up(s.push(value), s.len() as int)
}

/// `s` after the element at `i` has been taken out: the last element takes its
/// place and is moved down from there.
pub open spec fn removed_at<T: PartialOrd>(s: Seq<T>, i: int) -> Seq<T> {
    sift_down(swapped(s, i, s.len() - 1).drop_last(), i)
}

/// `s` after a pop: without its root, if it has one.
pub open spec fn popped<T: PartialOrd>(s: Seq<T>) -> Seq<T> {
    if s.len() > 0 {
        removed_at(s, 0)
    } else {
        s
    }
}

/// `s` after a write to its root has been repaired: the root is moved down.
pub open spec fn repaired<T: PartialOrd>(s: Seq<T>) -> Seq<T> {
    sift_down(s, 0)
}

/// `s` after a handle on its root has been released: repaired if the handle
/// was dirty.
pub open spec fn released<T: PartialOrd>(s: Seq<T>, dirty: bool) -> Seq<T> {
    if dirty {
        repaired(s)
    } else {
        s
    }
}

/// Index of the first element of `s`, in storage order, that `item` equals;
/// `s.len()` if it equals none.
pub open spec fn first_match<T: PartialOrd>(s: Seq<T>, item: T) -> int
    decreases s.len(),
{
    if s.len() == 0 {
        0
    } else if same(item, s[0]) {
        0
    } else {
        1 + first_match(s.drop_first(), item)
    }
}

/// The element that a delete of `item` takes out of `s`: the first that `item`
/// equals, if there is one.
pub open spec fn found<T: PartialOrd>(s: Seq<T>, item: T) -> Option<T> {
    if first_match(s, item) < s.len() {
        Some(s[first_match(s, item)])
    } else {
        None
    }
}

/// `s` after a delete of `item`: without the first element that `item` equals,
/// if there is one.
pub open spec fn deleted<T: PartialOrd>(s: Seq<T>, item: T) -> Seq<T> {
    if first_match(s, item) < s.len() {
        removed_at(s, first_match(s, item))
    } else {
        s
    }
}

/// [`first_match`] names a match, and nothing before it is one.
pub proof fn lemma_first_match<T: PartialOrd>(s: Seq<T>, item: T)
    ensures
        0 <= first_match(s, item) <= s.len(),
        first_match(s, item) < s.len() ==> same(item, s[first_match(s, item)]),
        forall|k: int| 0 <= k < first_match(s, item) ==> !same(item, #[trigger] s[k]),
    decreases s.len(),
{
    if s.len() > 0 && !same(item, s[0]) {
        let rest = s.drop_first();
        lemma_first_match(rest, item);
        assert forall|k: int| 0 <= k < first_match(s, item) implies !same(item, #[trigger] s[k]) by {
            if k > 0 {
                assert(s[k] == rest[k - 1]);
            }
        }
    }
}

/// An index at which `item` matches, with no match before it, is the one
/// [`first_match`] names.
pub proof fn lemma_first_match_is<T: PartialOrd>(s: Seq<T>, item: T, i: int)
    requires
        0 <= i <= s.len(),
        i < s.len() ==> same(item, s[i]),
        forall|k: int| 0 <= k < i ==> !same(item, #[trigger] s[k]),
    ensures
        first_match(s, item) == i,
{
    lemma_first_match(s, item);
    let j = first_match(s, item);
    if j < i {
        assert(!same(item, s[j]));
    }
}

} // verus!
