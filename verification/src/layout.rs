//! The heap as a sequence: where parents and children sit, what it means for a
//! sequence to be heap-ordered, and the two repairs as functions on sequences.

use crate::order::exceeds;
use vstd::prelude::*;

verus! {

/// Index of the parent of the element at index `i > 0`.
pub open spec fn parent(i: int) -> int {
    (i - 1) / 2
}

/// Index of the left child of the element at index `i`.
pub open spec fn left(i: int) -> int {
    2 * i + 1
}

/// Index of the right child of the element at index `i`.
pub open spec fn right(i: int) -> int {
    2 * i + 2
}

/// The element at index `i` does not exceed its parent.
pub open spec fn fits<T: PartialOrd>(s: Seq<T>, i: int) -> bool {
    !exceeds(s[i], s[parent(i)])
}

/// The heap property: no element exceeds its parent.
pub open spec fn heap_ordered<T: PartialOrd>(s: Seq<T>) -> bool {
    forall|i: int| 0 < i < s.len() ==> #[trigger] fits(s, i)
}

/// `s` with the elements at `i` and `j` exchanged.
pub open spec fn swapped<T>(s: Seq<T>, i: int, j: int) -> Seq<T> {
    s.update(i, s[j]).update(j, s[i])
}

/// `s` after the element at `i` has been moved towards the root: while it
/// exceeds its parent the two are exchanged.
pub open spec fn sift_up<T: PartialOrd>(s: Seq<T>, i: int) -> Seq<T>
    decreases i,
{
    if 0 < i < s.len() && exceeds(s[i], s[parent(i)]) {
        sift_up(swapped(s, i, parent(i)), parent(i))
    } else {
        s
    }
}

/// Among the element at `i` and its children, the index of the one that a
/// repair puts at `i`: the left child if it exceeds the element, then the
/// right child if it exceeds that choice. Children that tie go to the left.
pub open spec fn largest<T: PartialOrd>(s: Seq<T>, i: int) -> int {
    let m = if left(i) < s.len() && exceeds(s[left(i)], s[i]) {
        left(i)
    } else {
        i
    };
    if right(i) < s.len() && exceeds(s[right(i)], s[m]) {
        right(i)
    } else {
        m
    }
}

/// `s` after the element at `i` has been moved towards the leaves: while a
/// child exceeds it, it is exchanged with the child that [`largest`] names.
/// An `i` outside `s` leaves `s` as it is.
pub open spec fn sift_down<T: PartialOrd>(s: Seq<T>, i: int) -> Seq<T>
    decreases s.len() - i,
{
    if 0 <= i < s.len() && largest(s, i) != i {
        sift_down(swapped(s, i, largest(s, i)), largest(s, i))
    } else {
        s
    }
}

} // verus!
