//! Why the two repairs work: what they keep of a sequence, and when they leave
//! it heap-ordered.

use crate::layout::{fits, heap_ordered, largest, left, parent, right, sift_down, sift_up, swapped};
use crate::order::{
    exceeds, lemma_asymmetric, lemma_chain, lemma_irreflexive, lemma_transitive,
    strict_weak_order,
};
use vstd::prelude::*;

verus! {

/// The element at index `i` does not exceed its parent's parent.
pub open spec fn fits_grandparent<T: PartialOrd>(s: Seq<T>, i: int) -> bool {
    !exceeds(s[i], s[parent(parent(i))])
}

/// `s` is heap-ordered but for the element at `i`, which may exceed its parent;
/// the children of `i` do not exceed the parent of `i`. This is what an
/// element on its way up leaves behind.
pub open spec fn ordered_but_above<T: PartialOrd>(s: Seq<T>, i: int) -> bool {
    &&& forall|k: int| 0 < k < s.len() && k != i ==> #[trigger] fits(s, k)
    &&& forall|k: int|
        0 < k < s.len() && parent(k) == i && i > 0 ==> #[trigger] fits_grandparent(s, k)
}

/// `s` is heap-ordered but for the children of `i`, which may exceed the
/// element at `i`; they do not exceed the parent of `i`. This is what an
/// element on its way down leaves behind.
pub open spec fn ordered_but_below<T: PartialOrd>(s: Seq<T>, i: int) -> bool {
    &&& forall|k: int| 0 < k < s.len() && parent(k) != i ==> #[trigger] fits(s, k)
    &&& forall|k: int|
        0 < k < s.len() && parent(k) == i && i > 0 ==> #[trigger] fits_grandparent(s, k)
}

/// Exchanging two elements keeps the length and the elements.
pub proof fn lemma_swapped_keeps_elements<T>(s: Seq<T>, i: int, j: int)
    requires
        0 <= i < s.len(),
        0 <= j < s.len(),
    ensures
        swapped(s, i, j).len() == s.len(),
        swapped(s, i, j).to_multiset() == s.to_multiset(),
{
    broadcast use vstd::seq_lib::to_multiset_update;
    broadcast use vstd::seq_lib::group_to_multiset_ensures;
    broadcast use vstd::multiset::group_multiset_axioms;

    let t = s.update(i, s[j]);
    assert(t.to_multiset() == s.to_multiset().insert(s[j]).remove(s[i]));
    assert(swapped(s, i, j).to_multiset() == t.to_multiset().insert(s[i]).remove(t[j]));
    assert(s.contains(s[i]));
    assert(s.contains(s[j]));
    assert(swapped(s, i, j).to_multiset() =~= s.to_multiset());
}

/// Exchanging the element at `i` with the last and dropping the last takes
/// out the element at `i` and no other.
pub proof fn lemma_swap_out_takes_one<T>(s: Seq<T>, i: int)
    requires
        0 <= i < s.len(),
    ensures
        swapped(s, i, s.len() - 1).drop_last().len() == s.len() - 1,
        swapped(s, i, s.len() - 1).drop_last().to_multiset() == s.to_multiset().remove(s[i]),
{
    let last = s.len() - 1;
    let t = swapped(s, i, last);
    lemma_swapped_keeps_elements(s, i, last);
    assert(t.drop_last() =~= t.remove(last));
    vstd::seq_lib::to_multiset_remove(t, last);
}

/// Moving an element up keeps the length and the elements.
pub proof fn lemma_sift_up_keeps_elements<T: PartialOrd>(s: Seq<T>, i: int)
    ensures
        sift_up(s, i).len() == s.len(),
        sift_up(s, i).to_multiset() == s.to_multiset(),
    decreases i,
{
    if 0 < i < s.len() && exceeds(s[i], s[parent(i)]) {
        lemma_swapped_keeps_elements(s, i, parent(i));
        lemma_sift_up_keeps_elements(swapped(s, i, parent(i)), parent(i));
    }
}

/// Moving an element down keeps the length and the elements.
pub proof fn lemma_sift_down_keeps_elements<T: PartialOrd>(s: Seq<T>, i: int)
    ensures
        sift_down(s, i).len() == s.len(),
        sift_down(s, i).to_multiset() == s.to_multiset(),
    decreases s.len() - i,
{
    if 0 <= i < s.len() && largest(s, i) != i {
        lemma_swapped_keeps_elements(s, i, largest(s, i));
        lemma_sift_down_keeps_elements(swapped(s, i, largest(s, i)), largest(s, i));
    }
}

/// Moving up the one element that may exceed its parent restores the heap
/// property.
pub proof fn lemma_sift_up_restores<T: PartialOrd>(s: Seq<T>, i: int)
    requires
        strict_weak_order::<T>(),
        0 <= i < s.len(),
        ordered_but_above(s, i),
    ensures
        heap_ordered(sift_up(s, i)),
    decreases i,
{
    if 0 < i && exceeds(s[i], s[parent(i)]) {
        let p = parent(i);
        let t = swapped(s, i, p);
        lemma_asymmetric(s[i], s[p]);
        assert forall|k: int| 0 < k < t.len() && k != p implies #[trigger] fits(t, k) by {
            if k == i {
            } else if parent(k) == i {
                assert(fits_grandparent(s, k));
            } else if parent(k) == p {
                assert(fits(s, k));
                lemma_chain(s[k], s[p], s[i]);
            } else {
                assert(fits(s, k));
            }
        }
        assert forall|k: int| 0 < k < t.len() && parent(k) == p && p > 0 implies #[trigger] fits_grandparent(
            t,
            k,
        ) by {
            assert(fits(s, p));
            if k != i {
                assert(fits(s, k));
                lemma_chain(s[k], s[p], s[parent(p)]);
            }
        }
        lemma_sift_up_restores(t, p);
    } else {
        assert forall|k: int| 0 < k < s.len() implies #[trigger] fits(s, k) by {
            if k != i {
                assert(fits(s, k));
            }
        }
    }
}

/// Moving down the one element that its children may exceed restores the heap
/// property.
pub proof fn lemma_sift_down_restores<T: PartialOrd>(s: Seq<T>, i: int)
    requires
        strict_weak_order::<T>(),
        0 <= i,
        ordered_but_below(s, i),
    ensures
        heap_ordered(sift_down(s, i)),
    decreases s.len() - i,
{
    let m = largest(s, i);
    if i < s.len() && m != i {
        let t = swapped(s, i, m);
        let l = left(i);
        let r = right(i);
        assert(exceeds(s[m], s[i])) by {
            if m == r && exceeds(s[l], s[i]) && l < s.len() {
                lemma_transitive(s[r], s[l], s[i]);
            }
        }
        lemma_asymmetric(s[m], s[i]);
        assert forall|k: int| 0 < k < t.len() && parent(k) != m implies #[trigger] fits(t, k) by {
            if k == m {
            } else if k == i {
                assert(fits_grandparent(s, m));
            } else if parent(k) == i {
                if m == l {
                } else if l < s.len() && exceeds(s[l], s[i]) {
                    lemma_asymmetric(s[r], s[l]);
                } else {
                    lemma_chain(s[l], s[i], s[r]);
                }
            } else {
                assert(fits(s, k));
            }
        }
        assert forall|k: int| 0 < k < t.len() && parent(k) == m && m > 0 implies #[trigger] fits_grandparent(
            t,
            k,
        ) by {
            assert(fits(s, k));
        }
        lemma_sift_down_restores(t, m);
    } else {
        assert forall|k: int| 0 < k < s.len() implies #[trigger] fits(s, k) by {
            if parent(k) != i {
                assert(fits(s, k));
            }
        }
    }
}

/// In a heap-ordered sequence no element exceeds the root.
pub proof fn lemma_root_on_top<T: PartialOrd>(s: Seq<T>, i: int)
    requires
        strict_weak_order::<T>(),
        heap_ordered(s),
        0 <= i < s.len(),
    ensures
        !exceeds(s[i], s[0]),
    decreases i,
{
    if i == 0 {
        lemma_irreflexive(s[0]);
    } else {
        assert(fits(s, i));
        lemma_root_on_top(s, parent(i));
        lemma_chain(s[i], s[parent(i)], s[0]);
    }
}

/// In a heap-ordered sequence the root is a greatest element.
pub proof fn lemma_root_is_greatest<T: PartialOrd>(s: Seq<T>)
    requires
        strict_weak_order::<T>(),
        heap_ordered(s),
    ensures
        forall|i: int| 0 <= i < s.len() ==> !exceeds(#[trigger] s[i], s[0]),
{
    assert forall|i: int| 0 <= i < s.len() implies !exceeds(#[trigger] s[i], s[0]) by {
        lemma_root_on_top(s, i);
    }
}

} // verus!
