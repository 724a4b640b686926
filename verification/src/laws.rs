//! What holds of the heap's operations taken together.

use crate::layout::{fits, heap_ordered, largest, left, parent, right, swapped};
use crate::model::{pushed, removed_at, repaired};
use crate::order::{exceeds, lemma_asymmetric, lemma_chain, strict_weak_order};
use crate::repair::{
    fits_grandparent, lemma_root_is_greatest, lemma_root_on_top,
    lemma_sift_down_keeps_elements, lemma_sift_down_restores, lemma_sift_up_keeps_elements,
    lemma_sift_up_restores, lemma_swap_out_takes_one, ordered_but_below,
};
use vstd::prelude::*;

verus! {

/// A push adds one element and takes none away.
pub proof fn lemma_push_adds_one<T: PartialOrd>(s: Seq<T>, value: T)
    ensures
        pushed(s, value).len() == s.len() + 1,
        pushed(s, value).to_multiset() == s.to_multiset().insert(value),
{
    broadcast use vstd::seq_lib::group_to_multiset_ensures;

    lemma_sift_up_keeps_elements(s.push(value), s.len() as int);
}

/// A push into a heap-ordered sequence leaves it heap-ordered.
pub proof fn lemma_push_keeps_order<T: PartialOrd>(s: Seq<T>, value: T)
    requires
        strict_weak_order::<T>(),
        heap_ordered(s),
    ensures
        heap_ordered(pushed(s, value)),
{
    let t = s.push(value);
    let i = s.len() as int;
    assert forall|k: int| 0 < k < t.len() && k != i implies #[trigger] fits(t, k) by {
        assert(fits(s, k));
    }
    lemma_sift_up_restores(t, i);
}

/// Taking out the element at `i` removes that element and no other.
pub proof fn lemma_removal_takes_one<T: PartialOrd>(s: Seq<T>, i: int)
    requires
        0 <= i < s.len(),
    ensures
        removed_at(s, i).len() == s.len() - 1,
        removed_at(s, i).to_multiset() == s.to_multiset().remove(s[i]),
{
    lemma_swap_out_takes_one(s, i);
    lemma_sift_down_keeps_elements(swapped(s, i, s.len() - 1).drop_last(), i);
}

/// Whether the element that takes the place of the one at `i` stays under the
/// parent of `i`. The root has no parent, and the last element is replaced by
/// none.
pub open spec fn replacement_fits<T: PartialOrd>(s: Seq<T>, i: int) -> bool {
    i == 0 || i == s.len() - 1 || !exceeds(s[s.len() - 1], s[parent(i)])
}

/// Taking the element at `i` out of a heap-ordered sequence leaves it
/// heap-ordered if the replacement stays under the parent of `i`, and only
/// then: a replacement is moved down and never up.
pub proof fn lemma_removal_order<T: PartialOrd>(s: Seq<T>, i: int)
    requires
        strict_weak_order::<T>(),
        heap_ordered(s),
        0 <= i < s.len(),
    ensures
        heap_ordered(removed_at(s, i)) <==> replacement_fits(s, i),
{
    let last = s.len() - 1;
    let t = swapped(s, i, last).drop_last();
    if i == last {
        assert(t =~= s.drop_last());
        assert forall|k: int| 0 < k < t.len() implies #[trigger] fits(t, k) by {
            assert(fits(s, k));
        }
    } else if i == 0 || !exceeds(s[last], s[parent(i)]) {
        assert forall|k: int| 0 < k < t.len() && parent(k) != i implies #[trigger] fits(t, k) by {
            if k != i {
                assert(fits(s, k));
            }
        }
        assert forall|k: int| 0 < k < t.len() && parent(k) == i && i > 0 implies #[trigger] fits_grandparent(
            t,
            k,
        ) by {
            assert(fits(s, k));
            assert(fits(s, i));
            lemma_chain(s[k], s[i], s[parent(i)]);
        }
        lemma_sift_down_restores(t, i);
    } else {
        let p = parent(i);
        lemma_asymmetric(s[last], s[p]);
        assert(fits(s, i));
        if left(i) < t.len() {
            assert(fits(s, left(i)));
            lemma_chain(s[left(i)], s[i], s[p]);
            lemma_chain(s[left(i)], s[p], s[last]);
        }
        if right(i) < t.len() {
            assert(fits(s, right(i)));
            lemma_chain(s[right(i)], s[i], s[p]);
            lemma_chain(s[right(i)], s[p], s[last]);
        }
        assert(largest(t, i) == i);
        assert(removed_at(s, i) == t);
        assert(!fits(t, i));
    }
}

/// Taking the root out of a heap-ordered sequence leaves it heap-ordered.
pub proof fn lemma_pop_keeps_order<T: PartialOrd>(s: Seq<T>)
    requires
        strict_weak_order::<T>(),
        heap_ordered(s),
        s.len() > 0,
    ensures
        heap_ordered(removed_at(s, 0)),
{
    lemma_removal_order(s, 0);
}

/// A heap-ordered sequence is heap-ordered below the root.
pub proof fn lemma_heap_is_ordered_below_root<T: PartialOrd>(s: Seq<T>)
    requires
        heap_ordered(s),
    ensures
        ordered_but_below(s, 0),
{
}

/// A write to the root keeps a sequence heap-ordered below the root.
pub proof fn lemma_write_to_root<T: PartialOrd>(s: Seq<T>, value: T)
    requires
        ordered_but_below(s, 0),
        s.len() > 0,
    ensures
        ordered_but_below(s.update(0, value), 0),
{
    let t = s.update(0, value);
    assert forall|k: int| 0 < k < t.len() && parent(k) != 0 implies #[trigger] fits(t, k) by {
        assert(fits(s, k));
    }
}

/// After a write to the root of a heap-ordered sequence, whatever was written,
/// the repair leaves the sequence heap-ordered with the same elements, so no
/// element exceeds the new root.
pub proof fn lemma_repair_after_write<T: PartialOrd>(s: Seq<T>, value: T)
    requires
        strict_weak_order::<T>(),
        heap_ordered(s),
        s.len() > 0,
    ensures
        heap_ordered(repaired(s.update(0, value))),
        repaired(s.update(0, value)).to_multiset() == s.update(0, value).to_multiset(),
        forall|k: int|
            0 <= k < s.len() ==> !exceeds(
                #[trigger] repaired(s.update(0, value))[k],
                repaired(s.update(0, value))[0],
            ),
{
    let t = s.update(0, value);
    lemma_heap_is_ordered_below_root(s);
    lemma_write_to_root(s, value);
    lemma_sift_down_restores(t, 0);
    lemma_sift_down_keeps_elements(t, 0);
    lemma_root_is_greatest(repaired(t));
}

/// The values that the first `n` pops of `s` return, in the order they come.
pub open spec fn pops<T: PartialOrd>(s: Seq<T>, n: nat) -> Seq<T>
    decreases n,
{
    if n == 0 || s.len() == 0 {
        Seq::empty()
    } else {
        seq![s[0]] + pops(removed_at(s, 0), (n - 1) as nat)
    }
}

/// Pops go on until `n` are done or nothing is left.
pub proof fn lemma_pops_len<T: PartialOrd>(s: Seq<T>, n: nat)
    ensures
        pops(s, n).len() == if n <= s.len() {
            n
        } else {
            s.len()
        },
    decreases n,
{
    if n > 0 && s.len() > 0 {
        lemma_removal_takes_one(s, 0);
        lemma_pops_len(removed_at(s, 0), (n - 1) as nat);
    }
}

/// Every value popped was an element.
pub proof fn lemma_pops_are_elements<T: PartialOrd>(s: Seq<T>, n: nat, i: int)
    requires
        0 <= i < pops(s, n).len(),
    ensures
        s.contains(pops(s, n)[i]),
    decreases n,
{
    broadcast use vstd::seq_lib::group_to_multiset_ensures;

    if i > 0 {
        let rest = removed_at(s, 0);
        lemma_removal_takes_one(s, 0);
        lemma_pops_are_elements(rest, (n - 1) as nat, i - 1);
        assert(rest.to_multiset().count(pops(s, n)[i]) > 0);
    }
}

/// Popping a heap-ordered sequence again and again never yields a value that
/// exceeds one popped before it.
pub proof fn lemma_pops_never_increase<T: PartialOrd>(s: Seq<T>, n: nat, i: int, j: int)
    requires
        strict_weak_order::<T>(),
        heap_ordered(s),
        0 <= i <= j < pops(s, n).len(),
    ensures
        !exceeds(pops(s, n)[j], pops(s, n)[i]),
    decreases n,
{
    if i == 0 {
        lemma_pops_are_elements(s, n, j);
        let k = choose|k: int| 0 <= k < s.len() && s[k] == pops(s, n)[j];
        lemma_root_on_top(s, k);
    } else {
        lemma_pop_keeps_order(s);
        lemma_pops_never_increase(removed_at(s, 0), (n - 1) as nat, i - 1, j - 1);
    }
}

} // verus!
