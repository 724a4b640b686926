//! The heap: a vector kept in heap order, and the handle through which its
//! root may be rewritten.

use crate::laws::{
    lemma_pop_keeps_order, lemma_push_keeps_order, lemma_removal_order, lemma_write_to_root,
    replacement_fits,
};
use crate::layout::{heap_ordered, largest, sift_down, sift_up, swapped};
use crate::model::{deleted, first_match, found, lemma_first_match_is, popped, pushed, released};
use crate::order::{exceeds, obeys_equality, obeys_order, same, strict_weak_order};
use crate::repair::{
    lemma_root_is_greatest, lemma_sift_down_restores, lemma_swap_out_takes_one,
    lemma_swapped_keeps_elements, ordered_but_below,
};
use vstd::prelude::*;
use vstd::std_specs::iter::IteratorSpec;

verus! {

/// `<[T]>::swap` exchanges the elements at `a` and `b` and leaves the others
/// where they are. It panics on an index outside the slice, so both must be
/// inside.
pub assume_specification<E>[ <[E]>::swap ](slice: &mut [E], a: usize, b: usize)
    requires
        a < old(slice)@.len(),
        b < old(slice)@.len(),
    ensures
        final(slice)@ == old(slice)@.update(a as int, old(slice)@[b as int]).update(
            b as int,
            old(slice)@[a as int],
        ),
;

/// A max-heap in a vector: the children of the element at index `i` are at
/// `2i + 1` and `2i + 2`.
///
/// Its view is the vector's content in storage order. Every operation says
/// what it makes of that sequence whenever `>` on `T` computes [`exceeds`],
/// and that it keeps the heap property whenever that order is a strict weak
/// order. The elements themselves are kept whatever `>` does.
pub struct BinaryHeap<T: PartialOrd> {
    items: Vec<T>,
}

/// Exclusive access to the root of a heap. It notes whether write access was
/// handed out, and [`release`](SmartHeapMutatingPointer::release) repairs the
/// heap if it was.
///
/// Nothing happens when a handle goes out of scope: one that was written
/// through and is dropped without `release` leaves the heap as written,
/// unrepaired.
pub struct SmartHeapMutatingPointer<'a, T: PartialOrd> {
    heap: &'a mut BinaryHeap<T>,
    needs_sifting: bool,
}

impl<T: PartialOrd> View for BinaryHeap<T> {
    type V = Seq<T>;

    closed spec fn view(&self) -> Seq<T> {
        self.items@
    }
}

impl<T: PartialOrd> BinaryHeap<T> {
    /// The heap property holds of the content.
    pub open spec fn is_heap(&self) -> bool {
        heap_ordered(self@)
    }

    /// The empty heap.
    pub fn new() -> (heap: Self)
        ensures
            heap@ == Seq::<T>::empty(),
            heap.is_heap(),
    {
        BinaryHeap { items: Vec::new() }
    }

    /// The elements in storage order, which is heap order and not sorted
    /// order.
    pub fn heap(&self) -> (elements: impl core::iter::Iterator<Item = &T>)
        ensures
            elements.obeys_prophetic_iter_laws(),
            elements.remaining() == self@.as_ref(),
    {
        self.items.iter()
    }

    /// Adds `value`: appends it and moves it up.
    pub fn push(&mut self, value: T)
        ensures
            final(self)@.len() == old(self)@.len() + 1,
            final(self)@.to_multiset() == old(self)@.to_multiset().insert(value),
            obeys_order::<T>() ==> final(self)@ == pushed(old(self)@, value),
            obeys_order::<T>() && strict_weak_order::<T>() && old(self).is_heap()
                ==> final(self).is_heap(),
    {
        proof {
            vstd::seq_lib::to_multiset_build(self@, value);
            if strict_weak_order::<T>() && self.is_heap() {
                lemma_push_keeps_order(self@, value);
            }
        }
        self.items.push(value);
        self.sift_up();
    }

    /// The root, if there is one. In a heap no element exceeds it.
    pub fn peek(&self) -> (root: Option<&T>)
        ensures
            root == (if self@.len() > 0 {
                Some(&self@[0])
            } else {
                None
            }),
            strict_weak_order::<T>() && self.is_heap() ==> forall|i: int|
                0 <= i < self@.len() ==> !exceeds(#[trigger] self@[i], self@[0]),
    {
        proof {
            if strict_weak_order::<T>() && self.is_heap() {
                lemma_root_is_greatest(self@);
            }
        }
        self.items.get(0)
    }

    /// A handle on the root, if there is one. The handle starts clean, and the
    /// heap is what the handle leaves behind.
    pub fn peek_mut(&mut self) -> (handle: Option<SmartHeapMutatingPointer<'_, T>>)
        ensures
            old(self)@.len() == 0 ==> handle is None && final(self)@ == old(self)@,
            old(self)@.len() > 0 ==> handle is Some && handle.unwrap().contents() == old(self)@
                && !handle.unwrap().is_dirty() && final(self)@ == final(handle.unwrap().target())@,
            old(self)@.len() > 0 && old(self).is_heap() ==> ordered_but_below(
                handle.unwrap().contents(),
                0,
            ),
    {
        if self.is_empty() {
            None
        } else {
            Some(SmartHeapMutatingPointer { heap: self, needs_sifting: false })
        }
    }

    /// Takes the root out: the last element takes its place and is moved
    /// down. In a heap no element exceeds the one returned.
    pub fn pop(&mut self) -> (largest: Option<T>)
        ensures
            largest == (if old(self)@.len() > 0 {
                Some(old(self)@[0])
            } else {
                None
            }),
            old(self)@.len() == 0 ==> final(self)@ == old(self)@,
            old(self)@.len() > 0 ==> final(self)@.len() == old(self)@.len() - 1
                && final(self)@.to_multiset() == old(self)@.to_multiset().remove(old(self)@[0]),
            obeys_order::<T>() ==> final(self)@ == popped(old(self)@),
            obeys_order::<T>() && strict_weak_order::<T>() && old(self).is_heap()
                ==> final(self).is_heap(),
            strict_weak_order::<T>() && old(self).is_heap() ==> forall|i: int|
                0 <= i < old(self)@.len() ==> !exceeds(#[trigger] old(self)@[i], old(self)@[0]),
    {
        let len = self.items.len();
        if len == 0 {
            return None;
        }
        proof {
            lemma_swap_out_takes_one(self@, 0);
            if strict_weak_order::<T>() && self.is_heap() {
                lemma_root_is_greatest(self@);
                lemma_pop_keeps_order(self@);
            }
        }
        self.items.swap(0, len - 1);
        let largest = self.items.pop();
        assert(self.items@ =~= swapped(old(self)@, 0, len - 1).drop_last());
        self.sift_down(0);
        largest
    }

    /// Takes out the first element, in storage order, that `item` equals: the
    /// last element takes its place and is moved down.
    ///
    /// The replacement is never moved up, so a heap stays a heap only where
    /// the replacement does not exceed the parent of the place it takes.
    pub fn delete(&mut self, item: T) -> (removed: Option<T>)
        ensures
            removed is None ==> final(self)@ == old(self)@,
            removed is Some ==> old(self)@.contains(removed.unwrap())
                && final(self)@.len() == old(self)@.len() - 1
                && final(self)@.to_multiset() == old(self)@.to_multiset().remove(removed.unwrap()),
            obeys_equality::<T>() ==> removed == found(old(self)@, item),
            obeys_equality::<T>() && obeys_order::<T>() ==> final(self)@ == deleted(
                old(self)@,
                item,
            ),
            obeys_equality::<T>() && obeys_order::<T>() && strict_weak_order::<T>()
                && old(self).is_heap() && removed is Some ==> (final(self).is_heap()
                <==> replacement_fits(old(self)@, first_match(old(self)@, item))),
    {
        match self.position(&item) {
            None => None,
            Some(index) => {
                proof {
                    lemma_swap_out_takes_one(self@, index as int);
                    if strict_weak_order::<T>() && self.is_heap() {
                        lemma_removal_order(self@, index as int);
                    }
                }
                let len = self.items.len();
                self.items.swap(index, len - 1);
                let removed = self.items.pop();
                assert(self.items@ =~= swapped(old(self)@, index as int, len - 1).drop_last());
                self.sift_down(index);
                removed
            },
        }
    }

    /// Removes every element.
    pub fn clear(&mut self)
        ensures
            final(self)@ == Seq::<T>::empty(),
            final(self).is_heap(),
    {
        self.items.clear()
    }

    /// The number of elements.
    pub fn len(&self) -> (len: usize)
        ensures
            len == self@.len(),
    {
        self.items.len()
    }

    /// Whether there is no element.
    pub fn is_empty(&self) -> (empty: bool)
        ensures
            empty <==> self@.len() == 0,
    {
        self.len() == 0
    }

    /// Index of the first element that `item` equals.
    fn position(&self, item: &T) -> (found: Option<usize>)
        ensures
            found is Some ==> found.unwrap() < self@.len(),
            obeys_equality::<T>() ==> first_match(self@, *item) == match found {
                Some(index) => index as int,
                None => self@.len() as int,
            },
    {
        let len = self.items.len();
        let mut index: usize = 0;
        while index < len
            invariant
                len == self.items@.len(),
                index <= len,
                obeys_equality::<T>() ==> forall|k: int|
                    0 <= k < index ==> !same(*item, #[trigger] self.items@[k]),
            decreases len - index,
        {
            if *item == self.items[index] {
                proof {
                    if obeys_equality::<T>() {
                        lemma_first_match_is(self@, *item, index as int);
                    }
                }
                return Some(index);
            }
            index += 1;
        }
        proof {
            if obeys_equality::<T>() {
                lemma_first_match_is(self@, *item, len as int);
            }
        }
        None
    }

    /// Moves the last element up until it no longer exceeds its parent.
    fn sift_up(&mut self)
        requires
            old(self)@.len() > 0,
        ensures
            final(self)@.len() == old(self)@.len(),
            final(self)@.to_multiset() == old(self)@.to_multiset(),
            obeys_order::<T>() ==> final(self)@ == sift_up(old(self)@, old(self)@.len() - 1),
    {
        let mut index_of_swimmer = self.items.len() - 1;
        while index_of_swimmer > 0
            invariant
                index_of_swimmer < self.items@.len(),
                self.items@.len() == old(self)@.len(),
                self.items@.to_multiset() == old(self)@.to_multiset(),
                obeys_order::<T>() ==> sift_up(self.items@, index_of_swimmer as int) == sift_up(
                    old(self)@,
                    old(self)@.len() - 1,
                ),
            ensures
                self.items@.len() == old(self)@.len(),
                self.items@.to_multiset() == old(self)@.to_multiset(),
                obeys_order::<T>() ==> self.items@ == sift_up(old(self)@, old(self)@.len() - 1),
            decreases index_of_swimmer,
        {
            let index_of_parent = (index_of_swimmer - 1) / 2;
            if self.items[index_of_swimmer] > self.items[index_of_parent] {
                let ghost before = self.items@;
                self.items.swap(index_of_parent, index_of_swimmer);
                proof {
                    lemma_swapped_keeps_elements(
                        before,
                        index_of_swimmer as int,
                        index_of_parent as int,
                    );
                    assert(self.items@ =~= swapped(
                        before,
                        index_of_swimmer as int,
                        index_of_parent as int,
                    ));
                }
                index_of_swimmer = index_of_parent;
            } else {
                break;
            }
        }
    }

    /// Moves the element at `start_index` down until no child exceeds it.
    fn sift_down(&mut self, start_index: usize)
        ensures
            final(self)@.len() == old(self)@.len(),
            final(self)@.to_multiset() == old(self)@.to_multiset(),
            obeys_order::<T>() ==> final(self)@ == sift_down(old(self)@, start_index as int),
    {
        let len = self.items.len();
        let mut index = start_index;
        // An element has a left child where `2 * index + 1 < len`, which is
        // where `index < len / 2`.
        while index < len / 2
            invariant
                self.items@.len() == len,
                self.items@.to_multiset() == old(self)@.to_multiset(),
                obeys_order::<T>() ==> sift_down(self.items@, index as int) == sift_down(
                    old(self)@,
                    start_index as int,
                ),
            ensures
                self.items@.len() == len,
                self.items@.to_multiset() == old(self)@.to_multiset(),
                obeys_order::<T>() ==> self.items@ == sift_down(old(self)@, start_index as int),
            decreases len - index,
        {
            let left_child_index = 2 * index + 1;
            let right_child_index = left_child_index + 1;
            let mut largest_index = index;
            if self.items[left_child_index] > self.items[largest_index] {
                largest_index = left_child_index;
            }
            if right_child_index < len && self.items[right_child_index]
                > self.items[largest_index] {
                largest_index = right_child_index;
            }
            assert(obeys_order::<T>() ==> largest_index == largest(self.items@, index as int));
            if largest_index == index {
                break;
            }
            let ghost before = self.items@;
            self.items.swap(index, largest_index);
            proof {
                lemma_swapped_keeps_elements(before, index as int, largest_index as int);
                assert(self.items@ =~= swapped(before, index as int, largest_index as int));
            }
            index = largest_index;
        }
    }
}

impl<'a, T: PartialOrd> SmartHeapMutatingPointer<'a, T> {
    #[verifier::type_invariant]
    spec fn has_root(self) -> bool {
        self.heap@.len() > 0
    }

    /// The heap's content as it stands.
    pub closed spec fn contents(self) -> Seq<T> {
        self.heap@
    }

    /// Whether write access was handed out.
    pub closed spec fn is_dirty(self) -> bool {
        self.needs_sifting
    }

    /// The borrow of the heap that the handle holds.
    pub closed spec fn target(self) -> &'a mut BinaryHeap<T> {
        self.heap
    }

    /// Ends the access. If write access was handed out the heap is repaired,
    /// by moving the root down; if not, it is left untouched.
    pub fn release(self)
        ensures
            final(self.target())@.len() == self.contents().len(),
            final(self.target())@.to_multiset() == self.contents().to_multiset(),
            !self.is_dirty() ==> final(self.target())@ == self.contents(),
            obeys_order::<T>() ==> final(self.target())@ == released(
                self.contents(),
                self.is_dirty(),
            ),
            self.is_dirty() && obeys_order::<T>() && strict_weak_order::<T>()
                && ordered_but_below(self.contents(), 0) ==> heap_ordered(final(self.target())@),
    {
        proof {
            if strict_weak_order::<T>() && ordered_but_below(self.contents(), 0) {
                lemma_sift_down_restores(self.contents(), 0);
            }
        }
        let SmartHeapMutatingPointer { heap, needs_sifting } = self;
        if needs_sifting {
            heap.sift_down(0);
        }
    }
}

impl<T: PartialOrd> core::ops::Deref for SmartHeapMutatingPointer<'_, T> {
    type Target = T;

    /// Read access to the root. The handle stays as it is.
    fn deref(&self) -> (root: &T)
        ensures
            *root == self.contents()[0],
    {
        proof {
            use_type_invariant(self);
        }
        &self.heap.items[0]
    }
}

impl<T: PartialOrd> core::ops::DerefMut for SmartHeapMutatingPointer<'_, T> {
    /// Write access to the root. The handle is dirty from here on, whether or
    /// not anything is written.
    fn deref_mut(&mut self) -> (root: &mut T)
        ensures
            *root == old(self).contents()[0],
            final(self).contents() == old(self).contents().update(0, *final(root)),
            final(self).is_dirty(),
            *final(final(self).target()) == *final(old(self).target()),
            ordered_but_below(old(self).contents(), 0) ==> ordered_but_below(
                final(self).contents(),
                0,
            ),
    {
        proof {
            use_type_invariant(&*self);
        }
        self.needs_sifting = true;
        let root = &mut self.heap.items[0];
        proof {
            if ordered_but_below(old(self).contents(), 0) {
                lemma_write_to_root(old(self).contents(), *final(root));
            }
        }
        root
    }
}

} // verus!
