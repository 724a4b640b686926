//! The heap after any sequence of operations.

use crate::laws::{
    lemma_pop_keeps_order, lemma_push_adds_one, lemma_push_keeps_order, lemma_removal_order,
    lemma_removal_takes_one, lemma_repair_after_write, replacement_fits,
};
use crate::layout::heap_ordered;
use crate::model::{deleted, first_match, lemma_first_match, popped, pushed, repaired};
use crate::order::strict_weak_order;
use crate::repair::lemma_sift_down_keeps_elements;
use vstd::prelude::*;

verus! {

/// One operation on a heap.
pub enum Step<T> {
    /// `push` of the value.
    Push(T),
    /// `pop`.
    Pop,
    /// `delete` of the item.
    Delete(T),
    /// `peek_mut`, a write of the value through the handle, and its release.
    Rewrite(T),
}

/// Whether the step takes an element out of `s`: a pop of a heap that is not
/// empty, or a delete that finds a match.
pub open spec fn takes<T: PartialOrd>(s: Seq<T>, step: Step<T>) -> bool {
    match step {
        Step::Pop => s.len() > 0,
        Step::Delete(item) => first_match(s, item) < s.len(),
        _ => false,
    }
}

/// What the step makes of `s`.
pub open spec fn applied<T: PartialOrd>(s: Seq<T>, step: Step<T>) -> Seq<T> {
    match step {
        Step::Push(value) => pushed(s, value),
        Step::Pop => popped(s),
        Step::Delete(item) => deleted(s, item),
        Step::Rewrite(value) => if s.len() > 0 {
            repaired(s.update(0, value))
        } else {
            s
        },
    }
}

/// What the steps, taken in turn, make of the empty heap.
pub open spec fn replayed<T: PartialOrd>(steps: Seq<Step<T>>) -> Seq<T>
    decreases steps.len(),
{
    if steps.len() == 0 {
        Seq::empty()
    } else {
        applied(replayed(steps.drop_last()), steps.last())
    }
}

/// How many of the steps are pushes.
pub open spec fn pushes<T>(steps: Seq<Step<T>>) -> nat
    decreases steps.len(),
{
    if steps.len() == 0 {
        0
    } else if steps.last() is Push {
        pushes(steps.drop_last()) + 1
    } else {
        pushes(steps.drop_last())
    }
}

/// How many of the steps take an element out of the heap they find.
pub open spec fn removals<T: PartialOrd>(steps: Seq<Step<T>>) -> nat
    decreases steps.len(),
{
    if steps.len() == 0 {
        0
    } else if takes(replayed(steps.drop_last()), steps.last()) {
        removals(steps.drop_last()) + 1
    } else {
        removals(steps.drop_last())
    }
}

/// Whether the step leaves a heap a heap. A delete puts the last element in
/// the place of the one it takes and never moves it up, so it must not exceed
/// the parent of that place.
pub open spec fn keeps_order<T: PartialOrd>(s: Seq<T>, step: Step<T>) -> bool {
    match step {
        Step::Delete(item) => first_match(s, item) < s.len() ==> replacement_fits(
            s,
            first_match(s, item),
        ),
        _ => true,
    }
}

/// Whether each of the steps leaves the heap that it finds a heap.
pub open spec fn all_keep_order<T: PartialOrd>(steps: Seq<Step<T>>) -> bool
    decreases steps.len(),
{
    steps.len() > 0 ==> all_keep_order(steps.drop_last()) && keeps_order(
        replayed(steps.drop_last()),
        steps.last(),
    )
}

/// The length of the heap is the number of pushes less the number of pops and
/// deletes that took an element.
pub proof fn lemma_len_counts_steps<T: PartialOrd>(steps: Seq<Step<T>>)
    ensures
        replayed(steps).len() == pushes(steps) - removals(steps),
    decreases steps.len(),
{
    if steps.len() > 0 {
        let before = replayed(steps.drop_last());
        lemma_len_counts_steps(steps.drop_last());
        match steps.last() {
            Step::Push(value) => {
                lemma_push_adds_one(before, value);
            },
            Step::Pop => {
                if before.len() > 0 {
                    lemma_removal_takes_one(before, 0);
                }
            },
            Step::Delete(item) => {
                lemma_first_match(before, item);
                if first_match(before, item) < before.len() {
                    lemma_removal_takes_one(before, first_match(before, item));
                }
            },
            Step::Rewrite(value) => {
                lemma_sift_down_keeps_elements(before.update(0, value), 0);
            },
        }
    }
}

/// After any sequence of steps the heap property holds, if each delete among
/// them left it standing.
pub proof fn lemma_steps_keep_order<T: PartialOrd>(steps: Seq<Step<T>>)
    requires
        strict_weak_order::<T>(),
        all_keep_order(steps),
    ensures
        heap_ordered(replayed(steps)),
    decreases steps.len(),
{
    if steps.len() > 0 {
        let before = replayed(steps.drop_last());
        lemma_steps_keep_order(steps.drop_last());
        match steps.last() {
            Step::Push(value) => {
                lemma_push_keeps_order(before, value);
            },
            Step::Pop => {
                if before.len() > 0 {
                    lemma_pop_keeps_order(before);
                }
            },
            Step::Delete(item) => {
                lemma_first_match(before, item);
                if first_match(before, item) < before.len() {
                    lemma_removal_order(before, first_match(before, item));
                }
            },
            Step::Rewrite(value) => {
                if before.len() > 0 {
                    lemma_repair_after_write(before, value);
                }
            },
        }
    }
}

/// A delete that does not leave the heap property standing is the only step
/// after which it fails.
pub proof fn lemma_only_delete_breaks_order<T: PartialOrd>(steps: Seq<Step<T>>)
    requires
        strict_weak_order::<T>(),
        steps.len() > 0,
        all_keep_order(steps.drop_last()),
    ensures
        heap_ordered(replayed(steps)) <==> keeps_order(
            replayed(steps.drop_last()),
            steps.last(),
        ),
{
    let before = replayed(steps.drop_last());
    lemma_steps_keep_order(steps.drop_last());
    if keeps_order(before, steps.last()) {
        lemma_steps_keep_order(steps);
    } else {
        match steps.last() {
            Step::Delete(item) => {
                lemma_first_match(before, item);
                lemma_removal_order(before, first_match(before, item));
            },
            _ => {},
        }
    }
}

} // verus!
