//! The comparisons the heap makes between its elements, as specification
//! functions, and the laws an element type's order may satisfy.

use core::cmp::Ordering;
use vstd::prelude::*;
use vstd::std_specs::cmp::{OrdSpec, PartialEqSpec, PartialOrdSpec};

verus! {

/// `a` is strictly greater than `b`: what `a > b` computes.
pub open spec fn exceeds<T: PartialOrd>(a: T, b: T) -> bool {
    a.partial_cmp_spec(&b) == Some(Ordering::Greater)
}

/// `a` equals `b`: what `a == b` computes.
pub open spec fn same<T: PartialOrd>(a: T, b: T) -> bool {
    a.eq_spec(&b)
}

/// The executable `>` of `T` computes [`exceeds`].
pub open spec fn obeys_order<T: PartialOrd>() -> bool {
    T::obeys_partial_cmp_spec()
}

/// The executable `==` of `T` computes [`same`].
pub open spec fn obeys_equality<T: PartialOrd>() -> bool {
    T::obeys_eq_spec()
}

/// `exceeds` never holds in both directions.
pub open spec fn asymmetric<T: PartialOrd>() -> bool {
    forall|a: T, b: T| #[trigger] exceeds(a, b) ==> !exceeds(b, a)
}

/// "Does not exceed" is transitive.
pub open spec fn negatively_transitive<T: PartialOrd>() -> bool {
    forall|a: T, b: T, c: T|
        !#[trigger] exceeds(a, b) && !#[trigger] exceeds(b, c) ==> !exceeds(a, c)
}

/// `exceeds` is a strict weak order on `T`: asymmetric, and with a transitive
/// "does not exceed". Every total order is one; so is an order by a key under
/// which distinct elements tie.
#[verifier::opaque]
pub open spec fn strict_weak_order<T: PartialOrd>() -> bool {
    asymmetric::<T>() && negatively_transitive::<T>()
}

/// Nothing exceeds itself.
pub proof fn lemma_irreflexive<T: PartialOrd>(a: T)
    requires
        strict_weak_order::<T>(),
    ensures
        !exceeds(a, a),
{
    reveal(strict_weak_order);
    if exceeds(a, a) {
        assert(!exceeds(a, a));
    }
}

/// If `a` exceeds `b`, then `b` does not exceed `a`.
pub proof fn lemma_asymmetric<T: PartialOrd>(a: T, b: T)
    requires
        strict_weak_order::<T>(),
        exceeds(a, b),
    ensures
        !exceeds(b, a),
{
    reveal(strict_weak_order);
}

/// If `a` does not exceed `b` and `b` does not exceed `c`, then `a` does not
/// exceed `c`.
pub proof fn lemma_chain<T: PartialOrd>(a: T, b: T, c: T)
    requires
        strict_weak_order::<T>(),
        !exceeds(a, b),
        !exceeds(b, c),
    ensures
        !exceeds(a, c),
{
    reveal(strict_weak_order);
}

/// If `a` exceeds `b` and `b` exceeds `c`, then `a` exceeds `c`.
pub proof fn lemma_transitive<T: PartialOrd>(a: T, b: T, c: T)
    requires
        strict_weak_order::<T>(),
        exceeds(a, b),
        exceeds(b, c),
    ensures
        exceeds(a, c),
{
    lemma_asymmetric(b, c);
    if !exceeds(a, c) {
        lemma_chain(a, c, b);
    }
}

/// A total order that keeps the laws vstd states for `Ord` is a strict weak
/// order, and its `>` and `==` compute [`exceeds`] and [`same`]. vstd proves
/// those laws of the integer types, and of tuples, options and references
/// built from them.
pub proof fn lemma_total_order_is_strict_weak<T: Ord>()
    requires
        vstd::laws_cmp::obeys_cmp::<T>(),
    ensures
        obeys_order::<T>(),
        obeys_equality::<T>(),
        strict_weak_order::<T>(),
{
    reveal(strict_weak_order);
    reveal(vstd::laws_cmp::obeys_cmp_partial_ord);
    reveal(vstd::laws_cmp::obeys_cmp_ord);
    reveal(vstd::laws_cmp::obeys_partial_cmp_spec_properties);
    reveal(vstd::laws_eq::obeys_eq_spec_properties);
    assert forall|a: T, b: T| #[trigger] exceeds(a, b) implies !exceeds(b, a) by {
        assert(b.partial_cmp_spec(&a) == Some(Ordering::Less));
    }
    assert forall|a: T, b: T, c: T|
        !#[trigger] exceeds(a, b) && !#[trigger] exceeds(b, c) implies !exceeds(a, c) by {
        // The order is total, so each pair compares as less or as equal.
        assert(a.partial_cmp_spec(&b) == Some(a.cmp_spec(&b)));
        assert(b.partial_cmp_spec(&c) == Some(b.cmp_spec(&c)));
        if exceeds(a, c) {
            assert(c.partial_cmp_spec(&a) == Some(Ordering::Less));
            if a.partial_cmp_spec(&b) == Some(Ordering::Less) {
                // c < a < b, against b <= c.
                assert(c.partial_cmp_spec(&b) == Some(Ordering::Less));
            } else if b.partial_cmp_spec(&c) == Some(Ordering::Less) {
                // b < c < a, against a == b.
                assert(b.partial_cmp_spec(&a) == Some(Ordering::Less));
                assert(b.eq_spec(&a));
            } else {
                // a == b == c, against c < a.
                assert(a.eq_spec(&c));
            }
        }
    }
}

} // verus!
