//! Comparators: orderings of values that a store can be sorted by.
use std::cmp::Ordering;
use vstd::prelude::*;
use vstd::std_specs::cmp::{OrdSpec, PartialEqSpec, PartialOrdSpec};

verus! {

/// Outcome of comparing two values, with the variants of `Ordering`.
#[derive(Debug, Clone, Copy, PartialEq, Eq, Structural)]
pub enum Order {
    /// The first value is ordered before the second.
    Less,
    /// Both values are ordered alike.
    Equal,
    /// The first value is ordered after the second.
    Greater,
}

/// The `Order` that stands for an `Ordering`.
pub open spec fn order_of(o: Ordering) -> Order {
    match o {
        Ordering::Less => Order::Less,
        Ordering::Equal => Order::Equal,
        Ordering::Greater => Order::Greater,
    }
}

/// The order with the two values swapped.
pub open spec fn reversed(o: Order) -> Order {
    match o {
        Order::Less => Order::Greater,
        Order::Equal => Order::Equal,
        Order::Greater => Order::Less,
    }
}

/// Converts an `Ordering` into the `Order` with the same variant.
pub fn from_ordering(o: Ordering) -> (r: Order)
    ensures
        r == order_of(o),
{
    match o {
        Ordering::Less => Order::Less,
        Ordering::Equal => Order::Equal,
        Ordering::Greater => Order::Greater,
    }
}

/// Converts an `Order` into the `Ordering` with the same variant.
pub fn to_ordering(o: Order) -> (r: Ordering)
    ensures
        order_of(r) == o,
{
    match o {
        Order::Less => Ordering::Less,
        Order::Equal => Ordering::Equal,
        Order::Greater => Ordering::Greater,
    }
}

/// Comparator.
pub trait Comparator<T> {
    /// Whether `cmp` may be called on these two values.
    spec fn can_compare(&self, a: T, b: T) -> bool;

    /// Compares two values.
    fn cmp(&self, a: &T, b: &T) -> Order
        requires
            self.can_compare(*a, *b),
    ;
}

/// Comparator for ascending order.
#[derive(Clone, Debug, PartialEq, Eq)]
pub struct Ascending;

/// Comparator for descending order.
#[derive(Clone, Debug, PartialEq, Eq)]
pub struct Descending;

impl<T> Comparator<T> for Ascending where T: Ord {
    open spec fn can_compare(&self, a: T, b: T) -> bool {
        true
    }

    /// Compares two values in ascending order.
    fn cmp(&self, a: &T, b: &T) -> (r: Order)
        ensures
            T::obeys_cmp_spec() ==> r == order_of(a.cmp_spec(b)),
    {
        from_ordering(a.cmp(b))
    }
}

impl<T> Comparator<T> for Descending where T: Ord {
    open spec fn can_compare(&self, a: T, b: T) -> bool {
        true
    }

    /// Compares two values in descending order.
    fn cmp(&self, a: &T, b: &T) -> (r: Order)
        ensures
            T::obeys_cmp_spec() ==> r == order_of(b.cmp_spec(a)),
    {
        from_ordering(b.cmp(a))
    }
}

impl<T, F> Comparator<T> for F where F: Fn(&T, &T) -> Order {
    open spec fn can_compare(&self, a: T, b: T) -> bool {
        call_requires(*self, (&a, &b))
    }

    /// Compares two values with the function itself.
    fn cmp(&self, a: &T, b: &T) -> (r: Order)
        ensures
            call_ensures(*self, (a, b), r),
    {
        self(a, b)
    }
}

/// Descending order is the reverse of ascending order: for a type whose
/// ordering follows the laws of a total order, comparing the swapped pair
/// gives the reversed outcome.
pub proof fn lemma_descending_reverses_ascending<T: Ord>(a: T, b: T)
    requires
        vstd::laws_cmp::obeys_cmp::<T>(),
    ensures
        order_of(b.cmp_spec(&a)) == reversed(order_of(a.cmp_spec(&b))),
{
    reveal(vstd::laws_cmp::obeys_cmp_ord);
    reveal(vstd::laws_cmp::obeys_cmp_partial_ord);
    reveal(vstd::laws_cmp::obeys_partial_cmp_spec_properties);
    reveal(vstd::laws_eq::obeys_eq_spec_properties);
    assert(a.partial_cmp_spec(&b) == Some(a.cmp_spec(&b)));
    assert(b.partial_cmp_spec(&a) == Some(b.cmp_spec(&a)));
}

} // verus!
