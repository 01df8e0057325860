//! Values paired with the function that orders them.
use std::cmp::Ordering;
use vstd::prelude::*;
use vstd::std_specs::cmp::PartialEqSpec;

use crate::comparator::{order_of, to_ordering, Order};

verus! {

/// A value with a comparison function.
///
/// Two values are equal when their values are equal; they are ordered by
/// applying the comparison function to the values.
#[derive(Clone)]
pub struct Compare<T, F>(pub T, pub F);

impl<T, F> PartialEq for Compare<T, F> where T: Eq {
    /// Compares two values for equality.
    fn eq(&self, other: &Self) -> (r: bool) {
        self.0 == other.0
    }
}

impl<T, F> vstd::std_specs::cmp::PartialEqSpecImpl for Compare<T, F> where T: Eq {
    open spec fn obeys_eq_spec() -> bool {
        T::obeys_eq_spec()
    }

    open spec fn eq_spec(&self, other: &Self) -> bool {
        self.0.eq_spec(&other.0)
    }
}

impl<T, F> Eq for Compare<T, F> where T: Eq {

}

impl<T, F> Compare<T, F> where F: Fn(&T, &T) -> Order {
    /// Orders two values.
    pub fn partial_cmp(&self, other: &Self) -> (r: Option<Ordering>)
        requires
            call_requires(self.1, (&self.0, &other.0)),
        ensures
            r is Some && call_ensures(self.1, (&self.0, &other.0), order_of(r->0)),
    {
        Some(self.cmp(other))
    }

    /// Orders two values.
    pub fn cmp(&self, other: &Self) -> (r: Ordering)
        requires
            call_requires(self.1, (&self.0, &other.0)),
        ensures
            call_ensures(self.1, (&self.0, &other.0), order_of(r)),
    {
        to_ordering((self.1)(&self.0, &other.0))
    }
}

impl<T, F> std::ops::Deref for Compare<T, F> {
    type Target = T;

    /// Dereferences to the wrapped value.
    fn deref(&self) -> (r: &T)
        ensures
            r == &self.0,
    {
        &self.0
    }
}

} // verus!
