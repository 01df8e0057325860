//! Verified building blocks for identifier filters and change-tracking stores.
use vstd::prelude::*;

pub mod changed;
pub mod compare;
pub mod comparator;
pub mod group;
pub mod store;
pub mod table;
pub mod tracking;

verus! {

} // verus!
