use std::cmp::Ordering;

use zrx::comparator::{from_ordering, to_ordering, Ascending, Comparator, Descending, Order};
use zrx::compare::Compare;

#[test]
fn ascending_orders_smaller_first() {
    assert_eq!(Ascending.cmp(&1u64, &2u64), Order::Less);
    assert_eq!(Ascending.cmp(&2u64, &1u64), Order::Greater);
    assert_eq!(Ascending.cmp(&7i32, &7i32), Order::Equal);
}

#[test]
fn descending_orders_larger_first() {
    assert_eq!(Descending.cmp(&1u64, &2u64), Order::Greater);
    assert_eq!(Descending.cmp(&2u64, &1u64), Order::Less);
    assert_eq!(Descending.cmp(&"a", &"a"), Order::Equal);
}

#[test]
fn function_is_a_comparator() {
    let by_length = |a: &&str, b: &&str| from_ordering(a.len().cmp(&b.len()));
    assert_eq!(by_length.cmp(&"ab", &"abc"), Order::Less);
    assert_eq!(by_length.cmp(&"abc", &"xyz"), Order::Equal);
}

#[test]
fn orderings_convert_both_ways() {
    for o in [Ordering::Less, Ordering::Equal, Ordering::Greater] {
        assert_eq!(to_ordering(from_ordering(o)), o);
    }
    assert_eq!(from_ordering(Ordering::Greater), Order::Greater);
    assert_eq!(to_ordering(Order::Less), Ordering::Less);
}

#[test]
fn compare_equal_by_value() {
    let f = |x: &i32, y: &i32| from_ordering(y.cmp(x));
    let a = Compare(42, f);
    let b = Compare(42, f);
    assert!(a == b);
    let c = Compare(84, f);
    assert!(a != c);
}

#[test]
fn compare_orders_by_function() {
    let f = |x: &i32, y: &i32| from_ordering(y.cmp(x));
    let a = Compare(42, f);
    let b = Compare(84, f);
    assert_eq!(a.cmp(&b), Ordering::Greater);
    assert_eq!(a.partial_cmp(&b), Some(Ordering::Greater));
    assert_eq!(b.cmp(&a), Ordering::Less);
    assert_eq!(a.cmp(&a), Ordering::Equal);
}

#[test]
fn compare_dereferences_to_value() {
    let a = Compare(42, |x: &i32, y: &i32| from_ordering(x.cmp(y)));
    assert_eq!(*a, 42);
}

#[test]
fn descending_is_reversed_ascending() {
    let values = [0u64, 3, 3, 9, u64::MAX];
    for a in values {
        for b in values {
            let up = to_ordering(Ascending.cmp(&a, &b));
            let down = to_ordering(Descending.cmp(&a, &b));
            assert_eq!(down, up.reverse());
            assert_eq!(down, b.cmp(&a));
        }
    }
}
