//! Iteration over the changes recorded by a tracking store.
use vstd::prelude::*;

use crate::store::deref_value;
use crate::table::{lookup, map_get, KeyMap};

verus! {

/// Iterator over the changes of a tracking store.
///
/// It yields each changed key once, with the value the store holds for it,
/// or `None` if the key was removed.
pub struct Changes<'a, V> {
    /// Underlying store.
    store: &'a KeyMap<V>,
    /// Keys of changed items.
    changed: Vec<u64>,
    /// Number of keys yielded so far.
    index: usize,
}

impl<'a, V> Changes<'a, V> {
    #[verifier::type_invariant]
    spec fn inv(self) -> bool {
        self.index <= self.changed@.len()
    }

    /// The keys that are still to be yielded, in order.
    pub closed spec fn remaining(&self) -> Seq<u64> {
        self.changed@.subrange(self.index as int, self.changed@.len() as int)
    }

    /// The items of the store that the changes are read from.
    pub closed spec fn items(&self) -> Map<u64, V> {
        self.store@
    }

    /// Creates an iterator that yields the given keys of the store in order.
    pub(crate) fn over(store: &'a KeyMap<V>, changed: Vec<u64>) -> (changes: Self)
        ensures
            changes.items() == store@,
            changes.remaining() == changed@,
    {
        let changes = Changes { store, changed, index: 0 };
        proof {
            assert(changes.remaining() =~= changed@);
        }
        changes
    }

    /// Returns the next changed item.
    pub fn next(&mut self) -> (next: Option<(u64, Option<&'a V>)>)
        ensures
            final(self).items() == old(self).items(),
            match next {
                None => old(self).remaining().len() == 0 && final(self).remaining() == old(
                    self,
                ).remaining(),
                Some(change) => {
                    &&& old(self).remaining().len() > 0
                    &&& change.0 == old(self).remaining()[0]
                    &&& deref_value(change.1) == lookup(old(self).items(), change.0)
                    &&& final(self).remaining() == old(self).remaining().drop_first()
                },
            },
    {
        proof {
            use_type_invariant(&*self);
        }
        if self.index < self.changed.len() {
            let key = self.changed[self.index];
            self.index = self.index + 1;
            let value = map_get(self.store, &key);
            proof {
                assert(self.remaining() =~= old(self).remaining().drop_first());
            }
            Some((key, value))
        } else {
            None
        }
    }

    /// Returns the bounds on the remaining length of the iterator.
    pub fn size_hint(&self) -> (bounds: (usize, Option<usize>))
        ensures
            bounds.0 == self.remaining().len(),
            bounds.1 == Some(bounds.0),
    {
        let n = self.len();
        (n, Some(n))
    }

    /// Returns the exact remaining length of the iterator.
    pub fn len(&self) -> (n: usize)
        ensures
            n == self.remaining().len(),
    {
        proof {
            use_type_invariant(self);
        }
        self.changed.len() - self.index
    }
}

} // verus!
