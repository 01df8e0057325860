# zrx

Verified building blocks for identifier filters and change-tracking stores,
written in Verus.

- `src/group.rs`: condition groups (operators over term matches) and their
  post-order rewrite with an explicit work stack, proved to apply the
  function bottom-up to every node.
- `src/comparator.rs`, `src/compare.rs`: comparators (ascending, descending,
  any comparison function) and values paired with their comparison function.
- `src/changed.rs`, `src/tracking.rs` (with `tracking/changes.rs`): stores
  that record which keys changed, over `ahash` hash tables.
- `src/store.rs`: the table operations the stores share, and the laws of
  change tracking.
- `src/table.rs`: the calls into the `ahash` hash tables, with their trusted
  contracts.

Not included: the identifier filter and its match iterator. They rest on
the condition, matcher and expression types, which are defined elsewhere.
Stores are keyed by `u64` and always backed by the `ahash` table, so the
operations that need other backing stores (ranges, indexing, custom
comparators) are not provided.
