# sparse_set

A container based on a sparse set, written in Rust and verified with Verus. It stores values
next to each other, like an array, and hands out a key for each value. Keys stay stable when
other values are added, removed or moved, and the key of a removed value never finds a value
again.

## Layout

- `src/sparse_set.rs`: `SparseSet`, its representation invariant and its methods.
- `src/model.rs`: `SparseSetModel`, what a set is mathematically and what each operation does to
  it. The contracts of the methods are stated over it.
- `src/laws.rs`: what holds of single operations and of every set.
- `src/history.rs`: what holds of a set whatever is done with it over time.
- `src/iter.rs`: the iterators.
- `src/storage.rs`, `src/sparse_entry.rs`, `src/sparse_key.rs`: the arrays, the state of a slot
  in two words, and the keys.
- `tests/`: tests of the compiled library.
