use vstd::prelude::*;
use crate::sparse_entry::{MAX_EPOCH, MAX_SPARSE_INDEX};
use crate::sparse_key::SparseKey;

verus! {

/// What a sparse set is: its values in order, each with its key, and the history of its slots.
#[verifier::ext_equal]
#[verifier::reject_recursive_types(T)]
pub struct SparseSetModel<T> {
    /// The keys and values, in the order of iteration.
    pub entries: Seq<(SparseKey, T)>,
    /// For each slot, how many values have been removed from it.
    pub removals: Seq<nat>,
    /// The slots that wait for a new value. The last one is used first.
    pub free: Seq<nat>,
}

impl<T> SparseSetModel<T> {
    /// The set without values and without slots.
    pub open spec fn empty() -> Self {
        SparseSetModel { entries: Seq::empty(), removals: Seq::empty(), free: Seq::empty() }
    }

    /// The keys, in the order of iteration.
    pub open spec fn keys(self) -> Seq<SparseKey> {
        Seq::new(self.entries.len(), |i: int| self.entries[i].0)
    }

    /// The values, in the order of iteration.
    pub open spec fn values(self) -> Seq<T> {
        Seq::new(self.entries.len(), |i: int| self.entries[i].1)
    }

    /// Whether the key is the key of a value.
    pub open spec fn contains(self, key: SparseKey) -> bool {
        exists|i: int| 0 <= i < self.entries.len() && #[trigger] self.entries[i].0 == key
    }

    /// Where the key stands in the order of iteration.
    pub open spec fn position(self, key: SparseKey) -> int {
        choose|i: int| 0 <= i < self.entries.len() && #[trigger] self.entries[i].0 == key
    }

    /// The value of the key.
    pub open spec fn value_of(self, key: SparseKey) -> T
        recommends
            self.contains(key),
    {
        self.entries[self.position(key)].1
    }

    /// What a look-up of the key finds.
    pub open spec fn lookup(self, key: SparseKey) -> Option<T> {
        if self.contains(key) {
            Some(self.value_of(key))
        } else {
            None
        }
    }

    /// Whether the set has the slot that the key names. It has for every key that it ever
    /// handed out.
    pub open spec fn has_slot(self, key: SparseKey) -> bool {
        key.slot() < self.removals.len()
    }

    /// Whether the slot holds a value.
    pub open spec fn live(self, slot: nat) -> bool {
        exists|i: int| 0 <= i < self.entries.len() && #[trigger] self.entries[i].0.slot() == slot
    }

    /// Whether the slot has gone through all its epochs and holds no value any more.
    pub open spec fn exhausted(self, slot: nat) -> bool {
        slot < self.removals.len() && self.removals[slot as int] == MAX_EPOCH + 1
    }

    /// Whether the key has been handed out.
    pub open spec fn issued(self, key: SparseKey) -> bool {
        self.has_slot(key) && (key.epoch() < self.removals[key.slot() as int] || self.contains(key))
    }

    /// The invariant of a sparse set.
    pub open spec fn valid(self) -> bool {
        &&& self.removals.len() <= MAX_SPARSE_INDEX
        // a value has the key of its slot and of the current epoch of that slot
        &&& forall|i: int|
            0 <= i < self.entries.len() ==> self.has_slot((#[trigger] self.entries[i]).0)
                && self.entries[i].0.epoch() == self.removals[self.entries[i].0.slot() as int]
        // no two values share a slot
        &&& forall|i: int, j: int|
            0 <= i < self.entries.len() && 0 <= j < self.entries.len() && i != j ==> (
            #[trigger] self.entries[i]).0.slot() != (#[trigger] self.entries[j]).0.slot()
        // a free slot has no value, was used before and has epochs left
        &&& forall|j: int|
            0 <= j < self.free.len() ==> (#[trigger] self.free[j]) < self.removals.len()
                && !self.live(self.free[j]) && 1 <= self.removals[self.free[j] as int] <= MAX_EPOCH
        &&& self.free.no_duplicates()
        // no slot is lost before its epochs are used up
        &&& forall|s: nat|
            s < self.removals.len() ==> self.live(s) || self.free.contains(s)
                || #[trigger] self.exhausted(s)
    }

    /// The key that the next value gets: it names the slot that was freed last, or a new slot
    /// if none is free.
    pub open spec fn next_key(self) -> SparseKey {
        if self.free.len() == 0 {
            SparseKey::at(self.removals.len(), 0)
        } else {
            SparseKey::at(self.free.last(), self.removals[self.free.last() as int])
        }
    }

    /// The set with one more value, the last one in order.
    pub open spec fn pushed(self, value: T) -> Self {
        SparseSetModel {
            entries: self.entries.push((self.next_key(), value)),
            removals: if self.free.len() == 0 {
                self.removals.push(0)
            } else {
                self.removals
            },
            free: if self.free.len() == 0 {
                self.free
            } else {
                self.free.drop_last()
            },
        }
    }

    /// The set with the remaining entries once the slot of the key has lost its value. The slot
    /// can be used again while it has epochs left.
    pub open spec fn freed(self, key: SparseKey, entries: Seq<(SparseKey, T)>) -> Self {
        SparseSetModel {
            entries,
            removals: self.removals.update(
                key.slot() as int,
                self.removals[key.slot() as int] + 1,
            ),
            free: if key.epoch() < MAX_EPOCH {
                self.free.push(key.slot())
            } else {
                self.free
            },
        }
    }

    /// The set without the value of the key, the others in the same order.
    pub open spec fn removed(self, key: SparseKey) -> Self {
        if self.contains(key) {
            self.freed(key, self.entries.remove(self.position(key)))
        } else {
            self
        }
    }

    /// The set without the value of the key, with the last value in its place.
    pub open spec fn swap_removed(self, key: SparseKey) -> Self {
        if self.contains(key) {
            self.freed(
                key,
                self.entries.update(self.position(key), self.entries.last()).drop_last(),
            )
        } else {
            self
        }
    }

    /// The set with the places of two values exchanged.
    pub open spec fn swapped(self, key1: SparseKey, key2: SparseKey) -> Self
        recommends
            self.contains(key1),
            self.contains(key2),
    {
        SparseSetModel {
            entries: self.entries.update(
                self.position(key1),
                self.entries[self.position(key2)],
            ).update(self.position(key2), self.entries[self.position(key1)]),
            ..self
        }
    }

    /// The set with another value for the key.
    pub open spec fn updated(self, key: SparseKey, value: T) -> Self
        recommends
            self.contains(key),
    {
        SparseSetModel { entries: self.entries.update(self.position(key), (key, value)), ..self }
    }

    /// The set with other values for its keys, in the order of iteration.
    pub open spec fn with_values(self, values: Seq<T>) -> Self
        recommends
            values.len() == self.entries.len(),
    {
        SparseSetModel {
            entries: Seq::new(self.entries.len(), |i: int| (self.entries[i].0, values[i])),
            ..self
        }
    }
}

} // verus!
