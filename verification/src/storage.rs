use vstd::prelude::*;
use crate::sparse_entry::{SparseEntry, MAX_SPARSE_INDEX};
use crate::sparse_key::SparseKey;

verus! {

/// The arrays of a sparse set: the values and their keys in one order, and the slots.
///
/// The two words of a slot are kept in arrays of their own. The size of a `usize` is known, so
/// that such an array fits into memory bounds its length below `MAX_SPARSE_INDEX`.
pub struct SparseArrayStorage<T> {
    pub dense_values: Vec<T>,
    pub dense_keys: Vec<SparseKey>,
    pub sparse_links: Vec<usize>,
    pub sparse_epochs: Vec<usize>,
}

impl<T> SparseArrayStorage<T> {
    /// The slots.
    pub open spec fn sparse(self) -> Seq<SparseEntry> {
        Seq::new(
            self.sparse_links@.len(),
            |i: int| SparseEntry { link: self.sparse_links@[i], epoch: self.sparse_epochs@[i] },
        )
    }

    pub open spec fn wf(self) -> bool {
        &&& self.dense_values@.len() == self.dense_keys@.len()
        &&& self.sparse_links@.len() == self.sparse_epochs@.len()
        &&& self.sparse_links@.len() <= MAX_SPARSE_INDEX
    }

    pub(crate) fn new() -> (storage: Self)
        ensures
            storage.wf(),
            storage.dense_values@ == Seq::<T>::empty(),
            storage.dense_keys@ == Seq::<SparseKey>::empty(),
            storage.sparse() == Seq::<SparseEntry>::empty(),
    {
        SparseArrayStorage {
            dense_values: Vec::new(),
            dense_keys: Vec::new(),
            sparse_links: Vec::new(),
            sparse_epochs: Vec::new(),
        }
    }

    pub(crate) fn with_capacity(capacity: usize) -> (storage: Self)
        ensures
            storage.wf(),
            storage.dense_values@ == Seq::<T>::empty(),
            storage.dense_keys@ == Seq::<SparseKey>::empty(),
            storage.sparse() == Seq::<SparseEntry>::empty(),
    {
        SparseArrayStorage {
            dense_values: Vec::with_capacity(capacity),
            dense_keys: Vec::with_capacity(capacity),
            sparse_links: Vec::with_capacity(capacity),
            sparse_epochs: Vec::with_capacity(capacity),
        }
    }

    /// The number of slots.
    pub(crate) fn sparse_len(&self) -> (len: usize)
        ensures
            len == self.sparse().len(),
    {
        self.sparse_links.len()
    }

    pub(crate) fn get_sparse(&self, index: usize) -> (entry: SparseEntry)
        requires
            self.wf(),
            index < self.sparse().len(),
        ensures
            entry == self.sparse()[index as int],
    {
        SparseEntry { link: self.sparse_links[index], epoch: self.sparse_epochs[index] }
    }

    pub(crate) fn set_sparse(&mut self, index: usize, entry: SparseEntry)
        requires
            old(self).wf(),
            index < old(self).sparse().len(),
        ensures
            final(self).wf(),
            final(self).sparse() == old(self).sparse().update(index as int, entry),
            final(self).dense_values == old(self).dense_values,
            final(self).dense_keys == old(self).dense_keys,
    {
        self.sparse_links[index] = entry.link;
        self.sparse_epochs[index] = entry.epoch;
    }

    /// Adds a value as the last one, for a key whose slot exists.
    pub(crate) fn add_with_existing_sparse_item(&mut self, key: SparseKey, value: T)
        requires
            old(self).wf(),
            key.sparse_index < old(self).sparse().len(),
            old(self).dense_values@.len() <= MAX_SPARSE_INDEX,
        ensures
            final(self).wf(),
            final(self).dense_values@ == old(self).dense_values@.push(value),
            final(self).dense_keys@ == old(self).dense_keys@.push(key),
            final(self).sparse().len() == old(self).sparse().len(),
            final(self).sparse()[key.sparse_index as int].alive_at(
                old(self).dense_values@.len() as int,
                key.epoch,
            ),
            forall|s: int|
                0 <= s < old(self).sparse().len() && s != key.sparse_index
                    ==> #[trigger] final(self).sparse()[s] == old(self).sparse()[s],
    {
        let entry = SparseEntry::new_alive(self.dense_values.len(), key.epoch);
        self.set_sparse(key.sparse_index, entry);
        self.dense_keys.push(key);
        self.dense_values.push(value);
    }

    /// Adds a value as the last one, in a new slot.
    pub(crate) fn add_with_new_sparse_item(&mut self, value: T) -> (key: SparseKey)
        requires
            old(self).wf(),
            old(self).dense_values@.len() <= old(self).sparse().len(),
        ensures
            final(self).wf(),
            key == (SparseKey { sparse_index: old(self).sparse().len() as usize, epoch: 0 }),
            final(self).dense_values@ == old(self).dense_values@.push(value),
            final(self).dense_keys@ == old(self).dense_keys@.push(key),
            final(self).sparse().len() == old(self).sparse().len() + 1,
            final(self).sparse().last().alive_at(old(self).dense_values@.len() as int, 0),
            forall|s: int|
                0 <= s < old(self).sparse().len() ==> #[trigger] final(self).sparse()[s]
                    == old(self).sparse()[s],
    {
        let key = SparseKey { sparse_index: self.sparse_links.len(), epoch: 0 };
        let entry = SparseEntry::new_alive(self.dense_values.len(), 0);
        self.sparse_links.push(entry.link);
        self.sparse_epochs.push(entry.epoch);
        let bytes: usize = core::mem::size_of_val(self.sparse_links.as_slice());
        proof {
            let len = self.sparse_links@.len();
            let word = vstd::layout::size_of::<usize>();
            assert(len * 4 <= usize::MAX) by (nonlinear_arith)
                requires
                    bytes == len * word,
                    word >= 4,
                    bytes <= usize::MAX,
            ;
        }
        self.dense_keys.push(key);
        self.dense_values.push(value);
        key
    }

    /// Removes the value at a position, and moves the last value there.
    pub(crate) fn swap_remove_dense(&mut self, index: usize) -> (value: T)
        requires
            old(self).wf(),
            index < old(self).dense_values@.len(),
        ensures
            final(self).wf(),
            value == old(self).dense_values@[index as int],
            final(self).dense_values@ == old(self).dense_values@.update(
                index as int,
                old(self).dense_values@.last(),
            ).drop_last(),
            final(self).dense_keys@ == old(self).dense_keys@.update(
                index as int,
                old(self).dense_keys@.last(),
            ).drop_last(),
            final(self).sparse() == old(self).sparse(),
    {
        self.dense_keys.swap_remove(index);
        self.dense_values.swap_remove(index)
    }

    /// Removes the value at a position, and moves every later value one position down.
    pub(crate) fn remove_dense(&mut self, index: usize) -> (value: T)
        requires
            old(self).wf(),
            index < old(self).dense_values@.len(),
        ensures
            final(self).wf(),
            value == old(self).dense_values@[index as int],
            final(self).dense_values@ == old(self).dense_values@.remove(index as int),
            final(self).dense_keys@ == old(self).dense_keys@.remove(index as int),
            final(self).sparse() == old(self).sparse(),
    {
        self.dense_keys.remove(index);
        self.dense_values.remove(index)
    }

    /// Exchanges the values at two positions, and their keys.
    pub(crate) fn swap_dense(&mut self, index1: usize, index2: usize)
        requires
            old(self).wf(),
            index1 < old(self).dense_values@.len(),
            index2 < old(self).dense_values@.len(),
        ensures
            final(self).wf(),
            final(self).dense_values@ == old(self).dense_values@.update(
                index1 as int,
                old(self).dense_values@[index2 as int],
            ).update(index2 as int, old(self).dense_values@[index1 as int]),
            final(self).dense_keys@ == old(self).dense_keys@.update(
                index1 as int,
                old(self).dense_keys@[index2 as int],
            ).update(index2 as int, old(self).dense_keys@[index1 as int]),
            final(self).sparse() == old(self).sparse(),
    {
        let key1 = self.dense_keys[index1];
        let key2 = self.dense_keys[index2];
        self.dense_keys[index1] = key2;
        self.dense_keys[index2] = key1;

        let (first, second) = if index1 < index2 {
            (index1, index2)
        } else {
            (index2, index1)
        };
        if first < second {
            let (left, right) = self.dense_values.as_mut_slice().split_at_mut(second);
            core::mem::swap(&mut left[first], &mut right[0]);
        }
    }
}

} // verus!
